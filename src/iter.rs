//! Ascending walks over the set (or unset) indices of a bitmap.

use vstd::prelude::*;

use crate::bitmap::{is_first_from, Bitmap};
use crate::index::{BitmapIndex, MAX_INDEX};

verus! {

/// The positions that a sequence of indices names.
pub open spec fn positions(v: Seq<BitmapIndex>) -> Seq<nat> {
    v.map_values(|x: BitmapIndex| x@)
}

/// `q` is strictly increasing.
pub open spec fn strictly_increasing(q: Seq<nat>) -> bool {
    forall|a: int, b: int| 0 <= a < b < q.len() ==> q[a] < q[b]
}

/// Walks the set indices of a bitmap, or its unset indices, in ascending
/// order. It never changes the bitmap, and once it has run out it stays out.
pub struct BitmapIterator<'a> {
    bitmap: &'a Bitmap,
    unset: bool,
    prev: Option<BitmapIndex>,
    finished: bool,
}

impl<'a> BitmapIterator<'a> {
    #[verifier::type_invariant]
    spec fn cursor_addressable(self) -> bool {
        self.cursor() <= MAX_INDEX + 1
    }

    /// The indices that the walk visits: those set in the bitmap, or those
    /// unset in it.
    pub closed spec fn source(&self) -> Set<nat> {
        if self.unset {
            self.bitmap@.complement()
        } else {
            self.bitmap@
        }
    }

    /// Where the search for the next index begins.
    pub closed spec fn cursor(&self) -> nat {
        match self.prev {
            Some(p) => p@ + 1,
            None => 0,
        }
    }

    /// Whether the walk has run out.
    pub closed spec fn finished(&self) -> bool {
        self.finished
    }

    /// A walk over the set indices of `bitmap`.
    pub fn over_set(bitmap: &'a Bitmap) -> (r: BitmapIterator<'a>)
        ensures
            r.source() == bitmap@,
            r.cursor() == 0,
            !r.finished(),
    {
        BitmapIterator { bitmap, unset: false, prev: None, finished: false }
    }

    /// A walk over the unset indices of `bitmap`.
    pub fn over_unset(bitmap: &'a Bitmap) -> (r: BitmapIterator<'a>)
        ensures
            r.source() == bitmap@.complement(),
            r.cursor() == 0,
            !r.finished(),
    {
        BitmapIterator { bitmap, unset: true, prev: None, finished: false }
    }

    /// The next index of the walk: the least one of the source from the
    /// cursor on.
    pub fn next(&mut self) -> (r: Option<BitmapIndex>)
        ensures
            final(self).source() == old(self).source(),
            old(self).finished() ==> r.is_none() && final(self).finished(),
            !old(self).finished() ==> is_first_from(old(self).source(), old(self).cursor(), r),
            !old(self).finished() && r.is_some() ==> !final(self).finished() && final(self).cursor()
                == r.unwrap()@ + 1,
            r.is_none() ==> final(self).finished(),
    {
        proof {
            use_type_invariant(&*self);
        }
        if self.finished {
            return None;
        }
        let r = if self.unset {
            self.bitmap.next_unset(self.prev)
        } else {
            self.bitmap.next_set(self.prev)
        };
        match r {
            Some(x) => {
                self.prev = Some(x);
            },
            None => {
                self.finished = true;
            },
        }
        r
    }

    /// Every remaining index of the walk, in ascending order: the indices of
    /// the source from the cursor up to [`MAX_INDEX`].
    pub fn to_vec(&mut self) -> (r: Vec<BitmapIndex>)
        ensures
            final(self).source() == old(self).source(),
            final(self).finished(),
            strictly_increasing(positions(r@)),
            old(self).finished() ==> r@.len() == 0,
            !old(self).finished() ==> forall|j: nat|
                #[trigger] positions(r@).contains(j) == (old(self).source().contains(j) && old(
                    self,
                ).cursor() <= j <= MAX_INDEX),
    {
        let ghost s = self.source();
        let ghost from = self.cursor();
        let ghost was_finished = self.finished();
        let mut out: Vec<BitmapIndex> = Vec::new();
        proof {
            use_type_invariant(&*self);
        }
        loop
            invariant
                self.source() == s,
                was_finished ==> self.finished() && out@.len() == 0,
                strictly_increasing(positions(out@)),
                !self.finished() ==> from <= self.cursor() <= MAX_INDEX + 1,
                !self.finished() ==> forall|k: int|
                    0 <= k < out@.len() ==> #[trigger] positions(out@)[k] < self.cursor(),
                !was_finished ==> forall|j: nat|
                    #[trigger] positions(out@).contains(j) ==> s.contains(j) && from <= j
                        <= MAX_INDEX,
                !was_finished && !self.finished() ==> forall|j: nat|
                    s.contains(j) && from <= j < self.cursor() ==> #[trigger] positions(
                        out@,
                    ).contains(j),
                !was_finished && self.finished() ==> forall|j: nat|
                    s.contains(j) && from <= j <= MAX_INDEX ==> #[trigger] positions(
                        out@,
                    ).contains(j),
            ensures
                self.finished(),
            decreases
                    if self.finished() {
                        0
                    } else {
                        MAX_INDEX + 2 - self.cursor()
                    },
        {
            let ghost before = *self;
            let ghost out_before = out@;
            match self.next() {
                Some(x) => {
                    let p = x.get();
                    out.push(x);
                    proof {
                        assert(positions(out@) =~= positions(out_before).push(x@));
                        assert forall|j: nat| #[trigger]
                            positions(out@).contains(j) == (positions(out_before).contains(j)
                                || j == x@) by {
                            if positions(out@).contains(j) {
                                let k = choose|k: int|
                                    0 <= k < positions(out@).len() && positions(out@)[k] == j;
                                if k < out_before.len() {
                                    assert(positions(out_before)[k] == j);
                                }
                            }
                            if positions(out_before).contains(j) {
                                let k = choose|k: int|
                                    0 <= k < positions(out_before).len() && positions(
                                        out_before,
                                    )[k] == j;
                                assert(positions(out@)[k] == j);
                            }
                            if j == x@ {
                                assert(positions(out@)[out_before.len() as int] == j);
                            }
                        }
                    }
                },
                None => {
                    break ;
                },
            }
        }
        out
    }
}

impl Bitmap {
    /// Sets every index of `indices`.
    pub fn extend(&mut self, indices: &[BitmapIndex])
        ensures
            final(self)@ == old(self)@.union(positions(indices@).to_set()),
    {
        let ghost before = self@;
        let mut k: usize = 0;
        while k < indices.len()
            invariant
                k <= indices@.len(),
                self@ == before.union(positions(indices@.take(k as int)).to_set()),
            decreases indices.len() - k,
        {
            let i = indices[k].to_usize();
            self.set(i);
            proof {
                assert(positions(indices@.take(k + 1)) =~= positions(indices@.take(k as int)).push(
                    i as nat,
                ));
                positions(indices@.take(k as int)).lemma_push_to_set_commute(i as nat);
                assert(self@ =~= before.union(positions(indices@.take(k + 1)).to_set()));
            }
            k = k + 1;
        }
        proof {
            assert(indices@.take(k as int) =~= indices@);
        }
    }

    /// A bitmap holding exactly the indices of `indices`.
    pub fn from_indices(indices: &[BitmapIndex]) -> (r: Bitmap)
        ensures
            r@ == positions(indices@).to_set(),
    {
        let mut r = Bitmap::new();
        r.extend(indices);
        proof {
            assert(r@ =~= positions(indices@).to_set());
        }
        r
    }

    /// A bitmap holding `idx` alone.
    pub fn from_index(idx: BitmapIndex) -> (r: Bitmap)
        ensures
            r@ == Set::<nat>::empty().insert(idx@),
    {
        let mut r = Bitmap::new();
        r.set(idx.to_usize());
        r
    }

    /// A walk over the set indices, in ascending order.
    pub fn iter_set(&self) -> (r: BitmapIterator<'_>)
        ensures
            r.source() == self@,
            r.cursor() == 0,
            !r.finished(),
    {
        BitmapIterator::over_set(self)
    }

    /// A walk over the unset indices, in ascending order.
    pub fn iter_unset(&self) -> (r: BitmapIterator<'_>)
        ensures
            r.source() == self@.complement(),
            r.cursor() == 0,
            !r.finished(),
    {
        BitmapIterator::over_unset(self)
    }
}

} // verus!

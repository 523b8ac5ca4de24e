//! The bitmap: a set of indices that may be infinite.

use vstd::prelude::*;

use crate::index::{BitmapIndex, MAX_INDEX};
use crate::range::{IndexBound, IndexRange};

verus! {

/// `r` is the least element of `s` from `from` on, or `None` when `s` has no
/// element within `from..=MAX_INDEX`.
pub open spec fn is_first_from(s: Set<nat>, from: nat, r: Option<BitmapIndex>) -> bool {
    match r {
        Some(x) => from <= x@ && x@ <= MAX_INDEX && s.contains(x@) && forall|j: nat|
            from <= j < x@ ==> !#[trigger] s.contains(j),
        None => forall|j: nat| from <= j <= MAX_INDEX ==> !#[trigger] s.contains(j),
    }
}

/// `r` is the greatest element of `s`, or `None` when no element of `s`
/// within `0..=MAX_INDEX` is greater than all others (`s` is empty or
/// infinite).
pub open spec fn is_last(s: Set<nat>, r: Option<BitmapIndex>) -> bool {
    match r {
        Some(x) => s.contains(x@) && forall|j: nat| j > x@ ==> !#[trigger] s.contains(j),
        None => forall|x: nat|
            x <= MAX_INDEX && #[trigger] s.contains(x) ==> exists|j: nat|
                j > x && #[trigger] s.contains(j),
    }
}

/// Where a search for the index after `prev` begins.
pub open spec fn search_start(prev: Option<BitmapIndex>) -> nat {
    match prev {
        Some(p) => p@ + 1,
        None => 0,
    }
}

/// The indices that are in exactly one of `a` and `b`.
pub open spec fn symmetric_difference(a: Set<nat>, b: Set<nat>) -> Set<nat> {
    a.difference(b).union(b.difference(a))
}

/// The indices from `lo` (included) to `hi` (excluded) form a finite set of
/// `hi - lo` elements.
proof fn lemma_span_len(lo: nat, hi: nat)
    requires
        lo <= hi,
    ensures
        Set::new(|i: nat| lo <= i < hi).finite(),
        Set::new(|i: nat| lo <= i < hi).len() == hi - lo,
    decreases hi - lo,
{
    if lo == hi {
        assert(Set::new(|i: nat| lo <= i < hi) =~= Set::<nat>::empty());
    } else {
        lemma_span_len(lo, (hi - 1) as nat);
        assert(Set::new(|i: nat| lo <= i < hi) =~= Set::new(|i: nat| lo <= i < (hi - 1) as nat).insert(
            (hi - 1) as nat,
        ));
    }
}

/// A set whose indices all lie below `n` is finite.
proof fn lemma_bounded_finite(s: Set<nat>, n: nat)
    requires
        forall|i: nat| #[trigger] s.contains(i) ==> i < n,
    ensures
        s.finite(),
{
    lemma_span_len(0, n);
    assert(s.subset_of(Set::new(|i: nat| 0 <= i < n)));
    vstd::set_lib::lemma_set_subset_finite(Set::new(|i: nat| 0 <= i < n), s);
}

/// A set that holds every index from `n` on is infinite.
proof fn lemma_tail_infinite(s: Set<nat>, n: nat)
    requires
        forall|i: nat| i >= n ==> #[trigger] s.contains(i),
    ensures
        !s.finite(),
{
    if s.finite() {
        let m = s.len();
        let span = Set::new(|i: nat| n <= i < n + m + 1);
        lemma_span_len(n, n + m + 1);
        assert(span.subset_of(s));
        vstd::set_lib::lemma_len_subset(span, s);
    }
}

/// `d` is the highest index on which `a` and `b` differ.
pub open spec fn is_highest_difference(a: Set<nat>, b: Set<nat>, d: nat) -> bool {
    a.contains(d) != b.contains(d) && forall|j: nat| j > d ==> #[trigger] a.contains(j) == b.contains(j)
}

/// The order of bitmaps: an infinite bitmap is above a finite one; otherwise
/// the highest index on which they differ decides, in favour of the bitmap
/// that holds it. The empty bitmap is the least one, and a bitmap is never
/// below one it includes.
pub open spec fn compare_sets(a: Set<nat>, b: Set<nat>) -> core::cmp::Ordering {
    if a == b {
        core::cmp::Ordering::Equal
    } else if (!a.finite() && b.finite()) || exists|d: nat|
        is_highest_difference(a, b, d) && #[trigger] a.contains(d) {
        core::cmp::Ordering::Greater
    } else {
        core::cmp::Ordering::Less
    }
}

/// The binary operations that combine two bitmaps index by index.
#[derive(Clone, Copy, PartialEq, Eq, Structural)]
enum BinaryOp {
    And,
    Or,
    Xor,
    AndNot,
}

impl BinaryOp {
    spec fn spec_apply(self, a: bool, b: bool) -> bool {
        match self {
            BinaryOp::And => a && b,
            BinaryOp::Or => a || b,
            BinaryOp::Xor => a != b,
            BinaryOp::AndNot => a && !b,
        }
    }

    #[verifier::when_used_as_spec(spec_apply)]
    fn apply(self, a: bool, b: bool) -> (r: bool)
        ensures
            r == self.spec_apply(a, b),
    {
        match self {
            BinaryOp::And => a && b,
            BinaryOp::Or => a || b,
            BinaryOp::Xor => a != b,
            BinaryOp::AndNot => a && !b,
        }
    }
}

/// A set of non-negative indices. All indices past some point may be set,
/// in which case the set is infinite.
///
/// The set is stored as an explicit prefix of bits followed by a flag that
/// gives every index past the prefix.
pub struct Bitmap {
    bits: Vec<bool>,
    infinite: bool,
}

impl Bitmap {
    /// Whether index `i` is in the set.
    spec fn has(self, i: nat) -> bool {
        if i < self.bits.len() {
            self.bits@[i as int]
        } else {
            self.infinite
        }
    }
}

impl Bitmap {
    /// Length of the explicit prefix.
    pub closed spec fn prefix_len(self) -> nat {
        self.bits.len() as nat
    }

    /// Whether every index past the explicit prefix is set.
    pub closed spec fn tail(self) -> bool {
        self.infinite
    }

    /// Past the explicit prefix, membership is given by [`Bitmap::tail`].
    pub proof fn lemma_tail(self)
        ensures
            forall|i: nat| i >= self.prefix_len() ==> #[trigger] self@.contains(i) == self.tail(),
    {
    }
}

impl View for Bitmap {
    type V = Set<nat>;

    closed spec fn view(&self) -> Set<nat> {
        Set::new(|i: nat| self.has(i))
    }
}

impl Bitmap {
    proof fn lemma_view(self)
        ensures
            forall|i: nat| #[trigger] self@.contains(i) == self.has(i),
    {
    }

    /// Grows the explicit prefix to at least `n` bits without changing the set.
    fn extend_to(&mut self, n: usize)
        requires
            n <= MAX_INDEX + 1,
        ensures
            final(self)@ == old(self)@,
            forall|i: nat| #[trigger] final(self).has(i) == old(self).has(i),
            final(self).infinite == old(self).infinite,
            final(self).bits.len() >= n,
            final(self).bits.len() >= old(self).bits.len(),
    {
        let ghost before = *self;
        while self.bits.len() < n
            invariant
                self.infinite == before.infinite,
                self.bits.len() >= before.bits.len(),
                forall|i: nat| #[trigger] self.has(i) == before.has(i),
            decreases n - self.bits.len(),
        {
            let ghost prev = *self;
            let v = self.infinite;
            self.bits.push(v);
            assert forall|i: nat| #[trigger] self.has(i) == before.has(i) by {
                assert(self.has(i) == prev.has(i));
            }
        }
        proof {
            assert(self@ =~= before@);
        }
    }

    /// Gives every bit of the prefix in `lo..hi` the value `v`.
    fn fill_bits(&mut self, lo: usize, hi: usize, v: bool)
        requires
            lo <= hi <= old(self).bits.len(),
        ensures
            final(self).bits.len() == old(self).bits.len(),
            final(self).infinite == old(self).infinite,
            forall|i: nat| #[trigger]
                final(self).has(i) == if lo <= i < hi {
                    v
                } else {
                    old(self).has(i)
                },
    {
        let ghost before = *self;
        let mut k: usize = lo;
        while k < hi
            invariant
                lo <= k <= hi <= self.bits.len(),
                self.bits.len() == before.bits.len(),
                self.infinite == before.infinite,
                forall|i: nat| #[trigger]
                    self.has(i) == if lo <= i < k {
                        v
                    } else {
                        before.has(i)
                    },
            decreases hi - k,
        {
            let ghost prev = *self;
            self.bits.set(k, v);
            k = k + 1;
            assert forall|i: nat| #[trigger]
                self.has(i) == if lo <= i < k {
                    v
                } else {
                    before.has(i)
                } by {
                assert(prev.has(i) == if lo <= i < k - 1 {
                    v
                } else {
                    before.has(i)
                });
            }
        }
    }

    /// Creates an empty bitmap.
    pub fn new() -> (r: Bitmap)
        ensures
            r@ == Set::<nat>::empty(),
    {
        let r = Bitmap { bits: Vec::new(), infinite: false };
        proof {
            assert(r@ =~= Set::<nat>::empty());
        }
        r
    }

    /// Creates a full bitmap: every index is set.
    pub fn full() -> (r: Bitmap)
        ensures
            r@ == Set::<nat>::full(),
    {
        let r = Bitmap { bits: Vec::new(), infinite: true };
        proof {
            assert(r@ =~= Set::<nat>::full());
        }
        r
    }

    /// Creates a bitmap holding exactly the indices of `range`.
    pub fn from_range(range: IndexRange) -> (r: Bitmap)
        requires
            range.addressable(),
        ensures
            r@ == range.indices(),
    {
        let mut r = Bitmap::new();
        r.set_range(range);
        proof {
            assert(r@ =~= range.indices());
        }
        r
    }

    /// Turns this bitmap into a copy of `other`.
    pub fn copy_from(&mut self, other: &Bitmap)
        ensures
            final(self)@ == other@,
    {
        self.bits = other.bits.clone();
        self.infinite = other.infinite;
        proof {
            assert(self.bits@ =~= other.bits@);
            assert(self@ =~= other@);
        }
    }

    /// Clears every index.
    pub fn clear(&mut self)
        ensures
            final(self)@ == Set::<nat>::empty(),
    {
        self.bits = Vec::new();
        self.infinite = false;
        proof {
            assert(self@ =~= Set::<nat>::empty());
        }
    }

    /// Sets every index.
    pub fn fill(&mut self)
        ensures
            final(self)@ == Set::<nat>::full(),
    {
        self.bits = Vec::new();
        self.infinite = true;
        proof {
            assert(self@ =~= Set::<nat>::full());
        }
    }

    /// The first index of `range` and the first index past it (`None` when
    /// the range goes on without end).
    fn range_limits(range: IndexRange) -> (r: (usize, Option<usize>))
        requires
            range.addressable(),
        ensures
            r.0 <= MAX_INDEX + 1,
            r.1.is_some() ==> r.1.unwrap() <= MAX_INDEX + 1,
            r.1.is_none() ==> r.0 <= MAX_INDEX,
            forall|i: nat| #[trigger]
                range.indices().contains(i) == (r.0 <= i && (r.1.is_none() || i < r.1.unwrap())),
    {
        let lo: usize = match range.start {
            IndexBound::Included(v) => v,
            IndexBound::Excluded(v) => {
                if v == MAX_INDEX as usize {
                    return (0, Some(0));
                }
                v + 1
            },
            IndexBound::Unbounded => 0,
        };
        let hi: Option<usize> = match range.end {
            IndexBound::Included(v) => Some(v + 1),
            IndexBound::Excluded(v) => Some(v),
            IndexBound::Unbounded => None,
        };
        (lo, hi)
    }

    /// Sets every index of `range`.
    pub fn set_range(&mut self, range: IndexRange)
        requires
            range.addressable(),
        ensures
            final(self)@ == old(self)@.union(range.indices()),
    {
        let ghost before = *self;
        if range.start == IndexBound::Unbounded && range.end == IndexBound::Unbounded {
            self.fill();
            proof {
                assert(self@ =~= before@.union(range.indices()));
            }
            return ;
        }
        let (lo, hi) = Bitmap::range_limits(range);
        match hi {
            Some(h) => {
                if lo < h {
                    self.extend_to(h);
                    let ghost mid = *self;
                    self.fill_bits(lo, h, true);
                    proof {
                        mid.lemma_view();
                        before.lemma_view();
                        assert forall|i: nat| #[trigger]
                            self.has(i) == (before.has(i) || (lo <= i && i < h)) by {
                            assert(mid.has(i) == before.has(i));
                        }
                    }
                }
            },
            None => {
                self.extend_to(lo);
                let ghost mid = *self;
                let len = self.bits.len();
                self.fill_bits(lo, len, true);
                let ghost filled = *self;
                self.infinite = true;
                proof {
                    mid.lemma_view();
                    before.lemma_view();
                    assert forall|i: nat| #[trigger] self.has(i) == (before.has(i) || (lo <= i)) by {
                        assert(mid.has(i) == before.has(i));
                        assert(filled.has(i) == if lo <= i < len {
                            true
                        } else {
                            mid.has(i)
                        });
                    }
                }
            },
        }
        proof {
            before.lemma_view();
            self.lemma_view();
            assert forall|i: nat| #[trigger] self@.contains(i) == before@.union(range.indices()).contains(i) by {
                assert(range.indices().contains(i) == (lo <= i && (hi.is_none() || i < hi.unwrap())));
            }
            assert(self@ =~= before@.union(range.indices()));
        }
    }

    /// Clears every index of `range`.
    pub fn unset_range(&mut self, range: IndexRange)
        requires
            range.addressable(),
        ensures
            final(self)@ == old(self)@.difference(range.indices()),
    {
        let ghost before = *self;
        if range.start == IndexBound::Unbounded && range.end == IndexBound::Unbounded {
            self.clear();
            proof {
                assert(self@ =~= before@.difference(range.indices()));
            }
            return ;
        }
        let (lo, hi) = Bitmap::range_limits(range);
        match hi {
            Some(h) => {
                if lo < h {
                    self.extend_to(h);
                    let ghost mid = *self;
                    self.fill_bits(lo, h, false);
                    proof {
                        mid.lemma_view();
                        before.lemma_view();
                        assert forall|i: nat| #[trigger]
                            self.has(i) == (before.has(i) && !(lo <= i && i < h)) by {
                            assert(mid.has(i) == before.has(i));
                        }
                    }
                }
            },
            None => {
                self.extend_to(lo);
                let ghost mid = *self;
                let len = self.bits.len();
                self.fill_bits(lo, len, false);
                let ghost filled = *self;
                self.infinite = false;
                proof {
                    mid.lemma_view();
                    before.lemma_view();
                    assert forall|i: nat| #[trigger] self.has(i) == (before.has(i) && !(lo <= i)) by {
                        assert(mid.has(i) == before.has(i));
                        assert(filled.has(i) == if lo <= i < len {
                            false
                        } else {
                            mid.has(i)
                        });
                    }
                }
            },
        }
        proof {
            before.lemma_view();
            self.lemma_view();
            assert forall|i: nat| #[trigger] self@.contains(i) == before@.difference(range.indices()).contains(i) by {
                assert(range.indices().contains(i) == (lo <= i && (hi.is_none() || i < hi.unwrap())));
            }
            assert(self@ =~= before@.difference(range.indices()));
        }
    }

    /// Whether index `i` is set, for any `i`.
    fn get(&self, i: usize) -> (r: bool)
        ensures
            r == self.has(i as nat),
    {
        if i < self.bits.len() {
            self.bits[i]
        } else {
            self.infinite
        }
    }

    /// The raw form of the bitmap, for code outside this crate: an explicit
    /// prefix of bits, and whether every index past the prefix is set.
    pub fn as_ptr(&self) -> (r: (&[bool], bool))
        ensures
            forall|i: nat| #[trigger]
                self@.contains(i) == if i < r.0@.len() {
                    r.0@[i as int]
                } else {
                    r.1
                },
    {
        (self.bits.as_slice(), self.infinite)
    }

    /// Mutable access to the explicit prefix of bits, for code outside this
    /// crate that fills a bitmap in place. Index `i` of the prefix gives
    /// membership of index `i`; past the prefix, the tail flag still holds.
    pub fn as_mut_ptr(&mut self) -> (r: &mut Vec<bool>)
        ensures
            r@.len() == old(self).prefix_len(),
            forall|i: int| 0 <= i < r@.len() ==> #[trigger] r@[i] == old(self)@.contains(i as nat),
            forall|i: nat| #[trigger]
                final(self)@.contains(i) == if i < final(r)@.len() {
                    final(r)@[i as int]
                } else {
                    old(self).tail()
                },
    {
        &mut self.bits
    }

    /// Whether index `i` is set; `i` need not be addressable.
    pub(crate) fn is_set_unchecked(&self, i: usize) -> (r: bool)
        ensures
            r == self@.contains(i as nat),
    {
        self.get(i)
    }

    /// Length of the explicit prefix: every index from there on is set, or
    /// every one is unset, as [`Bitmap::tail`] says.
    pub(crate) fn runs_prefix_len(&self) -> (r: usize)
        ensures
            r == self.prefix_len(),
    {
        self.bits.len()
    }

    /// Whether the indices past the explicit prefix are set.
    pub(crate) fn tail_is_set(&self) -> (r: bool)
        ensures
            r == self.tail(),
    {
        self.infinite
    }

    /// Sets index `idx`.
    pub fn set(&mut self, idx: usize)
        requires
            idx <= MAX_INDEX,
        ensures
            final(self)@ == old(self)@.insert(idx as nat),
    {
        let ghost before = *self;
        self.extend_to(idx + 1);
        let ghost mid = *self;
        self.bits.set(idx, true);
        proof {
            assert forall|i: nat| #[trigger] self@.contains(i) == before@.insert(idx as nat).contains(i) by {
                assert(mid.has(i) == before.has(i));
            }
            assert(self@ =~= before@.insert(idx as nat));
        }
    }

    /// Clears index `idx`.
    pub fn unset(&mut self, idx: usize)
        requires
            idx <= MAX_INDEX,
        ensures
            final(self)@ == old(self)@.remove(idx as nat),
    {
        let ghost before = *self;
        self.extend_to(idx + 1);
        let ghost mid = *self;
        self.bits.set(idx, false);
        proof {
            assert forall|i: nat| #[trigger] self@.contains(i) == before@.remove(idx as nat).contains(i) by {
                assert(mid.has(i) == before.has(i));
            }
            assert(self@ =~= before@.remove(idx as nat));
        }
    }

    /// Clears every index but `idx`, which is set.
    pub fn set_only(&mut self, idx: usize)
        requires
            idx <= MAX_INDEX,
        ensures
            final(self)@ == Set::<nat>::empty().insert(idx as nat),
    {
        self.clear();
        self.set(idx);
    }

    /// Sets every index but `idx`, which is cleared.
    pub fn set_all_but(&mut self, idx: usize)
        requires
            idx <= MAX_INDEX,
        ensures
            final(self)@ == Set::<nat>::full().remove(idx as nat),
    {
        self.fill();
        self.unset(idx);
    }

    /// Whether index `idx` is set.
    pub fn is_set(&self, idx: usize) -> (r: bool)
        requires
            idx <= MAX_INDEX,
        ensures
            r == self@.contains(idx as nat),
    {
        self.get(idx)
    }

    /// Whether no index is set.
    pub fn is_empty(&self) -> (r: bool)
        ensures
            r == (self@ == Set::<nat>::empty()),
    {
        proof {
            self.lemma_view();
        }
        if self.infinite {
            assert(self@.contains(self.bits.len() as nat));
            return false;
        }
        let mut k: usize = 0;
        while k < self.bits.len()
            invariant
                k <= self.bits.len(),
                !self.infinite,
                forall|j: nat| j < k ==> !#[trigger] self.has(j),
            decreases self.bits.len() - k,
        {
            if self.bits[k] {
                assert(self@.contains(k as nat));
                return false;
            }
            k = k + 1;
        }
        assert(self@ =~= Set::<nat>::empty());
        true
    }

    /// Whether every index is set.
    pub fn is_full(&self) -> (r: bool)
        ensures
            r == (self@ == Set::<nat>::full()),
    {
        proof {
            self.lemma_view();
        }
        if !self.infinite {
            assert(!self@.contains(self.bits.len() as nat));
            return false;
        }
        let mut k: usize = 0;
        while k < self.bits.len()
            invariant
                k <= self.bits.len(),
                self.infinite,
                forall|j: nat| j < k ==> #[trigger] self.has(j),
            decreases self.bits.len() - k,
        {
            if !self.bits[k] {
                assert(!self@.contains(k as nat));
                return false;
            }
            k = k + 1;
        }
        assert(self@ =~= Set::<nat>::full());
        true
    }

    /// The least index from `from` on whose membership is `want`.
    fn first_from(&self, from: usize, want: bool) -> (r: Option<BitmapIndex>)
        requires
            from <= MAX_INDEX + 1,
        ensures
            is_first_from(
                if want {
                    self@
                } else {
                    self@.complement()
                },
                from as nat,
                r,
            ),
    {
        let ghost s = if want {
            self@
        } else {
            self@.complement()
        };
        proof {
            self.lemma_view();
            assert forall|j: nat| #[trigger] s.contains(j) == (self.has(j) == want) by {}
        }
        let mut k: usize = from;
        while k < self.bits.len() && k <= MAX_INDEX as usize
            invariant
                from <= k <= MAX_INDEX + 1,
                s == if want {
                    self@
                } else {
                    self@.complement()
                },
                forall|j: nat| #[trigger] s.contains(j) == (self.has(j) == want),
                forall|j: nat| from <= j < k ==> !#[trigger] s.contains(j),
            decreases MAX_INDEX + 1 - k,
        {
            if self.bits[k] == want {
                let r = BitmapIndex::try_from_usize(k);
                assert(s.contains(k as nat));
                return r;
            }
            k = k + 1;
        }
        if k <= MAX_INDEX as usize && self.infinite == want {
            BitmapIndex::try_from_usize(k)
        } else {
            proof {
                assert forall|j: nat| from <= j <= MAX_INDEX implies !#[trigger] s.contains(j) by {
                    if j >= k {
                        assert(self.has(j) == self.infinite);
                    }
                }
            }
            None
        }
    }

    /// The greatest index whose membership is `want`.
    fn last_with(&self, want: bool) -> (r: Option<BitmapIndex>)
        ensures
            is_last(
                if want {
                    self@
                } else {
                    self@.complement()
                },
                r,
            ),
    {
        let ghost s = if want {
            self@
        } else {
            self@.complement()
        };
        proof {
            self.lemma_view();
            assert forall|j: nat| #[trigger] s.contains(j) == (self.has(j) == want) by {}
        }
        let len = self.bits.len();
        if self.infinite == want {
            proof {
                assert forall|x: nat| x <= MAX_INDEX && #[trigger] s.contains(x) implies exists|j: nat|
                    j > x && #[trigger] s.contains(j) by {
                    let j = if x + 1 > len {
                        x + 1
                    } else {
                        len as nat
                    };
                    assert(s.contains(j));
                }
            }
            return None;
        }
        let mut k: usize = len;
        while k > 0
            invariant
                k <= len == self.bits.len(),
                self.infinite != want,
                s == if want {
                    self@
                } else {
                    self@.complement()
                },
                forall|j: nat| #[trigger] s.contains(j) == (self.has(j) == want),
                forall|j: nat| j >= k ==> !#[trigger] s.contains(j),
            decreases k,
        {
            if self.bits[k - 1] == want {
                let r = BitmapIndex::try_from_usize(k - 1);
                proof {
                    assert(s.contains((k - 1) as nat));
                    if r.is_none() {
                        assert forall|x: nat| x <= MAX_INDEX && #[trigger] s.contains(x) implies exists|
                            j: nat,
                        | j > x && #[trigger] s.contains(j) by {
                            assert(s.contains((k - 1) as nat));
                        }
                    }
                }
                return r;
            }
            k = k - 1;
        }
        None
    }

    /// The least set index, if any is addressable.
    pub fn first_set(&self) -> (r: Option<BitmapIndex>)
        ensures
            is_first_from(self@, 0, r),
    {
        self.first_from(0, true)
    }

    /// The least unset index, if any is addressable.
    pub fn first_unset(&self) -> (r: Option<BitmapIndex>)
        ensures
            is_first_from(self@.complement(), 0, r),
    {
        self.first_from(0, false)
    }

    /// The greatest set index; `None` when the bitmap is empty or infinite.
    pub fn last_set(&self) -> (r: Option<BitmapIndex>)
        ensures
            is_last(self@, r),
    {
        self.last_with(true)
    }

    /// The greatest unset index; `None` when the bitmap is full or when its
    /// unset indices go on without end.
    pub fn last_unset(&self) -> (r: Option<BitmapIndex>)
        ensures
            is_last(self@.complement(), r),
    {
        self.last_with(false)
    }

    /// The least set index after `prev` (from zero when `prev` is `None`).
    pub fn next_set(&self, prev: Option<BitmapIndex>) -> (r: Option<BitmapIndex>)
        ensures
            is_first_from(self@, search_start(prev), r),
    {
        let from: usize = match prev {
            Some(p) => p.to_usize() + 1,
            None => 0,
        };
        self.first_from(from, true)
    }

    /// The least unset index after `prev` (from zero when `prev` is `None`).
    pub fn next_unset(&self, prev: Option<BitmapIndex>) -> (r: Option<BitmapIndex>)
        ensures
            is_first_from(self@.complement(), search_start(prev), r),
    {
        let from: usize = match prev {
            Some(p) => p.to_usize() + 1,
            None => 0,
        };
        self.first_from(from, false)
    }

    /// A new bitmap holding the same indices.
    pub fn duplicate(&self) -> (r: Bitmap)
        ensures
            r@ == self@,
    {
        let mut r = Bitmap::new();
        r.copy_from(self);
        r
    }

    /// The number of set indices; `None` when infinitely many are set.
    pub fn weight(&self) -> (r: Option<usize>)
        ensures
            self@.finite() ==> r.is_some() && r.unwrap() == self@.len(),
            !self@.finite() ==> r.is_none(),
    {
        proof {
            self.lemma_view();
        }
        if self.infinite {
            proof {
                lemma_tail_infinite(self@, self.bits.len() as nat);
            }
            return None;
        }
        let mut n: usize = 0;
        let mut k: usize = 0;
        let ghost mut counted = Set::<nat>::empty();
        while k < self.bits.len()
            invariant
                k <= self.bits.len(),
                n <= k,
                counted == Set::new(|i: nat| i < k && self.bits@[i as int]),
                counted.finite(),
                counted.len() == n,
            decreases self.bits.len() - k,
        {
            let ghost next = Set::new(|i: nat| i < k + 1 && self.bits@[i as int]);
            if self.bits[k] {
                proof {
                    assert(next =~= counted.insert(k as nat));
                    assert(!counted.contains(k as nat));
                }
                n = n + 1;
            } else {
                proof {
                    assert(next =~= counted);
                }
            }
            proof {
                counted = next;
            }
            k = k + 1;
        }
        proof {
            assert(self@ =~= counted);
        }
        Some(n)
    }

    /// The bitmap whose index `i` is `op` applied to index `i` of `self` and
    /// of `rhs`.
    fn combined(&self, rhs: &Bitmap, op: BinaryOp) -> (r: Bitmap)
        ensures
            forall|i: nat| #[trigger] r.has(i) == op.spec_apply(self.has(i), rhs.has(i)),
    {
        let n = if self.bits.len() >= rhs.bits.len() {
            self.bits.len()
        } else {
            rhs.bits.len()
        };
        let mut bits: Vec<bool> = Vec::new();
        let mut k: usize = 0;
        while k < n
            invariant
                k <= n,
                n >= self.bits.len(),
                n >= rhs.bits.len(),
                bits.len() == k,
                forall|j: int| 0 <= j < k ==> #[trigger] bits@[j] == op.spec_apply(self.has(j as nat), rhs.has(j as nat)),
            decreases n - k,
        {
            let v = op.apply(self.get(k), rhs.get(k));
            bits.push(v);
            k = k + 1;
        }
        let infinite = op.apply(self.infinite, rhs.infinite);
        let r = Bitmap { bits, infinite };
        proof {
            assert forall|i: nat| #[trigger] r.has(i) == op.spec_apply(self.has(i), rhs.has(i)) by {
                if i < n {
                    assert(bits@[i as int] == op.spec_apply(self.has(i), rhs.has(i)));
                }
            }
        }
        r
    }

    /// The indices set in both `self` and `rhs`.
    pub fn and(&self, rhs: &Bitmap) -> (r: Bitmap)
        ensures
            r@ == self@.intersect(rhs@),
    {
        let r = self.combined(rhs, BinaryOp::And);
        proof {
            assert(r@ =~= self@.intersect(rhs@));
        }
        r
    }

    /// The indices set in `self` or `rhs`.
    pub fn or(&self, rhs: &Bitmap) -> (r: Bitmap)
        ensures
            r@ == self@.union(rhs@),
    {
        let r = self.combined(rhs, BinaryOp::Or);
        proof {
            assert(r@ =~= self@.union(rhs@));
        }
        r
    }

    /// The indices set in exactly one of `self` and `rhs`.
    pub fn xor(&self, rhs: &Bitmap) -> (r: Bitmap)
        ensures
            r@ == symmetric_difference(self@, rhs@),
    {
        let r = self.combined(rhs, BinaryOp::Xor);
        proof {
            assert(r@ =~= symmetric_difference(self@, rhs@));
        }
        r
    }

    /// The indices set in `self` but not in `rhs`: `self & !rhs` in one pass.
    pub fn and_not(&self, rhs: &Bitmap) -> (r: Bitmap)
        ensures
            r@ == self@.difference(rhs@),
    {
        let r = self.combined(rhs, BinaryOp::AndNot);
        proof {
            assert(r@ =~= self@.difference(rhs@));
        }
        r
    }

    /// The indices not set in `self`.
    pub fn not(&self) -> (r: Bitmap)
        ensures
            r@ == self@.complement(),
    {
        let mut bits: Vec<bool> = Vec::new();
        let mut k: usize = 0;
        while k < self.bits.len()
            invariant
                k <= self.bits.len(),
                bits.len() == k,
                forall|j: int| 0 <= j < k ==> #[trigger] bits@[j] == !self.bits@[j],
            decreases self.bits.len() - k,
        {
            bits.push(!self.bits[k]);
            k = k + 1;
        }
        let r = Bitmap { bits, infinite: !self.infinite };
        proof {
            assert(r@ =~= self@.complement());
        }
        r
    }

    /// Keeps only the indices also set in `rhs`.
    pub fn and_assign(&mut self, rhs: &Bitmap)
        ensures
            final(self)@ == old(self)@.intersect(rhs@),
    {
        *self = self.and(rhs);
    }

    /// Adds the indices set in `rhs`.
    pub fn or_assign(&mut self, rhs: &Bitmap)
        ensures
            final(self)@ == old(self)@.union(rhs@),
    {
        *self = self.or(rhs);
    }

    /// Flips the indices set in `rhs`.
    pub fn xor_assign(&mut self, rhs: &Bitmap)
        ensures
            final(self)@ == symmetric_difference(old(self)@, rhs@),
    {
        *self = self.xor(rhs);
    }

    /// Removes the indices set in `rhs`: `*self &= !rhs` in one pass.
    pub fn and_not_assign(&mut self, rhs: &Bitmap)
        ensures
            final(self)@ == old(self)@.difference(rhs@),
    {
        *self = self.and_not(rhs);
    }

    /// Inverts the bitmap in place, infinite part included.
    pub fn invert(&mut self)
        ensures
            final(self)@ == old(self)@.complement(),
    {
        *self = self.not();
    }

    /// Whether `self` and `rhs` have a set index in common.
    pub fn intersects(&self, rhs: &Bitmap) -> (r: bool)
        ensures
            r == !self@.disjoint(rhs@),
    {
        let common = self.and(rhs);
        let empty = common.is_empty();
        proof {
            if !empty {
                assert(!(common@ =~= Set::<nat>::empty()));
            } else {
                assert forall|i: nat| !(self@.contains(i) && rhs@.contains(i)) by {
                    assert(!common@.contains(i));
                }
            }
        }
        !empty
    }

    /// Whether every index set in `inner` is set in `self`. The empty bitmap
    /// is included in every bitmap.
    pub fn includes(&self, inner: &Bitmap) -> (r: bool)
        ensures
            r == inner@.subset_of(self@),
    {
        let outside = inner.and_not(self);
        let empty = outside.is_empty();
        proof {
            if !empty {
                assert(!(outside@ =~= Set::<nat>::empty()));
            } else {
                assert forall|i: nat| inner@.contains(i) implies self@.contains(i) by {
                    assert(!outside@.contains(i));
                }
            }
        }
        empty
    }

    /// Whether `self` and `other` hold the same indices.
    pub fn equals(&self, other: &Bitmap) -> (r: bool)
        ensures
            r == (self@ == other@),
    {
        let differ = self.xor(other);
        let empty = differ.is_empty();
        proof {
            if !empty {
                assert(!(differ@ =~= Set::<nat>::empty()));
                let i = choose|i: nat| differ@.contains(i);
                assert(self@.contains(i) != other@.contains(i));
            } else {
                assert forall|i: nat| self@.contains(i) == other@.contains(i) by {
                    assert(!differ@.contains(i));
                }
                assert(self@ =~= other@);
            }
        }
        empty
    }

    /// Keeps only the least set index. A bitmap with no addressable set index
    /// is left as it is.
    pub fn singlify(&mut self)
        ensures
            forall|x: nat|
                x <= MAX_INDEX && old(self)@.contains(x) && (forall|j: nat|
                    j < x ==> !#[trigger] old(self)@.contains(j)) ==> final(self)@ == Set::<
                    nat,
                >::empty().insert(x),
            (forall|j: nat| j <= MAX_INDEX ==> !#[trigger] old(self)@.contains(j)) ==> final(self)@
                == old(self)@,
    {
        let ghost before = self@;
        match self.first_set() {
            Some(x) => {
                let i = x.to_usize();
                self.set_only(i);
                proof {
                    assert forall|y: nat|
                        y <= MAX_INDEX && before.contains(y) && (forall|j: nat|
                            j < y ==> !#[trigger] before.contains(j)) implies y == i by {
                        if y < i {
                            assert(!before.contains(y));
                        }
                        if i < y {
                            assert(!before.contains(i as nat));
                        }
                    }
                }
            },
            None => {},
        }
    }
}

impl Bitmap {
    /// The bitmap is finite exactly when its tail is unset.
    proof fn lemma_finite(self)
        ensures
            self@.finite() == !self.infinite,
    {
        self.lemma_view();
        if self.infinite {
            lemma_tail_infinite(self@, self.bits.len() as nat);
        } else {
            lemma_bounded_finite(self@, self.bits.len() as nat);
        }
    }

    /// Where `self` stands relative to `other` in the order of bitmaps.
    pub fn compare(&self, other: &Bitmap) -> (r: core::cmp::Ordering)
        ensures
            r == compare_sets(self@, other@),
    {
        proof {
            self.lemma_finite();
            other.lemma_finite();
            self.lemma_view();
            other.lemma_view();
        }
        let ghost a = self@;
        let ghost b = other@;
        if self.infinite != other.infinite {
            proof {
                let n = if self.bits.len() >= other.bits.len() {
                    self.bits.len() as nat
                } else {
                    other.bits.len() as nat
                };
                assert(!a.contains(n) == b.contains(n) || a.contains(n) != b.contains(n));
                assert forall|d: nat| !is_highest_difference(a, b, d) by {
                    let j = if d + 1 > n {
                        d + 1
                    } else {
                        n
                    };
                    assert(a.contains(j) != b.contains(j));
                }
                assert(a != b);
            }
            if self.infinite {
                return core::cmp::Ordering::Greater;
            } else {
                return core::cmp::Ordering::Less;
            }
        }
        let n = if self.bits.len() >= other.bits.len() {
            self.bits.len()
        } else {
            other.bits.len()
        };
        let mut k: usize = n;
        while k > 0
            invariant
                k <= n,
                n >= self.bits.len(),
                n >= other.bits.len(),
                self.infinite == other.infinite,
                a == self@,
                b == other@,
                a.finite() == b.finite(),
                forall|j: nat| #[trigger] a.contains(j) == self.has(j),
                forall|j: nat| #[trigger] b.contains(j) == other.has(j),
                forall|j: nat| j >= k ==> #[trigger] a.contains(j) == b.contains(j),
            decreases k,
        {
            let x = self.get(k - 1);
            let y = other.get(k - 1);
            if x != y {
                proof {
                    let d = (k - 1) as nat;
                    assert(a.contains(d) == x);
                    assert(b.contains(d) == y);
                    assert forall|j: nat| j > d implies #[trigger] a.contains(j) == b.contains(j) by {
                        assert(j >= k);
                    }
                    assert(is_highest_difference(a, b, d));
                    assert(a.contains(d) != b.contains(d));
                    assert forall|e: nat| is_highest_difference(a, b, e) implies e == d by {
                        if e < d {
                            assert(a.contains(d) == b.contains(d));
                        }
                        if e > d {
                            assert(a.contains(e) == b.contains(e));
                        }
                    }
                    assert(a != b);
                }
                if x {
                    return core::cmp::Ordering::Greater;
                } else {
                    return core::cmp::Ordering::Less;
                }
            }
            k = k - 1;
        }
        proof {
            assert(a =~= b);
        }
        core::cmp::Ordering::Equal
    }
}

impl PartialOrd for Bitmap {
    fn partial_cmp(&self, other: &Bitmap) -> (r: Option<core::cmp::Ordering>) {
        Some(self.compare(other))
    }
}

impl vstd::std_specs::cmp::PartialOrdSpecImpl for Bitmap {
    open spec fn obeys_partial_cmp_spec() -> bool {
        true
    }

    open spec fn partial_cmp_spec(&self, other: &Bitmap) -> Option<core::cmp::Ordering> {
        Some(compare_sets(self@, other@))
    }
}

impl Clone for Bitmap {
    fn clone(&self) -> (r: Bitmap)
        ensures
            r@ == self@,
    {
        self.duplicate()
    }
}

impl Default for Bitmap {
    fn default() -> (r: Bitmap)
        ensures
            r@ == Set::<nat>::empty(),
    {
        Bitmap::new()
    }
}

impl PartialEq for Bitmap {
    fn eq(&self, other: &Bitmap) -> (r: bool) {
        self.equals(other)
    }
}

impl vstd::std_specs::cmp::PartialEqSpecImpl for Bitmap {
    open spec fn obeys_eq_spec() -> bool {
        true
    }

    open spec fn eq_spec(&self, other: &Bitmap) -> bool {
        self@ == other@
    }
}

impl Eq for Bitmap {}

/// `&a & &b`: the indices set in both operands.
impl<'a> core::ops::BitAnd<&'a Bitmap> for &'a Bitmap {
    type Output = Bitmap;

    fn bitand(self, rhs: &'a Bitmap) -> (r: Bitmap)
        ensures
            r@ == self@.intersect(rhs@),
    {
        self.and(rhs)
    }
}

impl<'a> vstd::std_specs::ops::BitAndSpecImpl<&'a Bitmap> for &'a Bitmap {
    open spec fn obeys_bitand_spec() -> bool {
        false
    }

    open spec fn bitand_req(self, rhs: &'a Bitmap) -> bool {
        true
    }

    open spec fn bitand_spec(self, rhs: &'a Bitmap) -> Bitmap {
        vstd::pervasive::arbitrary()
    }
}

/// `a &= &b`.
impl<'a> core::ops::BitAndAssign<&'a Bitmap> for Bitmap {
    fn bitand_assign(&mut self, rhs: &'a Bitmap) {
        self.and_assign(rhs)
    }
}

/// `&a | &b`: the indices set in either operand.
impl<'a> core::ops::BitOr<&'a Bitmap> for &'a Bitmap {
    type Output = Bitmap;

    fn bitor(self, rhs: &'a Bitmap) -> (r: Bitmap)
        ensures
            r@ == self@.union(rhs@),
    {
        self.or(rhs)
    }
}

impl<'a> vstd::std_specs::ops::BitOrSpecImpl<&'a Bitmap> for &'a Bitmap {
    open spec fn obeys_bitor_spec() -> bool {
        false
    }

    open spec fn bitor_req(self, rhs: &'a Bitmap) -> bool {
        true
    }

    open spec fn bitor_spec(self, rhs: &'a Bitmap) -> Bitmap {
        vstd::pervasive::arbitrary()
    }
}

/// `a |= &b`.
impl<'a> core::ops::BitOrAssign<&'a Bitmap> for Bitmap {
    fn bitor_assign(&mut self, rhs: &'a Bitmap) {
        self.or_assign(rhs)
    }
}

/// `&a ^ &b`: the indices set in exactly one operand.
impl<'a> core::ops::BitXor<&'a Bitmap> for &'a Bitmap {
    type Output = Bitmap;

    fn bitxor(self, rhs: &'a Bitmap) -> (r: Bitmap)
        ensures
            r@ == symmetric_difference(self@, rhs@),
    {
        self.xor(rhs)
    }
}

impl<'a> vstd::std_specs::ops::BitXorSpecImpl<&'a Bitmap> for &'a Bitmap {
    open spec fn obeys_bitxor_spec() -> bool {
        false
    }

    open spec fn bitxor_req(self, rhs: &'a Bitmap) -> bool {
        true
    }

    open spec fn bitxor_spec(self, rhs: &'a Bitmap) -> Bitmap {
        vstd::pervasive::arbitrary()
    }
}

/// `a ^= &b`.
impl<'a> core::ops::BitXorAssign<&'a Bitmap> for Bitmap {
    fn bitxor_assign(&mut self, rhs: &'a Bitmap) {
        self.xor_assign(rhs)
    }
}

/// `!&a`: the indices not set in the operand.
impl<'a> core::ops::Not for &'a Bitmap {
    type Output = Bitmap;

    fn not(self) -> (r: Bitmap)
        ensures
            r@ == self@.complement(),
    {
        Bitmap::not(self)
    }
}

impl<'a> vstd::std_specs::ops::NotSpecImpl for &'a Bitmap {
    open spec fn obeys_not_spec() -> bool {
        false
    }

    open spec fn not_req(self) -> bool {
        true
    }

    open spec fn not_spec(self) -> Bitmap {
        vstd::pervasive::arbitrary()
    }
}

} // verus!

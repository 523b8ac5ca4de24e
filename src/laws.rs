//! Laws that relate the operations of [`Bitmap`](crate::bitmap::Bitmap),
//! stated over the sets that the operations' contracts speak of.

use vstd::prelude::*;

use crate::index::MAX_INDEX;
use crate::iter::strictly_increasing;
use crate::range::IndexRange;

verus! {

/// A strictly increasing sequence that holds exactly the integers of
/// `first..end` is `first, first + 1, ..., end - 1`: its element `k` is
/// `first + k`.
proof fn lemma_increasing_covering(q: Seq<nat>, first: nat, end: nat, k: int)
    requires
        strictly_increasing(q),
        forall|j: nat| #[trigger] q.contains(j) == (first <= j < end),
        0 <= k < q.len(),
    ensures
        q[k] == first + k,
    decreases k,
{
    assert(q.contains(q[k]));
    if k > 0 {
        lemma_increasing_covering(q, first, end, k - 1);
    }
    if q[k] > first + k {
        let j = (first + k) as nat;
        assert(q.contains(j));
        let m = choose|m: int| 0 <= m < q.len() && q[m] == j;
        if m < k {
            lemma_increasing_covering(q, first, end, m);
        }
    }
}

/// Reading back a bitmap made by `from_range(range)` through its ascending
/// walk of set indices gives exactly the addressable integers of the range,
/// in ascending order: `first, first + 1, ..., end - 1`.
///
/// `q` is any sequence that meets the contract of
/// [`BitmapIterator::to_vec`](crate::iter::BitmapIterator::to_vec) for the set
/// that [`Bitmap::from_range`](crate::bitmap::Bitmap::from_range) promises.
pub proof fn lemma_range_round_trip(range: IndexRange, q: Seq<nat>)
    requires
        range.addressable(),
        strictly_increasing(q),
        forall|j: nat| #[trigger] q.contains(j) == (range.indices().contains(j) && j <= MAX_INDEX),
    ensures
        range.first_index() < range.end_index() ==> q == Seq::new(
            (range.end_index() - range.first_index()) as nat,
            |k: int| (range.first_index() + k) as nat,
        ),
        range.first_index() >= range.end_index() ==> q.len() == 0,
{
    let first = range.first_index();
    let end = range.end_index();
    assert forall|j: nat| #[trigger] q.contains(j) == (first <= j < end) by {
        assert(range.indices().contains(j) == (range.indices().contains(j)));
    }
    assert forall|k: int| 0 <= k < q.len() implies q[k] == first + k by {
        lemma_increasing_covering(q, first, end, k);
    }
    if first < end {
        let last = (end - 1) as nat;
        assert(q.contains(last));
        let m = choose|m: int| 0 <= m < q.len() && q[m] == last;
        assert(q.contains(q[q.len() - 1]));
        assert(q =~= Seq::new((end - first) as nat, |k: int| (first + k) as nat));
    } else if q.len() > 0 {
        assert(q.contains(q[0]));
    }
}

/// Inverting twice gives back the bitmap, infinite ones included.
pub proof fn lemma_invert_twice(s: Set<nat>)
    ensures
        s.complement().complement() == s,
{
    assert(s.complement().complement() =~= s);
}

/// `x.and_not(y)` holds the same indices as `x & !y`.
pub proof fn lemma_and_not_is_and_of_complement(x: Set<nat>, y: Set<nat>)
    ensures
        x.difference(y) == x.intersect(y.complement()),
{
    assert(x.difference(y) =~= x.intersect(y.complement()));
}

/// The empty bitmap includes exactly the empty bitmap, and every bitmap
/// includes the empty one.
pub proof fn lemma_empty_inclusion(x: Set<nat>)
    ensures
        x.subset_of(Set::<nat>::empty()) == (x == Set::<nat>::empty()),
        Set::<nat>::empty().subset_of(x),
{
    if x.subset_of(Set::<nat>::empty()) {
        assert(x =~= Set::<nat>::empty());
    }
}

/// The weight of the union of two disjoint bitmaps is the sum of their
/// weights when both are finite, and undefined (infinite) when either is
/// infinite.
pub proof fn lemma_disjoint_union_weight(x: Set<nat>, y: Set<nat>)
    requires
        x.disjoint(y),
    ensures
        x.finite() && y.finite() ==> x.union(y).finite() && x.union(y).len() == x.len() + y.len(),
        !x.finite() || !y.finite() ==> !x.union(y).finite(),
{
    vstd::set_lib::lemma_set_union_finite_iff(x, y);
    if x.finite() && y.finite() {
        vstd::set_lib::lemma_set_disjoint_lens(x, y);
    }
}

} // verus!

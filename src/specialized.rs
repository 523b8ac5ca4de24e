//! Kind-tagged bitmaps: processor sets and memory-node sets share the
//! representation of [`Bitmap`] but are distinct types, so that one kind is
//! never combined with, or passed for, the other by accident.

use vstd::prelude::*;

use core::marker::PhantomData;

use crate::bitmap::{is_first_from, is_last, symmetric_difference, compare_sets, Bitmap};
use crate::index::{BitmapIndex, MAX_INDEX};
use crate::iter::BitmapIterator;
use crate::range::IndexRange;
use crate::text::{is_run_list, push_char, runs_text, IndexRun};

verus! {

/// The kinds of specialized bitmaps.
#[derive(Clone, Copy, Debug, PartialEq, Eq, Structural, Hash)]
pub enum BitmapKind {
    /// A set of processors, by OS index.
    CpuSet,
    /// A set of memory nodes, by OS index.
    NodeSet,
}

/// The name of a kind, as its bitmaps are written.
pub open spec fn kind_name(kind: BitmapKind) -> Seq<char> {
    match kind {
        BitmapKind::CpuSet => seq!['C', 'p', 'u', 'S', 'e', 't'],
        BitmapKind::NodeSet => seq!['N', 'o', 'd', 'e', 'S', 'e', 't'],
    }
}

/// A type that names one kind of specialized bitmap.
pub trait KindTag: Sized {
    /// The kind that the type names.
    spec fn spec_kind() -> BitmapKind;

    /// The kind that the type names.
    fn kind() -> (r: BitmapKind)
        ensures
            r == Self::spec_kind(),
    ;
}

/// Names processor sets.
pub struct CpuSetTag;

/// Names memory-node sets.
pub struct NodeSetTag;

impl KindTag for CpuSetTag {
    open spec fn spec_kind() -> BitmapKind {
        BitmapKind::CpuSet
    }

    fn kind() -> (r: BitmapKind) {
        BitmapKind::CpuSet
    }
}

impl KindTag for NodeSetTag {
    open spec fn spec_kind() -> BitmapKind {
        BitmapKind::NodeSet
    }

    fn kind() -> (r: BitmapKind) {
        BitmapKind::NodeSet
    }
}

/// A bitmap tagged with the kind `K`. It offers every operation of
/// [`Bitmap`], with the same contract, and combines only with bitmaps of the
/// same kind; [`Specialized::into_bitmap`] and [`Specialized::from_bitmap`]
/// cross over to plain bitmaps on purpose.
pub struct Specialized<K: KindTag> {
    bitmap: Bitmap,
    tag: PhantomData<K>,
}

/// A set of processors.
pub type CpuSet = Specialized<CpuSetTag>;

/// A set of memory nodes.
pub type NodeSet = Specialized<NodeSetTag>;

/// Operations that every specialized bitmap offers, whatever its kind.
pub trait SpecializedBitmap: Sized {
    /// The indices that the bitmap holds.
    spec fn indices(&self) -> Set<nat>;

    /// The kind of the bitmap type.
    spec fn spec_bitmap_kind() -> BitmapKind;

    /// The kind of the bitmap type.
    fn bitmap_kind() -> (r: BitmapKind)
        ensures
            r == Self::spec_bitmap_kind(),
    ;

    /// Tags a plain bitmap with this kind.
    fn from_bitmap(bitmap: Bitmap) -> (r: Self)
        ensures
            r.indices() == bitmap@,
    ;

    /// The plain bitmap inside.
    fn as_bitmap(&self) -> (r: &Bitmap)
        ensures
            r@ == self.indices(),
    ;

    /// Drops the tag, giving back the plain bitmap.
    fn into_bitmap(self) -> (r: Bitmap)
        ensures
            r@ == self.indices(),
    ;
}

impl<K: KindTag> View for Specialized<K> {
    type V = Set<nat>;

    closed spec fn view(&self) -> Set<nat> {
        self.bitmap@
    }
}

impl<K: KindTag> SpecializedBitmap for Specialized<K> {
    open spec fn indices(&self) -> Set<nat> {
        self@
    }

    open spec fn spec_bitmap_kind() -> BitmapKind {
        K::spec_kind()
    }

    fn bitmap_kind() -> (r: BitmapKind) {
        K::kind()
    }

    fn from_bitmap(bitmap: Bitmap) -> (r: Self) {
        Specialized { bitmap, tag: PhantomData }
    }

    fn as_bitmap(&self) -> (r: &Bitmap) {
        &self.bitmap
    }

    fn into_bitmap(self) -> (r: Bitmap) {
        self.bitmap
    }
}

impl<K: KindTag> Specialized<K> {
    fn wrap(bitmap: Bitmap) -> (r: Self)
        ensures
            r@ == bitmap@,
    {
        Specialized { bitmap, tag: PhantomData }
    }

    /// Creates an empty bitmap.
    pub fn new() -> (r: Self)
        ensures
            r@ == Set::<nat>::empty(),
    {
        Self::wrap(Bitmap::new())
    }

    /// Creates a full bitmap.
    pub fn full() -> (r: Self)
        ensures
            r@ == Set::<nat>::full(),
    {
        Self::wrap(Bitmap::full())
    }

    /// Creates a bitmap holding exactly the indices of `range`.
    pub fn from_range(range: IndexRange) -> (r: Self)
        requires
            range.addressable(),
        ensures
            r@ == range.indices(),
    {
        Self::wrap(Bitmap::from_range(range))
    }

    /// Turns this bitmap into a copy of `other`.
    pub fn copy_from(&mut self, other: &Self)
        ensures
            final(self)@ == other@,
    {
        self.bitmap.copy_from(&other.bitmap)
    }

    /// Clears every index.
    pub fn clear(&mut self)
        ensures
            final(self)@ == Set::<nat>::empty(),
    {
        self.bitmap.clear()
    }

    /// Sets every index.
    pub fn fill(&mut self)
        ensures
            final(self)@ == Set::<nat>::full(),
    {
        self.bitmap.fill()
    }

    /// Clears every index but `idx`, which is set.
    pub fn set_only(&mut self, idx: usize)
        requires
            idx <= MAX_INDEX,
        ensures
            final(self)@ == Set::<nat>::empty().insert(idx as nat),
    {
        self.bitmap.set_only(idx)
    }

    /// Sets every index but `idx`, which is cleared.
    pub fn set_all_but(&mut self, idx: usize)
        requires
            idx <= MAX_INDEX,
        ensures
            final(self)@ == Set::<nat>::full().remove(idx as nat),
    {
        self.bitmap.set_all_but(idx)
    }

    /// Sets index `idx`.
    pub fn set(&mut self, idx: usize)
        requires
            idx <= MAX_INDEX,
        ensures
            final(self)@ == old(self)@.insert(idx as nat),
    {
        self.bitmap.set(idx)
    }

    /// Sets every index of `range`.
    pub fn set_range(&mut self, range: IndexRange)
        requires
            range.addressable(),
        ensures
            final(self)@ == old(self)@.union(range.indices()),
    {
        self.bitmap.set_range(range)
    }

    /// Clears index `idx`.
    pub fn unset(&mut self, idx: usize)
        requires
            idx <= MAX_INDEX,
        ensures
            final(self)@ == old(self)@.remove(idx as nat),
    {
        self.bitmap.unset(idx)
    }

    /// Clears every index of `range`.
    pub fn unset_range(&mut self, range: IndexRange)
        requires
            range.addressable(),
        ensures
            final(self)@ == old(self)@.difference(range.indices()),
    {
        self.bitmap.unset_range(range)
    }

    /// Keeps only the least set index; a bitmap with no addressable set index
    /// is left as it is.
    pub fn singlify(&mut self)
        ensures
            forall|x: nat|
                x <= MAX_INDEX && old(self)@.contains(x) && (forall|j: nat|
                    j < x ==> !#[trigger] old(self)@.contains(j)) ==> final(self)@ == Set::<
                    nat,
                >::empty().insert(x),
            (forall|j: nat| j <= MAX_INDEX ==> !#[trigger] old(self)@.contains(j)) ==> final(self)@
                == old(self)@,
    {
        self.bitmap.singlify()
    }

    /// Whether index `idx` is set.
    pub fn is_set(&self, idx: usize) -> (r: bool)
        requires
            idx <= MAX_INDEX,
        ensures
            r == self@.contains(idx as nat),
    {
        self.bitmap.is_set(idx)
    }

    /// Whether no index is set.
    pub fn is_empty(&self) -> (r: bool)
        ensures
            r == (self@ == Set::<nat>::empty()),
    {
        self.bitmap.is_empty()
    }

    /// Whether every index is set.
    pub fn is_full(&self) -> (r: bool)
        ensures
            r == (self@ == Set::<nat>::full()),
    {
        self.bitmap.is_full()
    }

    /// The least set index, if any is addressable.
    pub fn first_set(&self) -> (r: Option<BitmapIndex>)
        ensures
            is_first_from(self@, 0, r),
    {
        self.bitmap.first_set()
    }

    /// A walk over the set indices, in ascending order.
    pub fn iter_set(&self) -> (r: BitmapIterator<'_>)
        ensures
            r.source() == self@,
            r.cursor() == 0,
            !r.finished(),
    {
        self.bitmap.iter_set()
    }

    /// The greatest set index; `None` when the bitmap is empty or infinite.
    pub fn last_set(&self) -> (r: Option<BitmapIndex>)
        ensures
            is_last(self@, r),
    {
        self.bitmap.last_set()
    }

    /// The number of set indices; `None` when infinitely many are set.
    pub fn weight(&self) -> (r: Option<usize>)
        ensures
            self@.finite() ==> r.is_some() && r.unwrap() == self@.len(),
            !self@.finite() ==> r.is_none(),
    {
        self.bitmap.weight()
    }

    /// The least unset index, if any is addressable.
    pub fn first_unset(&self) -> (r: Option<BitmapIndex>)
        ensures
            is_first_from(self@.complement(), 0, r),
    {
        self.bitmap.first_unset()
    }

    /// A walk over the unset indices, in ascending order.
    pub fn iter_unset(&self) -> (r: BitmapIterator<'_>)
        ensures
            r.source() == self@.complement(),
            r.cursor() == 0,
            !r.finished(),
    {
        self.bitmap.iter_unset()
    }

    /// The greatest unset index; `None` when the bitmap is full or its unset
    /// indices go on without end.
    pub fn last_unset(&self) -> (r: Option<BitmapIndex>)
        ensures
            is_last(self@.complement(), r),
    {
        self.bitmap.last_unset()
    }

    /// The indices set in `self` but not in `rhs`.
    pub fn and_not(&self, rhs: &Self) -> (r: Self)
        ensures
            r@ == self@.difference(rhs@),
    {
        Self::wrap(self.bitmap.and_not(&rhs.bitmap))
    }

    /// Removes the indices set in `rhs`.
    pub fn and_not_assign(&mut self, rhs: &Self)
        ensures
            final(self)@ == old(self)@.difference(rhs@),
    {
        self.bitmap.and_not_assign(&rhs.bitmap)
    }

    /// Inverts the bitmap in place.
    pub fn invert(&mut self)
        ensures
            final(self)@ == old(self)@.complement(),
    {
        self.bitmap.invert()
    }

    /// Whether `self` and `rhs` have a set index in common.
    pub fn intersects(&self, rhs: &Self) -> (r: bool)
        ensures
            r == !self@.disjoint(rhs@),
    {
        self.bitmap.intersects(&rhs.bitmap)
    }

    /// Whether every index set in `inner` is set in `self`.
    pub fn includes(&self, inner: &Self) -> (r: bool)
        ensures
            r == inner@.subset_of(self@),
    {
        self.bitmap.includes(&inner.bitmap)
    }

    /// The indices set in both `self` and `rhs`.
    pub fn and(&self, rhs: &Self) -> (r: Self)
        ensures
            r@ == self@.intersect(rhs@),
    {
        Self::wrap(self.bitmap.and(&rhs.bitmap))
    }

    /// The indices set in `self` or `rhs`.
    pub fn or(&self, rhs: &Self) -> (r: Self)
        ensures
            r@ == self@.union(rhs@),
    {
        Self::wrap(self.bitmap.or(&rhs.bitmap))
    }

    /// The indices set in exactly one of `self` and `rhs`.
    pub fn xor(&self, rhs: &Self) -> (r: Self)
        ensures
            r@ == symmetric_difference(self@, rhs@),
    {
        Self::wrap(self.bitmap.xor(&rhs.bitmap))
    }

    /// The indices not set in `self`.
    pub fn not(&self) -> (r: Self)
        ensures
            r@ == self@.complement(),
    {
        Self::wrap(self.bitmap.not())
    }

    /// Keeps only the indices also set in `rhs`.
    pub fn and_assign(&mut self, rhs: &Self)
        ensures
            final(self)@ == old(self)@.intersect(rhs@),
    {
        self.bitmap.and_assign(&rhs.bitmap)
    }

    /// Adds the indices set in `rhs`.
    pub fn or_assign(&mut self, rhs: &Self)
        ensures
            final(self)@ == old(self)@.union(rhs@),
    {
        self.bitmap.or_assign(&rhs.bitmap)
    }

    /// Flips the indices set in `rhs`.
    pub fn xor_assign(&mut self, rhs: &Self)
        ensures
            final(self)@ == symmetric_difference(old(self)@, rhs@),
    {
        self.bitmap.xor_assign(&rhs.bitmap)
    }

    /// Whether `self` and `other` hold the same indices.
    pub fn equals(&self, other: &Self) -> (r: bool)
        ensures
            r == (self@ == other@),
    {
        self.bitmap.equals(&other.bitmap)
    }

    /// Where `self` stands relative to `other` in the order of bitmaps.
    pub fn compare(&self, other: &Self) -> (r: core::cmp::Ordering)
        ensures
            r == compare_sets(self@, other@),
    {
        self.bitmap.compare(&other.bitmap)
    }

    /// A new bitmap of the same kind holding the same indices.
    pub fn duplicate(&self) -> (r: Self)
        ensures
            r@ == self@,
    {
        Self::wrap(self.bitmap.duplicate())
    }

    /// The kind's name followed by the list form of the indices in
    /// parentheses, such as `CpuSet(0-3,8)`.
    pub fn to_string(&self) -> (r: String)
        ensures
            exists|runs: Seq<IndexRun>|
                is_run_list(self@, runs) && r@ == kind_name(K::spec_kind()).push('(') + runs_text(
                    runs,
                ).push(')'),
            forall|runs: Seq<IndexRun>|
                is_run_list(self@, runs) ==> r@ == kind_name(K::spec_kind()).push('(') + runs_text(
                    runs,
                ).push(')'),
    {
        let inner = self.bitmap.to_string();
        let mut out = String::new();
        push_kind_name(&mut out, K::kind());
        push_char(&mut out, '(');
        let ghost head = out@;
        push_string(&mut out, &inner);
        push_char(&mut out, ')');
        proof {
            let runs = choose|runs: Seq<IndexRun>| is_run_list(self@, runs) && inner@ == runs_text(runs);
            assert(out@ =~= kind_name(K::spec_kind()).push('(') + runs_text(runs).push(')'));
            assert forall|other: Seq<IndexRun>| is_run_list(self@, other) implies out@ == kind_name(
                K::spec_kind(),
            ).push('(') + runs_text(other).push(')') by {
                assert(inner@ == runs_text(other));
            }
        }
        out
    }
}

/// Relies on `String::push_str`: appends the characters of `t`.
#[verifier::external_body]
fn push_string(s: &mut String, t: &String)
    ensures
        final(s)@ == old(s)@ + t@,
{
    s.push_str(t)
}

/// Appends the name of `kind`.
fn push_kind_name(out: &mut String, kind: BitmapKind)
    ensures
        final(out)@ == old(out)@ + kind_name(kind),
{
    let ghost start = out@;
    match kind {
        BitmapKind::CpuSet => {
            push_char(out, 'C');
            push_char(out, 'p');
            push_char(out, 'u');
        },
        BitmapKind::NodeSet => {
            push_char(out, 'N');
            push_char(out, 'o');
            push_char(out, 'd');
            push_char(out, 'e');
        },
    }
    push_char(out, 'S');
    push_char(out, 'e');
    push_char(out, 't');
    assert(out@ =~= start + kind_name(kind));
}

impl<K: KindTag> Clone for Specialized<K> {
    fn clone(&self) -> (r: Self)
        ensures
            r@ == self@,
    {
        self.duplicate()
    }
}

impl<K: KindTag> Default for Specialized<K> {
    fn default() -> (r: Self)
        ensures
            r@ == Set::<nat>::empty(),
    {
        Self::new()
    }
}

impl<K: KindTag> PartialEq for Specialized<K> {
    fn eq(&self, other: &Self) -> (r: bool) {
        self.equals(other)
    }
}

impl<K: KindTag> vstd::std_specs::cmp::PartialEqSpecImpl for Specialized<K> {
    open spec fn obeys_eq_spec() -> bool {
        true
    }

    open spec fn eq_spec(&self, other: &Self) -> bool {
        self@ == other@
    }
}

impl<K: KindTag> Eq for Specialized<K> {}

impl<K: KindTag> PartialOrd for Specialized<K> {
    fn partial_cmp(&self, other: &Self) -> (r: Option<core::cmp::Ordering>) {
        Some(self.compare(other))
    }
}

impl<K: KindTag> vstd::std_specs::cmp::PartialOrdSpecImpl for Specialized<K> {
    open spec fn obeys_partial_cmp_spec() -> bool {
        true
    }

    open spec fn partial_cmp_spec(&self, other: &Self) -> Option<core::cmp::Ordering> {
        Some(compare_sets(self@, other@))
    }
}

/// `&a & &b`, for two bitmaps of the same kind.
impl<'a, K: KindTag> core::ops::BitAnd<&'a Specialized<K>> for &'a Specialized<K> {
    type Output = Specialized<K>;

    fn bitand(self, rhs: &'a Specialized<K>) -> (r: Specialized<K>)
        ensures
            r@ == self@.intersect(rhs@),
    {
        self.and(rhs)
    }
}

impl<'a, K: KindTag> vstd::std_specs::ops::BitAndSpecImpl<&'a Specialized<K>> for &'a Specialized<K> {
    open spec fn obeys_bitand_spec() -> bool {
        false
    }

    open spec fn bitand_req(self, rhs: &'a Specialized<K>) -> bool {
        true
    }

    open spec fn bitand_spec(self, rhs: &'a Specialized<K>) -> Specialized<K> {
        vstd::pervasive::arbitrary()
    }
}

/// `a &= &b`, for two bitmaps of the same kind.
impl<'a, K: KindTag> core::ops::BitAndAssign<&'a Specialized<K>> for Specialized<K> {
    fn bitand_assign(&mut self, rhs: &'a Specialized<K>) {
        self.and_assign(rhs)
    }
}

/// `&a | &b`, for two bitmaps of the same kind.
impl<'a, K: KindTag> core::ops::BitOr<&'a Specialized<K>> for &'a Specialized<K> {
    type Output = Specialized<K>;

    fn bitor(self, rhs: &'a Specialized<K>) -> (r: Specialized<K>)
        ensures
            r@ == self@.union(rhs@),
    {
        self.or(rhs)
    }
}

impl<'a, K: KindTag> vstd::std_specs::ops::BitOrSpecImpl<&'a Specialized<K>> for &'a Specialized<K> {
    open spec fn obeys_bitor_spec() -> bool {
        false
    }

    open spec fn bitor_req(self, rhs: &'a Specialized<K>) -> bool {
        true
    }

    open spec fn bitor_spec(self, rhs: &'a Specialized<K>) -> Specialized<K> {
        vstd::pervasive::arbitrary()
    }
}

/// `a |= &b`, for two bitmaps of the same kind.
impl<'a, K: KindTag> core::ops::BitOrAssign<&'a Specialized<K>> for Specialized<K> {
    fn bitor_assign(&mut self, rhs: &'a Specialized<K>) {
        self.or_assign(rhs)
    }
}

/// `&a ^ &b`, for two bitmaps of the same kind.
impl<'a, K: KindTag> core::ops::BitXor<&'a Specialized<K>> for &'a Specialized<K> {
    type Output = Specialized<K>;

    fn bitxor(self, rhs: &'a Specialized<K>) -> (r: Specialized<K>)
        ensures
            r@ == symmetric_difference(self@, rhs@),
    {
        self.xor(rhs)
    }
}

impl<'a, K: KindTag> vstd::std_specs::ops::BitXorSpecImpl<&'a Specialized<K>> for &'a Specialized<K> {
    open spec fn obeys_bitxor_spec() -> bool {
        false
    }

    open spec fn bitxor_req(self, rhs: &'a Specialized<K>) -> bool {
        true
    }

    open spec fn bitxor_spec(self, rhs: &'a Specialized<K>) -> Specialized<K> {
        vstd::pervasive::arbitrary()
    }
}

/// `a ^= &b`, for two bitmaps of the same kind.
impl<'a, K: KindTag> core::ops::BitXorAssign<&'a Specialized<K>> for Specialized<K> {
    fn bitxor_assign(&mut self, rhs: &'a Specialized<K>) {
        self.xor_assign(rhs)
    }
}

/// `!&a`: the indices not set in the operand, of the same kind.
impl<'a, K: KindTag> core::ops::Not for &'a Specialized<K> {
    type Output = Specialized<K>;

    fn not(self) -> (r: Specialized<K>)
        ensures
            r@ == self@.complement(),
    {
        Specialized::not(self)
    }
}

impl<'a, K: KindTag> vstd::std_specs::ops::NotSpecImpl for &'a Specialized<K> {
    open spec fn obeys_not_spec() -> bool {
        false
    }

    open spec fn not_req(self) -> bool {
        true
    }

    open spec fn not_spec(self) -> Specialized<K> {
        vstd::pervasive::arbitrary()
    }
}

} // verus!

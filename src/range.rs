//! Ranges of indices, with inclusive, exclusive or missing bounds.

use vstd::prelude::*;

use crate::index::MAX_INDEX;

verus! {

/// One end of an [`IndexRange`].
#[derive(Clone, Copy, Debug, PartialEq, Eq, Structural, Hash)]
pub enum IndexBound {
    /// The bound belongs to the range.
    Included(usize),
    /// The bound is the first (or last) index outside the range.
    Excluded(usize),
    /// The range goes on without end on this side.
    Unbounded,
}

/// A range of indices, such as `12..=34` or `2..`.
#[derive(Clone, Copy, Debug, PartialEq, Eq, Structural, Hash)]
pub struct IndexRange {
    pub start: IndexBound,
    pub end: IndexBound,
}

/// The value that a bound carries, or zero for an unbounded side.
pub open spec fn bound_value(b: IndexBound) -> nat {
    match b {
        IndexBound::Included(v) => v as nat,
        IndexBound::Excluded(v) => v as nat,
        IndexBound::Unbounded => 0,
    }
}

/// Whether `i` lies after the start bound `b`.
pub open spec fn after_start(b: IndexBound, i: nat) -> bool {
    match b {
        IndexBound::Included(v) => v <= i,
        IndexBound::Excluded(v) => v < i,
        IndexBound::Unbounded => true,
    }
}

/// Whether `i` lies before the end bound `b`.
pub open spec fn before_end(b: IndexBound, i: nat) -> bool {
    match b {
        IndexBound::Included(v) => i <= v,
        IndexBound::Excluded(v) => i < v,
        IndexBound::Unbounded => true,
    }
}

impl IndexRange {
    /// Both bounds name addressable indices.
    pub open spec fn addressable(self) -> bool {
        bound_value(self.start) <= MAX_INDEX && bound_value(self.end) <= MAX_INDEX
    }

    /// The indices that the range covers. A range that could only start
    /// past [`MAX_INDEX`] (`MAX_INDEX` excluded, upwards) covers nothing.
    pub open spec fn indices(self) -> Set<nat> {
        Set::new(
            |i: nat|
                after_start(self.start, i) && before_end(self.end, i) && !(
                self.start == IndexBound::Excluded(MAX_INDEX as usize)),
        )
    }

    /// The first index that the range can cover.
    pub open spec fn first_index(self) -> nat {
        match self.start {
            IndexBound::Included(v) => v as nat,
            IndexBound::Excluded(v) => v as nat + 1,
            IndexBound::Unbounded => 0,
        }
    }

    /// The first addressable index past the range: one past its last index,
    /// or `MAX_INDEX + 1` when it goes on without end.
    pub open spec fn end_index(self) -> nat {
        match self.end {
            IndexBound::Included(v) => v as nat + 1,
            IndexBound::Excluded(v) => v as nat,
            IndexBound::Unbounded => MAX_INDEX as nat + 1,
        }
    }

    /// The range `start..=end`.
    pub fn inclusive(start: usize, end: usize) -> (r: IndexRange)
        ensures
            r.start == IndexBound::Included(start),
            r.end == IndexBound::Included(end),
    {
        IndexRange { start: IndexBound::Included(start), end: IndexBound::Included(end) }
    }

    /// The range `start..end`.
    pub fn half_open(start: usize, end: usize) -> (r: IndexRange)
        ensures
            r.start == IndexBound::Included(start),
            r.end == IndexBound::Excluded(end),
    {
        IndexRange { start: IndexBound::Included(start), end: IndexBound::Excluded(end) }
    }

    /// The range `start..`.
    pub fn starting_at(start: usize) -> (r: IndexRange)
        ensures
            r.start == IndexBound::Included(start),
            r.end == IndexBound::Unbounded,
    {
        IndexRange { start: IndexBound::Included(start), end: IndexBound::Unbounded }
    }

    /// The range `..end`.
    pub fn ending_before(end: usize) -> (r: IndexRange)
        ensures
            r.start == IndexBound::Unbounded,
            r.end == IndexBound::Excluded(end),
    {
        IndexRange { start: IndexBound::Unbounded, end: IndexBound::Excluded(end) }
    }
}

} // verus!

//! Validated bit positions.

use vstd::prelude::*;

verus! {

/// Largest index that a bitmap can address: the upper bound of C's `int`.
pub const MAX_INDEX: u32 = 0x7fff_ffff;

/// A bit position of a [`Bitmap`](crate::bitmap::Bitmap), within `0..=MAX_INDEX`.
#[derive(Clone, Copy, Debug, PartialEq, Eq, Structural, PartialOrd, Ord, Hash)]
pub struct BitmapIndex {
    value: u32,
}

/// Why an integer could not become a [`BitmapIndex`].
#[derive(Clone, Copy, Debug, PartialEq, Eq, Structural, Hash)]
pub enum IndexError {
    /// The integer was negative.
    Negative,
    /// The integer was above [`MAX_INDEX`].
    TooLarge,
}

impl BitmapIndex {
    #[verifier::type_invariant]
    spec fn in_range(self) -> bool {
        self.value <= MAX_INDEX
    }

    /// The position as a mathematical integer.
    pub closed spec fn view(self) -> nat {
        self.value as nat
    }

    /// The smallest index, zero.
    pub fn min_value() -> (r: BitmapIndex)
        ensures
            r@ == 0,
    {
        BitmapIndex { value: 0 }
    }

    /// The largest index, [`MAX_INDEX`].
    pub fn max_value() -> (r: BitmapIndex)
        ensures
            r@ == MAX_INDEX,
    {
        BitmapIndex { value: MAX_INDEX }
    }

    /// The index as a `u32`.
    pub fn get(self) -> (r: u32)
        ensures
            r == self@,
            r <= MAX_INDEX,
    {
        proof {
            use_type_invariant(self);
        }
        self.value
    }

    /// The index as a `usize`.
    pub fn to_usize(self) -> (r: usize)
        ensures
            r == self@,
            r <= MAX_INDEX,
    {
        proof {
            use_type_invariant(self);
        }
        self.value as usize
    }

    /// The index as a C `int` (an `i32`), which always holds it.
    pub fn to_i32(self) -> (r: i32)
        ensures
            r == self@,
            r >= 0,
    {
        proof {
            use_type_invariant(self);
        }
        self.value as i32
    }

    /// `value` as an index, if it is at most [`MAX_INDEX`].
    pub fn try_from_usize(value: usize) -> (r: Option<BitmapIndex>)
        ensures
            value <= MAX_INDEX ==> r.is_some() && r.unwrap()@ == value,
            value > MAX_INDEX ==> r.is_none(),
    {
        if value <= MAX_INDEX as usize {
            Some(BitmapIndex { value: value as u32 })
        } else {
            None
        }
    }

    /// `value` as an index; a negative value and one above [`MAX_INDEX`] fail
    /// with distinct errors.
    pub fn try_from_i64(value: i64) -> (r: Result<BitmapIndex, IndexError>)
        ensures
            0 <= value <= MAX_INDEX ==> r.is_ok() && r.unwrap()@ == value,
            value < 0 ==> r == Err::<BitmapIndex, IndexError>(IndexError::Negative),
            value > MAX_INDEX ==> r == Err::<BitmapIndex, IndexError>(IndexError::TooLarge),
    {
        if value < 0 {
            Err(IndexError::Negative)
        } else if value > MAX_INDEX as i64 {
            Err(IndexError::TooLarge)
        } else {
            Ok(BitmapIndex { value: value as u32 })
        }
    }

    /// Conversion from a C `int` as the foreign layer reports it: negative
    /// values mean "no index".
    pub fn try_from_c_int(value: i32) -> (r: Option<BitmapIndex>)
        ensures
            value >= 0 ==> r.is_some() && r.unwrap()@ == value,
            value < 0 ==> r.is_none(),
    {
        if value < 0 {
            None
        } else {
            Some(BitmapIndex { value: value as u32 })
        }
    }

    /// Conversion from a C `unsigned int`, failing above [`MAX_INDEX`].
    pub fn try_from_c_uint(value: u32) -> (r: Option<BitmapIndex>)
        ensures
            value <= MAX_INDEX ==> r.is_some() && r.unwrap()@ == value,
            value > MAX_INDEX ==> r.is_none(),
    {
        if value <= MAX_INDEX {
            Some(BitmapIndex { value })
        } else {
            None
        }
    }

    /// The next index, unless this is the largest one.
    pub fn checked_succ(self) -> (r: Option<BitmapIndex>)
        ensures
            self@ < MAX_INDEX ==> r.is_some() && r.unwrap()@ == self@ + 1,
            self@ == MAX_INDEX ==> r.is_none(),
    {
        proof {
            use_type_invariant(self);
        }
        if self.value < MAX_INDEX {
            Some(BitmapIndex { value: self.value + 1 })
        } else {
            None
        }
    }

    /// The previous index, unless this is zero.
    pub fn checked_pred(self) -> (r: Option<BitmapIndex>)
        ensures
            self@ > 0 ==> r.is_some() && r.unwrap()@ == self@ - 1,
            self@ == 0 ==> r.is_none(),
    {
        proof {
            use_type_invariant(self);
        }
        if self.value > 0 {
            Some(BitmapIndex { value: self.value - 1 })
        } else {
            None
        }
    }
}

} // verus!

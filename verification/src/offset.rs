//! The two widths of the offsets of variable-length arrays.

use vstd::prelude::*;

verus! {

/// An offset into a value buffer: `i32`, or `i64` for large arrays.
pub trait OffsetSizeTrait: Copy {
    /// The offset as a number.
    spec fn value(self) -> int;

    /// The greatest offset of this width.
    spec fn max_value() -> int;

    /// No offset is above the greatest one.
    proof fn lemma_at_most_max(self)
        ensures
            self.value() <= Self::max_value(),
    ;

    /// The offset as an index, where it is one.
    fn to_usize(self) -> (r: Option<usize>)
        ensures
            r is Some <==> 0 <= self.value() <= usize::MAX,
            r matches Some(v) ==> v == self.value(),
    ;

    /// An index as an offset, where it is not too great.
    fn from_usize(v: usize) -> (r: Option<Self>)
        ensures
            r is Some <==> v <= Self::max_value(),
            r matches Some(o) ==> o.value() == v,
    ;
}

impl OffsetSizeTrait for i32 {
    open spec fn value(self) -> int {
        self as int
    }

    open spec fn max_value() -> int {
        i32::MAX as int
    }

    proof fn lemma_at_most_max(self) {
    }

    fn to_usize(self) -> (r: Option<usize>) {
        if self >= 0 {
            Some(self as usize)
        } else {
            None
        }
    }

    fn from_usize(v: usize) -> (r: Option<i32>) {
        if v <= 0x7fff_ffff {
            Some(v as i32)
        } else {
            None
        }
    }
}

impl OffsetSizeTrait for i64 {
    open spec fn value(self) -> int {
        self as int
    }

    open spec fn max_value() -> int {
        i64::MAX as int
    }

    proof fn lemma_at_most_max(self) {
    }

    fn to_usize(self) -> (r: Option<usize>) {
        if self >= 0 && self as u64 <= usize::MAX as u64 {
            Some(self as usize)
        } else {
            None
        }
    }

    fn from_usize(v: usize) -> (r: Option<i64>) {
        if v as u64 <= 0x7fff_ffff_ffff_ffff {
            Some(v as i64)
        } else {
            None
        }
    }
}

} // verus!

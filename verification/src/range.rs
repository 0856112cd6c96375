use core::ops::{Range, RangeFrom, RangeFull, RangeInclusive, RangeTo, RangeToInclusive};
use vstd::prelude::*;

verus! {

#[verifier::external_type_specification]
pub struct ExRangeFull(RangeFull);

#[verifier::external_type_specification]
#[verifier::reject_recursive_types(Idx)]
pub struct ExRangeFrom<Idx>(RangeFrom<Idx>);

#[verifier::external_type_specification]
#[verifier::reject_recursive_types(Idx)]
pub struct ExRangeTo<Idx>(RangeTo<Idx>);

#[verifier::external_type_specification]
#[verifier::reject_recursive_types(Idx)]
pub struct ExRangeToInclusive<Idx>(RangeToInclusive<Idx>);

/// Relies on `RangeInclusive::start`: it returns the lower bound the range
/// was created with, which is the `start` of the view vstd gives the type.
pub assume_specification<Idx>[ RangeInclusive::<Idx>::start ](r: &RangeInclusive<Idx>) -> (ret:
    &Idx)
    ensures
        *ret == r@.start,
;

/// Relies on `RangeInclusive::end`: it returns the upper bound the range was
/// created with, which is the `end` of the view vstd gives the type.
pub assume_specification<Idx>[ RangeInclusive::<Idx>::end ](r: &RangeInclusive<Idx>) -> (ret: &Idx)
    ensures
        *ret == r@.end,
;

/// A range expression over the indices of a logical sequence: any of the
/// standard range forms over `usize`. Normalization yields a half-open pair
/// `(start, end)` with `end` clamped to the sequence's length; `start` is
/// not clamped, so a `start` at or past `end` describes an empty range.
pub trait LeafRange: Sized {
    /// The requested start index.
    spec fn start_spec(self) -> int;

    /// The requested end index (exclusive), already clamped to `len`.
    spec fn end_spec(self, len: int) -> int;

    /// Normalize into a concrete index pair.
    fn bounds(self, len: usize) -> (r: (usize, usize))
        ensures
            r.0 as int == self.start_spec(),
            r.1 as int == self.end_spec(len as int),
            r.1 <= len,
    ;
}

impl LeafRange for Range<usize> {
    open spec fn start_spec(self) -> int {
        self.start as int
    }

    open spec fn end_spec(self, len: int) -> int {
        if self.end as int <= len {
            self.end as int
        } else {
            len
        }
    }

    fn bounds(self, len: usize) -> (r: (usize, usize)) {
        (self.start, if self.end <= len {
            self.end
        } else {
            len
        })
    }
}

impl LeafRange for RangeInclusive<usize> {
    open spec fn start_spec(self) -> int {
        self@.start as int
    }

    open spec fn end_spec(self, len: int) -> int {
        if self@.end as int + 1 <= len {
            self@.end as int + 1
        } else {
            len
        }
    }

    fn bounds(self, len: usize) -> (r: (usize, usize)) {
        let start = *self.start();
        let end = *self.end();
        (start, if end < len {
            end + 1
        } else {
            len
        })
    }
}

impl LeafRange for RangeFrom<usize> {
    open spec fn start_spec(self) -> int {
        self.start as int
    }

    open spec fn end_spec(self, len: int) -> int {
        len
    }

    fn bounds(self, len: usize) -> (r: (usize, usize)) {
        (self.start, len)
    }
}

impl LeafRange for RangeTo<usize> {
    open spec fn start_spec(self) -> int {
        0
    }

    open spec fn end_spec(self, len: int) -> int {
        if self.end as int <= len {
            self.end as int
        } else {
            len
        }
    }

    fn bounds(self, len: usize) -> (r: (usize, usize)) {
        (0, if self.end <= len {
            self.end
        } else {
            len
        })
    }
}

impl LeafRange for RangeToInclusive<usize> {
    open spec fn start_spec(self) -> int {
        0
    }

    open spec fn end_spec(self, len: int) -> int {
        if self.end as int + 1 <= len {
            self.end as int + 1
        } else {
            len
        }
    }

    fn bounds(self, len: usize) -> (r: (usize, usize)) {
        (0, if self.end < len {
            self.end + 1
        } else {
            len
        })
    }
}

impl LeafRange for RangeFull {
    open spec fn start_spec(self) -> int {
        0
    }

    open spec fn end_spec(self, len: int) -> int {
        len
    }

    fn bounds(self, len: usize) -> (r: (usize, usize)) {
        (0, len)
    }
}

} // verus!

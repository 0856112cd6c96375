use vstd::prelude::*;

use crate::coalesced::Coalesce;

verus! {

/// One entry of a [`crate::coalesced::Coalesced`] history: a coalescible
/// value together with an extension carried beside it.
#[derive(Debug, Clone, Copy, PartialEq, Eq, PartialOrd, Ord, Default, Hash)]
pub struct Extension<C, E> {
    pub value: C,
    pub extension: E,
}

impl<C> Extension<C, ()> {
    /// An entry with no extension.
    pub fn new(value: C) -> (r: Self)
        ensures
            r.value == value,
            r.extension == (),
    {
        Self { value, extension: () }
    }
}

impl<C, E> Extension<C, E> {
    /// An entry with the given extension.
    pub fn new_with(value: C, extension: E) -> (r: Self)
        ensures
            r.value == value,
            r.extension == extension,
    {
        Self { value, extension }
    }
}

impl<C: Coalesce, E> Extension<C, E> {
    /// Whether this entry's value takes precedence over the other's, in the
    /// sense of [`Coalesce::straight_spec`].
    pub open spec fn straight_spec(self, other: Self) -> bool {
        self.value.straight_spec(other.value)
    }

    /// Delegate [`Coalesce::straight`] to the carried values.
    pub fn straight(&self, other: &Self) -> (r: bool)
        ensures
            r == self.straight_spec(*other),
    {
        self.value.straight(&other.value)
    }
}

} // verus!

use vstd::prelude::*;

verus! {

/// Relies on the derived `Clone` of `core::marker::PhantomData`: the marker
/// is a zero-sized unit value, so its clone is the value itself.
pub assume_specification<T>[ <core::marker::PhantomData<T> as core::clone::Clone>::clone ](
    m: &core::marker::PhantomData<T>,
) -> (r: core::marker::PhantomData<T>) where T: core::marker::PointeeSized
    ensures
        r == *m,
;

/// Marker for reading a [`crate::coalesced::Coalesced`] at its prior
/// position: the latest value that took precedence.
#[derive(Debug, Clone, Copy, PartialEq, Eq, PartialOrd, Ord, Default, Hash)]
pub struct Prior;

/// Marker for reading a [`crate::coalesced::Coalesced`] at its posterior
/// position: the earliest value that took precedence.
#[derive(Debug, Clone, Copy, PartialEq, Eq, PartialOrd, Ord, Default, Hash)]
pub struct Posterior;

/// Marker for a history of exactly one entry.
#[derive(Debug, Clone, Copy, PartialEq, Eq, PartialOrd, Ord, Default, Hash)]
pub struct Single;

/// Marker for a history of one or more entries.
#[derive(Debug, Clone, Copy, PartialEq, Eq, PartialOrd, Ord, Default, Hash)]
pub struct Multiple;

/// The two read positions kept for a [`crate::coalesced::Coalesced`]
/// history, with a marker choosing which one [`Access`] reads.
#[derive(Debug, Clone, Copy, PartialEq, Eq, PartialOrd, Ord, Default, Hash)]
pub struct Accessor<A> {
    pub prior: usize,
    pub posterior: usize,
    pub marker: core::marker::PhantomData<A>,
}

impl<A> Accessor<A> {
    /// Both positions start at the only entry of a fresh history.
    pub fn new() -> (r: Self)
        ensures
            r.prior == 0,
            r.posterior == 0,
    {
        Accessor { prior: 0, posterior: 0, marker: core::marker::PhantomData }
    }

    /// The same positions, read at the posterior one.
    pub fn as_posterior(self) -> (r: Accessor<Posterior>)
        ensures
            r.prior == self.prior,
            r.posterior == self.posterior,
    {
        Accessor { prior: self.prior, posterior: self.posterior, marker: core::marker::PhantomData }
    }

    /// The same positions, read at the prior one.
    pub fn as_prior(self) -> (r: Accessor<Prior>)
        ensures
            r.prior == self.prior,
            r.posterior == self.posterior,
    {
        Accessor { prior: self.prior, posterior: self.posterior, marker: core::marker::PhantomData }
    }

    /// Rebuild with explicit positions.
    pub fn with_positions(prior: usize, posterior: usize) -> (r: Self)
        ensures
            r.prior == prior,
            r.posterior == posterior,
    {
        Accessor { prior, posterior, marker: core::marker::PhantomData }
    }
}

/// Which of an [`Accessor`]'s two positions a marker type reads.
pub trait Access: Sized {
    /// The position read, for specifications.
    spec fn position_spec(accessor: Accessor<Self>) -> int;

    /// The position is one of the two kept.
    proof fn lemma_position(accessor: Accessor<Self>)
        ensures
            Self::position_spec(accessor) == accessor.prior as int || Self::position_spec(accessor)
                == accessor.posterior as int,
    ;

    /// Read the position.
    fn position(accessor: &Accessor<Self>) -> (r: usize)
        ensures
            r as int == Self::position_spec(*accessor),
    ;
}

impl Access for Prior {
    open spec fn position_spec(accessor: Accessor<Prior>) -> int {
        accessor.prior as int
    }

    proof fn lemma_position(accessor: Accessor<Prior>) {
    }

    fn position(accessor: &Accessor<Prior>) -> (r: usize) {
        accessor.prior
    }
}

impl Access for Posterior {
    open spec fn position_spec(accessor: Accessor<Posterior>) -> int {
        accessor.posterior as int
    }

    proof fn lemma_position(accessor: Accessor<Posterior>) {
    }

    fn position(accessor: &Accessor<Posterior>) -> (r: usize) {
        accessor.posterior
    }
}

} // verus!

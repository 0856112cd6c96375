use vstd::prelude::*;

use crate::annotate::{Annotate, Annotated};
use crate::construction::Construction;
use crate::monoid::Monoid;
use crate::semigroup::{AnnotatedSemigroup, Semigroup};

verus! {

/// A [`Semigroup`] construction that returns the first non-`None` value.
///
/// # Examples
/// ```
/// use semigroup::{op::Coalesce, Semigroup};
///
/// let a = Coalesce(None);
/// let b = Coalesce(Some(2));
///
/// assert_eq!(a.semigroup(b).0, Some(2));
/// ```
#[derive(Debug, Clone, Copy, PartialEq, Eq, PartialOrd, Ord, Default, Hash)]
pub struct Coalesce<T>(pub Option<T>);

impl<T> Semigroup for Coalesce<T> {
    open spec fn op_spec(base: Self, other: Self) -> Self {
        if base.0 is Some {
            base
        } else {
            other
        }
    }

    proof fn lemma_associative(a: Self, b: Self, c: Self) {
    }

    fn op(base: Self, other: Self) -> (r: Self) {
        if base.0.is_some() {
            base
        } else {
            other
        }
    }
}

impl<T> Monoid for Coalesce<T> {
    open spec fn identity_spec() -> Self {
        Coalesce(None)
    }

    proof fn lemma_identity(a: Self) {
    }

    fn identity() -> (r: Self) {
        Coalesce(None)
    }
}

impl<T, A> AnnotatedSemigroup<A> for Coalesce<T> {
    open spec fn annotated_op_spec(base: Annotated<Self, A>, other: Annotated<Self, A>) -> Annotated<
        Self,
        A,
    > {
        if base.value_spec().0 is Some || other.value_spec().0 is None {
            base
        } else {
            other
        }
    }

    proof fn lemma_annotated_value(base: Annotated<Self, A>, other: Annotated<Self, A>) {
    }

    proof fn lemma_annotated_associative(
        a: Annotated<Self, A>,
        b: Annotated<Self, A>,
        c: Annotated<Self, A>,
    ) {
    }

    fn annotated_op(base: Annotated<Self, A>, other: Annotated<Self, A>) -> (r: Annotated<Self, A>) {
        if base.value().0.is_some() || other.value().0.is_none() {
            base
        } else {
            other
        }
    }
}

impl<T, A> Annotate<A> for Coalesce<T> {
    type Annotation = A;

    fn annotated(self, annotation: A) -> (r: Annotated<Self, A>)
        ensures
            r.value_spec() == self,
            r.annotation_spec() == annotation,
    {
        Annotated::new(self, annotation)
    }
}

impl<T> Construction<Option<T>> for Coalesce<T> {
    open spec fn inner_spec(self) -> Option<T> {
        self.0
    }

    open spec fn wrap_spec(inner: Option<T>) -> Self {
        Coalesce(inner)
    }

    proof fn lemma_wrap_inner(inner: Option<T>) {
    }

    fn into_inner(self) -> (r: Option<T>) {
        self.0
    }

    fn wrap(inner: Option<T>) -> (r: Self) {
        Coalesce(inner)
    }
}

} // verus!

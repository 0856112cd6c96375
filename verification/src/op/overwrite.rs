use vstd::prelude::*;

use crate::annotate::{Annotate, Annotated};
use crate::construction::Construction;
use crate::semigroup::{AnnotatedSemigroup, Semigroup};

verus! {

/// A semigroup construction that returns the second value.
///
/// # Examples
/// ```
/// use semigroup::{op::Overwrite, Semigroup};
///
/// let a = Overwrite(1);
/// let b = Overwrite(2);
///
/// assert_eq!(a.semigroup(b).0, 2);
/// ```
#[derive(Debug, Clone, Copy, PartialEq, Eq, PartialOrd, Ord, Default, Hash)]
pub struct Overwrite<T>(pub T);

impl<T> Semigroup for Overwrite<T> {
    open spec fn op_spec(base: Self, other: Self) -> Self {
        other
    }

    proof fn lemma_associative(a: Self, b: Self, c: Self) {
    }

    fn op(base: Self, other: Self) -> (r: Self) {
        other
    }
}

impl<T, A> AnnotatedSemigroup<A> for Overwrite<T> {
    open spec fn annotated_op_spec(base: Annotated<Self, A>, other: Annotated<Self, A>) -> Annotated<
        Self,
        A,
    > {
        other
    }

    proof fn lemma_annotated_value(base: Annotated<Self, A>, other: Annotated<Self, A>) {
    }

    proof fn lemma_annotated_associative(
        a: Annotated<Self, A>,
        b: Annotated<Self, A>,
        c: Annotated<Self, A>,
    ) {
    }

    fn annotated_op(base: Annotated<Self, A>, other: Annotated<Self, A>) -> (r: Annotated<Self, A>) {
        other
    }
}

impl<T, A> Annotate<A> for Overwrite<T> {
    type Annotation = A;

    fn annotated(self, annotation: A) -> (r: Annotated<Self, A>)
        ensures
            r.value_spec() == self,
            r.annotation_spec() == annotation,
    {
        Annotated::new(self, annotation)
    }
}

impl<T> Construction<T> for Overwrite<T> {
    open spec fn inner_spec(self) -> T {
        self.0
    }

    open spec fn wrap_spec(inner: T) -> Self {
        Overwrite(inner)
    }

    proof fn lemma_wrap_inner(inner: T) {
    }

    fn into_inner(self) -> (r: T) {
        self.0
    }

    fn wrap(inner: T) -> (r: Self) {
        Overwrite(inner)
    }
}

} // verus!

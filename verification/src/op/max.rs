use vstd::prelude::*;

use crate::annotate::{Annotate, Annotated};
use crate::commutative::Commutative;
use crate::construction::Construction;
use crate::monoid::Monoid;
use crate::semigroup::{AnnotatedSemigroup, Semigroup};

verus! {

/// A [`Semigroup`] construction that returns the maximum value.
///
/// # Examples
/// ```
/// use semigroup::{op::Max, Semigroup};
///
/// let a = Max(1);
/// let b = Max(2);
///
/// assert_eq!(a.semigroup(b).0, 2);
/// ```
#[derive(Debug, Clone, Copy, PartialEq, Eq, PartialOrd, Ord, Default, Hash)]
pub struct Max<T>(pub T);

impl Semigroup for Max<i32> {
    open spec fn op_spec(base: Self, other: Self) -> Self {
        if base.0 >= other.0 {
            base
        } else {
            other
        }
    }

    proof fn lemma_associative(a: Self, b: Self, c: Self) {
    }

    fn op(base: Self, other: Self) -> (r: Self) {
        if base.0 >= other.0 {
            base
        } else {
            other
        }
    }
}

impl Monoid for Max<i32> {
    open spec fn identity_spec() -> Self {
        Max(i32::MIN)
    }

    proof fn lemma_identity(a: Self) {
    }

    fn identity() -> (r: Self) {
        Max(i32::MIN)
    }
}

impl Commutative for Max<i32> {
    proof fn lemma_commutative(a: Self, b: Self) {
    }
}

impl<A> AnnotatedSemigroup<A> for Max<i32> {
    open spec fn annotated_op_spec(base: Annotated<Self, A>, other: Annotated<Self, A>) -> Annotated<
        Self,
        A,
    > {
        if base.value_spec().0 > other.value_spec().0 {
            base
        } else {
            other
        }
    }

    proof fn lemma_annotated_value(base: Annotated<Self, A>, other: Annotated<Self, A>) {
    }

    proof fn lemma_annotated_associative(
        a: Annotated<Self, A>,
        b: Annotated<Self, A>,
        c: Annotated<Self, A>,
    ) {
    }

    fn annotated_op(base: Annotated<Self, A>, other: Annotated<Self, A>) -> (r: Annotated<Self, A>) {
        if base.value().0 > other.value().0 {
            base
        } else {
            other
        }
    }
}

impl<A> Annotate<A> for Max<i32> {
    type Annotation = A;

    fn annotated(self, annotation: A) -> (r: Annotated<Self, A>)
        ensures
            r.value_spec() == self,
            r.annotation_spec() == annotation,
    {
        Annotated::new(self, annotation)
    }
}

impl Construction<i32> for Max<i32> {
    open spec fn inner_spec(self) -> i32 {
        self.0
    }

    open spec fn wrap_spec(inner: i32) -> Self {
        Max(inner)
    }

    proof fn lemma_wrap_inner(inner: i32) {
    }

    fn into_inner(self) -> (r: i32) {
        self.0
    }

    fn wrap(inner: i32) -> (r: Self) {
        Max(inner)
    }
}

impl From<i32> for Max<i32> {
    fn from(value: i32) -> (r: Self)
        ensures
            r == Max(value),
    {
        Max(value)
    }
}

impl vstd::std_specs::convert::FromSpecImpl<i32> for Max<i32> {
    open spec fn obeys_from_spec() -> bool {
        true
    }

    open spec fn from_spec(v: i32) -> Self {
        Max(v)
    }
}

} // verus!

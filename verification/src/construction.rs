use vstd::prelude::*;

use crate::annotate::Annotated;
use crate::monoid::Monoid;
use crate::semigroup::{AnnotatedSemigroup, Semigroup};

verus! {

/// [`Construction`] represents a [`Semigroup`] as a new type struct over a
/// carrier type `T`: values can be wrapped and unwrapped, and the operation
/// can be lifted to the carrier.
pub trait Construction<T>: Semigroup + Sized {
    /// The carried value, for specifications.
    spec fn inner_spec(self) -> T;

    /// The wrapped value, for specifications.
    spec fn wrap_spec(inner: T) -> Self;

    /// Wrapping carries exactly the given value.
    proof fn lemma_wrap_inner(inner: T)
        ensures
            Self::wrap_spec(inner).inner_spec() == inner,
    ;

    /// Convert into the inner type of the new type struct.
    fn into_inner(self) -> (r: T)
        ensures
            r == self.inner_spec(),
    ;

    /// Wrap a carrier value.
    fn wrap(inner: T) -> (r: Self)
        ensures
            r == Self::wrap_spec(inner),
    ;

    /// Semigroup operation between `base` and `other` on the carrier type.
    /// When `T` itself does not implement [`Semigroup`], this function can be
    /// used.
    fn lift_op(base: T, other: T) -> (r: T)
        ensures
            r == Self::op_spec(Self::wrap_spec(base), Self::wrap_spec(other)).inner_spec(),
    {
        Self::op(Self::wrap(base), Self::wrap(other)).into_inner()
    }
}

/// [`ConstructionAnnotated`] represents an [`AnnotatedSemigroup`] as a new
/// type struct like [`Construction`]: the annotated operation can be lifted
/// to annotated carrier values.
pub trait ConstructionAnnotated<T, A>: Construction<T> + AnnotatedSemigroup<A> {
    /// Annotated semigroup operation between `base` and `other` on the
    /// carrier type.
    fn lift_annotated_op(base: Annotated<T, A>, other: Annotated<T, A>) -> (r: Annotated<T, A>)
        ensures
            ({
                let c = Self::annotated_op_spec(
                    Annotated::with_parts(
                        Self::wrap_spec(base.value_spec()),
                        base.annotation_spec(),
                    ),
                    Annotated::with_parts(
                        Self::wrap_spec(other.value_spec()),
                        other.annotation_spec(),
                    ),
                );
                r == Annotated::with_parts(c.value_spec().inner_spec(), c.annotation_spec())
            }),
    {
        let (bv, ba) = base.into_parts();
        let (ov, oa) = other.into_parts();
        let c = Self::annotated_op(
            Annotated::new(Self::wrap(bv), ba),
            Annotated::new(Self::wrap(ov), oa),
        );
        let (cv, ca) = c.into_parts();
        Annotated::new(cv.into_inner(), ca)
    }
}

impl<T, A, S: Construction<T> + AnnotatedSemigroup<A>> ConstructionAnnotated<T, A> for S {

}

/// [`ConstructionMonoid`] represents a [`Monoid`] as a new type struct like
/// [`Construction`]: the identity element can be taken on the carrier type.
pub trait ConstructionMonoid<T>: Construction<T> + Monoid {
    /// Get the monoid *identity element* on the carrier type. When `T` itself
    /// does not implement [`Monoid`], this function can be used.
    fn lift_identity() -> (r: T)
        ensures
            r == Self::identity_spec().inner_spec(),
    {
        Self::identity().into_inner()
    }
}

impl<T, S: Construction<T> + Monoid> ConstructionMonoid<T> for S {

}

} // verus!

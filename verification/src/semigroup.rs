use rand::seq::IndexedRandom;
use vstd::prelude::*;

use crate::annotate::Annotated;

verus! {

/// [`Semigroup`] represents a binary operation that satisfies the following properties
/// 1. *Closure*: `op: T × T → T`
/// 2. *Associativity*: `op(op(a, b), c) = op(a, op(b, c))`
///
/// The operation is described twice: [`Semigroup::op_spec`] gives its
/// mathematical meaning, and [`Semigroup::op`] is the executable form, whose
/// contract ties it to the former. Every implementation must prove
/// associativity through [`Semigroup::lemma_associative`], so code that is
/// generic over a [`Semigroup`] may rely on the law for any implementation.
pub trait Semigroup: Sized {
    /// The meaning of the operation.
    spec fn op_spec(base: Self, other: Self) -> Self;

    /// The operation is associative.
    proof fn lemma_associative(a: Self, b: Self, c: Self)
        ensures
            Self::op_spec(Self::op_spec(a, b), c) == Self::op_spec(a, Self::op_spec(b, c)),
    ;

    /// Combine two values with the operation.
    fn op(base: Self, other: Self) -> (r: Self)
        ensures
            r == Self::op_spec(base, other),
    ;

    /// Method form of [`Semigroup::op`].
    fn semigroup(self, other: Self) -> (r: Self)
        ensures
            r == Self::op_spec(self, other),
    {
        Self::op(self, other)
    }
}

/// [`AnnotatedSemigroup`] is a [`Semigroup`] that has an annotation, such as
/// [`crate::Annotate`]: the operation also decides which operand's annotation
/// the combined value carries.
///
/// [`AnnotatedSemigroup::lemma_annotated_value`] ties the annotated operation
/// to the plain one: stripped of annotations it is exactly [`Semigroup::op_spec`].
pub trait AnnotatedSemigroup<A>: Sized + Semigroup {
    /// The meaning of the annotated operation.
    spec fn annotated_op_spec(base: Annotated<Self, A>, other: Annotated<Self, A>) -> Annotated<
        Self,
        A,
    >;

    /// The annotated operation combines the values exactly as the plain operation.
    proof fn lemma_annotated_value(base: Annotated<Self, A>, other: Annotated<Self, A>)
        ensures
            Self::annotated_op_spec(base, other).value_spec() == Self::op_spec(
                base.value_spec(),
                other.value_spec(),
            ),
    ;

    /// The annotated operation is associative.
    proof fn lemma_annotated_associative(
        a: Annotated<Self, A>,
        b: Annotated<Self, A>,
        c: Annotated<Self, A>,
    )
        ensures
            Self::annotated_op_spec(Self::annotated_op_spec(a, b), c)
                == Self::annotated_op_spec(a, Self::annotated_op_spec(b, c)),
    ;

    /// Combine two annotated values.
    fn annotated_op(base: Annotated<Self, A>, other: Annotated<Self, A>) -> (r: Annotated<Self, A>)
        ensures
            r == Self::annotated_op_spec(base, other),
    ;
}

/// Relies on rand's `IndexedRandom::choose_multiple_array`: when the slice
/// has at least three elements, three elements at distinct positions are
/// sampled, in random order. Nothing is promised of a random choice; the law
/// checks below hold for every value, so any outcome serves.
#[verifier::external_body]
pub fn pick3<T: Copy>(data: &[T]) -> (T, T, T)
    requires
        data@.len() >= 3,
{
    data.choose_multiple_array(&mut rand::rng())
        .map(|[a, b, c]: [T; 3]| (a, b, c))
        .expect("failed to pick 3 items")
}

/// The associative law, checked statically for every [`Semigroup`]:
/// combining either way around yields the same value.
pub fn assert_associative_law<T: Semigroup + Copy>(a: T, b: T, c: T) {
    let ab_c = T::op(T::op(a, b), c);
    let a_bc = T::op(a, T::op(b, c));
    proof {
        T::lemma_associative(a, b, c);
    }
    assert(ab_c == a_bc);
}

/// The bundle of [`Semigroup`] laws, checked statically: associativity, the
/// reversal laws, folding through containers and lazy buffers, and the
/// optional-monoid extension.
pub fn assert_semigroup_impl<T: Semigroup + Copy>(a: T, b: T, c: T) {
    assert_associative_law(a, b, c);
    crate::combine::assert_reverse_reverse(a, b, c);
    crate::combine::assert_reverse_associative_law(a, b, c);
    crate::combine::assert_combine_iter(a, b, c);
    crate::lazy::assert_lazy(a, b, c);
    crate::monoid::assert_option_monoid(a, b, c);
}

} // verus!

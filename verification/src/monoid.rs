use vstd::prelude::*;

use crate::commutative::Commutative;
use crate::semigroup::Semigroup;

verus! {

/// [`Monoid`] represents a binary operation that satisfies the following properties
/// 1. *Closure*: `op: T × T → T`
/// 2. *Associativity*: `op(op(a, b), c) = op(a, op(b, c))`
/// 3. Existence of *identity element*: `op(identity(), a) = a = op(a, identity())`
///
/// The first two come from [`Semigroup`]; the identity element is described by
/// [`Monoid::identity_spec`] and its law by [`Monoid::lemma_identity`].
pub trait Monoid: Semigroup {
    /// The meaning of the identity element.
    spec fn identity_spec() -> Self;

    /// The identity element is neutral on both sides.
    proof fn lemma_identity(a: Self)
        ensures
            Self::op_spec(Self::identity_spec(), a) == a,
            Self::op_spec(a, Self::identity_spec()) == a,
    ;

    /// Produce the identity element.
    fn identity() -> (r: Self)
        ensures
            r == Self::identity_spec(),
    ;
}

/// Construct a [`Monoid`] from an optional [`Semigroup`].
/// Some [`Semigroup`] operations lack a suitable *identity element* for
/// extension to a [`Monoid`]; wrapping the values in [`Option`] supplies one:
/// `None` is neutral, and two `Some` values combine with the inner operation.
///
/// # Examples
/// ```
/// use semigroup::{op::Max, Monoid, OptionMonoid, Semigroup};
///
/// let a = OptionMonoid::from(Max(2));
/// let b = OptionMonoid::<Max<i32>>::identity();
///
/// assert_eq!(a.semigroup(b), OptionMonoid(Some(Max(2))));
/// ```
#[derive(Debug, Clone, Copy, PartialEq, Eq, PartialOrd, Ord, Default, Hash)]
pub struct OptionMonoid<T>(pub Option<T>);

impl<T: Semigroup> Semigroup for OptionMonoid<T> {
    open spec fn op_spec(base: Self, other: Self) -> Self {
        match (base, other) {
            (OptionMonoid(Some(b)), OptionMonoid(Some(o))) => OptionMonoid(
                Some(T::op_spec(b, o)),
            ),
            (b, OptionMonoid(None)) => b,
            (OptionMonoid(None), o) => o,
        }
    }

    proof fn lemma_associative(a: Self, b: Self, c: Self) {
        if a.0 is Some && b.0 is Some && c.0 is Some {
            T::lemma_associative(a.0->0, b.0->0, c.0->0);
        }
    }

    fn op(base: Self, other: Self) -> (r: Self) {
        match (base, other) {
            (OptionMonoid(Some(b)), OptionMonoid(Some(o))) => OptionMonoid(
                Some(Semigroup::op(b, o)),
            ),
            (b, OptionMonoid(None)) => b,
            (OptionMonoid(None), o) => o,
        }
    }
}

impl<T: Semigroup> Monoid for OptionMonoid<T> {
    open spec fn identity_spec() -> Self {
        OptionMonoid(None)
    }

    proof fn lemma_identity(a: Self) {
    }

    fn identity() -> (r: Self) {
        OptionMonoid(None)
    }
}

impl<T: Commutative> Commutative for OptionMonoid<T> {
    proof fn lemma_commutative(a: Self, b: Self) {
        if a.0 is Some && b.0 is Some {
            T::lemma_commutative(a.0->0, b.0->0);
        }
    }
}

impl<T: Semigroup> From<T> for OptionMonoid<T> {
    fn from(value: T) -> (r: Self)
        ensures
            r == OptionMonoid(Some(value)),
    {
        OptionMonoid(Some(value))
    }
}

impl<T: Semigroup> vstd::std_specs::convert::FromSpecImpl<T> for OptionMonoid<T> {
    open spec fn obeys_from_spec() -> bool {
        true
    }

    open spec fn from_spec(v: T) -> Self {
        OptionMonoid(Some(v))
    }
}

/// The identity and associative laws of a [`Monoid`], checked statically:
/// the identity element is neutral on both sides and does not disturb
/// associativity.
pub fn assert_monoid_identity_associative_law<T: Monoid + Copy>(a: T, b: T, c: T) {
    proof {
        T::lemma_identity(T::identity_spec());
        T::lemma_identity(a);
        T::lemma_identity(b);
        T::lemma_identity(c);
    }
    let id = T::op(T::identity(), T::identity());
    assert(id == T::identity_spec());
    assert(T::op_spec(a, T::identity_spec()) == a);
    assert(T::op_spec(T::identity_spec(), a) == a);
    assert(T::op_spec(b, T::identity_spec()) == b);
    assert(T::op_spec(T::identity_spec(), b) == b);
    assert(T::op_spec(c, T::identity_spec()) == c);
    assert(T::op_spec(T::identity_spec(), c) == c);

    crate::semigroup::assert_associative_law(a, b, c);
    crate::semigroup::assert_associative_law(T::identity(), b, c);
    crate::semigroup::assert_associative_law(a, T::identity(), c);
    crate::semigroup::assert_associative_law(a, b, T::identity());
}

/// The bundle of [`Monoid`] laws, checked statically.
pub fn assert_monoid_impl<T: Monoid + Copy>(a: T, b: T, c: T) {
    assert_monoid_identity_associative_law(a, b, c);
    crate::combine::assert_combine_iter_monoid(a, b, c);
}

/// The [`OptionMonoid`] of any [`Semigroup`] obeys the monoid laws:
/// checked statically.
pub fn assert_option_monoid<T: Semigroup + Copy>(a: T, b: T, c: T) {
    assert_monoid_impl(
        OptionMonoid(Some(a)),
        OptionMonoid(Some(b)),
        OptionMonoid(Some(c)),
    );
}

} // verus!

use vstd::prelude::*;

use crate::commutative::Commutative;
use crate::construction::Construction;
use crate::monoid::Monoid;
use crate::semigroup::Semigroup;

verus! {

/// A [`Semigroup`] construction that returns the exclusive or.
///
/// # Examples
/// ```
/// use semigroup::{op::Xor, Semigroup};
///
/// let a = Xor(0b101);
/// let b = Xor(0b100);
///
/// assert_eq!(a.semigroup(b).0, 0b001);
/// ```
#[derive(Debug, Clone, Copy, PartialEq, Eq, PartialOrd, Ord, Default, Hash)]
pub struct Xor<T>(pub T);

impl Semigroup for Xor<i32> {
    open spec fn op_spec(base: Self, other: Self) -> Self {
        Xor(base.0 ^ other.0)
    }

    proof fn lemma_associative(a: Self, b: Self, c: Self) {
        let (x, y, z) = (a.0, b.0, c.0);
        assert((x ^ y) ^ z == x ^ (y ^ z)) by (bit_vector);
    }

    fn op(base: Self, other: Self) -> (r: Self) {
        Xor(base.0 ^ other.0)
    }
}

impl Monoid for Xor<i32> {
    open spec fn identity_spec() -> Self {
        Xor(0)
    }

    proof fn lemma_identity(a: Self) {
        let x = a.0;
        assert(0i32 ^ x == x) by (bit_vector);
        assert(x ^ 0i32 == x) by (bit_vector);
    }

    fn identity() -> (r: Self) {
        Xor(0)
    }
}

impl Commutative for Xor<i32> {
    proof fn lemma_commutative(a: Self, b: Self) {
        let (x, y) = (a.0, b.0);
        assert(x ^ y == y ^ x) by (bit_vector);
    }
}

impl Construction<i32> for Xor<i32> {
    open spec fn inner_spec(self) -> i32 {
        self.0
    }

    open spec fn wrap_spec(inner: i32) -> Self {
        Xor(inner)
    }

    proof fn lemma_wrap_inner(inner: i32) {
    }

    fn into_inner(self) -> (r: i32) {
        self.0
    }

    fn wrap(inner: i32) -> (r: Self) {
        Xor(inner)
    }
}

impl From<i32> for Xor<i32> {
    fn from(value: i32) -> (r: Self)
        ensures
            r == Xor(value),
    {
        Xor(value)
    }
}

impl vstd::std_specs::convert::FromSpecImpl<i32> for Xor<i32> {
    open spec fn obeys_from_spec() -> bool {
        true
    }

    open spec fn from_spec(v: i32) -> Self {
        Xor(v)
    }
}

} // verus!

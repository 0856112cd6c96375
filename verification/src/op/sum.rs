use vstd::prelude::*;

use crate::commutative::Commutative;
use crate::construction::Construction;
use crate::monoid::Monoid;
use crate::semigroup::Semigroup;

verus! {

/// A semigroup construction that returns the sum.
///
/// Addition wraps around on overflow, so the operation is total and stays
/// associative on the whole domain; on every pair whose exact sum fits in the
/// carrier type it is the exact sum.
///
/// # Examples
/// ```
/// use semigroup::{op::Sum, Semigroup};
///
/// let a = Sum(1);
/// let b = Sum(2);
///
/// assert_eq!(a.semigroup(b).0, 3);
/// ```
#[derive(Debug, Clone, Copy, PartialEq, Eq, PartialOrd, Ord, Default, Hash)]
pub struct Sum<T>(pub T);

impl Semigroup for Sum<i32> {
    open spec fn op_spec(base: Self, other: Self) -> Self {
        Sum(vstd::wrapping::i32_specs::wrapping_add(base.0, other.0))
    }

    proof fn lemma_associative(a: Self, b: Self, c: Self) {
    }

    fn op(base: Self, other: Self) -> (r: Self) {
        Sum(base.0.wrapping_add(other.0))
    }
}

impl Monoid for Sum<i32> {
    open spec fn identity_spec() -> Self {
        Sum(0)
    }

    proof fn lemma_identity(a: Self) {
    }

    fn identity() -> (r: Self) {
        Sum(0)
    }
}

impl Commutative for Sum<i32> {
    proof fn lemma_commutative(a: Self, b: Self) {
    }
}

impl Semigroup for Sum<u128> {
    open spec fn op_spec(base: Self, other: Self) -> Self {
        Sum(vstd::wrapping::u128_specs::wrapping_add(base.0, other.0))
    }

    proof fn lemma_associative(a: Self, b: Self, c: Self) {
    }

    fn op(base: Self, other: Self) -> (r: Self) {
        Sum(base.0.wrapping_add(other.0))
    }
}

impl Monoid for Sum<u128> {
    open spec fn identity_spec() -> Self {
        Sum(0)
    }

    proof fn lemma_identity(a: Self) {
    }

    fn identity() -> (r: Self) {
        Sum(0)
    }
}

impl Commutative for Sum<u128> {
    proof fn lemma_commutative(a: Self, b: Self) {
    }
}

impl Construction<i32> for Sum<i32> {
    open spec fn inner_spec(self) -> i32 {
        self.0
    }

    open spec fn wrap_spec(inner: i32) -> Self {
        Sum(inner)
    }

    proof fn lemma_wrap_inner(inner: i32) {
    }

    fn into_inner(self) -> (r: i32) {
        self.0
    }

    fn wrap(inner: i32) -> (r: Self) {
        Sum(inner)
    }
}

impl From<i32> for Sum<i32> {
    fn from(value: i32) -> (r: Self)
        ensures
            r == Sum(value),
    {
        Sum(value)
    }
}

impl vstd::std_specs::convert::FromSpecImpl<i32> for Sum<i32> {
    open spec fn obeys_from_spec() -> bool {
        true
    }

    open spec fn from_spec(v: i32) -> Self {
        Sum(v)
    }
}

impl Construction<u128> for Sum<u128> {
    open spec fn inner_spec(self) -> u128 {
        self.0
    }

    open spec fn wrap_spec(inner: u128) -> Self {
        Sum(inner)
    }

    proof fn lemma_wrap_inner(inner: u128) {
    }

    fn into_inner(self) -> (r: u128) {
        self.0
    }

    fn wrap(inner: u128) -> (r: Self) {
        Sum(inner)
    }
}

impl From<u128> for Sum<u128> {
    fn from(value: u128) -> (r: Self)
        ensures
            r == Sum(value),
    {
        Sum(value)
    }
}

impl vstd::std_specs::convert::FromSpecImpl<u128> for Sum<u128> {
    open spec fn obeys_from_spec() -> bool {
        true
    }

    open spec fn from_spec(v: u128) -> Self {
        Sum(v)
    }
}

} // verus!

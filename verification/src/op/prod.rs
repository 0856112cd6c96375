use vstd::arithmetic::div_mod::{
    lemma_fundamental_div_mod, lemma_mod_multiples_vanish, lemma_mul_mod_noop_general,
    lemma_small_mod,
};
use vstd::arithmetic::mul::lemma_mul_is_associative;
use vstd::prelude::*;
use vstd::wrapping::i32_specs::signed_crop;

use crate::commutative::Commutative;
use crate::construction::Construction;
use crate::monoid::Monoid;
use crate::semigroup::Semigroup;

verus! {

/// A [`Semigroup`] construction that returns the product.
///
/// Multiplication wraps around on overflow, so the operation is total and
/// stays associative on the whole domain; on every pair whose exact product
/// fits in the carrier type it is the exact product.
///
/// # Examples
/// ```
/// use semigroup::{op::Prod, Semigroup};
///
/// let a = Prod(2);
/// let b = Prod(3);
///
/// assert_eq!(a.semigroup(b).0, 6);
/// ```
#[derive(Debug, Clone, Copy, PartialEq, Eq, PartialOrd, Ord, Default, Hash)]
pub struct Prod<T>(pub T);

/// The range of `i32` as an `int`.
pub(crate) open spec fn range32() -> int {
    0x1_0000_0000
}

/// `signed_crop` keeps the value's congruence class modulo `2^32` and lands in `i32`.
proof fn lemma_signed_crop_congruent(x: int)
    ensures
        (signed_crop(x) as int) % range32() == x % range32(),
        i32::MIN <= signed_crop(x) <= i32::MAX,
{
    let m = range32();
    lemma_fundamental_div_mod(x, m);
    assert(0 <= x % m < m) by {
        vstd::arithmetic::div_mod::lemma_mod_division_less_than_divisor(x, m);
    }
    if (x % m) > i32::MAX as int {
        lemma_mod_multiples_vanish(-1, x % m, m);
        lemma_small_mod(((x % m) - m + m) as nat, m as nat);
        assert(signed_crop(x) == (x % m) - m);
        assert(((x % m) - m) % m == x % m) by {
            lemma_mod_multiples_vanish(-1, x % m, m);
        }
        assert((signed_crop(x) as int) % m == ((x % m) - m) % m);
    } else {
        lemma_small_mod((x % m) as nat, m as nat);
    }
}

/// Two values in the same congruence class modulo `2^32` crop to the same `i32`.
proof fn lemma_signed_crop_same(x: int, y: int)
    requires
        x % range32() == y % range32(),
    ensures
        signed_crop(x) == signed_crop(y),
{
}

/// Congruence of products: replacing a factor by a congruent one keeps the
/// product's class modulo `2^32`.
proof fn lemma_mul_congruent(a: int, b: int, c: int)
    requires
        a % range32() == b % range32(),
    ensures
        (a * c) % range32() == (b * c) % range32(),
{
    let m = range32();
    lemma_mul_mod_noop_general(a, c, m);
    lemma_mul_mod_noop_general(b, c, m);
}

impl Semigroup for Prod<i32> {
    open spec fn op_spec(base: Self, other: Self) -> Self {
        Prod(vstd::wrapping::i32_specs::wrapping_mul(base.0, other.0))
    }

    proof fn lemma_associative(a: Self, b: Self, c: Self) {
        let (x, y, z) = (a.0 as int, b.0 as int, c.0 as int);
        let m = range32();
        let xy = signed_crop(x * y) as int;
        let yz = signed_crop(y * z) as int;
        lemma_signed_crop_congruent(x * y);
        lemma_signed_crop_congruent(y * z);
        lemma_mul_congruent(xy, x * y, z);
        lemma_mul_is_associative(x, y, z);
        assert((xy * z) % m == (x * (y * z)) % m);
        lemma_mul_congruent(yz, y * z, x);
        assert((yz * x) % m == ((y * z) * x) % m);
        assert(yz * x == x * yz) by {
            vstd::arithmetic::mul::lemma_mul_is_commutative(yz, x);
        }
        assert((y * z) * x == x * (y * z)) by {
            vstd::arithmetic::mul::lemma_mul_is_commutative(y * z, x);
        }
        assert((xy * z) % m == (x * yz) % m);
        lemma_signed_crop_same(xy * z, x * yz);
    }

    fn op(base: Self, other: Self) -> (r: Self) {
        Prod(base.0.wrapping_mul(other.0))
    }
}

impl Monoid for Prod<i32> {
    open spec fn identity_spec() -> Self {
        Prod(1)
    }

    proof fn lemma_identity(a: Self) {
        let x = a.0 as int;
        assert(1 * x == x) by {
            vstd::arithmetic::mul::lemma_mul_basics(x);
        }
        assert(x * 1 == x) by {
            vstd::arithmetic::mul::lemma_mul_basics(x);
        }
        lemma_small_crop(a.0);
    }

    fn identity() -> (r: Self) {
        Prod(1)
    }
}

/// Cropping a value already in range is the value itself.
proof fn lemma_small_crop(x: i32)
    ensures
        signed_crop(x as int) == x,
{
    let m = range32();
    if x >= 0 {
        lemma_small_mod(x as nat, m as nat);
    } else {
        lemma_mod_multiples_vanish(1, x as int, m);
        lemma_small_mod((x + m) as nat, m as nat);
    }
}

impl Commutative for Prod<i32> {
    proof fn lemma_commutative(a: Self, b: Self) {
        vstd::arithmetic::mul::lemma_mul_is_commutative(a.0 as int, b.0 as int);
    }
}

impl Construction<i32> for Prod<i32> {
    open spec fn inner_spec(self) -> i32 {
        self.0
    }

    open spec fn wrap_spec(inner: i32) -> Self {
        Prod(inner)
    }

    proof fn lemma_wrap_inner(inner: i32) {
    }

    fn into_inner(self) -> (r: i32) {
        self.0
    }

    fn wrap(inner: i32) -> (r: Self) {
        Prod(inner)
    }
}

impl From<i32> for Prod<i32> {
    fn from(value: i32) -> (r: Self)
        ensures
            r == Prod(value),
    {
        Prod(value)
    }
}

impl vstd::std_specs::convert::FromSpecImpl<i32> for Prod<i32> {
    open spec fn obeys_from_spec() -> bool {
        true
    }

    open spec fn from_spec(v: i32) -> Self {
        Prod(v)
    }
}

} // verus!

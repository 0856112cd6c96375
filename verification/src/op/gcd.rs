use vstd::arithmetic::div_mod::{
    lemma_add_mod_noop, lemma_fundamental_div_mod, lemma_mod_multiples_basic, lemma_mod_self_0,
    lemma_small_mod, lemma_sub_mod_noop,
};
use vstd::prelude::*;

use crate::commutative::Commutative;
use crate::construction::Construction;
use crate::monoid::Monoid;
use crate::semigroup::Semigroup;

verus! {

/// `d` divides `n`.
pub open spec fn divides(d: nat, n: nat) -> bool {
    if d == 0 {
        n == 0
    } else {
        n % d == 0
    }
}

/// The greatest common divisor, by the Euclidean recursion; `0` is taken as
/// the divisor of nothing but `0`, so `gcd_spec(a, 0) == a`.
pub open spec fn gcd_spec(a: nat, b: nat) -> nat
    decreases b,
{
    if b == 0 {
        a
    } else {
        gcd_spec(b, a % b)
    }
}

/// Every multiple of `d` is divided by `d`.
proof fn lemma_divides_multiple(d: nat, k: nat)
    ensures
        divides(d, d * k),
{
    if d > 0 {
        lemma_mod_multiples_basic(k as int, d as int);
        assert(d * k == k * d) by (nonlinear_arith);
    } else {
        assert(d * k == 0) by (nonlinear_arith)
            requires
                d == 0,
        ;
    }
}

/// A divisor of `n > 0` is no larger than `n`.
proof fn lemma_divides_le(d: nat, n: nat)
    requires
        divides(d, n),
        n > 0,
    ensures
        d <= n,
{
    lemma_fundamental_div_mod(n as int, d as int);
    let q = n as int / d as int;
    assert(n as int == d as int * q);
    assert(q >= 1 ==> d as int * q >= d as int) by (nonlinear_arith);
    assert(q <= 0 ==> d as int * q <= 0) by (nonlinear_arith);
}

/// Divisibility is transitive.
proof fn lemma_divides_trans(x: nat, m: nat, n: nat)
    requires
        divides(x, m),
        divides(m, n),
    ensures
        divides(x, n),
{
    if m == 0 || x == 0 {
    } else {
        lemma_fundamental_div_mod(n as int, m as int);
        lemma_fundamental_div_mod(m as int, x as int);
        let qn = n as int / m as int;
        let qm = m as int / x as int;
        assert(n as int == (x as int * qm) * qn);
        assert((x as int * qm) * qn == x as int * (qm * qn)) by (nonlinear_arith);
        assert(qm >= 0 && qn >= 0 ==> qm * qn >= 0) by (nonlinear_arith);
        lemma_divides_multiple(x, (qm * qn) as nat);
        assert(x as int * (qm * qn) == (x * ((qm * qn) as nat)) as int);
    }
}

/// A common divisor of two values divides their sum.
proof fn lemma_divides_add(d: nat, x: nat, y: nat)
    requires
        divides(d, x),
        divides(d, y),
    ensures
        divides(d, x + y),
{
    if d > 0 {
        lemma_add_mod_noop(x as int, y as int, d as int);
        lemma_small_mod(0, d);
    }
}

/// A common divisor of `a` and `b > 0` divides the remainder `a % b`.
proof fn lemma_divides_mod(d: nat, a: nat, b: nat)
    requires
        divides(d, a),
        divides(d, b),
        b > 0,
    ensures
        divides(d, a % b),
{
    assert(d > 0);
    lemma_fundamental_div_mod(a as int, b as int);
    let q = a as int / b as int;
    assert(a as int - b as int * q == (a % b) as int);
    lemma_fundamental_div_mod(b as int, d as int);
    let qb = b as int / d as int;
    assert(b as int * q == d as int * (qb * q)) by (nonlinear_arith)
        requires
            b as int == d as int * qb,
    ;
    assert(qb >= 0 && q >= 0 ==> qb * q >= 0) by (nonlinear_arith);
    lemma_divides_multiple(d, (qb * q) as nat);
    assert((b * q) as int % d as int == 0) by {
        assert(d as int * (qb * q) == (d * ((qb * q) as nat)) as int);
    }
    assert(a as int % d as int == 0);
    assert((b as int * q) % d as int == 0);
    lemma_small_mod(0, d);
    lemma_sub_mod_noop(a as int, b as int * q, d as int);
    assert((a as int - b as int * q) % d as int == 0);
}

/// The recursion's result divides both arguments.
proof fn lemma_gcd_divides(a: nat, b: nat)
    ensures
        divides(gcd_spec(a, b), a),
        divides(gcd_spec(a, b), b),
    decreases b,
{
    if b == 0 {
        if a > 0 {
            lemma_mod_self_0(a as int);
            lemma_small_mod(0, a);
        }
    } else {
        lemma_gcd_divides(b, a % b);
        let g = gcd_spec(b, a % b);
        assert(g > 0) by {
            if g == 0 {
                assert(b == 0);
            }
        }
        lemma_fundamental_div_mod(a as int, b as int);
        let q = a as int / b as int;
        assert(a as int == b as int * q + (a % b) as int);
        lemma_fundamental_div_mod(b as int, g as int);
        let qb = b as int / g as int;
        assert(b as int * q == g as int * (qb * q)) by (nonlinear_arith)
            requires
                b as int == g as int * qb,
        ;
        assert(qb >= 0 && q >= 0 ==> qb * q >= 0) by (nonlinear_arith);
        lemma_divides_multiple(g, (qb * q) as nat);
        assert((b * q) as int % g as int == 0) by {
            assert(g as int * (qb * q) == (g * ((qb * q) as nat)) as int);
        }
        assert((b as int * q) % g as int == 0);
        assert((a % b) as int % g as int == 0);
        lemma_small_mod(0, g);
        lemma_add_mod_noop(b as int * q, (a % b) as int, g as int);
        assert((b as int * q + (a % b) as int) % g as int == 0);
    }
}

/// Every common divisor of the arguments divides the recursion's result.
proof fn lemma_gcd_greatest(a: nat, b: nat, d: nat)
    requires
        divides(d, a),
        divides(d, b),
    ensures
        divides(d, gcd_spec(a, b)),
    decreases b,
{
    if b > 0 {
        lemma_divides_mod(d, a, b);
        lemma_gcd_greatest(b, a % b, d);
    }
}

/// Two values that divide each other are equal.
proof fn lemma_divides_antisym(x: nat, y: nat)
    requires
        divides(x, y),
        divides(y, x),
    ensures
        x == y,
{
    if x == 0 || y == 0 {
    } else {
        lemma_divides_le(x, y);
        lemma_divides_le(y, x);
    }
}

/// The greatest common divisor is associative.
pub proof fn lemma_gcd_associative(a: nat, b: nat, c: nat)
    ensures
        gcd_spec(gcd_spec(a, b), c) == gcd_spec(a, gcd_spec(b, c)),
{
    let ab = gcd_spec(a, b);
    let bc = gcd_spec(b, c);
    let x = gcd_spec(ab, c);
    let y = gcd_spec(a, bc);
    lemma_gcd_divides(ab, c);
    lemma_gcd_divides(a, b);
    lemma_divides_trans(x, ab, a);
    lemma_divides_trans(x, ab, b);
    lemma_gcd_greatest(b, c, x);
    lemma_gcd_greatest(a, bc, x);
    lemma_gcd_divides(a, bc);
    lemma_gcd_divides(b, c);
    lemma_divides_trans(y, bc, b);
    lemma_divides_trans(y, bc, c);
    lemma_gcd_greatest(a, b, y);
    lemma_gcd_greatest(ab, c, y);
    lemma_divides_antisym(x, y);
}

/// The greatest common divisor is commutative.
pub proof fn lemma_gcd_commutative(a: nat, b: nat)
    ensures
        gcd_spec(a, b) == gcd_spec(b, a),
{
    let x = gcd_spec(a, b);
    let y = gcd_spec(b, a);
    lemma_gcd_divides(a, b);
    lemma_gcd_greatest(b, a, x);
    lemma_gcd_divides(b, a);
    lemma_gcd_greatest(a, b, y);
    lemma_divides_antisym(x, y);
}

/// Zero is neutral for the greatest common divisor.
pub proof fn lemma_gcd_zero(a: nat)
    ensures
        gcd_spec(a, 0) == a,
        gcd_spec(0, a) == a,
{
    if a > 0 {
        lemma_small_mod(0, a);
        assert(gcd_spec(0, a) == gcd_spec(a, 0nat % a));
    }
}

/// The result fits wherever the arguments fit.
proof fn lemma_gcd_bound(a: nat, b: nat)
    ensures
        a > 0 ==> gcd_spec(a, b) <= a,
        a == 0 ==> gcd_spec(a, b) == b,
{
    if a > 0 {
        lemma_gcd_divides(a, b);
        lemma_divides_le(gcd_spec(a, b), a);
    } else {
        lemma_gcd_zero(b);
    }
}

/// A [`Semigroup`] construction that returns the greatest common divisor.
///
/// # Examples
/// ```
/// use semigroup::{op::Gcd, Semigroup};
///
/// let a = Gcd(12u32);
/// let b = Gcd(18);
///
/// assert_eq!(a.semigroup(b).0, 6);
/// ```
#[derive(Debug, Clone, Copy, PartialEq, Eq, PartialOrd, Ord, Default, Hash)]
pub struct Gcd<T>(pub T);

/// Relies on num's `Integer::gcd` for `u32` (Stein's algorithm): it computes
/// the greatest common divisor of its arguments, the value the Euclidean
/// recursion [`gcd_spec`] defines.
#[verifier::external_body]
fn gcd_u32(a: u32, b: u32) -> (r: u32)
    ensures
        r as nat == gcd_spec(a as nat, b as nat),
{
    num::integer::gcd(a, b)
}

impl Semigroup for Gcd<u32> {
    open spec fn op_spec(base: Self, other: Self) -> Self {
        Gcd(gcd_spec(base.0 as nat, other.0 as nat) as u32)
    }

    proof fn lemma_associative(a: Self, b: Self, c: Self) {
        let (x, y, z) = (a.0 as nat, b.0 as nat, c.0 as nat);
        lemma_gcd_bound(x, y);
        lemma_gcd_bound(y, z);
        lemma_gcd_bound(gcd_spec(x, y), z);
        lemma_gcd_bound(x, gcd_spec(y, z));
        lemma_gcd_associative(x, y, z);
    }

    fn op(base: Self, other: Self) -> (r: Self) {
        proof {
            lemma_gcd_bound(base.0 as nat, other.0 as nat);
        }
        Gcd(gcd_u32(base.0, other.0))
    }
}

impl Monoid for Gcd<u32> {
    open spec fn identity_spec() -> Self {
        Gcd(0)
    }

    proof fn lemma_identity(a: Self) {
        lemma_gcd_zero(a.0 as nat);
    }

    fn identity() -> (r: Self) {
        Gcd(0)
    }
}

impl Commutative for Gcd<u32> {
    proof fn lemma_commutative(a: Self, b: Self) {
        lemma_gcd_commutative(a.0 as nat, b.0 as nat);
        lemma_gcd_bound(a.0 as nat, b.0 as nat);
        lemma_gcd_bound(b.0 as nat, a.0 as nat);
    }
}

impl Construction<u32> for Gcd<u32> {
    open spec fn inner_spec(self) -> u32 {
        self.0
    }

    open spec fn wrap_spec(inner: u32) -> Self {
        Gcd(inner)
    }

    proof fn lemma_wrap_inner(inner: u32) {
    }

    fn into_inner(self) -> (r: u32) {
        self.0
    }

    fn wrap(inner: u32) -> (r: Self) {
        Gcd(inner)
    }
}

impl From<u32> for Gcd<u32> {
    fn from(value: u32) -> (r: Self)
        ensures
            r == Gcd(value),
    {
        Gcd(value)
    }
}

impl vstd::std_specs::convert::FromSpecImpl<u32> for Gcd<u32> {
    open spec fn obeys_from_spec() -> bool {
        true
    }

    open spec fn from_spec(v: u32) -> Self {
        Gcd(v)
    }
}

} // verus!

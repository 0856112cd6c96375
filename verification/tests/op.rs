use semigroup::op::{Coalesce, Concat, Gcd, Max, Min, Overwrite, Prod, Sum, Xor};
use semigroup::{
    assert_commutative_impl, assert_monoid_impl, assert_semigroup_impl, pick3, Construction,
    Semigroup,
};

#[test]
fn test_sum_semigroup() {
    let (a, b, c) = (Sum(1), Sum(2), Sum(3));
    let v = vec![a, b, c];
    let (a, b, c) = pick3(&v);
    assert_semigroup_impl(a, b, c);
}

#[test]
fn test_sum_monoid() {
    let (a, b, c) = (Sum(1), Sum(2), Sum(3));
    let v = vec![a, b, c];
    let (a, b, c) = pick3(&v);
    assert_monoid_impl(a, b, c);
}

#[test]
fn sum_test_sum_commutative() {
    let (a, b, c) = (Sum(1), Sum(2), Sum(3));
    let v = vec![a, b, c];
    let (a, b, c) = pick3(&v);
    assert_commutative_impl(a, b, c);
}

#[test]
fn sum_test_sum() {
    let (a, b) = (Sum(1), Sum(2));
    assert_eq!(a.semigroup(b).into_inner(), 3);
    assert_eq!(b.semigroup(a).into_inner(), 3);
}

#[test]
fn test_sum_as_semigroup_op() {
    let (a, b, c) = (Sum(1), Sum(2), Sum(3));
    let v = vec![a, b, c];
    let (a, b, c) = pick3(&v);
    assert_semigroup_impl(a, b, c);
}

#[test]
fn test_sum_as_monoid() {
    let (a, b, c) = (Sum(1), Sum(2), Sum(3));
    let v = vec![a, b, c];
    let (a, b, c) = pick3(&v);
    assert_monoid_impl(a, b, c);
}

#[test]
fn test_prod_semigroup() {
    let (a, b, c) = (Prod(1), Prod(2), Prod(3));
    let v = vec![a, b, c];
    let (a, b, c) = pick3(&v);
    assert_semigroup_impl(a, b, c);
}

#[test]
fn test_prod_monoid() {
    let (a, b, c) = (Prod(1), Prod(2), Prod(3));
    let v = vec![a, b, c];
    let (a, b, c) = pick3(&v);
    assert_monoid_impl(a, b, c);
}

#[test]
fn prod_test_prod_commutative() {
    let (a, b, c) = (Prod(1), Prod(2), Prod(3));
    let v = vec![a, b, c];
    let (a, b, c) = pick3(&v);
    assert_commutative_impl(a, b, c);
}

#[test]
fn prod_test_prod() {
    let (a, b) = (Prod(1), Prod(2));
    assert_eq!(a.semigroup(b).into_inner(), 2);
    assert_eq!(b.semigroup(a).into_inner(), 2);
}

#[test]
fn test_prod_as_semigroup_op() {
    let (a, b, c) = (Prod(1), Prod(2), Prod(3));
    let v = vec![a, b, c];
    let (a, b, c) = pick3(&v);
    assert_semigroup_impl(a, b, c);
}

#[test]
fn test_prod_as_monoid() {
    let (a, b, c) = (Prod(1), Prod(2), Prod(3));
    let v = vec![a, b, c];
    let (a, b, c) = pick3(&v);
    assert_monoid_impl(a, b, c);
}

#[test]
fn test_max_semigroup() {
    let (a, b, c) = (Max(1), Max(2), Max(3));
    let v = vec![a, b, c];
    let (a, b, c) = pick3(&v);
    assert_semigroup_impl(a, b, c);
}

#[test]
fn test_max_monoid() {
    let (a, b, c) = (Max(1), Max(2), Max(3));
    let v = vec![a, b, c];
    let (a, b, c) = pick3(&v);
    assert_monoid_impl(a, b, c);
}

#[test]
fn max_test_max_commutative() {
    let (a, b, c) = (Max(1), Max(2), Max(3));
    let v = vec![a, b, c];
    let (a, b, c) = pick3(&v);
    assert_commutative_impl(a, b, c);
}

#[test]
fn max_test_max() {
    let (a, b) = (Max(1), Max(2));
    assert_eq!(a.semigroup(b).into_inner(), 2);
    assert_eq!(b.semigroup(a).into_inner(), 2);
}

#[test]
fn test_max_as_semigroup_op() {
    let (a, b, c) = (Max(1), Max(2), Max(3));
    let v = vec![a, b, c];
    let (a, b, c) = pick3(&v);
    assert_semigroup_impl(a, b, c);
}

#[test]
fn test_max_as_monoid() {
    let (a, b, c) = (Max(1), Max(2), Max(3));
    let v = vec![a, b, c];
    let (a, b, c) = pick3(&v);
    assert_monoid_impl(a, b, c);
}

#[test]
fn test_min_semigroup() {
    let (a, b, c) = (Min(1), Min(2), Min(3));
    let v = vec![a, b, c];
    let (a, b, c) = pick3(&v);
    assert_semigroup_impl(a, b, c);
}

#[test]
fn test_min_monoid() {
    let (a, b, c) = (Min(1), Min(2), Min(3));
    let v = vec![a, b, c];
    let (a, b, c) = pick3(&v);
    assert_monoid_impl(a, b, c);
}

#[test]
fn min_test_min_commutative() {
    let (a, b, c) = (Min(1), Min(2), Min(3));
    let v = vec![a, b, c];
    let (a, b, c) = pick3(&v);
    assert_commutative_impl(a, b, c);
}

#[test]
fn min_test_min() {
    let (a, b) = (Min(1), Min(2));
    assert_eq!(a.semigroup(b).into_inner(), 1);
    assert_eq!(b.semigroup(a).into_inner(), 1);

    let (ra, rb) = (semigroup::Reverse(a), semigroup::Reverse(b));
    assert_eq!(ra.semigroup(rb).0.into_inner(), 1);
}

#[test]
fn test_min_as_semigroup_op() {
    let (a, b, c) = (Min(1), Min(2), Min(3));
    let v = vec![a, b, c];
    let (a, b, c) = pick3(&v);
    assert_semigroup_impl(a, b, c);
}

#[test]
fn test_min_as_monoid() {
    let (a, b, c) = (Min(1), Min(2), Min(3));
    let v = vec![a, b, c];
    let (a, b, c) = pick3(&v);
    assert_monoid_impl(a, b, c);
}

#[test]
fn test_xor_semigroup() {
    let (a, b, c) = (Xor(0b111), Xor(0b101), Xor(0b100));
    let v = vec![a, b, c];
    let (a, b, c) = pick3(&v);
    assert_semigroup_impl(a, b, c);
}

#[test]
fn test_xor_monoid() {
    let (a, b, c) = (Xor(0b111), Xor(0b101), Xor(0b100));
    let v = vec![a, b, c];
    let (a, b, c) = pick3(&v);
    assert_monoid_impl(a, b, c);
}

#[test]
fn test_xor_commutative() {
    let (a, b, c) = (Xor(0b111), Xor(0b101), Xor(0b100));
    let v = vec![a, b, c];
    let (a, b, c) = pick3(&v);
    assert_commutative_impl(a, b, c);
}

#[test]
fn xor_test_xor() {
    let (a, b) = (Xor(0b101), Xor(0b100));
    assert_eq!(a.semigroup(b).into_inner(), 0b001);
    assert_eq!(b.semigroup(a).into_inner(), 0b001);
}

#[test]
fn test_coalesce_semigroup() {
    let (a, b, c) = (Coalesce(Some(1)), Coalesce(Some(2)), Coalesce(Some(3)));
    let v = vec![a, b, c];
    let (a, b, c) = pick3(&v);
    assert_semigroup_impl(a, b, c);
    let (a, b, c) = (Coalesce(None), Coalesce(Some(2)), Coalesce(Some(3)));
    let v = vec![a, b, c];
    let (a, b, c) = pick3(&v);
    assert_semigroup_impl(a, b, c);
    let (a, b, c) = (Coalesce(None), Coalesce(Some(2)), Coalesce(None));
    let v = vec![a, b, c];
    let (a, b, c) = pick3(&v);
    assert_semigroup_impl(a, b, c);
    let (a, b, c) = (Coalesce::<u32>(None), Coalesce(None), Coalesce(None));
    let v = vec![a, b, c];
    let (a, b, c) = pick3(&v);
    assert_semigroup_impl(a, b, c);
}

#[test]
fn test_coalesce_monoid() {
    let (a, b, c) = (Coalesce(Some(1)), Coalesce(Some(2)), Coalesce(Some(3)));
    let v = vec![a, b, c];
    let (a, b, c) = pick3(&v);
    assert_monoid_impl(a, b, c);
    let (a, b, c) = (Coalesce(None), Coalesce(Some(2)), Coalesce(Some(3)));
    let v = vec![a, b, c];
    let (a, b, c) = pick3(&v);
    assert_monoid_impl(a, b, c);
    let (a, b, c) = (Coalesce(None), Coalesce(Some(2)), Coalesce(None));
    let v = vec![a, b, c];
    let (a, b, c) = pick3(&v);
    assert_monoid_impl(a, b, c);
    let (a, b, c) = (Coalesce::<u32>(None), Coalesce(None), Coalesce(None));
    let v = vec![a, b, c];
    let (a, b, c) = pick3(&v);
    assert_monoid_impl(a, b, c);
}

#[test]
fn coalesce_test_coalesce() {
    let (a, b) = (Coalesce(None), Coalesce(Some("value")));
    assert_eq!(a.semigroup(b).into_inner(), Some("value"));
    assert_eq!(b.semigroup(a).into_inner(), Some("value"));

    let (a, b) = (Coalesce(Some(1)), Coalesce(Some(2)));
    assert_eq!(a.semigroup(b).into_inner(), Some(1));
    assert_eq!(b.semigroup(a).into_inner(), Some(2));
}

#[test]
fn test_coalesce_as_semigroup_op() {
    let (a, b, c) = (Coalesce(Some(1)), Coalesce(Some(2)), Coalesce(Some(3)));
    let v = vec![a, b, c];
    let (a, b, c) = pick3(&v);
    assert_semigroup_impl(a, b, c);
    let (a, b, c) = (Coalesce(None), Coalesce(Some(2)), Coalesce(Some(3)));
    let v = vec![a, b, c];
    let (a, b, c) = pick3(&v);
    assert_semigroup_impl(a, b, c);
    let (a, b, c) = (Coalesce(None), Coalesce(Some(2)), Coalesce(None));
    let v = vec![a, b, c];
    let (a, b, c) = pick3(&v);
    assert_semigroup_impl(a, b, c);
    let (a, b, c) = (Coalesce::<u32>(None), Coalesce(None), Coalesce(None));
    let v = vec![a, b, c];
    let (a, b, c) = pick3(&v);
    assert_semigroup_impl(a, b, c);
}

#[test]
fn test_overwrite_as_semigroup() {
    let (a, b, c) = (Overwrite(1), Overwrite(2), Overwrite(3));
    let v = vec![a, b, c];
    let (a, b, c) = pick3(&v);
    assert_semigroup_impl(a, b, c);
}

#[test]
fn overwrite_test_overwrite_as_semigroup_op() {
    let (a, b, c) = (Overwrite(1), Overwrite(2), Overwrite(3));
    let v = vec![a, b, c];
    let (a, b, c) = pick3(&v);
    assert_semigroup_impl(a, b, c);
}

#[test]
fn overwrite_test_overwrite() {
    let (a, b) = (Overwrite(Some(1)), Overwrite(Some(2)));
    assert_eq!(a.semigroup(b).into_inner(), Some(2));
    assert_eq!(b.semigroup(a).into_inner(), Some(1));
}

#[test]
fn test_concat() {
    let (a, b) = (Concat(vec![1]), Concat(vec![2]));
    assert_eq!(a.clone().semigroup(b.clone()).into_inner(), vec![1, 2]);
    assert_eq!(b.semigroup(a).into_inner(), vec![2, 1]);
}

#[test]
fn test_gcd_semigroup() {
    let (a, b, c) = (Gcd(12u32), Gcd(18), Gcd(27));
    let v = vec![a, b, c];
    let (a, b, c) = pick3(&v);
    assert_semigroup_impl(a, b, c);
}

#[test]
fn test_gcd_monoid() {
    let (a, b, c) = (Gcd(12u32), Gcd(18), Gcd(27));
    let v = vec![a, b, c];
    let (a, b, c) = pick3(&v);
    assert_monoid_impl(a, b, c);
}

#[test]
fn gcd_test_gcd_commutative() {
    let (a, b, c) = (Gcd(12u32), Gcd(18), Gcd(27));
    let v = vec![a, b, c];
    let (a, b, c) = pick3(&v);
    assert_commutative_impl(a, b, c);
}

#[test]
fn gcd_test_gcd() {
    let (a, b) = (Gcd(57u32), Gcd(95));
    assert_eq!(a.semigroup(b).into_inner(), 19);
    assert_eq!(b.semigroup(a).into_inner(), 19);
}

#[test]
fn gcd_test_gcd_as_semigroup_op() {
    let (a, b, c) = (Gcd(12u32), Gcd(18), Gcd(27));
    let v = vec![a, b, c];
    let (a, b, c) = pick3(&v);
    assert_semigroup_impl(a, b, c);
}

#[test]
fn gcd_test_gcd_as_monoid() {
    let (a, b, c) = (Gcd(12u32), Gcd(18), Gcd(27));
    let v = vec![a, b, c];
    let (a, b, c) = pick3(&v);
    assert_monoid_impl(a, b, c);
}

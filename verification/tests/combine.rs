use semigroup::op::{Coalesce, Sum};
use semigroup::{
    assert_combine_iter, assert_combine_iter_monoid, assert_semigroup_reverse, CombineIterator,
    Lazy, Reverse, Semigroup,
};

#[test]
fn test_fold_final() {
    let v1 = vec![Coalesce(None), Coalesce(Some(2)), Coalesce(Some(3))];
    assert_eq!(v1.fold_final(Coalesce(Some(4))), Coalesce(Some(2)));

    let v2 = vec![Coalesce::<u32>(None), Coalesce(None), Coalesce(None)];
    assert_eq!(v2.fold_final(Coalesce(Some(4))), Coalesce(Some(4)));
}

#[test]
fn test_rfold_final() {
    let v1 = vec![Coalesce(None), Coalesce(Some(2)), Coalesce(Some(3))];
    assert_eq!(v1.rfold_final(Coalesce(Some(3))), Coalesce(Some(3)));

    let v2 = vec![Coalesce::<u32>(None), Coalesce(None), Coalesce(None)];
    assert_eq!(v2.rfold_final(Coalesce(Some(4))), Coalesce(Some(4)));
}

#[test]
fn test_reduce() {
    let v1 = vec![Coalesce(None), Coalesce(Some(2)), Coalesce(Some(3))];
    assert_eq!(v1.clone().lreduce(), Some(Coalesce(Some(2))));
    assert_eq!(v1.rreduce(), Some(Coalesce(Some(3))));

    let v2 = vec![Coalesce::<u32>(None), Coalesce(None), Coalesce(None)];
    assert_eq!(v2.clone().lreduce(), Some(Coalesce(None)));
    assert_eq!(v2.rreduce(), Some(Coalesce(None)));

    let v3 = Vec::<Coalesce<u32>>::new();
    assert_eq!(v3.clone().lreduce(), None);
    assert_eq!(v3.rreduce(), None);
}

#[test]
fn test_combine_identity_folds() {
    let v1 = vec![Coalesce(None), Coalesce(Some(2)), Coalesce(Some(3))];
    assert_eq!(v1.clone().combine(), Coalesce(Some(2)));
    assert_eq!(v1.rcombine(), Coalesce(Some(3)));

    let sums = vec![Sum(1), Sum(2), Sum(3)];
    assert_eq!(sums.clone().combine(), Sum(6));
    assert_eq!(sums.rcombine(), Sum(6));
}

#[test]
fn test_collect_lazy() {
    let v1 = vec![Coalesce(Some(1)), Coalesce(Some(2)), Coalesce(Some(3))];
    assert_eq!(
        v1.collect_lazy(),
        Some(
            Lazy::from(Coalesce(Some(1)))
                .semigroup(Coalesce(Some(2)).into())
                .semigroup(Coalesce(Some(3)).into())
        )
    );

    let v2 = Vec::<Coalesce<u32>>::new();
    assert_eq!(v2.collect_lazy(), None);
}

#[test]
fn test_reverse_laws() {
    assert_semigroup_reverse(Coalesce(Some(1)), Coalesce(None), Coalesce(Some(3)));
    assert_combine_iter(Sum(1), Sum(2), Sum(3));
    assert_combine_iter_monoid(Sum(1), Sum(2), Sum(3));

    let a = Coalesce(Some(1));
    let b = Coalesce(Some(2));
    assert_eq!(a.semigroup(b), Coalesce(Some(1)));
    assert_eq!(Reverse(a).semigroup(Reverse(b)).0, Coalesce(Some(2)));
}

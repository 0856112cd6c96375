use semigroup::op::{Coalesce, Gcd, Max, Min, Overwrite, Prod, Sum, Xor};
use semigroup::segment_tree::SegmentTree;
use semigroup::{Monoid, OptionMonoid};

#[test]
fn segment_tree_test_sum() {
    let data = [0, 1, 2, 3, 4, 5, 6, 7, 8, 9, 10];
    let mut sum_tree = SegmentTree::from(data.into_iter().map(Sum).collect::<Vec<_>>());

    assert_eq!(sum_tree.combine(3..5).0, 7);
    assert_eq!(sum_tree.combine(2..7).0, 20);
    assert_eq!(sum_tree.combine(..).0, 55);
    assert_eq!(sum_tree.combine(5..5).0, 0);
    sum_tree.update(5, 10.into());
    assert_eq!(sum_tree.combine(3..=4).0, 7);
    assert_eq!(sum_tree.combine(2..7).0, 25);
    assert_eq!(sum_tree.combine(1..).0, 60);
    sum_tree.update_with(7, |Sum(x)| Sum(x * 2)); // t[7] = 14
    assert_eq!(sum_tree.combine(..6).0, 20);
    assert_eq!(sum_tree.combine(6..=8).0, 28);
}

#[test]
fn segment_tree_test_prod() {
    let data = [0, 1, 2, 3, 4, 5, 6, 7, 8, 9, 10];
    let mut prod_tree = SegmentTree::from(data.into_iter().map(Prod).collect::<Vec<_>>());

    assert_eq!(prod_tree.combine(3..5).0, 12);
    assert_eq!(prod_tree.combine(2..7).0, 720);
    assert_eq!(prod_tree.combine(0..11).0, 0);
    assert_eq!(prod_tree.combine(6..6).0, 1);
    prod_tree.update(5, 10.into());
    assert_eq!(prod_tree.combine(3..5).0, 12);
    assert_eq!(prod_tree.combine(2..7).0, 1440);
    assert_eq!(prod_tree.combine(0..).0, 0);
    prod_tree.update_with(7, |Prod(x)| Prod(x / 2)); // t[7] = 3
    assert_eq!(prod_tree.combine(5..=7).0, 180);
    assert_eq!(prod_tree.combine(8..).0, 720);
}

#[test]
fn segment_tree_test_max() {
    let data = [2, -5, 122, -33, -12, 14, -55, 500, 3];
    let mut max_tree = SegmentTree::from(data.into_iter().map(Max).collect::<Vec<_>>());

    assert_eq!(max_tree.combine(3..5).0, -12);
    assert_eq!(max_tree.combine(2..=6).0, 122);
    assert_eq!(max_tree.combine(..).0, 500);
    assert_eq!(max_tree.combine(0..0).0, i32::MIN);
    max_tree.update(5, 1000.into());
    assert_eq!(max_tree.combine(3..=4).0, -12);
    assert_eq!(max_tree.combine(2..7).0, 1000);
    assert_eq!(max_tree.combine(..10).0, 1000);
}

#[test]
fn segment_tree_test_min() {
    let data = [2, -5, 122, 33, 12, 14, -55, 500, 3];
    let mut min_tree = SegmentTree::from(data.into_iter().map(Min).collect::<Vec<_>>());

    assert_eq!(min_tree.combine(3..5).0, 12);
    assert_eq!(min_tree.combine(2..7).0, -55);
    assert_eq!(min_tree.combine(0..).0, -55);
    assert_eq!(min_tree.combine(5..5).0, i32::MAX);
    min_tree.update(5, (-1000).into());
    assert_eq!(min_tree.combine(3..5).0, 12);
    assert_eq!(min_tree.combine(2..7).0, -1000);
    assert_eq!(min_tree.combine(..10).0, -1000);
}

#[test]
fn segment_tree_test_xor() {
    let data = [0b111, 0b101, 0b100, 0b000, 0b010];
    let mut xor_tree = SegmentTree::from(data.into_iter().map(Xor).collect::<Vec<_>>());
    assert_eq!(xor_tree.combine(2..4).0, 0b100);
    assert_eq!(xor_tree.combine(2..5).0, 0b110);
    assert_eq!(xor_tree.combine(0..5).0, 0b100);
    assert_eq!(xor_tree.combine(5..5).0, 0b000);
    xor_tree.update(4, 0b110.into());
    assert_eq!(xor_tree.combine(2..4).0, 0b100);
    assert_eq!(xor_tree.combine(2..5).0, 0b010);
    assert_eq!(xor_tree.combine(0..5).0, 0b000);
}

#[test]
fn test_bisect() {
    let data = [-22, -5, 122, -33, -12, 14, -55, 500, 3];
    let mut max_tree = SegmentTree::from(data.into_iter().map(Max).collect::<Vec<_>>());
    assert_eq!(max_tree.bisect_left(2..5, |&Max(x)| x >= 10), Some(2));
    assert_eq!(max_tree.bisect_left(3..5, |&Max(x)| x >= 10), None);
    assert_eq!(max_tree.bisect_right(2..5, |&Max(x)| x >= 10), Some(2));
    assert_eq!(max_tree.bisect_right(3..5, |&Max(x)| x >= 10), None);
    max_tree.update(2, (-5).into());
    assert_eq!(max_tree.bisect_left(1..3, |&Max(x)| x >= -5), Some(1));
    assert_eq!(max_tree.bisect_left(1..5, |&Max(x)| x >= 500), None);
    assert_eq!(max_tree.bisect_left(5..10, |&Max(x)| x >= 500), Some(7));
    assert_eq!(max_tree.bisect_right(1..3, |&Max(x)| x >= -5), Some(2));
    assert_eq!(max_tree.bisect_right(1..5, |&Max(x)| x >= 500), None);
    assert_eq!(max_tree.bisect_right(5..10, |&Max(x)| x >= 500), Some(7));
    max_tree.update(3, (-5).into());
    assert_eq!(max_tree.bisect_left(..5, |&Max(x)| x >= -5), Some(1));
    assert_eq!(max_tree.bisect_right(..5, |&Max(x)| x >= -5), Some(3));
    max_tree.update(4, (-5).into());
    assert_eq!(max_tree.bisect_left(..5, |&Max(x)| x >= -5), Some(1));
    assert_eq!(max_tree.bisect_right(..5, |&Max(x)| x >= -5), Some(4));
    max_tree.update(0, (-5).into());
    assert_eq!(max_tree.bisect_left(..5, |&Max(x)| x >= -5), Some(0));
    assert_eq!(max_tree.bisect_right(..5, |&Max(x)| x >= -5), Some(4));
}

fn elements<T: Monoid + Copy>(tree: &SegmentTree<T>) -> Vec<T> {
    let mut it = tree.iter();
    let mut v = Vec::new();
    while let Some(x) = it.next() {
        v.push(x);
    }
    v
}

#[test]
fn test_empty_tree() {
    let empty = SegmentTree::<OptionMonoid<Coalesce<u64>>>::from(vec![]);
    assert!(empty.is_empty());
    assert_eq!(empty.len(), 0);
    assert_eq!(elements(&empty), vec![]);
    assert_eq!(empty.combine(..), OptionMonoid::identity());
    assert_eq!(empty.combine(0..0), OptionMonoid::identity());
}

#[test]
fn test_singleton_tree() {
    let mut single = SegmentTree::from(vec![OptionMonoid::from(Coalesce(Some(3)))]);
    assert!(!single.is_empty());
    assert_eq!(single.len(), 1);
    assert_eq!(elements(&single), vec![OptionMonoid::from(Coalesce(Some(3)))]);

    assert_eq!(single.combine(..), OptionMonoid::from(Coalesce(Some(3))));
    assert_eq!(single.combine(1..1), OptionMonoid::identity());
    assert_eq!(single.combine(1..), OptionMonoid::identity());
    single.update(0, OptionMonoid::from(Coalesce(Some(5))));
    assert_eq!(single.combine(..), OptionMonoid::from(Coalesce(Some(5))));
    assert_eq!(single.combine(1..), OptionMonoid::identity());
}

#[test]
fn test_pair_tree() {
    let mut pair = SegmentTree::from(vec![
        OptionMonoid::from(Coalesce(Some(3))),
        OptionMonoid::from(Coalesce(Some(4))),
    ]);
    assert!(!pair.is_empty());
    assert_eq!(pair.len(), 2);
    assert_eq!(
        elements(&pair),
        vec![
            OptionMonoid::from(Coalesce(Some(3))),
            OptionMonoid::from(Coalesce(Some(4))),
        ]
    );

    assert_eq!(pair.combine(..), OptionMonoid::from(Coalesce(Some(3))));
    assert_eq!(pair.combine(1..1), OptionMonoid::identity());
    assert_eq!(pair.combine(1..), OptionMonoid::from(Coalesce(Some(4))));
    pair.update(0, OptionMonoid::from(Coalesce(Some(5))));
    assert_eq!(pair.combine(..), OptionMonoid::from(Coalesce(Some(5))));
    assert_eq!(pair.combine(1..), OptionMonoid::from(Coalesce(Some(4))));
    assert_eq!(
        elements(&pair),
        vec![
            OptionMonoid::from(Coalesce(Some(5))),
            OptionMonoid::from(Coalesce(Some(4))),
        ]
    );
}

#[test]
fn test_large_tree() {
    let cum_sum = |s, t| (t - s + 1) * (s + t) / 2;
    let mut sum_tree = SegmentTree::from((0..2000000).map(Sum).collect::<Vec<_>>());
    assert_eq!(sum_tree.combine(0..=10).0, cum_sum(0u128, 10u128));
    assert_eq!(sum_tree.combine(5..=15).0, cum_sum(5, 15));
    assert_eq!(sum_tree.combine(123..=1234567).0, cum_sum(123, 1234567));
    assert_eq!(sum_tree.combine(123456..=345678).0, cum_sum(123456, 345678));
    assert_eq!(sum_tree.combine(888888..=999999).0, cum_sum(888888, 999999));
    assert_eq!(sum_tree.combine(..).0, cum_sum(0, 1999999));

    for i in 0..2000000 {
        sum_tree.update_with(i, |Sum(x)| Sum(x + 1)); // expensive loop
    }
    let cum_sum_1 = |s, t| (t - s + 1) * (s + t + 2) / 2;
    assert_eq!(sum_tree.combine(0..=10).0, cum_sum_1(0u128, 10u128));
    assert_eq!(sum_tree.combine(5..=15).0, cum_sum_1(5, 15));
    assert_eq!(sum_tree.combine(123..=1234567).0, cum_sum_1(123, 1234567));
    assert_eq!(
        sum_tree.combine(123456..=345678).0,
        cum_sum_1(123456, 345678)
    );
    assert_eq!(
        sum_tree.combine(888888..=999999).0,
        cum_sum_1(888888, 999999)
    );
    assert_eq!(sum_tree.combine(..).0, cum_sum_1(0, 1999999));
}

#[test]
fn test_push() {
    let cum_sum = |s, t| (t - s + 1) * (s + t) / 2;
    let mut sum_tree = SegmentTree::new();
    for i in 0..1023 {
        sum_tree.push(Sum(i));
        assert_eq!(sum_tree.combine(..).0, cum_sum(0, i));
    }
}

#[test]
fn test_large_push() {
    let cum_sum = |s, t| (t - s + 1) * (s + t) / 2;
    let mut sum_tree = SegmentTree::new();
    for i in 0..2000000 {
        sum_tree.push(Sum(i)); // expensive loop
        assert_eq!(sum_tree.combine(..).0, cum_sum(0u128, i));
    }
}

#[test]
fn test_extend() {
    let cum_sum = |s, t| (t - s + 1) * (s + t) / 2;
    let mut sum_tree = SegmentTree::new();
    sum_tree.extend_from_slice(&(0..1).map(Sum).collect::<Vec<_>>());
    assert_eq!(sum_tree.combine(..).0, cum_sum(0, 0));
    sum_tree.extend_from_slice(&(1..10).map(Sum).collect::<Vec<_>>());
    assert_eq!(sum_tree.combine(..).0, cum_sum(0, 9));
    sum_tree.extend_from_slice(&(10..100).map(Sum).collect::<Vec<_>>());
    assert_eq!(sum_tree.combine(..).0, cum_sum(0, 99));
    sum_tree.extend_from_slice(&(100..200).map(Sum).collect::<Vec<_>>());
    assert_eq!(sum_tree.combine(..).0, cum_sum(0, 199));
    sum_tree.extend_from_slice(&(200..300).map(Sum).collect::<Vec<_>>());
    assert_eq!(sum_tree.combine(..).0, cum_sum(0, 299));
    sum_tree.extend_from_slice(&(300..400).map(Sum).collect::<Vec<_>>());
    assert_eq!(sum_tree.combine(..).0, cum_sum(0, 399));
    sum_tree.extend_from_slice(&(400..500).map(Sum).collect::<Vec<_>>());
    assert_eq!(sum_tree.combine(..).0, cum_sum(0, 499));
    sum_tree.extend_from_slice(&(500..600).map(Sum).collect::<Vec<_>>());
    assert_eq!(sum_tree.combine(..).0, cum_sum(0, 599));
    sum_tree.extend_from_slice(&(600..700).map(Sum).collect::<Vec<_>>());
    assert_eq!(sum_tree.combine(..).0, cum_sum(0, 699));
    sum_tree.extend_from_slice(&(700..800).map(Sum).collect::<Vec<_>>());
    assert_eq!(sum_tree.combine(..).0, cum_sum(0, 799));
    sum_tree.extend_from_slice(&(800..900).map(Sum).collect::<Vec<_>>());
    assert_eq!(sum_tree.combine(..).0, cum_sum(0, 899));
    sum_tree.extend_from_slice(&(900..1000).map(Sum).collect::<Vec<_>>());
    assert_eq!(sum_tree.combine(..).0, cum_sum(0, 999));
    sum_tree.extend_from_slice(&[
        Sum(1000),
        Sum(1001),
        Sum(1002),
        Sum(1003),
        Sum(1004),
        Sum(1005),
        Sum(1006),
        Sum(1007),
        Sum(1008),
        Sum(1009),
    ]);
    assert_eq!(sum_tree.combine(..).0, cum_sum(0, 1009));
}

#[test]
#[allow(clippy::reversed_empty_ranges)]
fn test_descending_empty_range() {
    let data = [0, 1, 2, 3, 4, 5, 6, 7, 8, 9, 10];
    let sum_tree = SegmentTree::from(data.into_iter().map(Sum).collect::<Vec<_>>());
    assert_eq!(sum_tree.combine(10..0).0, 0);
    assert_eq!(sum_tree.combine(10..9).0, 0);
    assert_eq!(sum_tree.combine(9..8).0, 0);
}

#[test]
fn test_scenario_sum_slices() {
    let data = [0, 1, 2, 3, 4, 5, 6, 7, 8, 9, 10];
    let mut sum_tree = SegmentTree::from(data.into_iter().map(Sum).collect::<Vec<_>>());
    assert_eq!(sum_tree.combine(3..6).0, 12);
    assert_eq!(sum_tree.combine(..=5).0, 15);
    assert_eq!(sum_tree.combine(..=20).0, 55);
    assert_eq!(sum_tree.combine(..).0, 55);
    sum_tree.update(5, Sum(10));
    assert_eq!(sum_tree.combine(2..7).0, 25);
}

#[test]
fn test_scenario_push_matches_bulk_build() {
    let data = [7, -3, 12, 0, 5, 5, -8, 19];
    let bulk = SegmentTree::from(data.into_iter().map(Sum).collect::<Vec<_>>());
    let mut incremental = SegmentTree::new();
    for x in data {
        incremental.push(Sum(x));
    }
    assert_eq!(bulk, incremental);
    for s in 0..=data.len() {
        for e in 0..=data.len() {
            assert_eq!(bulk.combine(s..e), incremental.combine(s..e));
        }
    }
}

#[test]
fn test_scenario_round_trip() {
    let data = ["one", "two", "three", "four", "five"];
    let mut tree = SegmentTree::from(
        data.into_iter()
            .map(Overwrite)
            .map(OptionMonoid::from)
            .collect::<Vec<_>>(),
    );
    tree.update(1, OptionMonoid::from(Overwrite("deux")));
    let v = elements(&tree);
    assert_eq!(
        v,
        vec![
            OptionMonoid::from(Overwrite("one")),
            OptionMonoid::from(Overwrite("deux")),
            OptionMonoid::from(Overwrite("three")),
            OptionMonoid::from(Overwrite("four")),
            OptionMonoid::from(Overwrite("five")),
        ]
    );
}

#[test]
fn test_update_out_of_range_is_noop() {
    let mut tree = SegmentTree::from(vec![Sum(1), Sum(2), Sum(3)]);
    assert_eq!(tree.update(3, Sum(9)), None);
    assert_eq!(tree.update_with(10, |Sum(x)| Sum(x + 1)), None);
    assert_eq!(tree.combine(..).0, 6);
    assert_eq!(tree.update(2, Sum(9)), Some(Sum(3)));
    assert_eq!(tree.combine(..).0, 12);
}

#[test]
fn segment_tree_test_gcd() {
    let data = [10u32, 3, 4, 8, 6, 2];
    let mut gcd_tree = SegmentTree::from(data.into_iter().map(Gcd).collect::<Vec<_>>());

    assert_eq!(gcd_tree.combine(2..4).0, 4);
    assert_eq!(gcd_tree.combine(2..6).0, 2);
    assert_eq!(gcd_tree.combine(0..6).0, 1);
    assert_eq!(gcd_tree.combine(3..3).0, 0);
    gcd_tree.update(5, 7.into());
    assert_eq!(gcd_tree.combine(2..4).0, 4);
    assert_eq!(gcd_tree.combine(2..6).0, 1);
    assert_eq!(gcd_tree.combine(0..6).0, 1);
}

use semigroup::op::Overwrite;
use semigroup::segment_tree::SegmentTree;
use semigroup::OptionMonoid;

fn words_tree() -> SegmentTree<OptionMonoid<Overwrite<&'static str>>> {
    SegmentTree::from(
        ["one", "two", "three", "four", "five"]
            .into_iter()
            .map(Overwrite)
            .map(OptionMonoid::from)
            .collect::<Vec<_>>(),
    )
}

#[test]
fn test_into_iter() {
    let segment_tree = words_tree();
    let mut it = segment_tree.into_iter();
    let mut v = Vec::new();
    while let Some(x) = it.next() {
        match x {
            OptionMonoid(Some(Overwrite(s))) => v.push(s),
            _ => unreachable!(),
        }
    }
    assert_eq!(v, ["one", "two", "three", "four", "five"]);
}

#[test]
fn test_iter() {
    let segment_tree = words_tree();
    let mut it = segment_tree.iter();
    let mut v = Vec::new();
    while let Some(x) = it.next() {
        match x {
            OptionMonoid(Some(Overwrite(s))) => v.push(s),
            _ => unreachable!(),
        }
    }
    assert_eq!(v, ["one", "two", "three", "four", "five"]);
}

#[test]
fn test_for() {
    let segment_tree = words_tree();
    let mut it = segment_tree.iter();
    let mut v = Vec::new();
    while let Some(OptionMonoid(x)) = it.next() {
        match x {
            Some(Overwrite(s)) => v.push(s),
            _ => unreachable!(),
        }
    }
    assert_eq!(v, ["one", "two", "three", "four", "five"]);
}

#[test]
fn test_double_ended_iter() {
    let segment_tree = words_tree();
    let mut it = segment_tree.iter();
    let mut v = Vec::new();
    while let Some(x) = it.next_back() {
        match x {
            OptionMonoid(Some(Overwrite(s))) => v.push(s),
            _ => unreachable!(),
        }
    }
    assert_eq!(v, ["five", "four", "three", "two", "one"]);

    let mut it = segment_tree.into_iter();
    let mut v = Vec::new();
    while let Some(x) = it.next_back() {
        match x {
            OptionMonoid(Some(Overwrite(s))) => v.push(s),
            _ => unreachable!(),
        }
    }
    assert_eq!(v, ["five", "four", "three", "two", "one"]);
}

#[test]
fn test_exact_size_iter() {
    let segment_tree = words_tree();
    assert_eq!(segment_tree.iter().len(), 5);
    assert_eq!(segment_tree.into_iter().len(), 5);
}

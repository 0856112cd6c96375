use semigroup::op::{Coalesce, Max, Min, Overwrite};
use semigroup::{Annotate, Annotated, Semigroup};

#[test]
fn test_map() {
    let one = Annotated::new(1, "first");
    let sone = one.map(|i| i.to_string());
    assert_eq!(sone, Annotated::new("1".to_string(), "first"));
    let back = sone.map_annotation(|a| a.len());
    assert_eq!(back, Annotated::new("1".to_string(), 5));
    let both = Annotated::new(2, 3).map_parts(|v| v + 1, |a| a - 1);
    assert_eq!(both, Annotated::new(3, 2));
}

#[test]
fn test_cloned() {
    let annotated_one = Annotated::new(1, "first");

    let one_value_ref = Annotated::new(&1, "first");
    assert_eq!(one_value_ref.value_cloned(), annotated_one);

    let one_annotation_ref = Annotated::new(1, &"first");
    assert_eq!(one_annotation_ref.annotation_cloned(), annotated_one);

    let one_value_ref_annotation_ref = Annotated::new(&1, &"first");
    assert_eq!(one_value_ref_annotation_ref, annotated_one.as_ref());
    assert_eq!(one_value_ref_annotation_ref.cloned(), annotated_one);
}

#[test]
fn test_annotated_ops() {
    let a = Coalesce(Some(1)).annotated("first");
    let b = Coalesce(None).annotated("second");
    let c = Coalesce(Some(3)).annotated("third");

    let ab = a.semigroup(b);
    assert_eq!(ab.value(), &Coalesce(Some(1)));
    assert_eq!(ab.annotation(), &"first");

    let bc = b.semigroup(c);
    assert_eq!(bc.value(), &Coalesce(Some(3)));
    assert_eq!(bc.annotation(), &"third");

    let ca = c.semigroup(a);
    assert_eq!(ca.value(), &Coalesce(Some(3)));
    assert_eq!(ca.annotation(), &"third");

    let (value, annotation) = ca.into_parts();
    assert_eq!(value, Coalesce(Some(3)));
    assert_eq!(annotation, "third");

    let o = Overwrite(7).annotated("left").semigroup(Overwrite(9).annotated("right"));
    assert_eq!(o.parts(), (&Overwrite(9), &"right"));
    assert_eq!(o.into_value(), Overwrite(9));

    let m = Max(4).annotated("small").semigroup(Max(8).annotated("big"));
    assert_eq!(m.annotation(), &"big");
    let n = Min(4).annotated("small").semigroup(Min(8).annotated("big"));
    assert_eq!(n.into_annotation(), "small");
}

#[test]
fn test_annotated_mutation() {
    let mut a = Annotated::new(10, "ten");
    *a.value_mut() = 11;
    assert_eq!(a.value(), &11);
    assert_eq!(a.annotation(), &"ten");
}

#[test]
fn test_lift_unit_annotated_op() {
    let r = Annotated::<Coalesce<u32>, ()>::lift_unit_annotated_op(
        (Coalesce(None), ()),
        (Coalesce(Some(2)), ()),
    );
    assert_eq!(r, Coalesce(Some(2)));
}

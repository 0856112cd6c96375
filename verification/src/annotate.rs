use vstd::pervasive::cloned;
use vstd::prelude::*;

use crate::semigroup::{AnnotatedSemigroup, Semigroup};

verus! {

/// Some [`Semigroup`] such as [`crate::op::Coalesce`] can have an annotation.
/// The annotated operation is represented by [`AnnotatedSemigroup`], and the
/// annotated value is represented by the type [`Annotated`].
pub trait Annotate<A>: Sized {
    /// The kind of annotation a single value carries.
    type Annotation;

    /// Attach an annotation to this value.
    fn annotated(self, annotation: Self::Annotation) -> Annotated<Self, A>;
}

/// [`Annotated`] represents a [`Semigroup`] value with an annotation.
/// The value will be annotated by the [`Annotate`] trait.
///
/// # Examples
/// ```
/// use semigroup::{op::Coalesce, Annotated};
///
/// let annotated = Annotated::new(Coalesce(Some(1)), "first");
///
/// assert_eq!(annotated.value(), &Coalesce(Some(1)));
/// assert_eq!(annotated.annotation(), &"first");
/// ```
#[derive(Debug, Clone, Copy, PartialEq, Eq, PartialOrd, Ord, Default, Hash)]
pub struct Annotated<T, A> {
    value: T,
    annotation: A,
}

impl<T: AnnotatedSemigroup<A>, A> Semigroup for Annotated<T, A> {
    open spec fn op_spec(base: Self, other: Self) -> Self {
        T::annotated_op_spec(base, other)
    }

    proof fn lemma_associative(a: Self, b: Self, c: Self) {
        T::lemma_annotated_associative(a, b, c);
    }

    fn op(base: Self, other: Self) -> (r: Self) {
        T::annotated_op(base, other)
    }
}

impl<T: AnnotatedSemigroup<A>, A> Annotated<T, A> {
    /// Run the annotated operation on two bare values by giving each a unit
    /// annotation, and return the combined bare value.
    pub fn lift_unit_annotated_op(base: (T, A), other: (T, A)) -> (r: T)
        ensures
            r == T::annotated_op_spec(
                Annotated::with_parts(base.0, base.1),
                Annotated::with_parts(other.0, other.1),
            ).value_spec(),
    {
        let (b, o) = (Self::new(base.0, base.1), Self::new(other.0, other.1));
        AnnotatedSemigroup::annotated_op(b, o).into_value()
    }
}

impl<T, A> Annotated<T, A> {
    /// The carried value, for specifications.
    pub closed spec fn value_spec(self) -> T {
        self.value
    }

    /// The carried annotation, for specifications.
    pub closed spec fn annotation_spec(self) -> A {
        self.annotation
    }

    /// The annotated value with the given parts, for specifications.
    pub closed spec fn with_parts(value: T, annotation: A) -> Self {
        Annotated { value, annotation }
    }

    /// [`Annotated::with_parts`] carries exactly the given parts.
    pub broadcast proof fn lemma_with_parts(value: T, annotation: A)
        ensures
            (#[trigger] Self::with_parts(value, annotation)).value_spec() == value,
            Self::with_parts(value, annotation).annotation_spec() == annotation,
    {
    }

    /// Two annotated values with equal parts are equal.
    pub proof fn lemma_parts_equal(x: Self, y: Self)
        requires
            x.value_spec() == y.value_spec(),
            x.annotation_spec() == y.annotation_spec(),
        ensures
            x == y,
    {
    }

    /// [`Annotated`] has a `new` method, but [`Annotated`] should be created by the
    /// [`Annotate`] trait.
    pub fn new(value: T, annotation: A) -> (r: Self)
        ensures
            r == Self::with_parts(value, annotation),
            r.value_spec() == value,
            r.annotation_spec() == annotation,
    {
        Self { value, annotation }
    }

    /// Take the value and the annotation apart.
    pub fn into_parts(self) -> (r: (T, A))
        ensures
            r == (self.value_spec(), self.annotation_spec()),
    {
        (self.value, self.annotation)
    }

    /// Borrow the value and the annotation.
    pub fn parts(&self) -> (r: (&T, &A))
        ensures
            *r.0 == self.value_spec(),
            *r.1 == self.annotation_spec(),
    {
        (&self.value, &self.annotation)
    }

    /// Take the value, dropping the annotation.
    pub fn into_value(self) -> (r: T)
        ensures
            r == self.value_spec(),
    {
        self.value
    }

    /// Borrow the value.
    pub fn value(&self) -> (r: &T)
        ensures
            *r == self.value_spec(),
    {
        &self.value
    }

    /// Borrow the value mutably.
    pub fn value_mut(&mut self) -> (r: &mut T)
        ensures
            *r == old(self).value_spec(),
            final(self).value_spec() == *final(r),
            final(self).annotation_spec() == old(self).annotation_spec(),
    {
        &mut self.value
    }

    /// Take the annotation, dropping the value.
    pub fn into_annotation(self) -> (r: A)
        ensures
            r == self.annotation_spec(),
    {
        self.annotation
    }

    /// Borrow the annotation.
    pub fn annotation(&self) -> (r: &A)
        ensures
            *r == self.annotation_spec(),
    {
        &self.annotation
    }

    /// Map the value, keeping the annotation.
    pub fn map<U, F: FnOnce(T) -> U>(self, f: F) -> (r: Annotated<U, A>)
        requires
            f.requires((self.value_spec(),)),
        ensures
            f.ensures((self.value_spec(),), r.value_spec()),
            r.annotation_spec() == self.annotation_spec(),
    {
        Annotated { value: f(self.value), annotation: self.annotation }
    }

    /// Map the annotation, keeping the value.
    pub fn map_annotation<B, F: FnOnce(A) -> B>(self, f: F) -> (r: Annotated<T, B>)
        requires
            f.requires((self.annotation_spec(),)),
        ensures
            f.ensures((self.annotation_spec(),), r.annotation_spec()),
            r.value_spec() == self.value_spec(),
    {
        Annotated { value: self.value, annotation: f(self.annotation) }
    }

    /// Map the value and the annotation at once.
    pub fn map_parts<U, B, FV: FnOnce(T) -> U, FA: FnOnce(A) -> B>(self, fv: FV, fa: FA) -> (r:
        Annotated<U, B>)
        requires
            fv.requires((self.value_spec(),)),
            fa.requires((self.annotation_spec(),)),
        ensures
            fv.ensures((self.value_spec(),), r.value_spec()),
            fa.ensures((self.annotation_spec(),), r.annotation_spec()),
    {
        Annotated { value: fv(self.value), annotation: fa(self.annotation) }
    }

    /// Borrow both parts as an annotated pair of references.
    pub fn as_ref(&self) -> (r: Annotated<&T, &A>)
        ensures
            *r.value_spec() == self.value_spec(),
            *r.annotation_spec() == self.annotation_spec(),
    {
        Annotated { value: &self.value, annotation: &self.annotation }
    }
}

impl<T, A> Annotated<&T, &A> {
    /// Clone both referenced parts into an owned [`Annotated`].
    pub fn cloned(self) -> (r: Annotated<T, A>) where T: Clone, A: Clone
        ensures
            cloned(*self.value_spec(), r.value_spec()),
            cloned(*self.annotation_spec(), r.annotation_spec()),
    {
        Annotated { value: self.value.clone(), annotation: self.annotation.clone() }
    }
}

impl<T, A> Annotated<&T, A> {
    /// Clone the referenced value into an owned [`Annotated`].
    pub fn value_cloned(self) -> (r: Annotated<T, A>) where T: Clone
        ensures
            cloned(*self.value_spec(), r.value_spec()),
            r.annotation_spec() == self.annotation_spec(),
    {
        Annotated { value: self.value.clone(), annotation: self.annotation }
    }
}

impl<T, A> Annotated<T, &A> {
    /// Clone the referenced annotation into an owned [`Annotated`].
    pub fn annotation_cloned(self) -> (r: Annotated<T, A>) where A: Clone
        ensures
            r.value_spec() == self.value_spec(),
            cloned(*self.annotation_spec(), r.annotation_spec()),
    {
        Annotated { value: self.value, annotation: self.annotation.clone() }
    }
}

} // verus!

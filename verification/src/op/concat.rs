use vstd::prelude::*;

verus! {

/// A semigroup construction that concatenates two containers.
///
/// Concatenation of vectors is associative with the empty vector as the
/// identity element; [`lemma_concat_associative`] states the law over the
/// element sequences.
///
/// # Examples
/// ```
/// use semigroup::op::Concat;
///
/// let a = Concat(vec![1, 2]);
/// let b = Concat(vec![3, 4]);
///
/// assert_eq!(a.semigroup(b).into_inner(), vec![1, 2, 3, 4]);
/// ```
#[derive(Debug, Clone, PartialEq, Eq, PartialOrd, Ord, Default, Hash)]
pub struct Concat<T>(pub T);

impl<E> Concat<Vec<E>> {
    /// Combine two containers by concatenation.
    pub fn op(base: Self, other: Self) -> (r: Self)
        ensures
            r.0@ == base.0@ + other.0@,
    {
        let mut base = base;
        let mut other = other;
        base.0.append(&mut other.0);
        base
    }

    /// Method form of [`Concat::op`].
    pub fn semigroup(self, other: Self) -> (r: Self)
        ensures
            r.0@ == self.0@ + other.0@,
    {
        Self::op(self, other)
    }

    /// Convert into the inner container.
    pub fn into_inner(self) -> (r: Vec<E>)
        ensures
            r == self.0,
    {
        self.0
    }

    /// The identity element: the empty container.
    pub fn identity() -> (r: Self)
        ensures
            r.0@ == Seq::<E>::empty(),
    {
        Concat(Vec::new())
    }
}

/// Concatenation is associative, and the empty sequence is neutral on both
/// sides: the [`Concat`] construction obeys the monoid laws.
pub proof fn lemma_concat_associative<E>(a: Seq<E>, b: Seq<E>, c: Seq<E>)
    ensures
        (a + b) + c == a + (b + c),
        Seq::<E>::empty() + a == a,
        a + Seq::<E>::empty() == a,
{
    assert((a + b) + c =~= a + (b + c));
    assert(Seq::<E>::empty() + a =~= a);
    assert(a + Seq::<E>::empty() =~= a);
}

} // verus!

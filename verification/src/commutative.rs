use vstd::prelude::*;

use crate::semigroup::Semigroup;

verus! {

/// [`Commutative`] represents a binary operation that satisfies the following property
/// 1. *Commutativity*: `op(a, b) = op(b, a)`
///
/// The [*semigroup*](crate::Semigroup) set that satisfies the *commutativity* property is
/// often called *commutative semigroup*, and the [*monoid*](crate::Monoid) set that
/// satisfies it *commutative monoid*. Every implementation must prove the law through
/// [`Commutative::lemma_commutative`].
pub trait Commutative: Semigroup {
    /// The operation is commutative.
    proof fn lemma_commutative(a: Self, b: Self)
        ensures
            Self::op_spec(a, b) == Self::op_spec(b, a),
    ;
}

/// The commutative law, checked statically for every [`Commutative`]
/// semigroup: the six orders of combining three values agree.
pub fn assert_commutative_law<T: Commutative + Copy>(a: T, b: T, c: T) {
    let abc = T::op(T::op(a, b), c);
    let bca = T::op(T::op(b, c), a);
    let cba = T::op(T::op(c, b), a);
    let acb = T::op(T::op(a, c), b);
    let bac = T::op(T::op(b, a), c);
    let cab = T::op(T::op(c, a), b);
    proof {
        T::lemma_associative(a, b, c);
        T::lemma_commutative(T::op_spec(b, c), a);
        T::lemma_commutative(b, c);
        T::lemma_associative(a, c, b);
        T::lemma_commutative(c, b);
        T::lemma_commutative(b, a);
        T::lemma_commutative(c, a);
        T::lemma_commutative(T::op_spec(c, b), a);
        T::lemma_associative(a, c, b);
    }
    assert(abc == bca);
    assert(bca == cba);
    assert(cba == acb);
    assert(acb == bac);
    assert(bac == cab);
    assert(cab == abc);
}

/// The law that on a [`Commutative`] semigroup [`crate::Reverse`] makes no
/// difference: checked statically.
pub fn assert_commutative_reverse<T: Commutative + Copy>(a: T, b: T, c: T) {
    let (ra, rb, rc) = (
        crate::combine::Reverse(a),
        crate::combine::Reverse(b),
        crate::combine::Reverse(c),
    );
    let ab = T::op(a, b);
    let rab = Semigroup::op(ra, rb);
    proof {
        T::lemma_commutative(a, b);
    }
    assert(ab == rab.0);
    let bc = T::op(b, c);
    let rbc = Semigroup::op(rb, rc);
    proof {
        T::lemma_commutative(b, c);
    }
    assert(bc == rbc.0);
    let ca = T::op(c, a);
    let rca = Semigroup::op(rc, ra);
    proof {
        T::lemma_commutative(c, a);
    }
    assert(ca == rca.0);
}

/// The bundle of [`Commutative`] laws, checked statically.
pub fn assert_commutative_impl<T: Commutative + Copy>(a: T, b: T, c: T) {
    assert_commutative_law(a, b, c);
    assert_commutative_reverse(a, b, c);
}

} // verus!

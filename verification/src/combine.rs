use vstd::prelude::*;

use crate::algebra::{combined, folded, lemma_combined_push, lemma_folded_push};
use crate::commutative::Commutative;
use crate::lazy::Lazy;
use crate::monoid::Monoid;
use crate::semigroup::{assert_associative_law, Semigroup};

verus! {

/// A [`Semigroup`] construction that flips the order of operands:
/// `op(Reverse(a), Reverse(b)) = Reverse(op(b, a))`.
///
/// By folding [`Reverse`] values with a left-fold algorithm, a right fold of
/// the underlying operation is computed. If `T` is [`Commutative`] the
/// flipping makes no difference.
#[derive(Debug, Clone, Copy, PartialEq, Eq, PartialOrd, Ord, Default, Hash)]
pub struct Reverse<T>(pub T);

impl<T: Semigroup> Semigroup for Reverse<T> {
    open spec fn op_spec(base: Self, other: Self) -> Self {
        Reverse(T::op_spec(other.0, base.0))
    }

    proof fn lemma_associative(a: Self, b: Self, c: Self) {
        T::lemma_associative(c.0, b.0, a.0);
    }

    fn op(base: Self, other: Self) -> (r: Self) {
        Reverse(T::op(other.0, base.0))
    }
}

impl<T: Monoid> Monoid for Reverse<T> {
    open spec fn identity_spec() -> Self {
        Reverse(T::identity_spec())
    }

    proof fn lemma_identity(a: Self) {
        T::lemma_identity(a.0);
    }

    fn identity() -> (r: Self) {
        Reverse(T::identity())
    }
}

impl<T: Commutative> Commutative for Reverse<T> {
    proof fn lemma_commutative(a: Self, b: Self) {
        T::lemma_commutative(a.0, b.0);
    }
}

/// The fold that results from chaining the items and a final value:
/// the first item seeds the fold, and `fin` comes last. With no items the
/// result is `fin` alone.
pub open spec fn chain_fold<T: Semigroup>(items: Seq<T>, fin: T) -> T {
    if items.len() == 0 {
        fin
    } else {
        folded(items[0], items.drop_first().push(fin))
    }
}

/// Combining operations for containers of [`Semigroup`] elements; the crate
/// implements it for [`Vec`].
pub trait CombineIterator<T: Semigroup + Copy>: Sized {
    /// The contained elements, in order.
    spec fn items(self) -> Seq<T>;

    /// Folds every element left-to-right; the given argument is the final
    /// value.
    fn fold_final(self, fin: T) -> (r: T)
        ensures
            r == chain_fold(self.items(), fin),
    ;

    /// Folds every element in reverse order; the given argument is the final
    /// value.
    fn rfold_final(self, fin: T) -> (r: T)
        ensures
            r == chain_fold(self.items().reverse(), fin),
    ;

    /// Folds every element left-to-right; `None` when there are none.
    fn lreduce(self) -> (r: Option<T>)
        ensures
            self.items().len() == 0 ==> r is None,
            self.items().len() > 0 ==> r == Some(
                folded(self.items()[0], self.items().drop_first()),
            ),
    ;

    /// Folds every element in reverse order; `None` when there are none.
    fn rreduce(self) -> (r: Option<T>)
        ensures
            self.items().len() == 0 ==> r is None,
            self.items().len() > 0 ==> r == Some(
                folded(self.items().last(), self.items().drop_last().reverse()),
            ),
    ;

    /// Folds every element left-to-right starting from the identity element.
    fn combine(self) -> (r: T) where T: Monoid
        ensures
            r == combined(self.items()),
    ;

    /// Folds every element in reverse order starting from the identity
    /// element.
    fn rcombine(self) -> (r: T) where T: Monoid
        ensures
            r == combined(self.items().reverse()),
    ;

    /// Collect into a [`Lazy`] buffer; `None` when there are no elements.
    fn collect_lazy(self) -> (r: Option<Lazy<T>>)
        ensures
            self.items().len() == 0 ==> r is None,
            self.items().len() > 0 ==> (r matches Some(l) && l@ == self.items()),
    ;
}

impl<T: Semigroup + Copy> CombineIterator<T> for Vec<T> {
    open spec fn items(self) -> Seq<T> {
        self@
    }

    fn fold_final(self, fin: T) -> (r: T) {
        if self.len() == 0 {
            return fin;
        }
        let ghost rest = self@.drop_first().push(fin);
        let n = self.len();
        let mut acc = self[0];
        let mut k: usize = 1;
        proof {
            assert(rest.subrange(0, 0) =~= Seq::<T>::empty());
        }
        while k < n
            invariant
                1 <= k <= n,
                n == self@.len(),
                rest == self@.drop_first().push(fin),
                acc == folded(self@[0], rest.subrange(0, k - 1)),
            decreases n - k,
        {
            acc = T::op(acc, self[k]);
            k += 1;
            proof {
                assert(rest[k - 2] == self@[k - 1]);
                assert(rest.subrange(0, k - 1) =~= rest.subrange(0, k - 2).push(self@[k - 1]));
                lemma_folded_push(self@[0], rest.subrange(0, k - 2), self@[k - 1]);
            }
        }
        let r = T::op(acc, fin);
        proof {
            assert(rest[n - 1] == fin);
            assert(rest =~= rest.subrange(0, n - 1).push(fin));
            lemma_folded_push(self@[0], rest.subrange(0, n - 1), fin);
        }
        r
    }

    fn rfold_final(self, fin: T) -> (r: T) {
        if self.len() == 0 {
            return fin;
        }
        let ghost rev = self@.reverse();
        let ghost rest = rev.drop_first().push(fin);
        let n = self.len();
        let mut acc = self[n - 1];
        let mut k: usize = 1;
        proof {
            assert(rev[0] == self@[n - 1]);
            assert(rest.subrange(0, 0) =~= Seq::<T>::empty());
        }
        while k < n
            invariant
                1 <= k <= n,
                n == self@.len(),
                rev == self@.reverse(),
                rest == rev.drop_first().push(fin),
                acc == folded(rev[0], rest.subrange(0, k - 1)),
            decreases n - k,
        {
            acc = T::op(acc, self[n - 1 - k]);
            k += 1;
            proof {
                assert(rest[k - 2] == rev[k - 1]);
                assert(rev[k - 1] == self@[n - 1 - (k - 1)]);
                assert(rest.subrange(0, k - 1) =~= rest.subrange(0, k - 2).push(rev[k - 1]));
                lemma_folded_push(rev[0], rest.subrange(0, k - 2), rev[k - 1]);
            }
        }
        let r = T::op(acc, fin);
        proof {
            assert(rest[n - 1] == fin);
            assert(rest =~= rest.subrange(0, n - 1).push(fin));
            lemma_folded_push(rev[0], rest.subrange(0, n - 1), fin);
        }
        r
    }

    fn lreduce(self) -> (r: Option<T>) {
        if self.len() == 0 {
            return None;
        }
        let n = self.len();
        let mut acc = self[0];
        let mut k: usize = 1;
        proof {
            assert(self@.drop_first().subrange(0, 0) =~= Seq::<T>::empty());
        }
        while k < n
            invariant
                1 <= k <= n,
                n == self@.len(),
                acc == folded(self@[0], self@.drop_first().subrange(0, k - 1)),
            decreases n - k,
        {
            acc = T::op(acc, self[k]);
            k += 1;
            proof {
                let rest = self@.drop_first();
                assert(rest.subrange(0, k - 1) =~= rest.subrange(0, k - 2).push(self@[k - 1]));
                lemma_folded_push(self@[0], rest.subrange(0, k - 2), self@[k - 1]);
            }
        }
        proof {
            assert(self@.drop_first().subrange(0, n - 1) =~= self@.drop_first());
        }
        Some(acc)
    }

    fn rreduce(self) -> (r: Option<T>) {
        if self.len() == 0 {
            return None;
        }
        let ghost rev = self@.drop_last().reverse();
        let n = self.len();
        let mut acc = self[n - 1];
        let mut k: usize = 1;
        proof {
            assert(rev.subrange(0, 0) =~= Seq::<T>::empty());
        }
        while k < n
            invariant
                1 <= k <= n,
                n == self@.len(),
                rev == self@.drop_last().reverse(),
                acc == folded(self@.last(), rev.subrange(0, k - 1)),
            decreases n - k,
        {
            acc = T::op(acc, self[n - 1 - k]);
            k += 1;
            proof {
                assert(rev[k - 2] == self@[n - 1 - (k - 1)]);
                assert(rev.subrange(0, k - 1) =~= rev.subrange(0, k - 2).push(
                    self@[n - 1 - (k - 1)],
                ));
                lemma_folded_push(self@.last(), rev.subrange(0, k - 2), self@[n - 1 - (k - 1)]);
            }
        }
        proof {
            assert(rev.subrange(0, n - 1) =~= rev);
        }
        Some(acc)
    }

    fn combine(self) -> (r: T) where T: Monoid {
        let n = self.len();
        let mut acc = T::identity();
        let mut k: usize = 0;
        proof {
            assert(self@.subrange(0, 0) =~= Seq::<T>::empty());
        }
        while k < n
            invariant
                k <= n,
                n == self@.len(),
                acc == combined(self@.subrange(0, k as int)),
            decreases n - k,
        {
            acc = T::op(acc, self[k]);
            k += 1;
            proof {
                assert(self@.subrange(0, k as int) =~= self@.subrange(0, k - 1).push(
                    self@[k - 1],
                ));
                lemma_combined_push(self@.subrange(0, k - 1), self@[k - 1]);
            }
        }
        proof {
            assert(self@.subrange(0, n as int) =~= self@);
        }
        acc
    }

    fn rcombine(self) -> (r: T) where T: Monoid {
        let ghost rev = self@.reverse();
        let n = self.len();
        let mut acc = T::identity();
        let mut k: usize = 0;
        proof {
            assert(rev.subrange(0, 0) =~= Seq::<T>::empty());
        }
        while k < n
            invariant
                k <= n,
                n == self@.len(),
                rev == self@.reverse(),
                acc == combined(rev.subrange(0, k as int)),
            decreases n - k,
        {
            acc = T::op(acc, self[n - 1 - k]);
            k += 1;
            proof {
                assert(rev[k - 1] == self@[n - 1 - (k - 1)]);
                assert(rev.subrange(0, k as int) =~= rev.subrange(0, k - 1).push(rev[k - 1]));
                lemma_combined_push(rev.subrange(0, k - 1), rev[k - 1]);
            }
        }
        proof {
            assert(rev.subrange(0, n as int) =~= rev);
        }
        acc
    }

    fn collect_lazy(self) -> (r: Option<Lazy<T>>) {
        Lazy::from_iterator(self)
    }
}

/// The law that combining a container and then the final value agrees with
/// nesting the operation: checked statically for every [`Semigroup`].
pub fn assert_combine_iter<T: Semigroup + Copy>(a: T, b: T, c: T) {
    let ab = vec![a, b];
    let fold = ab.fold_final(c);
    proof {
        lemma_chain_fold_pair(a, b, c);
    }
    assert(fold == T::op_spec(T::op_spec(a, b), c));

    let bc = vec![b, c];
    let rfold = bc.rfold_final(a);
    proof {
        assert(bc@.reverse() =~= seq![c, b]);
        lemma_chain_fold_pair(c, b, a);
    }
    assert(rfold == T::op_spec(T::op_spec(c, b), a));
}

/// The fold of exactly two items and a final value, written out.
proof fn lemma_chain_fold_pair<T: Semigroup>(x: T, y: T, fin: T)
    ensures
        chain_fold(seq![x, y], fin) == T::op_spec(T::op_spec(x, y), fin),
{
    let items = seq![x, y];
    assert(items.drop_first() =~= seq![y]);
    let rest = seq![y].push(fin);
    assert(rest.drop_last() =~= seq![y]);
    assert(seq![y].drop_last() =~= Seq::<T>::empty());
    assert(folded(x, Seq::<T>::empty()) == x);
    assert(folded(x, seq![y]) == T::op_spec(x, y));
    assert(folded(x, rest) == T::op_spec(folded(x, seq![y]), fin));
}

/// The law that [`CombineIterator::combine`] and [`CombineIterator::rcombine`]
/// agree with nesting the operation: checked statically for every [`Monoid`].
pub fn assert_combine_iter_monoid<T: Monoid + Copy>(a: T, b: T, c: T) {
    let abc = vec![a, b, c];
    let fold = abc.combine();
    proof {
        lemma_combined_triple(a, b, c);
    }
    assert(fold == T::op_spec(T::op_spec(a, b), c));

    let abc2 = vec![a, b, c];
    let rfold = abc2.rcombine();
    proof {
        assert(abc2@.reverse() =~= seq![c, b, a]);
        lemma_combined_triple(c, b, a);
    }
    assert(rfold == T::op_spec(T::op_spec(c, b), a));
}

/// The fold of exactly three values from the identity element, written out.
proof fn lemma_combined_triple<T: Monoid>(x: T, y: T, z: T)
    ensures
        combined(seq![x, y, z]) == T::op_spec(T::op_spec(x, y), z),
{
    let s = seq![x, y, z];
    assert(s.drop_last() =~= seq![x, y]);
    assert(seq![x, y].drop_last() =~= seq![x]);
    assert(seq![x].drop_last() =~= Seq::<T>::empty());
    assert(combined(Seq::<T>::empty()) == T::identity_spec());
    T::lemma_identity(x);
    assert(combined(seq![x]) == x);
    assert(combined(seq![x, y]) == T::op_spec(x, y));
}

/// The laws of [`Reverse`]: checked statically for every [`Semigroup`].
pub fn assert_semigroup_reverse<T: Semigroup + Copy>(a: T, b: T, c: T) {
    assert_reverse_reverse(a, b, c);
    assert_reverse_associative_law(a, b, c);
}

/// The law that [`Reverse`] flips the operation's operands: checked
/// statically for every [`Semigroup`].
pub fn assert_reverse_reverse<T: Semigroup + Copy>(a: T, b: T, c: T) {
    let (ra, rb, rc) = (Reverse(a), Reverse(b), Reverse(c));
    let ab = T::op(a, b);
    let rba = Semigroup::op(rb, ra);
    assert(ab == rba.0);
    let bc = T::op(b, c);
    let rcb = Semigroup::op(rc, rb);
    assert(bc == rcb.0);
    let ac = T::op(a, c);
    let rca = Semigroup::op(rc, ra);
    assert(ac == rca.0);
}

/// The law that [`Reverse`] preserves associativity: checked statically for
/// every [`Semigroup`].
pub fn assert_reverse_associative_law<T: Semigroup + Copy>(a: T, b: T, c: T) {
    let (ra, rb, rc) = (Reverse(a), Reverse(b), Reverse(c));
    assert_associative_law(ra, rb, rc);
}

} // verus!

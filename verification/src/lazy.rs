use vstd::prelude::*;

use crate::algebra::{folded, lemma_folded_push};
use crate::annotate::Annotated;
use crate::semigroup::Semigroup;
use vstd::std_specs::cmp::PartialEqSpec;

verus! {

/// A lazily evaluated [`Semigroup`] with a nonempty buffer that is
/// implemented by [`Vec`]: combining two values concatenates their buffers,
/// and [`Lazy::combine`] folds the buffer when the result is wanted.
///
/// The view `self@` of a lazy value is the sequence of buffered elements.
///
/// # Examples
/// ```
/// use semigroup::{op::Coalesce, Lazy};
///
/// let a = Coalesce(Some(1));
/// let b = Coalesce(Some(2));
/// let c = Coalesce(Some(3));
///
/// let lazy = Lazy::from(a).semigroup(b.into()).semigroup(c.into());
///
/// assert_eq!(lazy.first(), &Coalesce(Some(1)));
/// assert_eq!(lazy.last(), &Coalesce(Some(3)));
/// assert_eq!(lazy.combine(), Coalesce(Some(1)));
/// ```
#[derive(Debug, Clone, PartialEq, Eq, PartialOrd, Ord, Hash)]
pub struct Lazy<T>(Vec<T>);

impl<T> View for Lazy<T> {
    type V = Seq<T>;

    closed spec fn view(&self) -> Seq<T> {
        self.0@
    }
}

impl<T> Lazy<T> {
    /// The buffer is nonempty; every way of building a [`Lazy`] keeps this.
    pub open spec fn wf(self) -> bool {
        self@.len() >= 1
    }

    /// Combine by buffering: the other buffer is appended to this one.
    pub fn op(base: Self, other: Self) -> (r: Self)
        ensures
            r@ == base@ + other@,
    {
        let mut base = base;
        let mut other = other;
        base.0.append(&mut other.0);
        base
    }

    /// Method form of [`Lazy::op`].
    pub fn semigroup(self, other: Self) -> (r: Self)
        ensures
            r@ == self@ + other@,
    {
        Self::op(self, other)
    }

    /// Create a [`Lazy`] from the elements of a vector, or `None` when it is
    /// empty.
    pub fn from_iterator(v: Vec<T>) -> (r: Option<Self>)
        ensures
            v@.len() == 0 ==> r is None,
            v@.len() > 0 ==> (r matches Some(l) && l@ == v@),
    {
        if v.len() == 0 {
            None
        } else {
            Some(Lazy(v))
        }
    }

    /// Returns `true` if the buffer contains no elements. It is nonempty, so
    /// this always returns `false`.
    pub fn is_empty(&self) -> (r: bool)
        ensures
            r == (self@.len() == 0),
    {
        self.0.is_empty()
    }

    /// Returns `true` if the buffer contains exactly one element.
    pub fn is_single(&self) -> (r: bool)
        ensures
            r == (self@.len() == 1),
    {
        self.0.len() == 1
    }

    /// Returns the number of elements in the buffer. It is nonempty, so this
    /// always returns `1` or more.
    pub fn len(&self) -> (r: usize)
        ensures
            r == self@.len(),
    {
        self.0.len()
    }

    /// Returns a reference to the first element of the buffer.
    pub fn first(&self) -> (r: &T)
        requires
            self.wf(),
        ensures
            *r == self@[0],
    {
        &self.0[0]
    }

    /// Returns the reference to the first element and all the rest.
    pub fn split_first(&self) -> (r: (&T, &[T]))
        requires
            self.wf(),
        ensures
            *r.0 == self@[0],
            r.1@ == self@.drop_first(),
    {
        let rest = self.0.as_slice().split_at(1);
        proof {
            assert(rest.1@ =~= self@.drop_first());
        }
        (&self.0[0], rest.1)
    }

    /// Returns the first element and all the rest.
    pub fn split_off_first(self) -> (r: (T, Vec<T>))
        requires
            self.wf(),
        ensures
            r.0 == self@[0],
            r.1@ == self@.drop_first(),
    {
        let mut v = self.0;
        let head = v.remove(0);
        proof {
            assert(v@ =~= self@.drop_first());
        }
        (head, v)
    }

    /// Returns a reference to the last element of the buffer.
    pub fn last(&self) -> (r: &T)
        requires
            self.wf(),
        ensures
            *r == self@.last(),
    {
        &self.0[self.0.len() - 1]
    }

    /// Returns the reference to the last element and all the rest.
    pub fn split_last(&self) -> (r: (&T, &[T]))
        requires
            self.wf(),
        ensures
            *r.0 == self@.last(),
            r.1@ == self@.drop_last(),
    {
        let rest = self.0.as_slice().split_at(self.0.len() - 1);
        proof {
            assert(rest.0@ =~= self@.drop_last());
        }
        (&self.0[self.0.len() - 1], rest.0)
    }

    /// Returns the last element and all the rest.
    pub fn split_off_last(self) -> (r: (T, Vec<T>))
        requires
            self.wf(),
        ensures
            r.0 == self@.last(),
            r.1@ == self@.drop_last(),
    {
        let mut v = self.0;
        let last = v.pop().unwrap();
        (last, v)
    }

    /// Returns a reference to the element at the index, if it is in range.
    pub fn get(&self, i: usize) -> (r: Option<&T>)
        ensures
            i < self@.len() ==> (r matches Some(x) && *x == self@[i as int]),
            i >= self@.len() ==> r is None,
    {
        if i < self.0.len() {
            Some(&self.0[i])
        } else {
            None
        }
    }

    /// Returns the buffer as a slice.
    pub fn as_slice(&self) -> (r: &[T])
        ensures
            r@ == self@,
    {
        self.0.as_slice()
    }

    /// Returns an iterator over the buffer.
    pub fn iter(&self) -> core::slice::Iter<'_, T> {
        self.0.as_slice().iter()
    }

    /// Maps each element of the buffer with a function, and returns a new
    /// [`Lazy`] buffer of the results.
    pub fn map<U, F: Fn(T) -> U>(self, f: F) -> (r: Lazy<U>) where T: Copy
        requires
            forall|t: T| #[trigger] f.requires((t,)),
        ensures
            r@.len() == self@.len(),
            forall|k: int| 0 <= k < self@.len() ==> #[trigger] f.ensures((self@[k],), r@[k]),
    {
        let mut out: Vec<U> = Vec::new();
        let n = self.0.len();
        let mut k: usize = 0;
        while k < n
            invariant
                k <= n,
                n == self@.len(),
                out@.len() == k,
                forall|t: T| #[trigger] f.requires((t,)),
                forall|j: int| 0 <= j < k ==> #[trigger] f.ensures((self@[j],), out@[j]),
            decreases n - k,
        {
            out.push(f(self.0[k]));
            k += 1;
        }
        Lazy(out)
    }
}

impl<T, A: PartialEq> Lazy<Annotated<T, A>> {
    /// Whether the element at index `k` carries the given annotation, in the
    /// sense of `A`'s equality.
    pub open spec fn annotated_at(self, k: int, annotation: A) -> bool {
        self@[k].annotation_spec().eq_spec(&annotation)
    }

    /// **O(n)**, search for the first value that has the given annotation.
    pub fn find_annotated(&self, annotation: &A) -> (r: Option<&Annotated<T, A>>)
        ensures
            A::obeys_eq_spec() ==> match r {
                Some(x) => exists|i: int|
                    {
                        &&& 0 <= i < self@.len()
                        &&& *x == self@[i]
                        &&& self.annotated_at(i, *annotation)
                        &&& forall|j: int| 0 <= j < i ==> !self.annotated_at(j, *annotation)
                    },
                None => forall|j: int| 0 <= j < self@.len() ==> !self.annotated_at(j, *annotation),
            },
    {
        let n = self.0.len();
        let mut k: usize = 0;
        while k < n
            invariant
                k <= n,
                n == self@.len(),
                A::obeys_eq_spec() ==> forall|j: int|
                    0 <= j < k ==> !self.annotated_at(j, *annotation),
            decreases n - k,
        {
            let hit = self.0[k].annotation() == annotation;
            proof {
                if A::obeys_eq_spec() {
                    assert(hit == self.annotated_at(k as int, *annotation));
                }
            }
            if hit {
                return Some(&self.0[k]);
            }
            k += 1;
        }
        None
    }

    /// **O(n)**, search for the index of the first value that has the given
    /// annotation.
    pub fn position_annotated(&self, annotation: &A) -> (r: Option<usize>)
        ensures
            A::obeys_eq_spec() ==> match r {
                Some(i) => {
                    &&& 0 <= i < self@.len()
                    &&& self.annotated_at(i as int, *annotation)
                    &&& forall|j: int| 0 <= j < i as int ==> !self.annotated_at(j, *annotation)
                },
                None => forall|j: int| 0 <= j < self@.len() ==> !self.annotated_at(j, *annotation),
            },
    {
        let n = self.0.len();
        let mut k: usize = 0;
        while k < n
            invariant
                k <= n,
                n == self@.len(),
                A::obeys_eq_spec() ==> forall|j: int|
                    0 <= j < k ==> !self.annotated_at(j, *annotation),
            decreases n - k,
        {
            let hit = self.0[k].annotation() == annotation;
            proof {
                if A::obeys_eq_spec() {
                    assert(hit == self.annotated_at(k as int, *annotation));
                }
            }
            if hit {
                return Some(k);
            }
            k += 1;
        }
        None
    }

    /// **O(n)**, search for the last value that has the given annotation.
    pub fn rfind_annotated(&self, annotation: &A) -> (r: Option<&Annotated<T, A>>)
        ensures
            A::obeys_eq_spec() ==> match r {
                Some(x) => exists|i: int|
                    {
                        &&& 0 <= i < self@.len()
                        &&& *x == self@[i]
                        &&& self.annotated_at(i, *annotation)
                        &&& forall|j: int|
                            i < j && j < self@.len() ==> !self.annotated_at(j, *annotation)
                    },
                None => forall|j: int| 0 <= j < self@.len() ==> !self.annotated_at(j, *annotation),
            },
    {
        let n = self.0.len();
        let mut k: usize = n;
        while k > 0
            invariant
                k <= n,
                n == self@.len(),
                A::obeys_eq_spec() ==> forall|j: int|
                    k as int <= j < n as int ==> !self.annotated_at(j, *annotation),
            decreases k,
        {
            k -= 1;
            let hit = self.0[k].annotation() == annotation;
            proof {
                if A::obeys_eq_spec() {
                    assert(hit == self.annotated_at(k as int, *annotation));
                }
            }
            if hit {
                return Some(&self.0[k]);
            }
        }
        None
    }

    /// **O(n)**, search for the index of the last value that has the given
    /// annotation.
    pub fn rposition_annotated(&self, annotation: &A) -> (r: Option<usize>)
        ensures
            A::obeys_eq_spec() ==> match r {
                Some(i) => {
                    &&& 0 <= i < self@.len()
                    &&& self.annotated_at(i as int, *annotation)
                    &&& forall|j: int|
                        (i as int) < j && j < self@.len() ==> !self.annotated_at(j, *annotation)
                },
                None => forall|j: int| 0 <= j < self@.len() ==> !self.annotated_at(j, *annotation),
            },
    {
        let n = self.0.len();
        let mut k: usize = n;
        while k > 0
            invariant
                k <= n,
                n == self@.len(),
                A::obeys_eq_spec() ==> forall|j: int|
                    k as int <= j < n as int ==> !self.annotated_at(j, *annotation),
            decreases k,
        {
            k -= 1;
            let hit = self.0[k].annotation() == annotation;
            proof {
                if A::obeys_eq_spec() {
                    assert(hit == self.annotated_at(k as int, *annotation));
                }
            }
            if hit {
                return Some(k);
            }
        }
        None
    }

    /// **O(n)**, collect all values that have the given annotation, in
    /// order: the filtered buffer.
    pub fn find_annotated_all(&self, annotation: &A) -> (r: Vec<Annotated<T, A>>) where
        T: Copy,
        A: Copy,

        ensures
            A::obeys_eq_spec() ==> r@ == self@.filter(
                |x: Annotated<T, A>| x.annotation_spec().eq_spec(annotation),
            ),
    {
        let ghost pred = |x: Annotated<T, A>| x.annotation_spec().eq_spec(annotation);
        let n = self.0.len();
        let mut out: Vec<Annotated<T, A>> = Vec::new();
        let mut k: usize = 0;
        proof {
            reveal(Seq::filter);
            assert(self@.subrange(0, 0) =~= Seq::<Annotated<T, A>>::empty());
        }
        while k < n
            invariant
                k <= n,
                n == self@.len(),
                A::obeys_eq_spec() ==> out@ == self@.subrange(0, k as int).filter(pred),
                pred == (|x: Annotated<T, A>| x.annotation_spec().eq_spec(annotation)),
            decreases n - k,
        {
            let hit = self.0[k].annotation() == annotation;
            proof {
                if A::obeys_eq_spec() {
                    assert(hit == pred(self@[k as int]));
                }
            }
            if hit {
                out.push(self.0[k]);
            }
            k += 1;
            proof {
                reveal(Seq::filter);
                let sub1 = self@.subrange(0, k as int);
                assert(sub1.drop_last() =~= self@.subrange(0, k as int - 1));
                assert(sub1.last() == self@[k as int - 1]);
            }
        }
        proof {
            assert(self@.subrange(0, n as int) =~= self@);
        }
        out
    }

    /// **O(n)**, collect the indices of all values that have the given
    /// annotation, in order.
    pub fn position_annotated_all(&self, annotation: &A) -> (r: Vec<usize>)
        ensures
            A::obeys_eq_spec() ==> {
                &&& forall|m: int|
                    0 <= m < r@.len() ==> 0 <= #[trigger] r@[m] < self@.len()
                        && self.annotated_at(r@[m] as int, *annotation)
                &&& forall|i: int|
                    0 <= i < self@.len() && self.annotated_at(i, *annotation) ==> exists|m: int|
                        0 <= m < r@.len() && #[trigger] r@[m] as int == i
            },
    {
        let n = self.0.len();
        let mut out: Vec<usize> = Vec::new();
        let mut k: usize = 0;
        while k < n
            invariant
                k <= n,
                n == self@.len(),
                A::obeys_eq_spec() ==> {
                    &&& forall|m: int|
                        0 <= m < out@.len() ==> 0 <= #[trigger] out@[m] < self@.len()
                            && self.annotated_at(out@[m] as int, *annotation)
                    &&& forall|i: int|
                        0 <= i < k && self.annotated_at(i, *annotation) ==> exists|m: int|
                            0 <= m < out@.len() && #[trigger] out@[m] as int == i
                },
            decreases n - k,
        {
            let hit = self.0[k].annotation() == annotation;
            proof {
                if A::obeys_eq_spec() {
                    assert(hit == self.annotated_at(k as int, *annotation));
                }
            }
            if hit {
                let ghost prev = out@;
                out.push(k);
                proof {
                    assert(out@ == prev.push(k));
                    if A::obeys_eq_spec() {
                        assert forall|i: int|
                            0 <= i < k as int + 1 && self.annotated_at(i, *annotation) implies exists|
                            m: int,
                        | 0 <= m < out@.len() && #[trigger] out@[m] as int == i by {
                            if i < k as int {
                                let m = choose|m: int|
                                    0 <= m < prev.len() && #[trigger] prev[m] as int == i;
                                assert(out@[m] as int == i);
                            } else {
                                assert(out@[out@.len() - 1] as int == i);
                            }
                        }
                    }
                }
            }
            k += 1;
        }
        out
    }
}

impl<T> From<T> for Lazy<T> {
    fn from(value: T) -> (r: Self)
        ensures
            r@ == seq![value],
    {
        let mut v = Vec::new();
        v.push(value);
        proof {
            assert(v@ =~= seq![value]);
        }
        Lazy(v)
    }
}

impl<T> vstd::std_specs::convert::FromSpecImpl<T> for Lazy<T> {
    open spec fn obeys_from_spec() -> bool {
        false
    }

    open spec fn from_spec(v: T) -> Self {
        vstd::pervasive::arbitrary()
    }
}

impl<T: Semigroup + Copy> Lazy<T> {
    /// Evaluates the buffer: the left-to-right fold of the operation over
    /// the buffered elements.
    pub fn combine(self) -> (r: T)
        requires
            self.wf(),
        ensures
            r == folded(self@[0], self@.drop_first()),
    {
        self.combine_cloned()
    }

    /// Evaluates the buffer like [`Lazy::combine`], without consuming it.
    pub fn combine_cloned(&self) -> (r: T)
        requires
            self.wf(),
        ensures
            r == folded(self@[0], self@.drop_first()),
    {
        let n = self.0.len();
        let mut acc = self.0[0];
        let mut k: usize = 1;
        proof {
            assert(self@.drop_first().subrange(0, 0) =~= Seq::<T>::empty());
        }
        while k < n
            invariant
                1 <= k <= n,
                n == self@.len(),
                self.wf(),
                acc == folded(self@[0], self@.drop_first().subrange(0, k - 1)),
            decreases n - k,
        {
            acc = T::op(acc, self.0[k]);
            k += 1;
            proof {
                let rest = self@.drop_first();
                assert(rest.subrange(0, k - 1) =~= rest.subrange(0, k - 2).push(self@[k - 1]));
                lemma_folded_push(self@[0], rest.subrange(0, k - 2), self@[k - 1]);
            }
        }
        proof {
            assert(self@.drop_first().subrange(0, n - 1) =~= self@.drop_first());
        }
        acc
    }

    /// Evaluates the buffer in reverse order.
    pub fn combine_rev(self) -> (r: T)
        requires
            self.wf(),
        ensures
            r == folded(self@.last(), self@.drop_last().reverse()),
    {
        self.combine_rev_cloned()
    }

    /// Evaluates the buffer in reverse order like [`Lazy::combine_rev`],
    /// without consuming it.
    pub fn combine_rev_cloned(&self) -> (r: T)
        requires
            self.wf(),
        ensures
            r == folded(self@.last(), self@.drop_last().reverse()),
    {
        let n = self.0.len();
        let mut acc = self.0[n - 1];
        let mut k: usize = 1;
        let ghost rev = self@.drop_last().reverse();
        proof {
            assert(rev.subrange(0, 0) =~= Seq::<T>::empty());
        }
        while k < n
            invariant
                1 <= k <= n,
                n == self@.len(),
                self.wf(),
                rev == self@.drop_last().reverse(),
                acc == folded(self@.last(), rev.subrange(0, k - 1)),
            decreases n - k,
        {
            acc = T::op(acc, self.0[n - 1 - k]);
            k += 1;
            proof {
                assert(rev[k - 2] == self@[n - 1 - (k - 1)]);
                assert(rev.subrange(0, k - 1) =~= rev.subrange(0, k - 2).push(
                    self@[n - 1 - (k - 1)],
                ));
                lemma_folded_push(self@.last(), rev.subrange(0, k - 2), self@[n - 1 - (k - 1)]);
            }
        }
        proof {
            assert(rev.subrange(0, n - 1) =~= rev);
        }
        acc
    }
}

/// The law that a lazy buffer evaluates to the left-to-right fold of what
/// was combined into it, and in reverse to the reverse fold: checked
/// statically for every [`Semigroup`].
pub fn assert_lazy<T: Semigroup + Copy>(a: T, b: T, c: T) {
    let single = Lazy::from(a);
    let r1 = single.combine_cloned();
    proof {
        assert(seq![a].drop_first() =~= Seq::<T>::empty());
    }
    assert(r1 == a);
    let r2 = single.combine_rev_cloned();
    proof {
        assert(seq![a].drop_last().reverse() =~= Seq::<T>::empty());
    }
    assert(r2 == a);

    let lazy = single.semigroup(Lazy::from(b)).semigroup(Lazy::from(c));
    proof {
        assert(lazy@ =~= seq![a, b, c]);
        lemma_lazy_triple(a, b, c);
    }
    let r3 = lazy.combine_cloned();
    assert(r3 == T::op_spec(T::op_spec(a, b), c));
    let r4 = lazy.combine_rev_cloned();
    assert(r4 == T::op_spec(T::op_spec(c, b), a));
    let r5 = lazy.combine();
    assert(r5 == T::op_spec(T::op_spec(a, b), c));

    let lazy2 = Lazy::from(a).semigroup(Lazy::from(b)).semigroup(Lazy::from(c));
    proof {
        assert(lazy2@ =~= seq![a, b, c]);
    }
    let r6 = lazy2.combine_rev();
    assert(r6 == T::op_spec(T::op_spec(c, b), a));
}

/// The folds of a three-element buffer, written out.
proof fn lemma_lazy_triple<T: Semigroup>(a: T, b: T, c: T)
    ensures
        folded(a, seq![a, b, c].drop_first()) == T::op_spec(T::op_spec(a, b), c),
        folded(c, seq![a, b, c].drop_last().reverse()) == T::op_spec(T::op_spec(c, b), a),
{
    let s = seq![a, b, c];
    assert(s.drop_first() =~= seq![b, c]);
    assert(seq![b, c].drop_last() =~= seq![b]);
    assert(seq![b].drop_last() =~= Seq::<T>::empty());
    assert(seq![b].last() == b);
    assert(folded(a, Seq::<T>::empty()) == a);
    assert(folded(a, seq![b]) == T::op_spec(a, b));
    assert(folded(a, seq![b, c]) == T::op_spec(T::op_spec(a, b), c));

    assert(s.drop_last() =~= seq![a, b]);
    assert(seq![a, b].reverse() =~= seq![b, a]);
    assert(seq![b, a].drop_last() =~= seq![b]);
    assert(seq![b, a].last() == a);
    assert(folded(c, Seq::<T>::empty()) == c);
    assert(folded(c, seq![b]) == T::op_spec(c, b));
    assert(folded(c, seq![b, a]) == T::op_spec(T::op_spec(c, b), a));
}

} // verus!

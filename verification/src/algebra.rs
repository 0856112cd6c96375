use vstd::prelude::*;

use crate::monoid::Monoid;
use crate::semigroup::Semigroup;

verus! {

/// The left-to-right fold of the operation over a sequence of values,
/// starting from the identity element: `combined([v1, ..., vn])`
/// is `op(...op(op(identity, v1), v2)..., vn)`.
pub open spec fn combined<T: Monoid>(s: Seq<T>) -> T
    decreases s.len(),
{
    if s.len() == 0 {
        T::identity_spec()
    } else {
        T::op_spec(combined(s.drop_last()), s.last())
    }
}

/// Folding a single value yields that value.
pub proof fn lemma_combined_singleton<T: Monoid>(x: T)
    ensures
        combined(seq![x]) == x,
{
    let s = seq![x];
    assert(s.drop_last() =~= Seq::<T>::empty());
    assert(combined(Seq::<T>::empty()) == T::identity_spec());
    assert(s.last() == x);
    T::lemma_identity(x);
}

/// The fold of a concatenation is the two folds combined:
/// `combined(s + t) == op(combined(s), combined(t))`.
pub proof fn lemma_combined_concat<T: Monoid>(s: Seq<T>, t: Seq<T>)
    ensures
        combined(s + t) == T::op_spec(combined(s), combined(t)),
    decreases t.len(),
{
    if t.len() == 0 {
        assert(s + t =~= s);
        T::lemma_identity(combined(s));
    } else {
        assert((s + t).drop_last() =~= s + t.drop_last());
        assert((s + t).last() == t.last());
        lemma_combined_concat(s, t.drop_last());
        T::lemma_associative(combined(s), combined(t.drop_last()), t.last());
    }
}

/// The left-to-right fold of the operation over a sequence of values,
/// starting from the given value: `folded(v0, [v1, ..., vn])`
/// is `op(...op(op(v0, v1), v2)..., vn)`.
pub open spec fn folded<T: Semigroup>(init: T, s: Seq<T>) -> T
    decreases s.len(),
{
    if s.len() == 0 {
        init
    } else {
        T::op_spec(folded(init, s.drop_last()), s.last())
    }
}

/// Extending a semigroup fold by one value on the right.
pub proof fn lemma_folded_push<T: Semigroup>(init: T, s: Seq<T>, x: T)
    ensures
        folded(init, s.push(x)) == T::op_spec(folded(init, s), x),
{
    assert(s.push(x).drop_last() =~= s);
    assert(s.push(x).last() == x);
}

/// The elements of `s` with indices in `[a, b)`, or the empty sequence when
/// the pair does not describe a subrange of `s` (an empty or descending
/// request, or one past the end after clamping).
pub open spec fn segment<T>(s: Seq<T>, a: int, b: int) -> Seq<T> {
    if 0 <= a <= b <= s.len() {
        s.subrange(a, b)
    } else {
        Seq::empty()
    }
}

/// Extending a fold by one value on the right.
pub proof fn lemma_combined_push<T: Monoid>(s: Seq<T>, x: T)
    ensures
        combined(s.push(x)) == T::op_spec(combined(s), x),
{
    assert(s.push(x).drop_last() =~= s);
    assert(s.push(x).last() == x);
}

} // verus!

pub mod iter;

use vstd::prelude::*;

use crate::algebra::{combined, lemma_combined_concat, lemma_combined_singleton, segment};
use crate::monoid::Monoid;
use crate::range::LeafRange;
use crate::semigroup::Semigroup;

verus! {

/// The largest logical length a tree accepts: it keeps the backing buffer
/// length `2 * next_power_of_two(len)` representable in `usize`.
pub const MAX_LEN: usize = usize::MAX / 4;

/// The smallest power of two that is at least `max(n, 1)`.
pub open spec fn next_pow2(n: int) -> int
    decreases n,
{
    if n <= 1 {
        1
    } else {
        2 * next_pow2((n + 1) / 2)
    }
}

/// Bounds of [`next_pow2`]: it is positive, at least `n`, and at most `2 * n`.
pub proof fn lemma_next_pow2_bounds(n: int)
    ensures
        1 <= next_pow2(n),
        n <= next_pow2(n),
        n >= 1 ==> next_pow2(n) <= 2 * n,
        n >= 2 ==> next_pow2(n) <= 2 * (n - 1),
    decreases n,
{
    if n > 1 {
        lemma_next_pow2_bounds((n + 1) / 2);
    }
}

/// [`next_pow2`] is monotone.
pub proof fn lemma_next_pow2_monotone(m: int, n: int)
    requires
        m <= n,
    ensures
        next_pow2(m) <= next_pow2(n),
    decreases n,
{
    if m > 1 {
        lemma_next_pow2_monotone((m + 1) / 2, (n + 1) / 2);
    } else {
        lemma_next_pow2_bounds(n);
    }
}

/// [`SegmentTree`] is a data structure for efficient range queries based on a
/// perfect binary tree. It requires the underlying operation on the data to
/// form a [`Monoid`].
///
/// The backing buffer is 1-indexed: node `i` has children `2 * i` and
/// `2 * i + 1` and parent `i / 2`; index `0` is unused. The leaves sit at
/// `[leaf_offset, leaf_offset + len)` where `leaf_offset` is the smallest
/// power of two at least `len`; leaf slots past `len` hold the identity
/// element. Every internal node caches the combination of its two children,
/// which is what makes logarithmic range folds possible.
///
/// The view `self@` of a tree is the sequence of its logical elements.
///
/// # Examples
/// ```
/// use semigroup::{op::Sum, segment_tree::SegmentTree};
/// let data = [0, 1, 2, 3, 4, 5, 6, 7, 8, 9, 10];
/// let mut sum_tree = SegmentTree::from(data.into_iter().map(Sum).collect::<Vec<_>>());
/// assert_eq!(sum_tree.combine(3..=5).0, 12);
/// sum_tree.update(4, Sum(8));
/// assert_eq!(sum_tree.combine(3..=5).0, 16);
/// ```
#[derive(Debug, Clone, PartialEq, Eq, Default, Hash)]
pub struct SegmentTree<T> {
    tree: Vec<T>,
    len: usize,
}

impl<T> View for SegmentTree<T> {
    type V = Seq<T>;

    closed spec fn view(&self) -> Seq<T> {
        if self.tree@.len() == 0 {
            Seq::empty()
        } else {
            self.tree@.subrange(
                next_pow2(self.len as int),
                next_pow2(self.len as int) + self.len as int,
            )
        }
    }
}

impl<T> SegmentTree<T> {
    /// The index of the first leaf, for specifications.
    pub closed spec fn leaf_offset_spec(self) -> int {
        next_pow2(self.len as int)
    }

    /// The whole backing buffer, for the internal proofs.
    pub(crate) closed spec fn nodes_spec(self) -> Seq<T> {
        self.tree@
    }

}

impl<T: Monoid + Copy> SegmentTree<T> {
    /// A node caches the combination of its children.
    pub(crate) open spec fn node_ok(self, i: int) -> bool {
        self.nodes_spec()[i] == T::op_spec(self.nodes_spec()[2 * i], self.nodes_spec()[2 * i + 1])
    }

    /// Structural invariant: the buffer is a perfect binary tree over the
    /// logical elements, every internal node caches the combination of its
    /// children, and the leaf slots past `len` hold the identity element.
    pub closed spec fn wf(self) -> bool {
        let lo = self.leaf_offset_spec();
        &&& self.len <= MAX_LEN
        &&& if self.tree@.len() == 0 {
            self.len == 0
        } else {
            &&& self.tree@.len() == 2 * lo
            &&& forall|i: int| 1 <= i < lo ==> #[trigger] self.node_ok(i)
            &&& forall|i: int|
                lo + self.len <= i < 2 * lo ==> self.nodes_spec()[i] == T::identity_spec()
        }
    }

    /// Basic consequences of [`SegmentTree::wf`], shared by the proofs below.
    proof fn lemma_wf_facts(self)
        requires
            self.wf(),
        ensures
            self@.len() == self.len,
            self.len <= self.leaf_offset_spec(),
            1 <= self.leaf_offset_spec(),
            self.nodes_spec().len() <= usize::MAX,
            self.nodes_spec().len() > 0 ==> self.nodes_spec().len() == 2 * self.leaf_offset_spec(),
            self.len > 0 ==> self.nodes_spec().len() > 0,
            forall|k: int|
                0 <= k < self.len && self.nodes_spec().len() > 0 ==> self@[k] == self.nodes_spec()[
                    self.leaf_offset_spec() + k
                ],
    {
        lemma_next_pow2_bounds(self.len as int);
        vstd::std_specs::vec::axiom_spec_len(&self.tree);
    }

    /// **O(1)**, return this segment tree's number of data.
    pub fn len(&self) -> (r: usize)
        requires
            self.wf(),
        ensures
            r == self@.len(),
    {
        proof {
            self.lemma_wf_facts();
        }
        self.len
    }

    /// **O(1)**, check if this segment tree is empty.
    pub fn is_empty(&self) -> (r: bool)
        requires
            self.wf(),
        ensures
            r == (self@.len() == 0),
    {
        proof {
            self.lemma_wf_facts();
        }
        self.len == 0
    }

    /// **O(1)**, init empty segment tree.
    pub fn new() -> (r: Self)
        ensures
            r.wf(),
            r@ == Seq::<T>::empty(),
    {
        let (tree, len) = (Vec::new(), 0);
        Self { tree, len }
    }

    /// **O(1)**, read one logical element.
    fn leaf(&self, k: usize) -> (r: T)
        requires
            self.wf(),
            k < self@.len(),
        ensures
            r == self@[k as int],
    {
        proof {
            self.lemma_wf_facts();
        }
        let lo = self.leaf_offset();
        self.tree[lo + k]
    }

    /// **O(1)**, the index of the first leaf.
    fn leaf_offset(&self) -> (r: usize)
        requires
            self.wf(),
        ensures
            r == self.leaf_offset_spec(),
    {
        proof {
            lemma_next_pow2_bounds(self.len as int);
        }
        next_power_of_two(self.len)
    }

    /// Replace leaf `i` and restore the cached values on the path to the root.
    fn update_at(&mut self, i: usize, x: T) -> (prev: T)
        requires
            old(self).wf(),
            i < old(self)@.len(),
        ensures
            final(self).wf(),
            final(self)@ == old(self)@.update(i as int, x),
            prev == old(self)@[i as int],
    {
        proof {
            old(self).lemma_wf_facts();
        }
        let lo = self.leaf_offset();
        let ghost lo_spec = self.leaf_offset_spec();
        let mut node = lo + i;
        let prev = self.tree[node];
        self.tree.set(node, x);
        proof {
            assert(self@ =~= old(self)@.update(i as int, x));
            assert forall|j: int|
                1 <= j < lo_spec && !is_strict_ancestor(j, node as int) implies #[trigger] self.node_ok(
                j,
            ) by {
                if 2 * j == node || 2 * j + 1 == node {
                    assert(j == node as int / 2);
                    assert(is_strict_ancestor(j, node as int));
                }
                assert(old(self).node_ok(j));
                assert(self.nodes_spec()[j] == old(self).nodes_spec()[j]);
                assert(self.nodes_spec()[2 * j] == old(self).nodes_spec()[2 * j]);
                assert(self.nodes_spec()[2 * j + 1] == old(self).nodes_spec()[2 * j + 1]);
            }
        }
        while node > 1
            invariant
                old(self).wf(),
                i < old(self).len,
                self.len == old(self).len,
                lo_spec == self.leaf_offset_spec(),
                self.tree@.len() == 2 * lo_spec,
                1 <= node < 2 * lo_spec,
                self@ == old(self)@.update(i as int, x),
                forall|j: int|
                    lo_spec + self.len <= j < 2 * lo_spec ==> self.nodes_spec()[j]
                        == T::identity_spec(),
                forall|j: int|
                    1 <= j < lo_spec && !is_strict_ancestor(j, node as int) ==> #[trigger] self.node_ok(
                        j,
                    ),
            decreases node,
        {
            let ghost prev_node = node as int;
            let ghost snapshot = *self;
            proof {
                old(self).lemma_wf_facts();
            }
            node = node / 2;
            proof {
                assert(1 <= node < lo_spec);
            }
            let v = T::op(self.tree[2 * node], self.tree[2 * node + 1]);
            self.tree.set(node, v);
            proof {
                assert(self@ =~= old(self)@.update(i as int, x)) by {
                    assert(snapshot@ == old(self)@.update(i as int, x));
                    assert(self@ =~= snapshot@);
                }
                assert(self.node_ok(node as int));
                assert forall|j: int|
                    lo_spec + self.len <= j < 2 * lo_spec implies self.nodes_spec()[j]
                    == T::identity_spec() by {
                    assert(self.nodes_spec()[j] == snapshot.nodes_spec()[j]);
                }
                assert forall|j: int|
                    1 <= j < lo_spec && !is_strict_ancestor(j, node as int) implies #[trigger] self.node_ok(
                    j,
                ) by {
                    if j != node {
                        assert(!is_strict_ancestor(j, prev_node)) by {
                            assert(node as int == prev_node / 2);
                        }
                        assert(snapshot.node_ok(j));
                        if 2 * j == node || 2 * j + 1 == node {
                            assert(j == node as int / 2);
                            assert(is_strict_ancestor(j, node as int));
                        }
                        assert(self.nodes_spec()[j] == snapshot.nodes_spec()[j]);
                        assert(self.nodes_spec()[2 * j] == snapshot.nodes_spec()[2 * j]);
                        assert(self.nodes_spec()[2 * j + 1] == snapshot.nodes_spec()[2 * j + 1]);
                    }
                }
            }
        }
        prev
    }

    /// **O(log(n))**, set `leaf[i] = x`, and update the segment tree. Out of
    /// range indices are a soft boundary: the tree is unchanged and `None` is
    /// returned. On success the previous value of the leaf is returned.
    pub fn update(&mut self, i: usize, x: T) -> (r: Option<T>)
        requires
            old(self).wf(),
        ensures
            final(self).wf(),
            i < old(self)@.len() ==> {
                &&& r == Some(old(self)@[i as int])
                &&& final(self)@ == old(self)@.update(i as int, x)
            },
            i >= old(self)@.len() ==> r is None && *final(self) == *old(self),
    {
        proof {
            old(self).lemma_wf_facts();
        }
        if i < self.len {
            Some(self.update_at(i, x))
        } else {
            None
        }
    }

    /// **O(log(n))**, update `leaf[i]` by `f(leaf[i])`, and update the segment
    /// tree. Out of range indices are a soft boundary: the tree is unchanged
    /// and `None` is returned. On success the value passed to `f` is returned.
    pub fn update_with<F: FnOnce(&T) -> T>(&mut self, i: usize, f: F) -> (r: Option<T>)
        requires
            old(self).wf(),
            i < old(self)@.len() ==> f.requires((&old(self)@[i as int],)),
        ensures
            final(self).wf(),
            i < old(self)@.len() ==> {
                &&& r == Some(old(self)@[i as int])
                &&& final(self)@ == old(self)@.update(i as int, final(self)@[i as int])
                &&& f.ensures((&old(self)@[i as int],), final(self)@[i as int])
            },
            i >= old(self)@.len() ==> r is None && *final(self) == *old(self),
    {
        proof {
            old(self).lemma_wf_facts();
        }
        if i < self.len {
            let lo = self.leaf_offset();
            let x = f(&self.tree[lo + i]);
            let prev = self.update_at(i, x);
            Some(prev)
        } else {
            None
        }
    }
}

impl<T: Monoid + Copy> SegmentTree<T> {
    /// **O(n)**, copy the logical elements out of the leaf range.
    fn leaves_vec(&self) -> (r: Vec<T>)
        requires
            self.wf(),
        ensures
            r@ == self@,
    {
        proof {
            self.lemma_wf_facts();
        }
        let lo = self.leaf_offset();
        let mut v: Vec<T> = Vec::new();
        let mut k: usize = 0;
        while k < self.len
            invariant
                self.wf(),
                k <= self.len,
                lo == self.leaf_offset_spec(),
                v@ == self@.subrange(0, k as int),
            decreases self.len - k,
        {
            proof {
                self.lemma_wf_facts();
            }
            v.push(self.tree[lo + k]);
            k += 1;
            proof {
                assert(v@ =~= self@.subrange(0, k as int));
            }
        }
        proof {
            self.lemma_wf_facts();
            assert(v@ =~= self@);
        }
        v
    }

    /// **O(n)**, overwrite the first `data.len()` leaves and rebuild every
    /// cached internal node bottom-up.
    fn reconstruct(&mut self, data: &[T])
        requires
            old(self).len <= MAX_LEN,
            old(self).nodes_spec().len() == 2 * old(self).leaf_offset_spec(),
            data@.len() <= old(self).len,
            forall|j: int|
                old(self).leaf_offset_spec() + old(self).len <= j < 2 * old(self).leaf_offset_spec()
                    ==> #[trigger] old(self).nodes_spec()[j] == T::identity_spec(),
        ensures
            final(self).wf(),
            final(self).len == old(self).len,
            final(self).nodes_spec().len() == old(self).nodes_spec().len(),
            final(self)@ == data@ + old(self)@.subrange(data@.len() as int, old(self).len as int),
    {
        proof {
            lemma_next_pow2_bounds(self.len as int);
            vstd::std_specs::vec::axiom_spec_len(&self.tree);
        }
        let ghost lo_spec = self.leaf_offset_spec();
        let lo = next_power_of_two(self.len);
        let mut idx: usize = 0;
        while idx < data.len()
            invariant
                idx <= data@.len(),
                data@.len() <= self.len <= MAX_LEN,
                lo_spec == self.leaf_offset_spec(),
                lo as int == lo_spec,
                self.len == old(self).len,
                self.nodes_spec().len() == 2 * lo_spec,
                forall|k: int| 0 <= k < idx ==> self.nodes_spec()[lo_spec + k] == data@[k],
                forall|j: int|
                    0 <= j < 2 * lo_spec && !(lo_spec <= j < lo_spec + idx)
                        ==> self.nodes_spec()[j] == old(self).nodes_spec()[j],
            decreases data@.len() - idx,
        {
            proof {
                lemma_next_pow2_bounds(self.len as int);
                vstd::std_specs::vec::axiom_spec_len(&self.tree);
            }
            self.tree.set(lo + idx, data[idx]);
            idx += 1;
        }
        let mut i = lo;
        while i > 1
            invariant
                1 <= i <= lo_spec,
                data@.len() <= self.len <= MAX_LEN,
                lo_spec == self.leaf_offset_spec(),
                lo as int == lo_spec,
                self.len == old(self).len,
                self.nodes_spec().len() == 2 * lo_spec,
                forall|k: int| 0 <= k < data@.len() ==> self.nodes_spec()[lo_spec + k] == data@[k],
                forall|j: int|
                    lo_spec + data@.len() <= j < 2 * lo_spec ==> self.nodes_spec()[j] == old(
                        self,
                    ).nodes_spec()[j],
                forall|j: int| i <= j < lo_spec ==> #[trigger] self.node_ok(j),
            decreases i,
        {
            proof {
                vstd::std_specs::vec::axiom_spec_len(&self.tree);
                lemma_next_pow2_bounds(self.len as int);
            }
            i -= 1;
            let ghost snapshot = *self;
            let v = T::op(self.tree[2 * i], self.tree[2 * i + 1]);
            self.tree.set(i, v);
            proof {
                assert(self.node_ok(i as int));
                assert forall|k: int| 0 <= k < data@.len() implies self.nodes_spec()[lo_spec + k]
                    == data@[k] by {
                    assert(self.nodes_spec()[lo_spec + k] == snapshot.nodes_spec()[lo_spec + k]);
                }
                assert forall|j: int|
                    lo_spec + data@.len() <= j < 2 * lo_spec implies self.nodes_spec()[j] == old(
                    self,
                ).nodes_spec()[j] by {
                    assert(self.nodes_spec()[j] == snapshot.nodes_spec()[j]);
                }
                assert forall|j: int| i as int + 1 <= j < lo_spec implies #[trigger] self.node_ok(
                    j,
                ) by {
                    assert(snapshot.node_ok(j));
                    assert(self.nodes_spec()[j] == snapshot.nodes_spec()[j]);
                    assert(self.nodes_spec()[2 * j] == snapshot.nodes_spec()[2 * j]);
                    assert(self.nodes_spec()[2 * j + 1] == snapshot.nodes_spec()[2 * j + 1]);
                }
            }
        }
        proof {
            lemma_next_pow2_bounds(self.len as int);
            assert(self.wf());
            self.lemma_wf_facts();
            lemma_next_pow2_bounds(old(self).len as int);
            assert(self@ =~= data@ + old(self)@.subrange(
                data@.len() as int,
                old(self).len as int,
            ));
        }
    }

    /// **O(len)**, grow the logical length to `len`, filling the new slots
    /// with the identity element; existing data is kept. If the new length
    /// exceeds the current capacity the buffer is reallocated and rebuilt.
    fn resize_upto(&mut self, len: usize)
        requires
            old(self).wf(),
            old(self)@.len() <= len <= MAX_LEN,
        ensures
            final(self).wf(),
            final(self).nodes_spec().len() == 2 * final(self).leaf_offset_spec(),
            final(self)@ == old(self)@ + Seq::new(
                (len - old(self)@.len()) as nat,
                |k: int| T::identity_spec(),
            ),
    {
        proof {
            old(self).lemma_wf_facts();
            lemma_next_pow2_bounds(len as int);
        }
        let cap = 2 * next_power_of_two(len);
        if cap > self.tree.len() {
            let data = self.leaves_vec();
            let mut fresh: Vec<T> = Vec::new();
            while fresh.len() < cap
                invariant
                    fresh@.len() <= cap,
                    forall|j: int| 0 <= j < fresh@.len() ==> fresh@[j] == T::identity_spec(),
                decreases cap - fresh@.len(),
            {
                fresh.push(T::identity());
            }
            self.tree = fresh;
            self.len = len;
            proof {
                assert(self.nodes_spec().len() == 2 * self.leaf_offset_spec());
                lemma_next_pow2_bounds(self.len as int);
            }
            self.reconstruct(data.as_slice());
            proof {
                assert(self@ =~= old(self)@ + Seq::new(
                    (len - old(self)@.len()) as nat,
                    |k: int| T::identity_spec(),
                ));
            }
        } else {
            proof {
                lemma_next_pow2_monotone(old(self).len as int, len as int);
                assert(next_pow2(len as int) == next_pow2(old(self).len as int));
            }
            self.len = len;
            proof {
                assert(self.nodes_spec() == old(self).nodes_spec());
                assert(self.leaf_offset_spec() == old(self).leaf_offset_spec());
                assert forall|j: int|
                    1 <= j < self.leaf_offset_spec() implies #[trigger] self.node_ok(j) by {
                    assert(old(self).node_ok(j));
                }
                assert(self.wf());
                self.lemma_wf_facts();
                assert(self@ =~= old(self)@ + Seq::new(
                    (len - old(self)@.len()) as nat,
                    |k: int| T::identity_spec(),
                ));
            }
        }
    }

    /// **O(n)**, build a segment tree over the given data.
    ///
    /// The length is bounded by [`MAX_LEN`], a machine limit that keeps the
    /// backing buffer length representable.
    pub fn from(v: Vec<T>) -> (r: Self)
        requires
            v@.len() <= MAX_LEN,
        ensures
            r.wf(),
            r@ == v@,
    {
        let mut t = Self::new();
        t.resize_upto(v.len());
        proof {
            t.lemma_wf_facts();
        }
        t.reconstruct(v.as_slice());
        proof {
            assert(t@ =~= v@);
        }
        t
    }

    /// amortized **O(log(n))**, append `x` at the end of the logical sequence.
    pub fn push(&mut self, x: T)
        requires
            old(self).wf(),
            old(self)@.len() < MAX_LEN,
        ensures
            final(self).wf(),
            final(self)@ == old(self)@.push(x),
    {
        proof {
            old(self).lemma_wf_facts();
        }
        let n = self.len;
        self.resize_upto(n + 1);
        self.update_at(n, x);
        proof {
            assert(self@ =~= old(self)@.push(x));
        }
    }

    /// amortized **O(len(slice) log(n))**, extend the tree by the given
    /// slice. When the total length exceeds the current capacity the tree is
    /// rebuilt once in bulk; otherwise the elements are pushed one by one.
    pub fn extend_from_slice(&mut self, slice: &[T])
        requires
            old(self).wf(),
            old(self)@.len() + slice@.len() <= MAX_LEN,
        ensures
            final(self).wf(),
            final(self)@ == old(self)@ + slice@,
    {
        proof {
            old(self).lemma_wf_facts();
            lemma_next_pow2_bounds((old(self).len + slice@.len()) as int);
        }
        let total = self.len + slice.len();
        if 2 * next_power_of_two(total) > self.tree.len() {
            let mut data = self.leaves_vec();
            let mut k: usize = 0;
            while k < slice.len()
                invariant
                    k <= slice@.len(),
                    data@ == old(self)@ + slice@.subrange(0, k as int),
                decreases slice@.len() - k,
            {
                data.push(slice[k]);
                k += 1;
                proof {
                    assert(data@ =~= old(self)@ + slice@.subrange(0, k as int));
                }
            }
            proof {
                assert(data@ =~= old(self)@ + slice@);
            }
            self.resize_upto(total);
            proof {
                self.lemma_wf_facts();
            }
            self.reconstruct(data.as_slice());
            proof {
                assert(self@ =~= old(self)@ + slice@);
            }
        } else {
            let mut k: usize = 0;
            while k < slice.len()
                invariant
                    k <= slice@.len(),
                    old(self)@.len() + slice@.len() <= MAX_LEN,
                    self.wf(),
                    self@ == old(self)@ + slice@.subrange(0, k as int),
                decreases slice@.len() - k,
            {
                proof {
                    self.lemma_wf_facts();
                }
                self.push(slice[k]);
                k += 1;
                proof {
                    assert(self@ =~= old(self)@ + slice@.subrange(0, k as int));
                }
            }
            proof {
                assert(self@ =~= old(self)@ + slice@);
            }
        }
    }
}

/// The leaf values covered by node `i` of a perfect binary tree whose leaves
/// start at `lo`: a single leaf for leaf nodes, the concatenation of the two
/// children's spans for internal nodes, and nothing for indices out of range.
spec fn span<T>(tree: Seq<T>, lo: int, i: int) -> Seq<T>
    decreases 2 * lo - i,
{
    if i < 1 || i >= 2 * lo {
        Seq::empty()
    } else if i >= lo {
        seq![tree[i]]
    } else {
        span(tree, lo, 2 * i) + span(tree, lo, 2 * i + 1)
    }
}

/// The concatenation of the spans of the nodes `l, l + 1, ..., r - 1`.
spec fn spans<T>(tree: Seq<T>, lo: int, l: int, r: int) -> Seq<T>
    decreases r - l,
{
    if l >= r {
        Seq::empty()
    } else {
        span(tree, lo, l) + spans(tree, lo, l + 1, r)
    }
}

/// Splitting the last node off a row of spans.
proof fn lemma_spans_split_last<T>(tree: Seq<T>, lo: int, l: int, r: int)
    requires
        l < r,
    ensures
        spans(tree, lo, l, r) == spans(tree, lo, l, r - 1) + span(tree, lo, r - 1),
    decreases r - l,
{
    if l == r - 1 {
        assert(spans(tree, lo, l, r) == span(tree, lo, l) + spans(tree, lo, l + 1, r));
        assert(spans(tree, lo, l + 1, r) == Seq::<T>::empty());
        assert(spans(tree, lo, l, l) == Seq::<T>::empty());
        assert(spans(tree, lo, l, r) =~= spans(tree, lo, l, l) + span(tree, lo, l));
    } else {
        lemma_spans_split_last(tree, lo, l + 1, r);
        assert(spans(tree, lo, l, r) =~= spans(tree, lo, l, r - 1) + span(tree, lo, r - 1));
    }
}

/// At the leaf level, a row of spans is exactly the slice of the buffer.
proof fn lemma_spans_leaves<T>(tree: Seq<T>, lo: int, a: int, b: int)
    requires
        1 <= lo,
        lo <= a <= b <= 2 * lo,
        2 * lo <= tree.len(),
    ensures
        spans(tree, lo, a, b) == tree.subrange(a, b),
    decreases b - a,
{
    if a < b {
        lemma_spans_leaves(tree, lo, a + 1, b);
        assert(spans(tree, lo, a, b) =~= tree.subrange(a, b));
    } else {
        assert(spans(tree, lo, a, b) =~= tree.subrange(a, b));
    }
}

/// A row of spans over `[2a, 2b)` covers the same leaves as the parents' row
/// over `[a, b)`.
proof fn lemma_spans_level<T>(tree: Seq<T>, lo: int, a: int, b: int)
    requires
        1 <= a <= b <= lo,
    ensures
        spans(tree, lo, 2 * a, 2 * b) == spans(tree, lo, a, b),
    decreases b - a,
{
    if a < b {
        lemma_spans_level(tree, lo, a + 1, b);
        assert(spans(tree, lo, 2 * a, 2 * b) == span(tree, lo, 2 * a) + spans(
            tree,
            lo,
            2 * a + 1,
            2 * b,
        ));
        assert(spans(tree, lo, 2 * a + 1, 2 * b) == span(tree, lo, 2 * a + 1) + spans(
            tree,
            lo,
            2 * a + 2,
            2 * b,
        ));
        assert(2 * (a + 1) == 2 * a + 2);
        assert(spans(tree, lo, 2 * a, 2 * b) =~= span(tree, lo, 2 * a) + (span(tree, lo, 2 * a + 1)
            + spans(tree, lo, 2 * (a + 1), 2 * b)));
        assert(span(tree, lo, a) == span(tree, lo, 2 * a) + span(tree, lo, 2 * a + 1));
        assert(spans(tree, lo, 2 * a, 2 * b) =~= spans(tree, lo, a, b));
    } else {
        assert(spans(tree, lo, 2 * a, 2 * b) =~= spans(tree, lo, a, b));
    }
}

impl<T: Monoid + Copy> SegmentTree<T> {
    /// In a well-formed tree, every node caches the fold of the leaves its
    /// subtree covers.
    proof fn lemma_node_value(self, i: int)
        requires
            self.wf(),
            self.nodes_spec().len() > 0,
            1 <= i < 2 * self.leaf_offset_spec(),
        ensures
            self.nodes_spec()[i] == combined(span(
                self.nodes_spec(),
                self.leaf_offset_spec(),
                i,
            )),
        decreases 2 * self.leaf_offset_spec() - i,
    {
        let tree = self.nodes_spec();
        let lo = self.leaf_offset_spec();
        self.lemma_wf_facts();
        if i >= lo {
            lemma_combined_singleton(tree[i]);
        } else {
            self.lemma_node_value(2 * i);
            self.lemma_node_value(2 * i + 1);
            lemma_combined_concat::<T>(span(tree, lo, 2 * i), span(tree, lo, 2 * i + 1));
            assert(self.node_ok(i));
        }
    }

    /// **O(log(n))**, combine the range: the result is the left-to-right fold
    /// of the operation over the logical elements the range selects. An empty
    /// or descending range yields the identity element; bounds past the end
    /// are clamped.
    pub fn combine<R: LeafRange>(&self, range: R) -> (r: T)
        requires
            self.wf(),
        ensures
            r == combined(segment(self@, range.start_spec(), range.end_spec(self@.len() as int))),
    {
        proof {
            self.lemma_wf_facts();
        }
        let n = self.len;
        let (start, end) = range.bounds(n);
        let ghost target_seq = segment(self@, range.start_spec(), range.end_spec(
            self@.len() as int,
        ));
        if start >= end {
            proof {
                assert(target_seq =~= Seq::<T>::empty());
            }
            return T::identity();
        }
        let ghost tree_seq = self.nodes_spec();
        let ghost lo_spec = self.leaf_offset_spec();
        let ghost target = combined(target_seq);
        let lo = self.leaf_offset();
        let mut left = lo + start;
        let mut right = lo + end;
        let mut acc_l = T::identity();
        let mut acc_r = T::identity();
        proof {
            lemma_spans_leaves(tree_seq, lo_spec, left as int, right as int);
            assert(tree_seq.subrange(left as int, right as int) =~= target_seq);
            let c = combined(spans(tree_seq, lo_spec, left as int, right as int));
            T::lemma_identity(c);
            T::lemma_identity(T::op_spec(c, acc_r));
        }
        while left < right
            invariant
                self.wf(),
                self.nodes_spec().len() > 0,
                tree_seq == self.nodes_spec(),
                lo_spec == self.leaf_offset_spec(),
                1 <= left <= right <= 2 * lo_spec,
                target == T::op_spec(
                    acc_l,
                    T::op_spec(
                        combined(spans(tree_seq, lo_spec, left as int, right as int)),
                        acc_r,
                    ),
                ),
            decreases right,
        {
            proof {
                self.lemma_wf_facts();
            }
            if left % 2 == 1 {
                proof {
                    let l = left as int;
                    let r = right as int;
                    self.lemma_node_value(l);
                    let head = span(tree_seq, lo_spec, l);
                    let rest = spans(tree_seq, lo_spec, l + 1, r);
                    assert(spans(tree_seq, lo_spec, l, r) == head + rest);
                    lemma_combined_concat::<T>(head, rest);
                    T::lemma_associative(combined(head), combined(rest), acc_r);
                    T::lemma_associative(acc_l, combined(head), T::op_spec(combined(rest), acc_r));
                }
                acc_l = T::op(acc_l, self.tree[left]);
                left += 1;
            }
            if right % 2 == 1 {
                right -= 1;
                proof {
                    let l = left as int;
                    let r = right as int;
                    self.lemma_node_value(r);
                    lemma_spans_split_last(tree_seq, lo_spec, l, r + 1);
                    let last = span(tree_seq, lo_spec, r);
                    let rest = spans(tree_seq, lo_spec, l, r);
                    lemma_combined_concat::<T>(rest, last);
                    T::lemma_associative(combined(rest), combined(last), acc_r);
                }
                acc_r = T::op(self.tree[right], acc_r);
            }
            proof {
                if left < right {
                    lemma_spans_level(tree_seq, lo_spec, left as int / 2, right as int / 2);
                } else {
                    assert(spans(tree_seq, lo_spec, left as int, right as int)
                        =~= Seq::<T>::empty());
                    assert(spans(tree_seq, lo_spec, left as int / 2, right as int / 2)
                        =~= Seq::<T>::empty());
                }
            }
            left = left / 2;
            right = right / 2;
        }
        proof {
            assert(spans(tree_seq, lo_spec, left as int, right as int) =~= Seq::<T>::empty());
            T::lemma_identity(acc_r);
        }
        T::op(acc_l, acc_r)
    }
}

/// The closure computes the spec predicate: every value the closure's
/// contract allows it to return is the predicate's verdict on the argument.
/// For a closure whose `ensures` states its result exactly, this is provable
/// by pure spec reasoning.
pub open spec fn decides<T, F: Fn(&T) -> bool>(f: F, p: spec_fn(T) -> bool) -> bool {
    forall|t: &T, b: bool| #[trigger] f.ensures((t,), b) ==> b == p(*t)
}

/// The predicate is fit for bisection: it rejects the identity element, and
/// it holds at a combination exactly when it holds at one of the operands.
/// Threshold predicates over `Max` or `Min` trees are of this kind. Such a
/// predicate is monotonic over growing ranges: once some element of a range
/// satisfies it, every wider range's fold does too.
pub open spec fn bisectable<T: Monoid>(p: spec_fn(T) -> bool) -> bool {
    &&& forall|a: T, b: T| p(#[trigger] T::op_spec(a, b)) == (p(a) || p(b))
    &&& !p(T::identity_spec())
}

/// The closure computes a predicate fit for bisection.
pub open spec fn bisects<T: Monoid, F: Fn(&T) -> bool>(f: F, p: spec_fn(T) -> bool) -> bool {
    decides(f, p) && bisectable(p)
}

/// The result is the leftmost index of `[a, e)` whose element satisfies the
/// predicate, or `None` when no element of the range does.
pub open spec fn leftmost_hit<T>(
    s: Seq<T>,
    p: spec_fn(T) -> bool,
    a: int,
    e: int,
    r: Option<usize>,
) -> bool {
    match r {
        Some(k) => {
            &&& a <= (k as int) && (k as int) < e
            &&& p(s[k as int])
            &&& forall|j: int| a <= j < k as int ==> !p(#[trigger] s[j])
        },
        None => forall|j: int| a <= j < e ==> !p(#[trigger] s[j]),
    }
}

/// The result is the rightmost index of `[a, e)` whose element satisfies the
/// predicate, or `None` when no element of the range does.
pub open spec fn rightmost_hit<T>(
    s: Seq<T>,
    p: spec_fn(T) -> bool,
    a: int,
    e: int,
    r: Option<usize>,
) -> bool {
    match r {
        Some(k) => {
            &&& a <= (k as int) && (k as int) < e
            &&& p(s[k as int])
            &&& forall|j: int| (k as int) < j && j < e ==> !p(#[trigger] s[j])
        },
        None => forall|j: int| a <= j < e ==> !p(#[trigger] s[j]),
    }
}

/// A bisection predicate holds at a fold exactly when it holds at one of the
/// folded elements.
pub proof fn lemma_bisectable_fold<T: Monoid>(p: spec_fn(T) -> bool, s: Seq<T>)
    requires
        bisectable(p),
    ensures
        p(combined(s)) <==> exists|i: int| 0 <= i < s.len() && p(#[trigger] s[i]),
    decreases s.len(),
{
    if s.len() == 0 {
        assert(combined(s) == T::identity_spec());
    } else {
        let head = s.drop_last();
        lemma_bisectable_fold(p, head);
        assert(combined(s) == T::op_spec(combined(head), s.last()));
        if p(combined(s)) {
            if p(combined(head)) {
                let i = choose|i: int| 0 <= i < head.len() && p(#[trigger] head[i]);
                assert(s[i] == head[i]);
                assert(0 <= i < s.len() && p(s[i]));
            } else {
                assert(p(s.last()));
                assert(s[s.len() - 1] == s.last());
            }
        }
        if exists|i: int| 0 <= i < s.len() && p(#[trigger] s[i]) {
            let i = choose|i: int| 0 <= i < s.len() && p(#[trigger] s[i]);
            if i < s.len() - 1 {
                assert(head[i] == s[i]);
                assert(p(combined(head)));
            } else {
                assert(p(s.last()));
            }
        }
    }
}

impl<T: Monoid + Copy> SegmentTree<T> {
    /// The engine of the leftward search on an in-bounds, nonempty window:
    /// the result is characterized for every predicate the closure computes.
    fn bisect_left_core<F: Fn(&T) -> bool>(&self, start0: usize, end0: usize, cmp: F) -> (r:
        Option<usize>)
        requires
            self.wf(),
            forall|t: &T| #[trigger] cmp.requires((t,)),
            start0 < end0,
            end0 as int <= self@.len(),
        ensures
            forall|p: spec_fn(T) -> bool| #[trigger] bisects(cmp, p) ==> leftmost_hit(
                self@,
                p,
                start0 as int,
                end0 as int,
                r,
            ),
    {
        let mut start = start0;
        let mut end = end0;
        while end - start > 1
            invariant
                self.wf(),
                forall|t: &T| #[trigger] cmp.requires((t,)),
                start0 as int <= start < end <= end0,
                end0 as int <= self@.len(),
                forall|p: spec_fn(T) -> bool| #[trigger] bisects(cmp, p) ==> forall|j: int|
                    start0 as int <= j < start as int ==> !p(#[trigger] self@[j]),
                forall|p: spec_fn(T) -> bool| #[trigger] bisects(cmp, p) ==> ((exists|j: int|
                    end as int <= j < end0 as int && p(#[trigger] self@[j])) ==> exists|i: int|
                    start as int <= i < end as int && p(#[trigger] self@[i])),
            decreases end - start,
        {
            proof {
                self.lemma_wf_facts();
            }
            let mid = start + (end - start) / 2;
            let c = self.combine(start..mid);
            let ghost window = self@.subrange(start as int, mid as int);
            let b = cmp(&c);
            let ghost prev_start = start as int;
            let ghost prev_end = end as int;
            if b {
                end = mid;
                proof {
                    assert(c == combined(window));
                    assert forall|p: spec_fn(T) -> bool| #[trigger] bisects(cmp, p) implies exists|
                        i: int,
                    | prev_start <= i < mid as int && p(#[trigger] self@[i]) by {
                        assert(p(c));
                        lemma_bisectable_fold(p, window);
                        let i = choose|i: int| 0 <= i < window.len() && p(#[trigger] window[i]);
                        assert(self@[prev_start + i] == window[i]);
                        assert(p(self@[prev_start + i]));
                    }
                }
            } else {
                start = mid;
                proof {
                    assert(c == combined(window));
                    assert forall|p: spec_fn(T) -> bool| #[trigger] bisects(cmp, p) implies (forall|
                        j: int,
                    | prev_start <= j < mid as int ==> !p(#[trigger] self@[j])) by {
                        assert(!p(c));
                        lemma_bisectable_fold(p, window);
                        assert forall|j: int|
                            prev_start <= j < mid as int implies !p(#[trigger] self@[j]) by {
                            if p(self@[j]) {
                                assert(window[j - prev_start] == self@[j]);
                            }
                        }
                    }
                    assert forall|p: spec_fn(T) -> bool|
                        #[trigger] bisects(cmp, p) && (exists|j: int|
                            prev_end <= j < end0 as int && p(#[trigger] self@[j])) implies exists|
                        i: int,
                    | mid as int <= i < prev_end && p(#[trigger] self@[i]) by {
                        let i0 = choose|i: int| prev_start <= i < prev_end && p(#[trigger] self@[i]);
                        assert(mid as int <= i0);
                    }
                }
            }
        }
        proof {
            self.lemma_wf_facts();
        }
        let leaf = self.leaf(start);
        let b = cmp(&leaf);
        if b {
            proof {
                assert forall|p: spec_fn(T) -> bool| #[trigger] bisects(cmp, p) implies leftmost_hit(
                    self@,
                    p,
                    start0 as int,
                    end0 as int,
                    Some(start),
                ) by {
                    assert(p(self@[start as int]));
                }
            }
            Some(start)
        } else {
            proof {
                assert forall|p: spec_fn(T) -> bool| #[trigger] bisects(cmp, p) implies leftmost_hit(
                    self@,
                    p,
                    start0 as int,
                    end0 as int,
                    None::<usize>,
                ) by {
                    assert(!p(self@[start as int]));
                    assert forall|j: int|
                        start0 as int <= j < end0 as int implies !p(#[trigger] self@[j]) by {
                        if p(self@[j]) {
                            assert(end as int <= j);
                        }
                    }
                }
            }
            None
        }
    }

    /// **O(log^2(n))**, search for the leftmost leaf in the range that the
    /// predicate accepts. `None` when no leaf in the range is accepted; an
    /// empty or descending range yields `None`. The result is characterized
    /// for every predicate the closure computes that is fit for bisection;
    /// verified callers may prefer [`SegmentTree::bisect_left_with`], which
    /// takes the predicate as a ghost argument.
    pub fn bisect_left<R: LeafRange, F: Fn(&T) -> bool>(&self, range: R, cmp: F) -> (r: Option<
        usize,
    >)
        requires
            self.wf(),
            forall|t: &T| #[trigger] cmp.requires((t,)),
        ensures
            forall|p: spec_fn(T) -> bool| #[trigger] bisects(cmp, p) ==> leftmost_hit(
                self@,
                p,
                range.start_spec(),
                range.end_spec(self@.len() as int),
                r,
            ),
    {
        proof {
            self.lemma_wf_facts();
        }
        let n = self.len;
        let (start0, end0) = range.bounds(n);
        if start0 >= end0 {
            return None;
        }
        self.bisect_left_core(start0, end0, cmp)
    }

    /// [`SegmentTree::bisect_left`] for verified callers: the ghost argument
    /// names the predicate the closure computes, and the result is pinned
    /// over it.
    pub fn bisect_left_with<R: LeafRange, F: Fn(&T) -> bool>(
        &self,
        range: R,
        cmp: F,
        p: Ghost<spec_fn(T) -> bool>,
    ) -> (r: Option<usize>)
        requires
            self.wf(),
            forall|t: &T| #[trigger] cmp.requires((t,)),
            decides(cmp, p@),
            bisectable(p@),
        ensures
            leftmost_hit(self@, p@, range.start_spec(), range.end_spec(self@.len() as int), r),
    {
        let r = self.bisect_left(range, cmp);
        proof {
            assert(bisects(cmp, p@));
        }
        r
    }

    /// The engine of the rightward search on an in-bounds, nonempty window:
    /// the result is characterized for every predicate the closure computes.
    fn bisect_right_core<F: Fn(&T) -> bool>(&self, start0: usize, end0: usize, cmp: F) -> (r:
        Option<usize>)
        requires
            self.wf(),
            forall|t: &T| #[trigger] cmp.requires((t,)),
            start0 < end0,
            end0 as int <= self@.len(),
        ensures
            forall|p: spec_fn(T) -> bool| #[trigger] bisects(cmp, p) ==> rightmost_hit(
                self@,
                p,
                start0 as int,
                end0 as int,
                r,
            ),
    {
        let mut start = start0;
        let mut end = end0;
        while end - start > 1
            invariant
                self.wf(),
                forall|t: &T| #[trigger] cmp.requires((t,)),
                start0 as int <= start < end <= end0,
                end0 as int <= self@.len(),
                forall|p: spec_fn(T) -> bool| #[trigger] bisects(cmp, p) ==> forall|j: int|
                    end as int <= j < end0 as int ==> !p(#[trigger] self@[j]),
                forall|p: spec_fn(T) -> bool| #[trigger] bisects(cmp, p) ==> ((exists|j: int|
                    start0 as int <= j < start as int && p(#[trigger] self@[j])) ==> exists|i: int|
                    start as int <= i < end as int && p(#[trigger] self@[i])),
            decreases end - start,
        {
            proof {
                self.lemma_wf_facts();
            }
            let mid = start + (end - start) / 2;
            let c = self.combine(mid..end);
            let ghost window = self@.subrange(mid as int, end as int);
            let b = cmp(&c);
            let ghost prev_start = start as int;
            let ghost prev_end = end as int;
            if b {
                start = mid;
                proof {
                    assert(c == combined(window));
                    assert forall|p: spec_fn(T) -> bool| #[trigger] bisects(cmp, p) implies exists|
                        i: int,
                    | mid as int <= i < prev_end && p(#[trigger] self@[i]) by {
                        assert(p(c));
                        lemma_bisectable_fold(p, window);
                        let i = choose|i: int| 0 <= i < window.len() && p(#[trigger] window[i]);
                        assert(self@[mid as int + i] == window[i]);
                        assert(p(self@[mid as int + i]));
                    }
                }
            } else {
                end = mid;
                proof {
                    assert(c == combined(window));
                    assert forall|p: spec_fn(T) -> bool| #[trigger] bisects(cmp, p) implies (forall|
                        j: int,
                    | mid as int <= j < prev_end ==> !p(#[trigger] self@[j])) by {
                        assert(!p(c));
                        lemma_bisectable_fold(p, window);
                        assert forall|j: int|
                            mid as int <= j < prev_end implies !p(#[trigger] self@[j]) by {
                            if p(self@[j]) {
                                assert(window[j - mid as int] == self@[j]);
                            }
                        }
                    }
                    assert forall|p: spec_fn(T) -> bool|
                        #[trigger] bisects(cmp, p) && (exists|j: int|
                            start0 as int <= j < prev_start && p(#[trigger] self@[j])) implies exists|
                        i: int,
                    | prev_start <= i < mid as int && p(#[trigger] self@[i]) by {
                        let i0 = choose|i: int| prev_start <= i < prev_end && p(#[trigger] self@[i]);
                        assert(i0 < mid as int);
                    }
                }
            }
        }
        proof {
            self.lemma_wf_facts();
        }
        let leaf = self.leaf(start);
        let b = cmp(&leaf);
        if b {
            proof {
                assert forall|p: spec_fn(T) -> bool| #[trigger] bisects(cmp, p) implies rightmost_hit(
                    self@,
                    p,
                    start0 as int,
                    end0 as int,
                    Some(start),
                ) by {
                    assert(p(self@[start as int]));
                }
            }
            Some(start)
        } else {
            proof {
                assert forall|p: spec_fn(T) -> bool| #[trigger] bisects(cmp, p) implies rightmost_hit(
                    self@,
                    p,
                    start0 as int,
                    end0 as int,
                    None::<usize>,
                ) by {
                    assert(!p(self@[start as int]));
                    assert forall|j: int|
                        start0 as int <= j < end0 as int implies !p(#[trigger] self@[j]) by {
                        if p(self@[j]) {
                            assert(j < start as int);
                        }
                    }
                }
            }
            None
        }
    }

    /// **O(log^2(n))**, search for the rightmost leaf in the range that the
    /// predicate accepts. `None` when no leaf in the range is accepted; an
    /// empty or descending range yields `None`. The result is characterized
    /// for every predicate the closure computes that is fit for bisection;
    /// verified callers may prefer [`SegmentTree::bisect_right_with`], which
    /// takes the predicate as a ghost argument.
    pub fn bisect_right<R: LeafRange, F: Fn(&T) -> bool>(&self, range: R, cmp: F) -> (r: Option<
        usize,
    >)
        requires
            self.wf(),
            forall|t: &T| #[trigger] cmp.requires((t,)),
        ensures
            forall|p: spec_fn(T) -> bool| #[trigger] bisects(cmp, p) ==> rightmost_hit(
                self@,
                p,
                range.start_spec(),
                range.end_spec(self@.len() as int),
                r,
            ),
    {
        proof {
            self.lemma_wf_facts();
        }
        let n = self.len;
        let (start0, end0) = range.bounds(n);
        if start0 >= end0 {
            return None;
        }
        self.bisect_right_core(start0, end0, cmp)
    }

    /// [`SegmentTree::bisect_right`] for verified callers: the ghost argument
    /// names the predicate the closure computes, and the result is pinned
    /// over it.
    pub fn bisect_right_with<R: LeafRange, F: Fn(&T) -> bool>(
        &self,
        range: R,
        cmp: F,
        p: Ghost<spec_fn(T) -> bool>,
    ) -> (r: Option<usize>)
        requires
            self.wf(),
            forall|t: &T| #[trigger] cmp.requires((t,)),
            decides(cmp, p@),
            bisectable(p@),
        ensures
            rightmost_hit(self@, p@, range.start_spec(), range.end_spec(self@.len() as int), r),
    {
        let r = self.bisect_right(range, cmp);
        proof {
            assert(bisects(cmp, p@));
        }
        r
    }
}

/// A bisection predicate holds at a prefix fold exactly when it holds at
/// some leaf of the prefix: the leftmost satisfying leaf, which the searches
/// return, is also the first position whose prefix fold from the range's
/// start satisfies the predicate.
pub proof fn lemma_bisectable_prefix<T: Monoid>(p: spec_fn(T) -> bool, s: Seq<T>, a: int, k: int)
    requires
        bisectable(p),
        0 <= a <= k < s.len(),
    ensures
        p(combined(s.subrange(a, k + 1))) <==> exists|j: int| a <= j <= k && p(#[trigger] s[j]),
{
    let sub = s.subrange(a, k + 1);
    lemma_bisectable_fold(p, sub);
    if exists|i: int| 0 <= i < sub.len() && p(#[trigger] sub[i]) {
        let i = choose|i: int| 0 <= i < sub.len() && p(#[trigger] sub[i]);
        assert(s[a + i] == sub[i]);
        assert(a <= a + i <= k && p(s[a + i]));
    }
    if exists|j: int| a <= j <= k && p(#[trigger] s[j]) {
        let j = choose|j: int| a <= j <= k && p(#[trigger] s[j]);
        assert(sub[j - a] == s[j]);
        assert(0 <= j - a < sub.len() && p(sub[j - a]));
    }
}

/// An empty or descending range folds to the identity element.
pub proof fn lemma_combine_empty_range<T: Monoid>(s: Seq<T>, a: int, b: int)
    requires
        b <= a,
    ensures
        combined(segment(s, a, b)) == T::identity_spec(),
{
    if 0 <= a <= b <= s.len() {
        assert(segment(s, a, b) =~= Seq::<T>::empty());
    }
}

/// A single-element range folds to that element.
pub proof fn lemma_combine_single<T: Monoid>(s: Seq<T>, i: int)
    requires
        0 <= i < s.len(),
    ensures
        combined(segment(s, i, i + 1)) == s[i],
{
    assert(segment(s, i, i + 1) =~= seq![s[i]]);
    lemma_combined_singleton(s[i]);
}

/// After a point update, the single-element range at the updated index folds
/// to the new value, and every single-element range elsewhere folds to what
/// it folded to before.
pub proof fn lemma_update_point_queries<T: Monoid>(s: Seq<T>, i: int, x: T, j: int)
    requires
        0 <= i < s.len(),
        0 <= j < s.len(),
    ensures
        combined(segment(s.update(i, x), i, i + 1)) == x,
        j != i ==> combined(segment(s.update(i, x), j, j + 1)) == combined(segment(s, j, j + 1)),
{
    lemma_combine_single(s.update(i, x), i);
    if j != i {
        lemma_combine_single(s.update(i, x), j);
        lemma_combine_single(s, j);
    }
}

/// Range folds depend only on the logical elements: two well-formed trees
/// holding the same elements answer every range query alike, however they
/// were built (bulk construction or repeated pushes).
pub proof fn lemma_combine_depends_on_elements<T: Monoid + Copy>(
    t1: SegmentTree<T>,
    t2: SegmentTree<T>,
    a: int,
    b: int,
)
    requires
        t1.wf(),
        t2.wf(),
        t1@ == t2@,
    ensures
        combined(segment(t1@, a, b)) == combined(segment(t2@, a, b)),
{
}

/// `a` lies on the path from node `n` to the root, excluding `n` itself.
pub(crate) open spec fn is_strict_ancestor(a: int, n: int) -> bool
    decreases n,
{
    n > 1 && (a == n / 2 || is_strict_ancestor(a, n / 2))
}

/// **O(log(n))**, the smallest power of two that is at least `max(n, 1)`.
fn next_power_of_two(n: usize) -> (r: usize)
    requires
        n <= MAX_LEN,
    ensures
        r as int == next_pow2(n as int),
        r >= 1,
    decreases n,
{
    proof {
        lemma_next_pow2_bounds(n as int);
        lemma_next_pow2_bounds(((n + 1) / 2) as int);
    }
    if n <= 1 {
        1
    } else {
        2 * next_power_of_two((n + 1) / 2)
    }
}

} // verus!

use vstd::prelude::*;

use crate::monoid::Monoid;
use crate::segment_tree::SegmentTree;

verus! {

/// A double-ended cursor over the logical elements of a [`SegmentTree`],
/// yielding copies of the elements in leaf order.
#[derive(Debug, Clone, Copy)]
pub struct Iter<'a, T> {
    seg: &'a SegmentTree<T>,
    front: usize,
    back: usize,
}

impl<'a, T: Monoid + Copy> Iter<'a, T> {
    /// The elements not yet yielded, in order.
    pub closed spec fn remaining(self) -> Seq<T> {
        self.seg@.subrange(self.front as int, self.back as int)
    }

    /// The cursor's validity.
    pub closed spec fn inv(self) -> bool {
        &&& self.seg.wf()
        &&& self.front <= self.back
        &&& self.back as int <= self.seg@.len()
    }

    /// **O(1)**, the number of elements not yet yielded.
    pub fn len(&self) -> (r: usize)
        requires
            self.inv(),
        ensures
            r == self.remaining().len(),
    {
        self.back - self.front
    }

    /// **O(1)**, yield the first remaining element, if any.
    pub fn next(&mut self) -> (r: Option<T>)
        requires
            old(self).inv(),
        ensures
            final(self).inv(),
            old(self).remaining().len() == 0 ==> r is None && final(self).remaining() == old(
                self,
            ).remaining(),
            old(self).remaining().len() > 0 ==> r == Some(old(self).remaining()[0])
                && final(self).remaining() == old(self).remaining().drop_first(),
    {
        if self.front < self.back {
            let v = self.seg.leaf(self.front);
            self.front = self.front + 1;
            proof {
                assert(self.remaining() =~= old(self).remaining().drop_first());
            }
            Some(v)
        } else {
            None
        }
    }

    /// **O(1)**, yield the last remaining element, if any.
    pub fn next_back(&mut self) -> (r: Option<T>)
        requires
            old(self).inv(),
        ensures
            final(self).inv(),
            old(self).remaining().len() == 0 ==> r is None && final(self).remaining() == old(
                self,
            ).remaining(),
            old(self).remaining().len() > 0 ==> r == Some(old(self).remaining().last())
                && final(self).remaining() == old(self).remaining().drop_last(),
    {
        if self.front < self.back {
            self.back = self.back - 1;
            let v = self.seg.leaf(self.back);
            proof {
                assert(self.remaining() =~= old(self).remaining().drop_last());
            }
            Some(v)
        } else {
            None
        }
    }
}

/// A consuming double-ended cursor over the logical elements of a
/// [`SegmentTree`], yielding them in leaf order.
#[derive(Debug, Clone, Default)]
pub struct IntoIter<T> {
    items: Vec<T>,
    front: usize,
    back: usize,
}

impl<T: Monoid + Copy> IntoIter<T> {
    /// The elements not yet yielded, in order.
    pub closed spec fn remaining(self) -> Seq<T> {
        self.items@.subrange(self.front as int, self.back as int)
    }

    /// The cursor's validity.
    pub closed spec fn inv(self) -> bool {
        &&& self.front <= self.back
        &&& self.back as int <= self.items@.len()
    }

    /// **O(1)**, the number of elements not yet yielded.
    pub fn len(&self) -> (r: usize)
        requires
            self.inv(),
        ensures
            r == self.remaining().len(),
    {
        self.back - self.front
    }

    /// **O(1)**, yield the first remaining element, if any.
    pub fn next(&mut self) -> (r: Option<T>)
        requires
            old(self).inv(),
        ensures
            final(self).inv(),
            old(self).remaining().len() == 0 ==> r is None && final(self).remaining() == old(
                self,
            ).remaining(),
            old(self).remaining().len() > 0 ==> r == Some(old(self).remaining()[0])
                && final(self).remaining() == old(self).remaining().drop_first(),
    {
        if self.front < self.back {
            let v = self.items[self.front];
            self.front = self.front + 1;
            proof {
                assert(self.remaining() =~= old(self).remaining().drop_first());
            }
            Some(v)
        } else {
            None
        }
    }

    /// **O(1)**, yield the last remaining element, if any.
    pub fn next_back(&mut self) -> (r: Option<T>)
        requires
            old(self).inv(),
        ensures
            final(self).inv(),
            old(self).remaining().len() == 0 ==> r is None && final(self).remaining() == old(
                self,
            ).remaining(),
            old(self).remaining().len() > 0 ==> r == Some(old(self).remaining().last())
                && final(self).remaining() == old(self).remaining().drop_last(),
    {
        if self.front < self.back {
            self.back = self.back - 1;
            let v = self.items[self.back];
            proof {
                assert(self.remaining() =~= old(self).remaining().drop_last());
            }
            Some(v)
        } else {
            None
        }
    }
}

impl<T: Monoid + Copy> SegmentTree<T> {
    /// **O(1)**, a cursor over the logical elements, in leaf order.
    pub fn iter(&self) -> (it: Iter<'_, T>)
        requires
            self.wf(),
        ensures
            it.inv(),
            it.remaining() == self@,
    {
        let n = self.len();
        let it = Iter { seg: self, front: 0, back: n };
        proof {
            assert(it.remaining() =~= self@);
        }
        it
    }

    /// **O(n)**, a consuming cursor over the logical elements, in leaf order.
    pub fn into_iter(self) -> (it: IntoIter<T>)
        requires
            self.wf(),
        ensures
            it.inv(),
            it.remaining() == self@,
    {
        let items = self.leaves_vec();
        let n = items.len();
        let it = IntoIter { items, front: 0, back: n };
        proof {
            assert(it.remaining() =~= self@);
        }
        it
    }
}

} // verus!

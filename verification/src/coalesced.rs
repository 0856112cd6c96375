pub mod extension;
pub mod priority;

use vstd::prelude::*;

use crate::coalesced::extension::Extension;
use crate::coalesced::priority::{Access, Accessor, Multiple, Posterior, Prior, Single};

verus! {

/// A value that can lose its place to another: `straight` tells whether this
/// value takes precedence over the next one. For [`Option`], a `Some` takes
/// precedence over anything.
pub trait Coalesce: Sized {
    /// The meaning of precedence.
    spec fn straight_spec(self, other: Self) -> bool;

    /// Whether this value takes precedence over the other.
    fn straight(&self, other: &Self) -> (r: bool)
        ensures
            r == self.straight_spec(*other),
    ;
}

impl<T> Coalesce for Option<T> {
    open spec fn straight_spec(self, other: Self) -> bool {
        self is Some
    }

    fn straight(&self, other: &Self) -> (r: bool) {
        match (self, other) {
            (Some(_), _) => true,
            _ => false,
        }
    }
}

/// Where the downward precedence scan from `init` stops: the first index at
/// which the entry takes precedence over its predecessor, or `0`.
pub open spec fn scan_down<C: Coalesce, E>(p: Seq<Extension<C, E>>, init: int) -> int
    decreases init,
{
    if init <= 0 {
        0
    } else if p[init].straight_spec(p[init - 1]) {
        init
    } else {
        scan_down(p, init - 1)
    }
}

/// Where the upward precedence scan stops: walking from `i` up to `bound`,
/// the position advances to `i + 1` while the entry at `i` does not take
/// precedence over its successor; `cur` is returned unchanged when the very
/// first entry already takes precedence.
pub open spec fn scan_up<C: Coalesce, E>(
    p: Seq<Extension<C, E>>,
    i: int,
    bound: int,
    cur: int,
) -> int
    decreases bound - i,
{
    if i >= bound {
        cur
    } else if p[i].straight_spec(p[i + 1]) {
        cur
    } else {
        scan_up(p, i + 1, bound, i + 1)
    }
}

fn scan_down_exec<C: Coalesce, E>(p: &Vec<Extension<C, E>>, init: usize) -> (r: usize)
    requires
        init < p@.len(),
    ensures
        r as int == scan_down(p@, init as int),
        r <= init,
    decreases init,
{
    if init == 0 {
        0
    } else if p[init].straight(&p[init - 1]) {
        init
    } else {
        scan_down_exec(p, init - 1)
    }
}

fn scan_up_exec<C: Coalesce, E>(p: &Vec<Extension<C, E>>, i: usize, bound: usize, cur: usize) -> (r:
    usize)
    requires
        i <= bound,
        bound < p@.len(),
        cur <= bound,
    ensures
        r as int == scan_up(p@, i as int, bound as int, cur as int),
        r <= bound,
    decreases bound - i,
{
    if i >= bound {
        cur
    } else if p[i].straight(&p[i + 1]) {
        cur
    } else {
        scan_up_exec(p, i + 1, bound, i + 1)
    }
}

/// A history of coalescible values with two distinguished read positions:
/// the *prior* one, preferring later entries, and the *posterior* one,
/// preferring earlier entries. Extending a history re-runs the precedence
/// scans so that each position lands on the entry that takes precedence in
/// its direction. The marker `A` chooses which position reads; `E` is an
/// extension carried beside each value; `L` records whether the history is
/// known to hold a single entry.
#[derive(Debug, Clone, PartialEq, Eq, PartialOrd, Ord, Hash)]
pub struct Coalesced<C, A = Prior, E = (), L = Single> {
    priority: Vec<Extension<C, E>>,
    accessor: Accessor<A>,
    marker: core::marker::PhantomData<L>,
}

impl<C: Coalesce, A, E, L> Coalesced<C, A, E, L> {
    /// The recorded entries, for specifications.
    pub closed spec fn items(self) -> Seq<Extension<C, E>> {
        self.priority@
    }

    /// The prior read position, for specifications.
    pub closed spec fn prior_ix(self) -> int {
        self.accessor.prior as int
    }

    /// The posterior read position, for specifications.
    pub closed spec fn post_ix(self) -> int {
        self.accessor.posterior as int
    }

    /// Borrow the recorded entries, in order.
    pub fn entries(&self) -> (r: &[Extension<C, E>])
        ensures
            r@ == self.items(),
    {
        self.priority.as_slice()
    }

    /// Check [`Coalesced::wf`] at run time, for callers outside the
    /// verified world.
    pub fn is_wf(&self) -> (r: bool)
        ensures
            r == self.wf(),
    {
        let n = self.priority.len();
        n >= 1 && self.accessor.prior < n && self.accessor.posterior < n
    }

    /// The history is nonempty and both positions are in range.
    pub open spec fn wf(self) -> bool {
        &&& self.items().len() >= 1
        &&& 0 <= self.prior_ix() < self.items().len()
        &&& 0 <= self.post_ix() < self.items().len()
    }

    /// Extend with a later history that takes precedence, and re-run both
    /// precedence scans.
    pub fn extend_prior<L2>(self, other: Coalesced<C, A, E, L2>) -> (r: Coalesced<
        C,
        A,
        E,
        Multiple,
    >)
        requires
            self.wf(),
            other.wf(),
        ensures
            r.wf(),
            r.items() == self.items() + other.items(),
            r.prior_ix() == scan_down(r.items(), self.items().len() + other.prior_ix()),
            r.post_ix() == scan_up(
                r.items(),
                0,
                self.items().len() + other.post_ix(),
                other.post_ix(),
            ),
    {
        let mut sp = self.priority;
        let base_len = sp.len();
        let mut op = other.priority;
        sp.append(&mut op);
        proof {
            vstd::std_specs::vec::axiom_spec_len(&sp);
        }
        let pr = scan_down_exec(&sp, base_len + other.accessor.prior);
        let bound = base_len + other.accessor.posterior;
        let post = scan_up_exec(&sp, 0, bound, other.accessor.posterior);
        Coalesced {
            priority: sp,
            accessor: Accessor::with_positions(pr, post),
            marker: core::marker::PhantomData,
        }
    }

    /// Extend with an earlier history, placing this one later, and re-run
    /// both precedence scans.
    pub fn extend_posterior<L2>(self, other: Coalesced<C, A, E, L2>) -> (r: Coalesced<
        C,
        A,
        E,
        Multiple,
    >)
        requires
            self.wf(),
            other.wf(),
        ensures
            r.wf(),
            r.items() == other.items() + self.items(),
            r.prior_ix() == scan_down(r.items(), other.items().len() + self.prior_ix()),
            r.post_ix() == scan_up(
                r.items(),
                0,
                other.items().len() + self.post_ix(),
                self.post_ix(),
            ),
    {
        let mut op = other.priority;
        let base_len = op.len();
        let mut sp = self.priority;
        op.append(&mut sp);
        proof {
            vstd::std_specs::vec::axiom_spec_len(&op);
        }
        let pr = scan_down_exec(&op, base_len + self.accessor.prior);
        let bound = base_len + self.accessor.posterior;
        let post = scan_up_exec(&op, 0, bound, self.accessor.posterior);
        Coalesced {
            priority: op,
            accessor: Accessor::with_positions(pr, post),
            marker: core::marker::PhantomData,
        }
    }
}

impl<C: Coalesce, A, E> Coalesced<C, A, E, Single> {
    /// A fresh history of one entry, with the given extension.
    pub fn new_with(coalesce: C, extension: E) -> (r: Self)
        ensures
            r.wf(),
            r.items() =~= seq![Extension { value: coalesce, extension }],
            r.prior_ix() == 0,
            r.post_ix() == 0,
    {
        let mut priority: Vec<Extension<C, E>> = Vec::new();
        priority.push(Extension::new_with(coalesce, extension));
        Coalesced { priority, accessor: Accessor::new(), marker: core::marker::PhantomData }
    }
}

impl<C: Coalesce, A> Coalesced<C, A, (), Single> {
    /// A fresh history of one entry.
    pub fn new(coalesce: C) -> (r: Self)
        ensures
            r.wf(),
            r.items() =~= seq![Extension { value: coalesce, extension: () }],
            r.prior_ix() == 0,
            r.post_ix() == 0,
    {
        Self::new_with(coalesce, ())
    }
}

impl<C: Coalesce, A: Access, E, L> Coalesced<C, A, E, L> {
    /// The position the marker `A` reads, for specifications.
    pub open spec fn read_ix(self) -> int {
        A::position_spec(self.accessor_spec())
    }

    /// The accessor, for specifications.
    pub closed spec fn accessor_spec(self) -> Accessor<A> {
        self.accessor
    }

    /// The read position is in range.
    pub proof fn lemma_read_ix(self)
        requires
            self.wf(),
        ensures
            0 <= self.read_ix() < self.items().len(),
    {
        A::lemma_position(self.accessor);
    }

    /// Take the entry at the read position out of the history.
    pub fn access_owned(self) -> (r: Extension<C, E>)
        requires
            self.wf(),
        ensures
            r == self.items()[self.read_ix()],
    {
        proof {
            self.lemma_read_ix();
        }
        let mut priority = self.priority;
        priority.swap_remove(A::position(&self.accessor))
    }

    /// Borrow the entry at the read position.
    pub fn access(&self) -> (r: &Extension<C, E>)
        requires
            self.wf(),
        ensures
            *r == self.items()[self.read_ix()],
    {
        proof {
            self.lemma_read_ix();
        }
        &self.priority[A::position(&self.accessor)]
    }

    /// Take the value at the read position.
    pub fn into_value(self) -> (r: C)
        requires
            self.wf(),
        ensures
            r == self.items()[self.read_ix()].value,
    {
        self.access_owned().value
    }

    /// Borrow the value at the read position.
    pub fn value(&self) -> (r: &C)
        requires
            self.wf(),
        ensures
            *r == self.items()[self.read_ix()].value,
    {
        &self.access().value
    }

    /// Borrow the entry at the read position mutably; the rest of the
    /// history is untouched.
    pub fn access_mut(&mut self) -> (r: &mut Extension<C, E>)
        requires
            old(self).wf(),
        ensures
            *r == old(self).items()[old(self).read_ix()],
            final(self).items() == old(self).items().update(
                old(self).read_ix(),
                *final(r),
            ),
            final(self).prior_ix() == old(self).prior_ix(),
            final(self).post_ix() == old(self).post_ix(),
            final(self).read_ix() == old(self).read_ix(),
            final(self).wf(),
    {
        proof {
            old(self).lemma_read_ix();
        }
        let pos = A::position(&self.accessor);
        &mut self.priority[pos]
    }

    /// Borrow the value at the read position mutably; the extension and the
    /// rest of the history are untouched.
    pub fn value_mut(&mut self) -> (r: &mut C)
        requires
            old(self).wf(),
        ensures
            *r == old(self).items()[old(self).read_ix()].value,
            final(self).items() == old(self).items().update(
                old(self).read_ix(),
                Extension {
                    value: *final(r),
                    extension: old(self).items()[old(self).read_ix()].extension,
                },
            ),
            final(self).prior_ix() == old(self).prior_ix(),
            final(self).post_ix() == old(self).post_ix(),
            final(self).wf(),
    {
        proof {
            old(self).lemma_read_ix();
        }
        let pos = A::position(&self.accessor);
        &mut self.priority[pos].value
    }

    /// Borrow the extension at the read position mutably; the value and the
    /// rest of the history are untouched.
    pub fn extension_mut(&mut self) -> (r: &mut E)
        requires
            old(self).wf(),
        ensures
            *r == old(self).items()[old(self).read_ix()].extension,
            final(self).items() == old(self).items().update(
                old(self).read_ix(),
                Extension {
                    value: old(self).items()[old(self).read_ix()].value,
                    extension: *final(r),
                },
            ),
            final(self).prior_ix() == old(self).prior_ix(),
            final(self).post_ix() == old(self).post_ix(),
            final(self).wf(),
    {
        proof {
            old(self).lemma_read_ix();
        }
        let pos = A::position(&self.accessor);
        &mut self.priority[pos].extension
    }

    /// Take the extension at the read position.
    pub fn into_extension(self) -> (r: E)
        requires
            self.wf(),
        ensures
            r == self.items()[self.read_ix()].extension,
    {
        self.access_owned().extension
    }

    /// Borrow the extension at the read position.
    pub fn extension(&self) -> (r: &E)
        requires
            self.wf(),
        ensures
            *r == self.items()[self.read_ix()].extension,
    {
        &self.access().extension
    }
}

impl<C: Coalesce, A: Access, E> Coalesced<C, A, E, Single> {
    /// Replace the extension of a single-entry history.
    pub fn set_extension<E2>(self, extension: E2) -> (r: Coalesced<C, A, E2, Single>)
        requires
            self.wf(),
        ensures
            r.wf(),
            r.items() =~= seq![
                Extension { value: self.items()[self.read_ix()].value, extension },
            ],
            r.prior_ix() == 0,
            r.post_ix() == 0,
    {
        let entry = self.access_owned();
        Coalesced::new_with(entry.value, extension)
    }
}

impl<C: Coalesce, A: Access, E> Coalesced<C, A, E, Multiple> {
    /// Collapse the history to its read entry alone.
    pub fn into_single(self) -> (r: Coalesced<C, A, E, Single>)
        requires
            self.wf(),
        ensures
            r.wf(),
            r.items() =~= seq![self.items()[self.read_ix()]],
            r.prior_ix() == 0,
            r.post_ix() == 0,
    {
        let entry = self.access_owned();
        let r = Coalesced::new_with(entry.value, entry.extension);
        proof {
            assert(r.items() =~= seq![self.items()[self.read_ix()]]);
        }
        r
    }
}

impl<C: Coalesce, E, L> Coalesced<C, Prior, E, L> {
    /// A prior-reading history reads at the prior position: what
    /// [`Coalesced::value`] returns is the entry [`Coalesced::prior_ix`]
    /// points at, the position the extension scans pin.
    pub proof fn lemma_prior_read(self)
        ensures
            self.read_ix() == self.prior_ix(),
    {
    }
}

impl<C: Coalesce> Coalesced<C, Prior> {
    /// A fresh prior-reading history of one entry.
    pub fn new_prior(coalesce: C) -> (r: Self)
        ensures
            r.wf(),
            r.items() =~= seq![Extension { value: coalesce, extension: () }],
            r.prior_ix() == 0,
            r.post_ix() == 0,
    {
        Coalesced::<C, Prior>::new(coalesce)
    }
}

impl<C: Coalesce, E> Coalesced<C, Prior, E> {
    /// A fresh prior-reading history of one entry, with an extension.
    pub fn new_prior_with(coalesce: C, extension: E) -> (r: Self)
        ensures
            r.wf(),
            r.items() =~= seq![Extension { value: coalesce, extension }],
            r.prior_ix() == 0,
            r.post_ix() == 0,
    {
        Coalesced::new_with(coalesce, extension)
    }
}

impl<C: Coalesce, E, L> Coalesced<C, Prior, E, L> {
    /// Read the same history at the posterior position instead.
    pub fn posterior(self) -> (r: Coalesced<C, Posterior, E>)
        ensures
            r.items() == self.items(),
            r.prior_ix() == self.prior_ix(),
            r.post_ix() == self.post_ix(),
            self.wf() ==> r.wf(),
    {
        Coalesced {
            priority: self.priority,
            accessor: self.accessor.as_posterior(),
            marker: core::marker::PhantomData,
        }
    }
}

impl<C: Coalesce, E, L> Coalesced<C, Posterior, E, L> {
    /// A posterior-reading history reads at the posterior position: what
    /// [`Coalesced::value`] returns is the entry [`Coalesced::post_ix`]
    /// points at, the position the extension scans pin.
    pub proof fn lemma_posterior_read(self)
        ensures
            self.read_ix() == self.post_ix(),
    {
    }
}

impl<C: Coalesce> Coalesced<C, Posterior> {
    /// A fresh posterior-reading history of one entry.
    pub fn new_posterior(coalesce: C) -> (r: Self)
        ensures
            r.wf(),
            r.items() =~= seq![Extension { value: coalesce, extension: () }],
            r.prior_ix() == 0,
            r.post_ix() == 0,
    {
        Coalesced::<C, Posterior>::new(coalesce)
    }
}

impl<C: Coalesce, E> Coalesced<C, Posterior, E> {
    /// A fresh posterior-reading history of one entry, with an extension.
    pub fn new_posterior_with(coalesce: C, extension: E) -> (r: Self)
        ensures
            r.wf(),
            r.items() =~= seq![Extension { value: coalesce, extension }],
            r.prior_ix() == 0,
            r.post_ix() == 0,
    {
        Coalesced::new_with(coalesce, extension)
    }
}

impl<C: Coalesce, E, L> Coalesced<C, Posterior, E, L> {
    /// Read the same history at the prior position instead.
    pub fn prior(self) -> (r: Coalesced<C, Prior, E>)
        ensures
            r.items() == self.items(),
            r.prior_ix() == self.prior_ix(),
            r.post_ix() == self.post_ix(),
            self.wf() ==> r.wf(),
    {
        Coalesced {
            priority: self.priority,
            accessor: self.accessor.as_prior(),
            marker: core::marker::PhantomData,
        }
    }
}

} // verus!

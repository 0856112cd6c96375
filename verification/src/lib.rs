//! Algebraic combination of values: semigroups, monoids and structures built
//! on them, with machine-checked statements of the laws they obey.
//!
//! The core of the crate is [`segment_tree::SegmentTree`], an array-backed
//! perfect binary tree over a logical sequence, supporting point updates and
//! logarithmic range folds of any associative operation with an identity
//! element.

mod algebra;
pub mod coalesced;
mod annotate;
mod combine;
mod commutative;
mod construction;
mod lazy;
mod monoid;
pub mod op;
mod range;
mod semigroup;
pub mod segment_tree;

pub use crate::algebra::{
    combined, folded, lemma_combined_concat, lemma_combined_push, lemma_combined_singleton,
    lemma_folded_push, segment,
};
pub use crate::annotate::{Annotate, Annotated};
pub use crate::coalesced::{Coalesce, Coalesced};
pub use crate::combine::{
    assert_combine_iter, assert_combine_iter_monoid, assert_reverse_associative_law,
    assert_reverse_reverse, assert_semigroup_reverse, chain_fold, CombineIterator, Reverse,
};
pub use crate::commutative::{
    assert_commutative_impl, assert_commutative_law, assert_commutative_reverse, Commutative,
};
pub use crate::construction::{Construction, ConstructionAnnotated, ConstructionMonoid};
pub use crate::lazy::{assert_lazy, Lazy};
pub use crate::monoid::{
    assert_monoid_identity_associative_law, assert_monoid_impl, assert_option_monoid, Monoid,
    OptionMonoid,
};
pub use crate::range::LeafRange;
pub use crate::semigroup::{
    assert_associative_law, assert_semigroup_impl, pick3, AnnotatedSemigroup, Semigroup,
};

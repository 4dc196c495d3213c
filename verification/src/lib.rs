//! A small unordered set of `u64` elements.
//!
//! The set keeps its elements in a fixed-capacity inline buffer while
//! they are few, and moves them once and for all into a hash table when
//! their number would pass the capacity chosen at construction.  The
//! two representations answer every query identically; which one is
//! active is observable only through [`SmolSet::mode`].

mod laws;
mod stack_buf;
mod set;
mod text;
mod views;

pub use stack_buf::StackBuf;
pub use stack_buf::stack_elems;
pub use set::{SetMode, InnerSmolSet, SmolSet};
pub use views::{SmolSetIter, SmallDrain, SmallIntersection, SmallUnion, SmallDifference,
    SmallSymmetricDifference};
pub use text::{spec_digit, spec_dec, spec_render_elems, spec_render};
pub use laws::{law_uniqueness, law_duplicate_insert, law_round_trip, law_take_reinsert};

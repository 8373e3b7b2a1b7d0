//! Ordered membership indices kept inside a sparse key-value node store.
//!
//! The core is a doubly-linked list whose "pointers" are element identifiers
//! resolved through point lookups in the store (`link`).  On top of it sit
//! the five relationship indices of a creature registry -- ownership,
//! parents, mates, children and siblings (`graph`) -- the genetic combination
//! used at breeding time (`genetics`), a minimal ledger for the staking and
//! purchase flows (`ledger`), and the top-level operation surface (`system`).

pub mod claims;
pub mod genetics;
pub mod graph;
pub mod ledger;
pub mod link;
pub mod system;
pub mod types;

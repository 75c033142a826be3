//! A filtered tree-traversal engine for an in-memory document tree.
//!
//! A [`tree::Tree`] is an arena of nodes with stable indices; an
//! [`iterator::NodeIterator`] walks forward and backward through the subtree
//! rooted at a fixed node in document order, skipping nodes that do not match
//! a type-mask and an optional filter, while keeping a stable cursor (a
//! reference node together with a before/after flag) across calls.

pub mod tree;
pub mod filter;
pub mod order;
pub mod iterator;
pub mod laws;

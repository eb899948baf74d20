//! Balanced binary search trees parameterized over an algebraic data
//! interface, supporting segment queries and lazy segment updates.
//!
//! A tree stores a sequence of values in order. Each node caches the
//! summary (a monoid aggregate) of its whole subtree and may carry a
//! pending action (an element of a monoid acting on values and
//! summaries) that is pushed down lazily. Walkers traverse a tree while
//! propagating pending actions downward and rebuilding summaries
//! upward; locators direct a walker to a contiguous segment of the
//! in-order sequence, and the generic segment algorithms are written
//! once against those two protocols.

pub mod data;
pub mod example_data;
pub mod basic_tree;
pub mod trees;
pub mod walker;
pub mod locators;
pub mod methods;
pub mod implementations;
pub mod splay;
pub mod laws;
pub mod slice;

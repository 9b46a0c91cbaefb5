//! An unbalanced binary search tree over any totally ordered value type.
//!
//! [`BinaryTree`] owns its nodes, grows by [`BinaryTree::insert`] and is read
//! through [`BinaryTree::root`] and [`BinaryTree::search`]. Values are never
//! removed and the tree is never rebalanced: its shape is decided by the
//! order in which the values arrive.
//!
//! - [`order`] names the three outcomes of a comparison and derives what the
//!   proofs need from the laws of a total order.
//! - [`shape`] is the mathematical model: [`Shape`], insertion and search on
//!   it, and the laws that relate them.
//! - [`tree`] holds the executable types, each specified by its view as a
//!   `Shape`.

pub mod order;
pub mod shape;
pub mod tree;

pub use shape::Shape;
pub use tree::{BinaryTree, Node};

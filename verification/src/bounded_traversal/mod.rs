//! Parts for watching a bounded traversal of a tree: the tree, a clock that moves by hand,
//! and a log of what happened when.

pub mod tick;
pub mod state_log;
pub mod tree;

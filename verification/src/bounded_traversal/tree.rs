//! A tree to traverse.

use vstd::prelude::*;

verus! {

/// A node with its children.
#[derive(Debug)]
pub struct Tree {
    pub id: usize,
    pub children: Vec<Tree>,
}

impl Tree {
    /// A node with the given children.
    pub fn new(id: usize, children: Vec<Tree>) -> (tree: Self)
        ensures
            tree.id == id,
            tree.children == children,
    {
        Tree { id, children }
    }

    /// A node without children.
    pub fn leaf(id: usize) -> (tree: Self)
        ensures
            tree.id == id,
            tree.children@ == Seq::<Tree>::empty(),
    {
        Tree::new(id, vec![])
    }
}

} // verus!

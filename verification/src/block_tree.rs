//! The leaves of the block tree.
//!
//! The block tree is an append-only Merkle tree of fixed depth over the hashes
//! of the committed blocks. The engine keeps its leaves; the hashing layer
//! computes the root, which is the state root, and the paths.

use vstd::prelude::*;
use crate::field::Field;
use crate::transaction::contains_field;

verus! {

/// The depth of the Merkle tree for the blocks.
pub const BLOCKS_DEPTH: u8 = 32;

/// The number of leaves that a tree of that depth holds.
pub const BLOCKS_CAPACITY: u64 = 0x1_0000_0000;

/// The leaves of the block tree, in the order in which they were appended.
#[derive(Debug, PartialEq, Eq)]
pub struct BlockTree {
    leaves: Vec<Field>,
}

impl View for BlockTree {
    type V = Seq<Field>;

    closed spec fn view(&self) -> Seq<Field> {
        self.leaves@
    }
}

impl Clone for BlockTree {
    fn clone(&self) -> (copy: Self)
        ensures
            copy@ == self@,
    {
        BlockTree { leaves: self.leaves.clone() }
    }
}

impl BlockTree {
    /// The tree holds no more leaves than its depth allows.
    pub open spec fn wf(&self) -> bool {
        self@.len() <= BLOCKS_CAPACITY
    }

    /// The tree without leaves.
    pub fn new() -> (tree: BlockTree)
        ensures
            tree@ == Seq::<Field>::empty(),
            tree.wf(),
    {
        BlockTree { leaves: Vec::new() }
    }

    /// The tree over the given leaves; `None` where they are more than the
    /// tree can hold.
    pub fn from_leaves(leaves: Vec<Field>) -> (tree: Option<BlockTree>)
        ensures
            tree is Some <==> leaves@.len() <= BLOCKS_CAPACITY,
            tree matches Some(t) ==> t@ == leaves@ && t.wf(),
    {
        if leaves.len() as u64 <= BLOCKS_CAPACITY {
            Some(BlockTree { leaves })
        } else {
            None
        }
    }

    /// The number of leaves.
    pub fn len(&self) -> (n: usize)
        ensures
            n == self@.len(),
    {
        self.leaves.len()
    }

    /// The leaves, in order.
    pub fn leaves(&self) -> (leaves: &Vec<Field>)
        ensures
            leaves@ == self@,
    {
        &self.leaves
    }

    /// Whether the hash is a leaf of the tree.
    pub fn contains(&self, leaf: &Field) -> (found: bool)
        ensures
            found == self@.contains(*leaf),
    {
        contains_field(&self.leaves, leaf)
    }

    /// Appends a leaf. A full tree is left as it is, and `false` is returned.
    pub fn append(&mut self, leaf: Field) -> (appended: bool)
        requires
            old(self).wf(),
        ensures
            final(self).wf(),
            appended == (old(self)@.len() < BLOCKS_CAPACITY),
            appended ==> final(self)@ == old(self)@.push(leaf),
            !appended ==> final(self)@ == old(self)@,
    {
        if (self.leaves.len() as u64) < BLOCKS_CAPACITY {
            self.leaves.push(leaf);
            true
        } else {
            false
        }
    }
}

} // verus!

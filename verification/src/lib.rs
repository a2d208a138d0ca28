//! A ledger engine for a privacy-preserving transaction system.
//!
//! The engine keeps an append-only chain of blocks, the indices that keep
//! identifiers unique, a pool of unconfirmed transactions and the state of the
//! program finalizer. Field elements, hashes, commitments, signatures and Merkle
//! paths are carried as plain values: the hashing layer computes them, the
//! engine decides what is done with them.

pub mod block;
pub mod block_tree;
mod clock;
pub mod error;
pub mod field;
pub mod laws;
pub mod ledger;
pub mod memory_map;
pub mod memory_pool;
pub mod model;
pub mod public_variables;
pub mod response;
pub mod state_path;
pub mod transaction;
pub mod vm;

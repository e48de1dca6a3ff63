//! Append-only blob storage for serialized trie snapshots.
//!
//! A MARF (Merkle-Adaptive-Radix-Forest) node stores one authenticated trie
//! per block.  This crate persists those serialized tries in an append-only
//! byte log, indexes each snapshot's byte offset through a metadata index,
//! serves random-access reads of individual node hashes by pointer, and
//! migrates legacy inline-stored tries into the external log.

use vstd::prelude::*;

pub mod errors;
pub mod fee;
pub mod index;
pub mod migrate;
pub mod node;
pub mod paths;
pub mod storage;

verus! {

/// Report whether a watched configuration field changed between the prior
/// configuration and a freshly loaded one.
pub fn visit_diff(prior: &u64, next: &u64) -> (changed: bool)
    ensures
        changed == (prior != next),
{
    *prior != *next
}

} // verus!

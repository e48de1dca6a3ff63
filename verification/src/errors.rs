//! Failure conditions surfaced by the blob store.

use vstd::prelude::*;

verus! {

/// Every way an operation on the blob store or its metadata index can fail.
///
/// "Never existed" and "data damaged" are kept distinct so that callers can
/// tell a missing snapshot from a corrupt one.
#[derive(Clone, Copy, Debug, PartialEq, Eq, Structural)]
pub enum StoreError {
    /// The requested snapshot identifier or block hash has no record.
    NotFound,
    /// Recorded metadata disagrees with the stored bytes: a pointer past the
    /// end of its snapshot, a truncated log, or a record in the wrong state.
    Corruption,
    /// The store was opened read-only and a mutation was requested.
    ReadOnly,
    /// A recorded offset plus length would not fit in the address space.
    SizeOverflow,
}

} // verus!

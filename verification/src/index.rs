//! The metadata index: per-snapshot bookkeeping that the blob log trusts.
//!
//! For every snapshot it records the block hash, a confirmation flag, and
//! exactly one of two representations: the serialized trie held inline
//! (before migration), or an `(offset, length)` pair into the external blob
//! log.  The index — not the physical size of the log — is the source of
//! truth for the log's logical length, so a crash that leaves unreferenced
//! trailing bytes in the log never corrupts later appends.

use vstd::prelude::*;

use crate::errors::StoreError;
use crate::node::{bytes_eq, BlockHeaderHash};

verus! {

/// One metadata row.  A snapshot lives either inline (`inline` set) or in the
/// external blob log (`external` set) — never both, never neither.
#[derive(Debug)]
pub struct TrieRecord {
    /// Hash of the block whose trie this snapshot is.
    pub block_hash: BlockHeaderHash,
    /// Byte offset and length in the blob log, once migrated or appended.
    pub external: Option<(u64, u64)>,
    /// The serialized trie itself, while still stored inline.
    pub inline: Option<Vec<u8>>,
    /// Snapshots still in flight are unconfirmed and are never migrated.
    pub unconfirmed: bool,
}

/// A row is well formed when it has exactly one representation and its
/// external range fits in the address space.
pub open spec fn rec_wf(r: TrieRecord) -> bool {
    &&& (r.external is Some) <==> (r.inline is None)
    &&& (r.external is Some ==> r.external.unwrap().0 + r.external.unwrap().1 <= u64::MAX)
}

/// How many bytes of the blob log this row accounts for.
pub open spec fn ext_len(r: TrieRecord) -> int {
    if r.external is Some {
        r.external.unwrap().1 as int
    } else {
        0
    }
}

/// Sum of the external lengths of the first `n` rows.
pub open spec fn total_prefix(rows: Seq<TrieRecord>, n: int) -> int
    decreases n,
{
    if n <= 0 {
        0
    } else {
        total_prefix(rows, n - 1) + ext_len(rows[n - 1])
    }
}

/// The blob log's logical length: the sum of all recorded external lengths.
pub open spec fn total_ext(rows: Seq<TrieRecord>) -> int {
    total_prefix(rows, rows.len() as int)
}

pub proof fn lemma_total_prefix_nonneg(rows: Seq<TrieRecord>, n: int)
    ensures
        total_prefix(rows, n) >= 0,
    decreases n,
{
    if n > 0 {
        lemma_total_prefix_nonneg(rows, n - 1);
    }
}

pub proof fn lemma_total_prefix_monotone(rows: Seq<TrieRecord>, m: int, n: int)
    requires
        0 <= m <= n,
    ensures
        total_prefix(rows, m) <= total_prefix(rows, n),
    decreases n,
{
    if m < n {
        lemma_total_prefix_monotone(rows, m, n - 1);
    }
}

/// Two row sequences that agree below `n` have the same prefix sums there.
pub proof fn lemma_total_prefix_agree(rows1: Seq<TrieRecord>, rows2: Seq<TrieRecord>, n: int)
    requires
        forall|i: int| 0 <= i < n ==> rows1[i] == rows2[i],
    ensures
        total_prefix(rows1, n) == total_prefix(rows2, n),
    decreases n,
{
    if n > 0 {
        lemma_total_prefix_agree(rows1, rows2, n - 1);
    }
}

/// Appending a row grows the total by exactly that row's external length.
pub proof fn lemma_total_push(rows: Seq<TrieRecord>, r: TrieRecord)
    ensures
        total_ext(rows.push(r)) == total_ext(rows) + ext_len(r),
{
    lemma_total_prefix_agree(rows.push(r), rows, rows.len() as int);
}

/// Replacing row `i` shifts the total by the difference of external lengths.
pub proof fn lemma_total_update(rows: Seq<TrieRecord>, i: int, r: TrieRecord)
    requires
        0 <= i < rows.len(),
    ensures
        total_ext(rows.update(i, r)) == total_ext(rows) + ext_len(r) - ext_len(rows[i]),
{
    lemma_total_prefix_update(rows, i, r, rows.len() as int);
}

proof fn lemma_total_prefix_update(rows: Seq<TrieRecord>, i: int, r: TrieRecord, n: int)
    requires
        0 <= i < rows.len(),
        n <= rows.len(),
    ensures
        total_prefix(rows.update(i, r), n) == if i < n {
            total_prefix(rows, n) + ext_len(r) - ext_len(rows[i])
        } else {
            total_prefix(rows, n)
        },
    decreases n,
{
    if n > 0 {
        lemma_total_prefix_update(rows, i, r, n - 1);
    }
}

/// The in-process metadata index.  Snapshot identifiers are assigned densely:
/// the identifier of a row is its position.
#[derive(Debug)]
pub struct MetaIndex {
    pub rows: Vec<TrieRecord>,
}

impl MetaIndex {
    /// Well-formedness: identifiers fit in `u32`, every row has exactly one
    /// representation, and block hashes are unique.
    pub open spec fn wf(self) -> bool {
        &&& self.rows@.len() <= u32::MAX
        &&& forall|i: int| 0 <= i < self.rows@.len() ==> rec_wf(#[trigger] self.rows@[i])
        &&& forall|i: int, j: int|
            0 <= i < j < self.rows@.len() ==> (#[trigger] self.rows@[i].block_hash@)
                != (#[trigger] self.rows@[j].block_hash@)
    }

    /// Is some row recorded under this block hash?
    pub open spec fn has_hash(self, h: Seq<u8>) -> bool {
        exists|i: int| 0 <= i < self.rows@.len() && (#[trigger] self.rows@[i].block_hash@) == h
    }

    /// The identifier recorded for this block hash (unique under `wf`).
    pub open spec fn id_of(self, h: Seq<u8>) -> int {
        choose|i: int| 0 <= i < self.rows@.len() && (#[trigger] self.rows@[i].block_hash@) == h
    }

    /// A fresh, empty index.
    pub fn new() -> (r: MetaIndex)
        ensures
            r.wf(),
            r.rows@.len() == 0,
    {
        MetaIndex { rows: Vec::new() }
    }

    /// Number of known snapshot identifiers.
    pub fn count_blocks(&self) -> (r: u32)
        requires
            self.wf(),
        ensures
            r == self.rows@.len(),
    {
        self.rows.len() as u32
    }

    /// Reverse lookup: the identifier of the snapshot with this block hash.
    pub fn get_block_identifier(&self, bhh: &BlockHeaderHash) -> (r: Result<u32, StoreError>)
        requires
            self.wf(),
        ensures
            r is Ok ==> {
                &&& self.has_hash(bhh@)
                &&& r.unwrap() == self.id_of(bhh@)
                &&& r.unwrap() < self.rows@.len()
                &&& self.rows@[r.unwrap() as int].block_hash@ == bhh@
            },
            r is Err ==> r.unwrap_err() == StoreError::NotFound && !self.has_hash(bhh@),
    {
        let mut i: usize = 0;
        while i < self.rows.len()
            invariant
                self.wf(),
                i <= self.rows@.len(),
                forall|j: int| 0 <= j < i ==> (#[trigger] self.rows@[j].block_hash@) != bhh@,
            decreases self.rows@.len() - i,
        {
            if bytes_eq(&self.rows[i].block_hash.0, &bhh.0) {
                proof {
                    assert(self.rows@[i as int].block_hash@ == bhh@);
                    let k = self.id_of(bhh@);
                    assert(0 <= k < self.rows@.len() && self.rows@[k].block_hash@ == bhh@);
                    assert(k == i as int);
                }
                return Ok(i as u32);
            }
            i = i + 1;
        }
        Err(StoreError::NotFound)
    }

    /// Forward lookup: the block hash recorded for this identifier.
    pub fn get_block_hash(&self, block_id: u32) -> (r: Result<BlockHeaderHash, StoreError>)
        requires
            self.wf(),
        ensures
            block_id < self.rows@.len() ==> r is Ok && r.unwrap()@ == self.rows@[
                block_id as int
            ].block_hash@,
            block_id >= self.rows@.len() ==> r == Err::<BlockHeaderHash, StoreError>(
                StoreError::NotFound,
            ),
    {
        if (block_id as usize) < self.rows.len() {
            Ok(self.rows[block_id as usize].block_hash.duplicate())
        } else {
            Err(StoreError::NotFound)
        }
    }

    /// Confirmation status of a snapshot.
    pub fn is_unconfirmed_block(&self, block_id: u32) -> (r: Result<bool, StoreError>)
        requires
            self.wf(),
        ensures
            block_id < self.rows@.len() ==> r == Ok::<bool, StoreError>(
                self.rows@[block_id as int].unconfirmed,
            ),
            block_id >= self.rows@.len() ==> r == Err::<bool, StoreError>(StoreError::NotFound),
    {
        if (block_id as usize) < self.rows.len() {
            Ok(self.rows[block_id as usize].unconfirmed)
        } else {
            Err(StoreError::NotFound)
        }
    }

    /// The external `(offset, length)` recorded for a snapshot, if it has
    /// been appended to the blob log.  A missing identifier and a row still
    /// held inline both signal "no record": never silently offset zero.
    pub fn get_external_trie_offset_length(&self, block_id: u32) -> (r: Result<
        (u64, u64),
        StoreError,
    >)
        requires
            self.wf(),
        ensures
            (block_id < self.rows@.len() && self.rows@[block_id as int].external is Some) ==> r
                == Ok::<(u64, u64), StoreError>(self.rows@[block_id as int].external.unwrap()),
            !(block_id < self.rows@.len() && self.rows@[block_id as int].external is Some) ==> r
                == Err::<(u64, u64), StoreError>(StoreError::NotFound),
    {
        if (block_id as usize) < self.rows.len() {
            match self.rows[block_id as usize].external {
                Some(pair) => Ok(pair),
                None => Err(StoreError::NotFound),
            }
        } else {
            Err(StoreError::NotFound)
        }
    }

    /// Like `get_external_trie_offset_length`, but keyed by block hash.
    pub fn get_external_trie_offset_length_by_bhh(&self, bhh: &BlockHeaderHash) -> (r: Result<
        (u64, u64),
        StoreError,
    >)
        requires
            self.wf(),
        ensures
            (self.has_hash(bhh@) && self.rows@[self.id_of(bhh@)].external is Some) ==> r
                == Ok::<(u64, u64), StoreError>(self.rows@[self.id_of(bhh@)].external.unwrap()),
            !(self.has_hash(bhh@) && self.rows@[self.id_of(bhh@)].external is Some) ==> r
                == Err::<(u64, u64), StoreError>(StoreError::NotFound),
    {
        match self.get_block_identifier(bhh) {
            Ok(id) => self.get_external_trie_offset_length(id),
            Err(_) => Err(StoreError::NotFound),
        }
    }

    /// Read a snapshot's serialized trie while it is still held inline.
    /// A migrated row no longer has inline bytes: that is `Corruption` to a
    /// caller that expected them, distinct from a missing identifier.
    pub fn open_trie_blob(&self, block_id: u32) -> (r: Result<Vec<u8>, StoreError>)
        requires
            self.wf(),
        ensures
            block_id >= self.rows@.len() ==> r == Err::<Vec<u8>, StoreError>(StoreError::NotFound),
            (block_id < self.rows@.len() && self.rows@[block_id as int].inline is Some) ==> r is Ok
                && r.unwrap()@ == self.rows@[block_id as int].inline.unwrap()@,
            (block_id < self.rows@.len() && self.rows@[block_id as int].inline is None) ==> r
                == Err::<Vec<u8>, StoreError>(StoreError::Corruption),
    {
        if (block_id as usize) < self.rows.len() {
            match &self.rows[block_id as usize].inline {
                Some(blob) => Ok(crate::node::copy_bytes(blob)),
                None => Err(StoreError::Corruption),
            }
        } else {
            Err(StoreError::NotFound)
        }
    }

    /// Total logical length of the blob log, computed from the recorded
    /// lengths alone.  This — not the log's physical size — decides where the
    /// next append goes.
    pub fn get_external_blobs_length(&self) -> (r: Result<u64, StoreError>)
        requires
            self.wf(),
        ensures
            total_ext(self.rows@) <= u64::MAX ==> r == Ok::<u64, StoreError>(
                total_ext(self.rows@) as u64,
            ),
            total_ext(self.rows@) > u64::MAX ==> r == Err::<u64, StoreError>(
                StoreError::SizeOverflow,
            ),
    {
        let mut acc: u64 = 0;
        let mut i: usize = 0;
        while i < self.rows.len()
            invariant
                self.wf(),
                i <= self.rows@.len(),
                acc == total_prefix(self.rows@, i as int),
            decreases self.rows@.len() - i,
        {
            let step: u64 = match self.rows[i].external {
                Some((_offset, length)) => length,
                None => 0,
            };
            proof {
                lemma_total_prefix_nonneg(self.rows@, i as int);
            }
            acc = match acc.checked_add(step) {
                Some(next) => next,
                None => {
                    proof {
                        lemma_total_prefix_monotone(
                            self.rows@,
                            i as int + 1,
                            self.rows@.len() as int,
                        );
                    }
                    return Err(StoreError::SizeOverflow);
                },
            };
            i = i + 1;
        }
        Ok(acc)
    }

    /// Record a snapshot that is still stored inline: a new row holding the
    /// serialized trie itself.  This is the pre-migration representation.
    pub fn write_trie_blob(
        &mut self,
        bhh: &BlockHeaderHash,
        blob: &[u8],
        unconfirmed: bool,
    ) -> (r: Result<u32, StoreError>)
        requires
            old(self).wf(),
        ensures
            final(self).wf(),
            r is Err ==> *final(self) == *old(self),
            old(self).has_hash(bhh@) ==> r == Err::<u32, StoreError>(StoreError::Corruption),
            (!old(self).has_hash(bhh@) && old(self).rows@.len() == u32::MAX) ==> r == Err::<
                u32,
                StoreError,
            >(StoreError::SizeOverflow),
            (!old(self).has_hash(bhh@) && old(self).rows@.len() < u32::MAX) ==> {
                &&& r is Ok
                &&& r.unwrap() == old(self).rows@.len()
                &&& final(self).rows@.len() == old(self).rows@.len() + 1
                &&& forall|j: int|
                    0 <= j < old(self).rows@.len() ==> final(self).rows@[j] == old(self).rows@[j]
                &&& final(self).rows@.last().block_hash@ == bhh@
                &&& final(self).rows@.last().external is None
                &&& final(self).rows@.last().inline is Some
                &&& final(self).rows@.last().inline.unwrap()@ == blob@
                &&& final(self).rows@.last().unconfirmed == unconfirmed
            },
    {
        match self.get_block_identifier(bhh) {
            Ok(_) => Err(StoreError::Corruption),
            Err(_) => {
                if self.rows.len() >= u32::MAX as usize {
                    return Err(StoreError::SizeOverflow);
                }
                let rec = TrieRecord {
                    block_hash: bhh.duplicate(),
                    external: None,
                    inline: Some(vstd::slice::slice_to_vec(blob)),
                    unconfirmed,
                };
                self.rows.push(rec);
                Ok((self.rows.len() - 1) as u32)
            },
        }
    }

    /// Record that a snapshot's bytes now live in the external blob log at
    /// `(offset, length)`.  With `Some(block_id)` this replaces that row's
    /// inline representation (the migration path); with `None` it records a
    /// brand-new, already-external snapshot (the append path).  A row that is
    /// already external is never re-pointed: snapshots are immutable.
    pub fn write_external_trie_blob(
        &mut self,
        bhh: &BlockHeaderHash,
        offset: u64,
        length: u64,
        block_id: Option<u32>,
    ) -> (r: Result<u32, StoreError>)
        requires
            old(self).wf(),
        ensures
            final(self).wf(),
            r is Err ==> *final(self) == *old(self),
            offset + length > u64::MAX ==> r == Err::<u32, StoreError>(StoreError::SizeOverflow),
            (offset + length <= u64::MAX && block_id is Some) ==> {
                let i = block_id.unwrap() as int;
                &&& i >= old(self).rows@.len() ==> r == Err::<u32, StoreError>(StoreError::NotFound)
                &&& (i < old(self).rows@.len() && old(self).rows@[i].block_hash@ != bhh@) ==> r
                    == Err::<u32, StoreError>(StoreError::Corruption)
                &&& (i < old(self).rows@.len() && old(self).rows@[i].block_hash@ == bhh@ && old(
                    self,
                ).rows@[i].external is Some) ==> r == Err::<u32, StoreError>(StoreError::Corruption)
                &&& (i < old(self).rows@.len() && old(self).rows@[i].block_hash@ == bhh@ && old(
                    self,
                ).rows@[i].external is None) ==> {
                    &&& r == Ok::<u32, StoreError>(block_id.unwrap())
                    &&& final(self).rows@.len() == old(self).rows@.len()
                    &&& forall|j: int|
                        0 <= j < old(self).rows@.len() && j != i ==> final(self).rows@[j] == old(
                            self,
                        ).rows@[j]
                    &&& final(self).rows@[i].block_hash == old(self).rows@[i].block_hash
                    &&& final(self).rows@[i].external == Some((offset, length))
                    &&& final(self).rows@[i].inline is None
                    &&& final(self).rows@[i].unconfirmed == old(self).rows@[i].unconfirmed
                }
            },
            (offset + length <= u64::MAX && block_id is None) ==> {
                &&& old(self).has_hash(bhh@) ==> r == Err::<u32, StoreError>(StoreError::Corruption)
                &&& (!old(self).has_hash(bhh@) && old(self).rows@.len() == u32::MAX) ==> r == Err::<
                    u32,
                    StoreError,
                >(StoreError::SizeOverflow)
                &&& (!old(self).has_hash(bhh@) && old(self).rows@.len() < u32::MAX) ==> {
                    &&& r is Ok
                    &&& r.unwrap() == old(self).rows@.len()
                    &&& final(self).rows@.len() == old(self).rows@.len() + 1
                    &&& forall|j: int|
                        0 <= j < old(self).rows@.len() ==> final(self).rows@[j] == old(
                            self,
                        ).rows@[j]
                    &&& final(self).rows@.last().block_hash@ == bhh@
                    &&& final(self).rows@.last().external == Some((offset, length))
                    &&& final(self).rows@.last().inline is None
                    &&& final(self).rows@.last().unconfirmed == false
                }
            },
    {
        if offset.checked_add(length).is_none() {
            return Err(StoreError::SizeOverflow);
        }
        match block_id {
            Some(id) => {
                if (id as usize) >= self.rows.len() {
                    return Err(StoreError::NotFound);
                }
                if !bytes_eq(&self.rows[id as usize].block_hash.0, &bhh.0) {
                    return Err(StoreError::Corruption);
                }
                if self.rows[id as usize].external.is_some() {
                    return Err(StoreError::Corruption);
                }
                let row = vstd::std_specs::vec::vec_index_mut(&mut self.rows, id as usize);
                row.external = Some((offset, length));
                row.inline = None;
                Ok(id)
            },
            None => {
                match self.get_block_identifier(bhh) {
                    Ok(_) => Err(StoreError::Corruption),
                    Err(_) => {
                        if self.rows.len() >= u32::MAX as usize {
                            return Err(StoreError::SizeOverflow);
                        }
                        let rec = TrieRecord {
                            block_hash: bhh.duplicate(),
                            external: Some((offset, length)),
                            inline: None,
                            unconfirmed: false,
                        };
                        self.rows.push(rec);
                        Ok((self.rows.len() - 1) as u32)
                    },
                }
            },
        }
    }
}

} // verus!

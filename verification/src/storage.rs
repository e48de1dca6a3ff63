//! The blob log: an append-only byte store with an in-process offset cache.
//!
//! `TrieFileRAM` is the in-memory backend of the log: a growable byte buffer
//! with a cursor, a read-only flag, and a per-handle cache of resolved
//! snapshot offsets.  The disk backend is plumbing around the same
//! contracts and lives with the rest of the I/O, outside this crate's
//! verified core.
//!
//! The central invariant, `consistent`, ties a log to its metadata index:
//! the index's recorded total — never the buffer's physical size — decides
//! where the next append goes, every recorded `(offset, length)` range lies
//! inside the physically stored bytes, and every cached offset agrees with
//! the index.

use std::collections::HashMap;

use vstd::prelude::*;

use crate::errors::StoreError;
use crate::index::{total_ext, MetaIndex};
use crate::node::{bytes_le, bytes_le_exec, BlockHeaderHash, TrieHash, TrieNodeType, TriePtr, TRIEHASH_ENCODED_SIZE};

verus! {

broadcast use {vstd::std_specs::hash::group_hash_axioms, vstd::seq_lib::group_to_multiset_ensures};

/// Per-handle cache of resolved snapshot offsets and lengths.  Entries are
/// inserted on first lookup and never evicted: snapshots are immutable, so a
/// resolved offset stays valid for the lifetime of the handle.
pub type TrieIdOffsets = HashMap<u32, (u64, u64)>;

/// In-memory backend of the blob log.
pub struct TrieFileRAM {
    fd: Vec<u8>,
    pos: u64,
    readonly: bool,
    trie_offsets: TrieIdOffsets,
}

/// The bytes that `data` holds after writing `buf` at position `pos`,
/// zero-filling any gap between the old end and `pos`.
pub open spec fn splice_bytes(data: Seq<u8>, pos: int, buf: Seq<u8>) -> Seq<u8> {
    Seq::new(
        if data.len() >= pos + buf.len() {
            data.len()
        } else {
            (pos + buf.len()) as nat
        },
        |i: int|
            if pos <= i < pos + buf.len() {
                buf[i - pos]
            } else if i < data.len() {
                data[i]
            } else {
                0u8
            },
    )
}

impl TrieFileRAM {
    /// The byte contents of the log.
    pub closed spec fn bytes(self) -> Seq<u8> {
        self.fd@
    }

    /// The cursor position the next streaming read or write acts at.
    pub closed spec fn cursor(self) -> u64 {
        self.pos
    }

    /// Whether the handle refuses mutation.
    pub closed spec fn is_readonly(self) -> bool {
        self.readonly
    }

    /// The offsets resolved so far, as a map from snapshot identifier to
    /// `(offset, length)`.
    pub closed spec fn cached(self) -> Map<u32, (u64, u64)> {
        self.trie_offsets@
    }

    /// A fresh, empty in-memory log.
    pub fn new(readonly: bool) -> (r: TrieFileRAM)
        ensures
            r.bytes().len() == 0,
            r.cursor() == 0,
            r.is_readonly() == readonly,
            r.cached() == Map::<u32, (u64, u64)>::empty(),
    {
        TrieFileRAM { fd: Vec::new(), pos: 0, readonly, trie_offsets: HashMap::new() }
    }

    /// Move the cursor to an absolute position.
    pub fn seek(&mut self, offset: u64)
        ensures
            final(self).bytes() == old(self).bytes(),
            final(self).cursor() == offset,
            final(self).is_readonly() == old(self).is_readonly(),
            final(self).cached() == old(self).cached(),
    {
        self.pos = offset;
    }

    /// Move the cursor to the physical end of the log and report it.
    pub fn seek_end(&mut self) -> (r: u64)
        ensures
            final(self).bytes() == old(self).bytes(),
            final(self).cursor() == old(self).bytes().len(),
            r == old(self).bytes().len(),
            final(self).is_readonly() == old(self).is_readonly(),
            final(self).cached() == old(self).cached(),
    {
        self.pos = self.fd.len() as u64;
        self.pos
    }

    /// The current cursor position.
    pub fn stream_position(&self) -> (r: u64)
        ensures
            r == self.cursor(),
    {
        self.pos
    }

    /// Whether this handle was opened read-only.
    pub fn readonly(&self) -> (r: bool)
        ensures
            r == self.is_readonly(),
    {
        self.readonly
    }

    /// The log's byte contents always fit the address space.
    pub proof fn lemma_bytes_len_bound(self)
        ensures
            self.bytes().len() <= usize::MAX,
    {
        assert(self.fd.len() == self.fd@.len());
    }

    /// Flushing an in-memory buffer is a no-op; the disk backend flushes its
    /// file here instead.
    pub fn flush(&mut self)
        ensures
            *final(self) == *old(self),
    {
    }

    /// Write all of `buf` at the cursor, zero-filling any gap between the old
    /// end of the buffer and the cursor, and advance the cursor.  Fails fast
    /// on a read-only handle, before any mutation.
    pub fn write(&mut self, buf: &[u8]) -> (r: Result<usize, StoreError>)
        ensures
            final(self).is_readonly() == old(self).is_readonly(),
            final(self).cached() == old(self).cached(),
            old(self).is_readonly() ==> r == Err::<usize, StoreError>(StoreError::ReadOnly)
                && *final(self) == *old(self),
            (!old(self).is_readonly() && old(self).cursor() + buf@.len() > usize::MAX) ==> r
                == Err::<usize, StoreError>(StoreError::SizeOverflow) && *final(self) == *old(self),
            (!old(self).is_readonly() && old(self).cursor() + buf@.len() <= usize::MAX) ==> {
                &&& r == Ok::<usize, StoreError>(buf@.len() as usize)
                &&& final(self).bytes() == splice_bytes(
                    old(self).bytes(),
                    old(self).cursor() as int,
                    buf@,
                )
                &&& final(self).cursor() == old(self).cursor() + buf@.len()
            },
    {
        if self.readonly {
            return Err(StoreError::ReadOnly);
        }
        let n: usize = buf.len();
        if self.pos > (usize::MAX as u64) - (n as u64) {
            return Err(StoreError::SizeOverflow);
        }
        let start: usize = self.pos as usize;
        let ghost orig = self.fd@;
        // Zero-fill the gap between the old end and the cursor, if any.
        while self.fd.len() < start
            invariant
                self.fd@.len() <= start || self.fd@.len() == orig.len(),
                orig.len() < start ==> self.fd@.len() >= orig.len(),
                orig.len() >= start ==> self.fd@ == orig,
                forall|k: int| 0 <= k < orig.len() && k < self.fd@.len() ==> self.fd@[k] == orig[k],
                forall|k: int| orig.len() <= k < self.fd@.len() ==> self.fd@[k] == 0u8,
                self.pos == old(self).pos,
                self.readonly == old(self).readonly,
                self.trie_offsets@ == old(self).trie_offsets@,
            decreases start - self.fd@.len(),
        {
            self.fd.push(0u8);
        }
        let ghost padded = self.fd@;
        proof {
            assert(padded.len() as int == if orig.len() >= start {
                orig.len() as int
            } else {
                start as int
            });
        }
        // Write the buffer itself, overwriting where bytes exist and
        // appending where they do not.
        let mut i: usize = 0;
        while i < n
            invariant
                i <= n,
                n == buf@.len(),
                start + n <= usize::MAX,
                self.fd@.len() as int == if padded.len() >= start + i {
                    padded.len() as int
                } else {
                    start + i
                },
                forall|k: int| 0 <= k < start && k < padded.len() ==> self.fd@[k] == padded[k],
                forall|k: int| start <= k < start + i ==> self.fd@[k] == buf@[k - start],
                forall|k: int|
                    start + i <= k < padded.len() && k >= start ==> self.fd@[k] == padded[k],
                self.pos == old(self).pos,
                self.readonly == old(self).readonly,
                self.trie_offsets@ == old(self).trie_offsets@,
            decreases n - i,
        {
            let j: usize = start + i;
            if j < self.fd.len() {
                self.fd[j] = buf[i];
            } else {
                self.fd.push(buf[i]);
            }
            i = i + 1;
        }
        self.pos = self.pos + (n as u64);
        proof {
            assert(start as int == old(self).pos as int);
            let p = start as int;
            let s = splice_bytes(orig, p, buf@);
            assert(padded.len() as int == if orig.len() >= start {
                orig.len() as int
            } else {
                start as int
            });
            assert forall|k: int| 0 <= k < self.fd@.len() implies self.fd@[k] == s[k] by {
                if p <= k < p + buf@.len() {
                    assert(self.fd@[k] == buf@[k - p]);
                } else if k < p {
                    assert(k < padded.len());
                    assert(self.fd@[k] == padded[k]);
                } else {
                    assert(k >= p + buf@.len());
                    assert(k < padded.len());
                    assert(self.fd@[k] == padded[k]);
                    assert(padded.len() == orig.len());
                    assert(padded[k] == orig[k]);
                }
            }
            assert(self.fd@ =~= s);
        }
        Ok(n)
    }

    /// Read exactly `count` bytes starting at `offset`, without moving the
    /// cursor.  A read past the end of the stored bytes means the store is
    /// truncated relative to its metadata: `Corruption`.
    pub fn read_at(&self, offset: u64, count: usize) -> (r: Result<Vec<u8>, StoreError>)
        ensures
            offset + count <= self.bytes().len() ==> r is Ok && r.unwrap()@ == self.bytes().subrange(
                offset as int,
                offset + count,
            ),
            offset + count > self.bytes().len() ==> r == Err::<Vec<u8>, StoreError>(
                StoreError::Corruption,
            ),
    {
        if offset > self.fd.len() as u64 || (count as u64) > (self.fd.len() as u64) - offset {
            return Err(StoreError::Corruption);
        }
        let start: usize = offset as usize;
        proof {
            assert(self.fd.len() == self.fd@.len());
        }
        let mut out: Vec<u8> = Vec::new();
        let mut i: usize = 0;
        while i < count
            invariant
                i <= count,
                start + count <= self.fd@.len(),
                self.fd@.len() <= usize::MAX,
                out@ == self.fd@.subrange(start as int, start + i),
            decreases count - i,
        {
            out.push(self.fd[start + i]);
            i = i + 1;
            proof {
                assert(out@ =~= self.fd@.subrange(start as int, start + i));
            }
        }
        Ok(out)
    }

    /// Read exactly `count` bytes at the cursor and advance it.
    pub fn read_exact(&mut self, count: usize) -> (r: Result<Vec<u8>, StoreError>)
        ensures
            final(self).bytes() == old(self).bytes(),
            final(self).is_readonly() == old(self).is_readonly(),
            final(self).cached() == old(self).cached(),
            old(self).cursor() + count <= old(self).bytes().len() ==> {
                &&& r is Ok
                &&& r.unwrap()@ == old(self).bytes().subrange(
                    old(self).cursor() as int,
                    old(self).cursor() + count,
                )
                &&& final(self).cursor() == old(self).cursor() + count
            },
            old(self).cursor() + count > old(self).bytes().len() ==> r == Err::<Vec<u8>, StoreError>(
                StoreError::Corruption,
            ) && final(self).cursor() == old(self).cursor(),
    {
        proof {
            assert(self.fd.len() == self.fd@.len());
        }
        let r = self.read_at(self.pos, count);
        if r.is_ok() {
            self.pos = self.pos + (count as u64);
        }
        r
    }
}

/// Does row `i` exist and have an external `(offset, length)` record?
pub open spec fn is_ext(rows: Seq<crate::index::TrieRecord>, i: int) -> bool {
    0 <= i < rows.len() && rows[i].external is Some
}

/// First byte of row `i`'s range in the blob log.
pub open spec fn ext_start(rows: Seq<crate::index::TrieRecord>, i: int) -> int {
    rows[i].external.unwrap().0 as int
}

/// One past the last byte of row `i`'s range in the blob log.
pub open spec fn ext_end(rows: Seq<crate::index::TrieRecord>, i: int) -> int {
    rows[i].external.unwrap().0 + rows[i].external.unwrap().1
}

/// The store invariant tying a blob log to its metadata index: the index's
/// recorded total — never the log's physical size — decides where the next
/// ordinary append goes; every recorded range lies inside the physically
/// stored bytes (migration may record ranges past the logical total, since
/// it writes at the true end-of-stream); and every cached offset agrees
/// with the index.  Unreferenced bytes past the logical length (from an
/// append whose index update never happened) carry no recorded meaning.
pub open spec fn consistent(f: TrieFileRAM, db: MetaIndex) -> bool {
    &&& db.wf()
    &&& total_ext(db.rows@) <= f.bytes().len()
    &&& forall|i: int| #[trigger] is_ext(db.rows@, i) ==> ext_end(db.rows@, i) <= f.bytes().len()
    &&& forall|id: u32| #[trigger]
        f.cached().contains_key(id) ==> is_ext(db.rows@, id as int) && db.rows@[id as int].external
            == Some(f.cached()[id])
}

/// Recording a new inline snapshot claims no byte range in the log, so the
/// store invariant carries over unchanged to the extended index.
pub proof fn lemma_consistent_after_inline(f: TrieFileRAM, db0: MetaIndex, db1: MetaIndex)
    requires
        consistent(f, db0),
        db1.wf(),
        db1.rows@.len() == db0.rows@.len() + 1,
        forall|i: int| 0 <= i < db0.rows@.len() ==> db1.rows@[i] == db0.rows@[i],
        db1.rows@.last().external is None,
    ensures
        consistent(f, db1),
{
    let rows0 = db0.rows@;
    let rows1 = db1.rows@;
    assert(rows1 =~= rows0.push(rows1.last()));
    crate::index::lemma_total_push(rows0, rows1.last());
    crate::index::lemma_total_prefix_agree(rows1, rows0.push(rows1.last()), rows1.len() as int);
    assert(total_ext(rows1) == total_ext(rows0));
    assert forall|i: int| #[trigger] is_ext(rows1, i) implies ext_end(rows1, i)
        <= f.bytes().len() by {
        assert(i < rows0.len());
        assert(rows1[i] == rows0[i]);
        assert(is_ext(rows0, i));
    }
    assert forall|id: u32| #[trigger] f.cached().contains_key(id) implies is_ext(rows1, id as int)
        && rows1[id as int].external == Some(f.cached()[id]) by {
        assert(is_ext(rows0, id as int));
    }
}

/// Offset-cache consistency: an offset cached in a handle always equals the
/// offset its metadata index records for that snapshot, so resolving the
/// same identifier a second time — with or without the index at hand —
/// returns the same offset as the first resolution.
pub proof fn lemma_cache_consistent(f: TrieFileRAM, db: MetaIndex, block_id: u32)
    requires
        consistent(f, db),
        f.cached().contains_key(block_id),
    ensures
        is_ext(db.rows@, block_id as int),
        db.rows@[block_id as int].external == Some(f.cached()[block_id]),
        f.cached()[block_id].0 == ext_start(db.rows@, block_id as int),
{
}

impl TrieFileRAM {
    /// Resolve a snapshot's `(offset, length)`: from the cache when present,
    /// otherwise from the metadata index, caching the answer.
    fn resolve_offset_length(&mut self, db: &MetaIndex, block_id: u32) -> (r: Result<
        (u64, u64),
        StoreError,
    >)
        requires
            consistent(*old(self), *db),
        ensures
            consistent(*final(self), *db),
            final(self).bytes() == old(self).bytes(),
            final(self).cursor() == old(self).cursor(),
            final(self).is_readonly() == old(self).is_readonly(),
            old(self).cached().contains_key(block_id) ==> r == Ok::<(u64, u64), StoreError>(
                old(self).cached()[block_id],
            ) && final(self).cached() == old(self).cached(),
            !old(self).cached().contains_key(block_id) && is_ext(db.rows@, block_id as int) ==> r
                == Ok::<(u64, u64), StoreError>(db.rows@[block_id as int].external.unwrap())
                && final(self).cached() == old(self).cached().insert(
                block_id,
                db.rows@[block_id as int].external.unwrap(),
            ),
            !is_ext(db.rows@, block_id as int) ==> r == Err::<(u64, u64), StoreError>(
                StoreError::NotFound,
            ) && final(self).cached() == old(self).cached(),
            r is Ok ==> is_ext(db.rows@, block_id as int) && r.unwrap() == db.rows@[
                block_id as int
            ].external.unwrap(),
            final(self).cached().contains_key(block_id) == (old(self).cached().contains_key(
                block_id,
            ) || is_ext(db.rows@, block_id as int)),
    {
        match self.trie_offsets.get(&block_id) {
            Some(pair) => Ok(*pair),
            None => {
                match db.get_external_trie_offset_length(block_id) {
                    Ok(pair) => {
                        self.trie_offsets.insert(block_id, pair);
                        proof {
                            assert(is_ext(db.rows@, block_id as int));
                            assert(pair == db.rows@[block_id as int].external.unwrap());
                            assert(self.trie_offsets@ == old(self).trie_offsets@.insert(
                                block_id,
                                pair,
                            ));
                            assert forall|id: u32| #[trigger]
                                self.trie_offsets@.contains_key(id) implies is_ext(
                                db.rows@,
                                id as int,
                            ) && db.rows@[id as int].external == Some(
                                self.trie_offsets@[id],
                            ) by {
                                if id != block_id {
                                    assert(old(self).cached().contains_key(id));
                                    assert(self.trie_offsets@[id] == old(self).cached()[id]);
                                }
                            }
                        }
                        Ok(pair)
                    },
                    Err(e) => Err(e),
                }
            },
        }
    }

    /// The byte offset in the blob log at which a snapshot's data begins.
    /// Answered from the per-handle cache after the first resolution; a
    /// snapshot the index has no external record for is `NotFound`, never
    /// silently offset zero.
    pub fn get_trie_offset(&mut self, db: &MetaIndex, block_id: u32) -> (r: Result<u64, StoreError>)
        requires
            consistent(*old(self), *db),
        ensures
            consistent(*final(self), *db),
            final(self).bytes() == old(self).bytes(),
            final(self).cursor() == old(self).cursor(),
            final(self).is_readonly() == old(self).is_readonly(),
            old(self).cached().contains_key(block_id) ==> r == Ok::<u64, StoreError>(
                old(self).cached()[block_id].0,
            ) && final(self).cached() == old(self).cached(),
            !old(self).cached().contains_key(block_id) && is_ext(db.rows@, block_id as int) ==> r
                == Ok::<u64, StoreError>(db.rows@[block_id as int].external.unwrap().0)
                && final(self).cached() == old(self).cached().insert(
                block_id,
                db.rows@[block_id as int].external.unwrap(),
            ),
            !is_ext(db.rows@, block_id as int) ==> r == Err::<u64, StoreError>(StoreError::NotFound)
                && final(self).cached() == old(self).cached(),
            r is Ok ==> is_ext(db.rows@, block_id as int) && r.unwrap() == ext_start(
                db.rows@,
                block_id as int,
            ) && final(self).cached().contains_key(block_id),
    {
        match self.resolve_offset_length(db, block_id) {
            Ok((offset, _length)) => Ok(offset),
            Err(e) => Err(e),
        }
    }

    /// The offset already resolved for a snapshot, if any — answered from
    /// the per-handle cache alone, with no metadata-index lookup at all.
    pub fn cached_trie_offset(&self, block_id: u32) -> (r: Option<u64>)
        ensures
            self.cached().contains_key(block_id) ==> r == Some(self.cached()[block_id].0),
            !self.cached().contains_key(block_id) ==> r is None,
    {
        match self.trie_offsets.get(&block_id) {
            Some(pair) => Some(pair.0),
            None => None,
        }
    }

    /// Read a snapshot's serialized trie in its entirety from the metadata
    /// index, while it is still stored inline there (the pre-migration
    /// representation).
    pub fn read_trie_blob_from_db(db: &MetaIndex, block_id: u32) -> (r: Result<Vec<u8>, StoreError>)
        requires
            db.wf(),
        ensures
            block_id >= db.rows@.len() ==> r == Err::<Vec<u8>, StoreError>(StoreError::NotFound),
            (block_id < db.rows@.len() && db.rows@[block_id as int].inline is Some) ==> r is Ok
                && r.unwrap()@ == db.rows@[block_id as int].inline.unwrap()@,
            (block_id < db.rows@.len() && db.rows@[block_id as int].inline is None) ==> r == Err::<
                Vec<u8>,
                StoreError,
            >(StoreError::Corruption),
    {
        db.open_trie_blob(block_id)
    }

    /// Read a snapshot's bytes back in their entirety, at the range the
    /// metadata index records for it.
    pub fn read_trie_blob(&mut self, db: &MetaIndex, block_id: u32) -> (r: Result<
        Vec<u8>,
        StoreError,
    >)
        requires
            consistent(*old(self), *db),
        ensures
            consistent(*final(self), *db),
            final(self).bytes() == old(self).bytes(),
            final(self).is_readonly() == old(self).is_readonly(),
            final(self).cached() == old(self).cached(),
            is_ext(db.rows@, block_id as int) ==> r is Ok && r.unwrap()@ == old(
                self,
            ).bytes().subrange(
                ext_start(db.rows@, block_id as int),
                ext_end(db.rows@, block_id as int),
            ),
            !is_ext(db.rows@, block_id as int) ==> r == Err::<Vec<u8>, StoreError>(
                StoreError::NotFound,
            ),
    {
        let (offset, length) = match db.get_external_trie_offset_length(block_id) {
            Ok(p) => p,
            Err(e) => { return Err(e) },
        };
        proof {
            assert(self.fd.len() == self.fd@.len());
            assert(is_ext(db.rows@, block_id as int));
            assert(ext_end(db.rows@, block_id as int) <= self.bytes().len());
        }
        match self.read_at(offset, length as usize) {
            Ok(b) => Ok(b),
            Err(e) => Err(e),
        }
    }

    /// The fixed-width hash of one node, read at the snapshot's base offset
    /// plus the pointer's relative offset.  A pointer whose hash would run
    /// past the snapshot's recorded length is rejected as `Corruption`
    /// before any byte is read: reads are bounded by the recorded length,
    /// never by the end of the file, so they can never stray into a
    /// neighboring snapshot's bytes.
    pub fn get_node_hash_bytes(&mut self, db: &MetaIndex, block_id: u32, ptr: &TriePtr) -> (r:
        Result<TrieHash, StoreError>)
        requires
            consistent(*old(self), *db),
        ensures
            consistent(*final(self), *db),
            final(self).bytes() == old(self).bytes(),
            final(self).cursor() == old(self).cursor(),
            final(self).is_readonly() == old(self).is_readonly(),
            !is_ext(db.rows@, block_id as int) ==> r == Err::<TrieHash, StoreError>(
                StoreError::NotFound,
            ) && final(self).cached() == old(self).cached(),
            is_ext(db.rows@, block_id as int) ==> {
                let off = ext_start(db.rows@, block_id as int);
                let len = db.rows@[block_id as int].external.unwrap().1 as int;
                &&& ptr.ptr + TRIEHASH_ENCODED_SIZE > len ==> r == Err::<TrieHash, StoreError>(
                    StoreError::Corruption,
                )
                &&& ptr.ptr + TRIEHASH_ENCODED_SIZE <= len ==> r is Ok && r.unwrap()@ == old(
                    self,
                ).bytes().subrange(off + ptr.ptr, off + ptr.ptr + TRIEHASH_ENCODED_SIZE)
            },
    {
        let (offset, length) = match self.resolve_offset_length(db, block_id) {
            Ok(p) => p,
            Err(e) => { return Err(e) },
        };
        if (ptr.ptr() as u64) + (TRIEHASH_ENCODED_SIZE as u64) > length {
            return Err(StoreError::Corruption);
        }
        proof {
            assert(self.fd.len() == self.fd@.len());
            assert(ext_end(db.rows@, block_id as int) <= self.bytes().len());
        }
        match self.read_at(offset + (ptr.ptr() as u64), TRIEHASH_ENCODED_SIZE) {
            Ok(b) => Ok(TrieHash(b)),
            Err(e) => Err(e),
        }
    }

    /// One node record and its hash: the hash is the fixed-width prefix at
    /// the pointer's target, the node itself is the opaque remainder of the
    /// snapshot from there on, tagged with the pointer's node type.  Bounded
    /// by the snapshot's recorded length exactly as `get_node_hash_bytes`.
    pub fn read_node_type(&mut self, db: &MetaIndex, block_id: u32, ptr: &TriePtr) -> (r: Result<
        (TrieNodeType, TrieHash),
        StoreError,
    >)
        requires
            consistent(*old(self), *db),
        ensures
            consistent(*final(self), *db),
            final(self).bytes() == old(self).bytes(),
            final(self).cursor() == old(self).cursor(),
            final(self).is_readonly() == old(self).is_readonly(),
            !is_ext(db.rows@, block_id as int) ==> r == Err::<(TrieNodeType, TrieHash), StoreError>(
                StoreError::NotFound,
            ),
            is_ext(db.rows@, block_id as int) ==> {
                let off = ext_start(db.rows@, block_id as int);
                let len = db.rows@[block_id as int].external.unwrap().1 as int;
                &&& ptr.ptr + TRIEHASH_ENCODED_SIZE > len ==> r == Err::<
                    (TrieNodeType, TrieHash),
                    StoreError,
                >(StoreError::Corruption)
                &&& ptr.ptr + TRIEHASH_ENCODED_SIZE <= len ==> {
                    &&& r is Ok
                    &&& r.unwrap().1@ == old(self).bytes().subrange(
                        off + ptr.ptr,
                        off + ptr.ptr + TRIEHASH_ENCODED_SIZE,
                    )
                    &&& r.unwrap().0.id == ptr.id
                    &&& r.unwrap().0.bytes@ == old(self).bytes().subrange(
                        off + ptr.ptr + TRIEHASH_ENCODED_SIZE,
                        off + len,
                    )
                }
            },
    {
        let (offset, length) = match self.resolve_offset_length(db, block_id) {
            Ok(p) => p,
            Err(e) => { return Err(e) },
        };
        if (ptr.ptr() as u64) + (TRIEHASH_ENCODED_SIZE as u64) > length {
            return Err(StoreError::Corruption);
        }
        proof {
            assert(self.fd.len() == self.fd@.len());
            assert(ext_end(db.rows@, block_id as int) <= self.bytes().len());
        }
        let hash = match self.read_at(offset + (ptr.ptr() as u64), TRIEHASH_ENCODED_SIZE) {
            Ok(b) => TrieHash(b),
            Err(e) => { return Err(e) },
        };
        let body_start: u64 = offset + (ptr.ptr() as u64) + (TRIEHASH_ENCODED_SIZE as u64);
        let body_len: usize = (length - (ptr.ptr() as u64) - (TRIEHASH_ENCODED_SIZE as u64)) as usize;
        match self.read_at(body_start, body_len) {
            Ok(b) => Ok((TrieNodeType { id: ptr.id(), bytes: b }, hash)),
            Err(e) => Err(e),
        }
    }

    /// One node record without reading its hash: exactly the node
    /// `read_node_type` returns, skipping over the fixed-width hash that
    /// precedes it at the pointer's target.
    pub fn read_node_type_nohash(&mut self, db: &MetaIndex, block_id: u32, ptr: &TriePtr) -> (r:
        Result<TrieNodeType, StoreError>)
        requires
            consistent(*old(self), *db),
        ensures
            consistent(*final(self), *db),
            final(self).bytes() == old(self).bytes(),
            final(self).cursor() == old(self).cursor(),
            final(self).is_readonly() == old(self).is_readonly(),
            !is_ext(db.rows@, block_id as int) ==> r == Err::<TrieNodeType, StoreError>(
                StoreError::NotFound,
            ),
            is_ext(db.rows@, block_id as int) ==> {
                let off = ext_start(db.rows@, block_id as int);
                let len = db.rows@[block_id as int].external.unwrap().1 as int;
                &&& ptr.ptr + TRIEHASH_ENCODED_SIZE > len ==> r == Err::<TrieNodeType, StoreError>(
                    StoreError::Corruption,
                )
                &&& ptr.ptr + TRIEHASH_ENCODED_SIZE <= len ==> {
                    &&& r is Ok
                    &&& r.unwrap().id == ptr.id
                    &&& r.unwrap().bytes@ == old(self).bytes().subrange(
                        off + ptr.ptr + TRIEHASH_ENCODED_SIZE,
                        off + len,
                    )
                }
            },
    {
        let (offset, length) = match self.resolve_offset_length(db, block_id) {
            Ok(p) => p,
            Err(e) => { return Err(e) },
        };
        if (ptr.ptr() as u64) + (TRIEHASH_ENCODED_SIZE as u64) > length {
            return Err(StoreError::Corruption);
        }
        proof {
            assert(self.fd.len() == self.fd@.len());
            assert(ext_end(db.rows@, block_id as int) <= self.bytes().len());
        }
        let body_start: u64 = offset + (ptr.ptr() as u64) + (TRIEHASH_ENCODED_SIZE as u64);
        let body_len: usize = (length - (ptr.ptr() as u64) - (TRIEHASH_ENCODED_SIZE as u64)) as usize;
        match self.read_at(body_start, body_len) {
            Ok(b) => Ok(TrieNodeType { id: ptr.id(), bytes: b }),
            Err(e) => Err(e),
        }
    }

    /// Like `get_node_hash_bytes`, but the snapshot is named by its block
    /// hash; resolution goes straight to the metadata index, bypassing the
    /// identifier cache.
    pub fn get_node_hash_bytes_by_bhh(
        &mut self,
        db: &MetaIndex,
        bhh: &BlockHeaderHash,
        ptr: &TriePtr,
    ) -> (r: Result<TrieHash, StoreError>)
        requires
            consistent(*old(self), *db),
        ensures
            consistent(*final(self), *db),
            final(self).bytes() == old(self).bytes(),
            final(self).cursor() == old(self).cursor(),
            final(self).is_readonly() == old(self).is_readonly(),
            final(self).cached() == old(self).cached(),
            !(db.has_hash(bhh@) && is_ext(db.rows@, db.id_of(bhh@))) ==> r == Err::<
                TrieHash,
                StoreError,
            >(StoreError::NotFound),
            (db.has_hash(bhh@) && is_ext(db.rows@, db.id_of(bhh@))) ==> {
                let off = ext_start(db.rows@, db.id_of(bhh@));
                let len = db.rows@[db.id_of(bhh@)].external.unwrap().1 as int;
                &&& ptr.ptr + TRIEHASH_ENCODED_SIZE > len ==> r == Err::<TrieHash, StoreError>(
                    StoreError::Corruption,
                )
                &&& ptr.ptr + TRIEHASH_ENCODED_SIZE <= len ==> r is Ok && r.unwrap()@ == old(
                    self,
                ).bytes().subrange(off + ptr.ptr, off + ptr.ptr + TRIEHASH_ENCODED_SIZE)
            },
    {
        let (offset, length) = match db.get_external_trie_offset_length_by_bhh(bhh) {
            Ok(p) => p,
            Err(e) => { return Err(e) },
        };
        if (ptr.ptr() as u64) + (TRIEHASH_ENCODED_SIZE as u64) > length {
            return Err(StoreError::Corruption);
        }
        proof {
            assert(self.fd.len() == self.fd@.len());
            assert(is_ext(db.rows@, db.id_of(bhh@)));
            assert(ext_end(db.rows@, db.id_of(bhh@)) <= self.bytes().len());
        }
        match self.read_at(offset + (ptr.ptr() as u64), TRIEHASH_ENCODED_SIZE) {
            Ok(b) => Ok(TrieHash(b)),
            Err(e) => Err(e),
        }
    }

    /// Append a serialized snapshot to the blob log.  The write offset is
    /// the metadata index's recorded total length — never the buffer's
    /// physical size — so bytes orphaned by an earlier interrupted append
    /// are overwritten rather than trusted.  Returns the offset the write
    /// began at; the caller records it in the index as a separate step.
    pub fn append_trie_blob(&mut self, db: &MetaIndex, buf: &[u8]) -> (r: Result<u64, StoreError>)
        requires
            consistent(*old(self), *db),
        ensures
            consistent(*final(self), *db),
            final(self).is_readonly() == old(self).is_readonly(),
            final(self).cached() == old(self).cached(),
            old(self).is_readonly() ==> r == Err::<u64, StoreError>(StoreError::ReadOnly)
                && final(self).bytes() == old(self).bytes(),
            (!old(self).is_readonly() && total_ext(db.rows@) + buf@.len() > usize::MAX) ==> r
                == Err::<u64, StoreError>(StoreError::SizeOverflow) && final(self).bytes() == old(
                self,
            ).bytes(),
            (!old(self).is_readonly() && total_ext(db.rows@) + buf@.len() <= usize::MAX) ==> {
                let total = total_ext(db.rows@);
                &&& r == Ok::<u64, StoreError>(total as u64)
                &&& final(self).bytes() == splice_bytes(old(self).bytes(), total, buf@)
                &&& final(self).bytes().subrange(0, total) == old(self).bytes().subrange(0, total)
                &&& final(self).bytes().subrange(total, total + buf@.len()) == buf@
                &&& final(self).bytes().len() == if old(self).bytes().len() >= total + buf@.len() {
                    old(self).bytes().len() as int
                } else {
                    total + buf@.len()
                }
                &&& final(self).cursor() == total + buf@.len()
            },
    {
        proof {
            assert(self.fd.len() == self.fd@.len());
            crate::index::lemma_total_prefix_nonneg(db.rows@, db.rows@.len() as int);
        }
        let offset = match db.get_external_blobs_length() {
            Ok(o) => o,
            Err(e) => { return Err(e) },
        };
        self.seek(offset);
        match self.write(buf) {
            Ok(_) => {
                self.flush();
                proof {
                    let total = total_ext(db.rows@);
                    assert(self.fd@.subrange(0, total) =~= old(self).fd@.subrange(0, total));
                    assert(self.fd@.subrange(total, total + buf@.len()) =~= buf@);
                }
                Ok(offset)
            },
            Err(e) => Err(e),
        }
    }

    /// Store a snapshot: append its bytes to the blob log, then record the
    /// resulting `(offset, length)` in the metadata index.  These are two
    /// deliberate, separate steps: a crash between them leaves unreferenced
    /// trailing bytes (wasted space), never a corrupt index.  With
    /// `Some(block_id)` the bytes replace that row's inline representation;
    /// with `None` a new snapshot row is recorded.  Returns the snapshot's
    /// identifier.
    pub fn store_trie_blob(
        &mut self,
        db: &mut MetaIndex,
        bhh: &BlockHeaderHash,
        buffer: &[u8],
        block_id: Option<u32>,
    ) -> (r: Result<u32, StoreError>)
        requires
            consistent(*old(self), *old(db)),
        ensures
            consistent(*final(self), *final(db)),
            final(self).is_readonly() == old(self).is_readonly(),
            final(self).cached() == old(self).cached(),
            r is Err ==> *final(db) == *old(db),
            old(self).is_readonly() ==> r == Err::<u32, StoreError>(StoreError::ReadOnly)
                && final(self).bytes() == old(self).bytes(),
            r is Ok ==> {
                let total = total_ext(old(db).rows@);
                let id = r.unwrap() as int;
                &&& total_ext(final(db).rows@) == total + buffer@.len()
                &&& final(self).bytes().subrange(0, total) == old(self).bytes().subrange(0, total)
                &&& final(self).bytes().subrange(total, total + buffer@.len()) == buffer@
                &&& 0 <= id < final(db).rows@.len()
                &&& final(db).rows@[id].external == Some((total as u64, buffer@.len() as u64))
                &&& final(db).rows@[id].block_hash@ == bhh@
                &&& final(db).rows@[id].inline is None
                &&& (match block_id {
                    Some(i) => {
                        &&& id == i
                        &&& final(db).rows@.len() == old(db).rows@.len()
                        &&& forall|j: int|
                            0 <= j < old(db).rows@.len() && j != id ==> final(db).rows@[j] == old(
                                db,
                            ).rows@[j]
                        &&& final(db).rows@[id].unconfirmed == old(db).rows@[id].unconfirmed
                    },
                    None => {
                        &&& id == old(db).rows@.len()
                        &&& final(db).rows@.len() == old(db).rows@.len() + 1
                        &&& forall|j: int|
                            0 <= j < old(db).rows@.len() ==> final(db).rows@[j] == old(db).rows@[j]
                        &&& final(db).rows@[id].unconfirmed == false
                    },
                })
            },
            (!old(self).is_readonly() && total_ext(old(db).rows@) + buffer@.len() <= usize::MAX)
                ==> match block_id {
                Some(i) => {
                    &&& i >= old(db).rows@.len() ==> r == Err::<u32, StoreError>(
                        StoreError::NotFound,
                    )
                    &&& (i < old(db).rows@.len() && old(db).rows@[i as int].block_hash@ != bhh@)
                        ==> r == Err::<u32, StoreError>(StoreError::Corruption)
                    &&& (i < old(db).rows@.len() && old(db).rows@[i as int].block_hash@ == bhh@
                        && old(db).rows@[i as int].external is Some) ==> r == Err::<
                        u32,
                        StoreError,
                    >(StoreError::Corruption)
                    &&& (i < old(db).rows@.len() && old(db).rows@[i as int].block_hash@ == bhh@
                        && old(db).rows@[i as int].external is None) ==> r is Ok
                },
                None => {
                    &&& old(db).has_hash(bhh@) ==> r == Err::<u32, StoreError>(
                        StoreError::Corruption,
                    )
                    &&& (!old(db).has_hash(bhh@) && old(db).rows@.len() == u32::MAX) ==> r == Err::<
                        u32,
                        StoreError,
                    >(StoreError::SizeOverflow)
                    &&& (!old(db).has_hash(bhh@) && old(db).rows@.len() < u32::MAX) ==> r is Ok
                },
            },
    {
        let ghost total = total_ext(old(db).rows@);
        proof {
            assert(self.fd.len() == self.fd@.len());
            crate::index::lemma_total_prefix_nonneg(old(db).rows@, old(db).rows@.len() as int);
        }
        let offset = match self.append_trie_blob(db, buffer) {
            Ok(o) => o,
            Err(e) => { return Err(e) },
        };
        let length: u64 = buffer.len() as u64;
        let res = db.write_external_trie_blob(bhh, offset, length, block_id);
        match res {
            Ok(id) => {
                proof {
                    let rows0 = old(db).rows@;
                    let rows1 = db.rows@;
                    if block_id is Some {
                        crate::index::lemma_total_update(
                            rows0,
                            block_id.unwrap() as int,
                            rows1[block_id.unwrap() as int],
                        );
                        assert(rows1 =~= rows0.update(
                            block_id.unwrap() as int,
                            rows1[block_id.unwrap() as int],
                        ));
                        crate::index::lemma_total_update(
                            rows0,
                            block_id.unwrap() as int,
                            rows0.update(
                                block_id.unwrap() as int,
                                rows1[block_id.unwrap() as int],
                            )[block_id.unwrap() as int],
                        );
                        crate::index::lemma_total_prefix_agree(
                            rows1,
                            rows0.update(
                                block_id.unwrap() as int,
                                rows1[block_id.unwrap() as int],
                            ),
                            rows1.len() as int,
                        );
                    } else {
                        assert(rows1 =~= rows0.push(rows1[rows1.len() - 1]));
                        crate::index::lemma_total_push(rows0, rows1[rows1.len() - 1]);
                        crate::index::lemma_total_prefix_agree(
                            rows1,
                            rows0.push(rows1[rows1.len() - 1]),
                            rows1.len() as int,
                        );
                    }
                    assert(total_ext(rows1) == total + buffer@.len());
                    assert(rows1[id as int].external == Some((offset, length)));
                    assert(offset == total as u64);
                    assert(ext_end(rows1, id as int) == total + buffer@.len());
                    assert forall|i: int| #[trigger]
                        is_ext(rows1, i) implies ext_end(rows1, i) <= self.bytes().len() by {
                        if i == id as int {
                            assert(ext_end(rows1, i) == total + buffer@.len());
                        } else {
                            assert(rows1[i] == rows0[i]);
                            assert(is_ext(rows0, i));
                            assert(ext_end(rows0, i) <= old(self).bytes().len());
                        }
                    }
                    assert forall|cid: u32| #[trigger]
                        self.cached().contains_key(cid) implies is_ext(rows1, cid as int)
                        && rows1[cid as int].external == Some(self.cached()[cid]) by {
                        assert(old(self).cached().contains_key(cid));
                        assert(is_ext(rows0, cid as int));
                    }
                }
                Ok(id)
            },
            Err(e) => Err(e),
        }
    }
}

/// The bytes that appending buffers `bufs[0] .. bufs[n-1]` in order leaves
/// in an initially empty log.
pub open spec fn cat_prefix(bufs: Seq<Seq<u8>>, n: int) -> Seq<u8>
    decreases n,
{
    if n <= 0 {
        Seq::empty()
    } else {
        cat_prefix(bufs, n - 1) + bufs[n - 1]
    }
}

pub proof fn lemma_cat_prefix_len_monotone(bufs: Seq<Seq<u8>>, m: int, n: int)
    requires
        0 <= m <= n,
    ensures
        cat_prefix(bufs, m).len() <= cat_prefix(bufs, n).len(),
    decreases n,
{
    if m < n {
        lemma_cat_prefix_len_monotone(bufs, m, n - 1);
    }
}

/// Append/read round-trip: in a log holding the buffers `bufs[0] ..
/// bufs[n-1]` appended in order, buffer `i` begins at the sum of the
/// lengths of the buffers before it — exactly the offset `store_trie_blob`
/// returns, whose contract supplies the inductive step — and reading its
/// length's worth of bytes there returns that buffer byte-for-byte.
pub proof fn lemma_append_read_round_trip(bufs: Seq<Seq<u8>>, i: int, n: int)
    requires
        0 <= i < n <= bufs.len(),
    ensures
        cat_prefix(bufs, i).len() + bufs[i].len() <= cat_prefix(bufs, n).len(),
        cat_prefix(bufs, n).subrange(
            cat_prefix(bufs, i).len() as int,
            cat_prefix(bufs, i).len() as int + bufs[i].len() as int,
        ) == bufs[i],
    decreases n,
{
    if n == i + 1 {
        assert(cat_prefix(bufs, n) == cat_prefix(bufs, i) + bufs[i]);
        assert(cat_prefix(bufs, n).subrange(
            cat_prefix(bufs, i).len() as int,
            cat_prefix(bufs, i).len() as int + bufs[i].len() as int,
        ) =~= bufs[i]);
    } else {
        lemma_append_read_round_trip(bufs, i, n - 1);
        assert(cat_prefix(bufs, n) == cat_prefix(bufs, n - 1) + bufs[n - 1]);
        assert(cat_prefix(bufs, n).subrange(
            cat_prefix(bufs, i).len() as int,
            cat_prefix(bufs, i).len() as int + bufs[i].len() as int,
        ) =~= cat_prefix(bufs, n - 1).subrange(
            cat_prefix(bufs, i).len() as int,
            cat_prefix(bufs, i).len() as int + bufs[i].len() as int,
        ));
    }
}

/// Is row `i` a confirmed snapshot — one the root enumeration must cover?
pub open spec fn confirmed_row(rows: Seq<crate::index::TrieRecord>, i: int) -> bool {
    0 <= i < rows.len() && !rows[i].unconfirmed
}

/// Number of confirmed rows below `n`.
pub open spec fn roots_before(rows: Seq<crate::index::TrieRecord>, n: int) -> int
    decreases n,
{
    if n <= 0 {
        0
    } else {
        roots_before(rows, n - 1) + if confirmed_row(rows, n - 1) {
            1int
        } else {
            0int
        }
    }
}

pub proof fn lemma_roots_before_monotone(rows: Seq<crate::index::TrieRecord>, m: int, n: int)
    requires
        0 <= m <= n,
    ensures
        roots_before(rows, m) <= roots_before(rows, n),
    decreases n,
{
    if m < n {
        lemma_roots_before_monotone(rows, m, n - 1);
    }
}

/// Every position below the confirmed count is some confirmed row's
/// position in the enumeration.
pub proof fn lemma_roots_before_inverse(rows: Seq<crate::index::TrieRecord>, n: int, k: int)
    requires
        n <= rows.len(),
        0 <= k < roots_before(rows, n),
    ensures
        exists|j: int|
            0 <= j < n && #[trigger] confirmed_row(rows, j) && roots_before(rows, j) == k,
    decreases n,
{
    if n > 0 {
        if confirmed_row(rows, n - 1) && roots_before(rows, n - 1) == k {
            assert(0 <= n - 1 < n && confirmed_row(rows, n - 1) && roots_before(rows, n - 1)
                == k);
        } else {
            lemma_roots_before_inverse(rows, n - 1, k);
        }
    }
}

/// Can the roots of all confirmed snapshots be read: is every confirmed row
/// externally stored, with room for a root hash at `root_ptr`?
pub open spec fn roots_readable(rows: Seq<crate::index::TrieRecord>, root_ptr: int) -> bool {
    forall|i: int|
        #[trigger] confirmed_row(rows, i) ==> rows[i].external is Some && root_ptr
            + TRIEHASH_ENCODED_SIZE <= rows[i].external.unwrap().1
}

/// Is `(hash, bh)` the enumeration entry of row `i`: its block hash, and
/// the fixed-width hash read at its base offset plus `root_ptr`?
pub open spec fn root_entry_of(
    bytes: Seq<u8>,
    rows: Seq<crate::index::TrieRecord>,
    root_ptr: int,
    i: int,
    hash: Seq<u8>,
    bh: Seq<u8>,
) -> bool {
    &&& confirmed_row(rows, i)
    &&& rows[i].external is Some
    &&& bh == rows[i].block_hash@
    &&& hash == bytes.subrange(
        ext_start(rows, i) + root_ptr,
        ext_start(rows, i) + root_ptr + TRIEHASH_ENCODED_SIZE,
    )
}

/// Does `v` list row `i`'s enumeration entry somewhere?
pub open spec fn entry_listed(
    bytes: Seq<u8>,
    rows: Seq<crate::index::TrieRecord>,
    root_ptr: int,
    v: Seq<(TrieHash, BlockHeaderHash)>,
    i: int,
) -> bool {
    exists|k: int|
        0 <= k < v.len() && root_entry_of(bytes, rows, root_ptr, i, (v[k].0)@, (v[k].1)@)
}

/// Is position `k` of `v` the enumeration entry of some row?
pub open spec fn entry_from_row(
    bytes: Seq<u8>,
    rows: Seq<crate::index::TrieRecord>,
    root_ptr: int,
    v: Seq<(TrieHash, BlockHeaderHash)>,
    k: int,
) -> bool {
    exists|j: int| root_entry_of(bytes, rows, root_ptr, j, (v[k].0)@, (v[k].1)@)
}

/// A permuted sequence holds every value the original holds.
proof fn lemma_perm_value(
    a: Seq<(TrieHash, BlockHeaderHash)>,
    b: Seq<(TrieHash, BlockHeaderHash)>,
    p: (TrieHash, BlockHeaderHash),
)
    requires
        a.to_multiset() == b.to_multiset(),
        a.contains(p),
    ensures
        b.contains(p),
{
    assert(a.to_multiset().contains(p));
    assert(b.to_multiset().contains(p));
}

/// Sort enumeration pairs ascending by block hash, keeping exactly the
/// same multiset of pairs.
fn sort_root_pairs(v: &mut Vec<(TrieHash, BlockHeaderHash)>)
    ensures
        final(v)@.len() == old(v)@.len(),
        final(v)@.to_multiset() == old(v)@.to_multiset(),
        forall|k: int, l: int|
            0 <= k < l < final(v)@.len() ==> bytes_le((final(v)@[k].1)@, (final(v)@[l].1)@),
{
    let mut i: usize = 1;
    while i < v.len()
        invariant
            1 <= i,
            v@.len() == old(v)@.len(),
            v@.to_multiset() == old(v)@.to_multiset(),
            forall|a: int, b: int| 0 <= a < b < i && b < v@.len() ==> bytes_le(
                (v@[a].1)@,
                (v@[b].1)@,
            ),
        decreases v@.len() - i,
    {
        let ghost before = v@;
        let x = v.remove(i);
        let mut p: usize = 0;
        while p < i && bytes_le_exec(&v[p].1 .0, &x.1 .0)
            invariant
                p <= i,
                i < before.len(),
                v@ == before.remove(i as int),
                forall|q: int| 0 <= q < p ==> bytes_le((v@[q].1)@, (x.1)@),
            decreases i - p,
        {
            p = p + 1;
        }
        proof {
            if p < i {
                crate::node::lemma_bytes_le_total((before.remove(i as int)[p as int].1)@, (x.1)@);
            }
        }
        v.insert(p, x);
        proof {
            assert(before.remove(i as int).to_multiset() =~= before.to_multiset().remove(
                before[i as int],
            ));
            assert(v@.to_multiset() =~= before.to_multiset());
            let s = before.remove(i as int);
            assert forall|a: int, b: int|
                0 <= a < b < i + 1 && b < v@.len() implies bytes_le((v@[a].1)@, (v@[b].1)@) by {
                if a < p && b < p {
                    assert(v@[a] == s[a] && v@[b] == s[b]);
                } else if a < p && b == p as int {
                    assert(v@[a] == s[a] && v@[b] == x);
                } else if a < p && b > p {
                    assert(v@[a] == s[a] && v@[b] == s[b - 1]);
                } else if a == p as int && b > p {
                    assert(v@[a] == x && v@[b] == s[b - 1]);
                    assert(bytes_le((x.1)@, (s[p as int].1)@));
                    if b - 1 > p as int {
                        assert(bytes_le((s[p as int].1)@, (s[b - 1].1)@));
                        crate::node::lemma_bytes_le_trans(
                            (x.1)@,
                            (s[p as int].1)@,
                            (s[b - 1].1)@,
                        );
                    }
                } else {
                    assert(v@[a] == s[a - 1] && v@[b] == s[b - 1]);
                }
            }
        }
        i = i + 1;
    }
}

/// Reordering the enumeration pairs changes neither which rows are
/// represented nor which entries appear: both directions of the
/// row-to-entry correspondence survive any permutation.
proof fn lemma_entries_transfer(
    bytes: Seq<u8>,
    rows: Seq<crate::index::TrieRecord>,
    root_ptr: int,
    a: Seq<(TrieHash, BlockHeaderHash)>,
    b: Seq<(TrieHash, BlockHeaderHash)>,
)
    requires
        a.to_multiset() == b.to_multiset(),
        forall|i2: int|
            #[trigger] confirmed_row(rows, i2) ==> entry_listed(bytes, rows, root_ptr, a, i2),
        forall|k: int| 0 <= k < a.len() ==> #[trigger] entry_from_row(bytes, rows, root_ptr, a, k),
    ensures
        forall|i2: int|
            #[trigger] confirmed_row(rows, i2) ==> entry_listed(bytes, rows, root_ptr, b, i2),
        forall|k: int| 0 <= k < b.len() ==> #[trigger] entry_from_row(bytes, rows, root_ptr, b, k),
{
    assert forall|i2: int| #[trigger] confirmed_row(rows, i2) implies entry_listed(
        bytes,
        rows,
        root_ptr,
        b,
        i2,
    ) by {
        assert(entry_listed(bytes, rows, root_ptr, a, i2));
        let k0 = choose|k0: int|
            0 <= k0 < a.len() && root_entry_of(bytes, rows, root_ptr, i2, (a[k0].0)@, (a[k0].1)@);
        lemma_perm_value(a, b, a[k0]);
        let k = choose|k: int| 0 <= k < b.len() && b[k] == a[k0];
        assert(root_entry_of(bytes, rows, root_ptr, i2, (b[k].0)@, (b[k].1)@));
    }
    assert forall|k: int| 0 <= k < b.len() implies #[trigger] entry_from_row(
        bytes,
        rows,
        root_ptr,
        b,
        k,
    ) by {
        assert(b.contains(b[k]));
        lemma_perm_value(b, a, b[k]);
        let k0 = choose|k0: int| 0 <= k0 < a.len() && a[k0] == b[k];
        assert(entry_from_row(bytes, rows, root_ptr, a, k0));
        let j = choose|j: int| root_entry_of(bytes, rows, root_ptr, j, (a[k0].0)@, (a[k0].1)@);
        assert(root_entry_of(bytes, rows, root_ptr, j, (b[k].0)@, (b[k].1)@));
    }
}

impl TrieFileRAM {
    /// Every confirmed snapshot's root hash, paired with its block hash,
    /// ordered ascending by block hash.  Each trie's root node sits at a
    /// fixed pointer inside its snapshot; the trie layer supplies that
    /// pointer as `root_ptr`.  A confirmed snapshot that is still inline,
    /// or too short to hold a root hash at that pointer, is an unexpected
    /// state for this enumeration and aborts it as `Corruption` — never a
    /// silent omission.
    pub fn read_all_block_hashes_and_roots(&self, db: &MetaIndex, root_ptr: u32) -> (r: Result<
        Vec<(TrieHash, BlockHeaderHash)>,
        StoreError,
    >)
        requires
            consistent(*self, *db),
        ensures
            (r is Ok) <==> roots_readable(db.rows@, root_ptr as int),
            r is Err ==> r.unwrap_err() == StoreError::Corruption,
            r is Ok ==> {
                let v = r.unwrap()@;
                &&& v.len() == roots_before(db.rows@, db.rows@.len() as int)
                &&& forall|k: int, l: int| 0 <= k < l < v.len() ==> bytes_le((v[k].1)@, (v[l].1)@)
                &&& forall|i: int|
                    #[trigger] confirmed_row(db.rows@, i) ==> entry_listed(
                        self.bytes(),
                        db.rows@,
                        root_ptr as int,
                        v,
                        i,
                    )
                &&& forall|k: int|
                    0 <= k < v.len() ==> #[trigger] entry_from_row(
                        self.bytes(),
                        db.rows@,
                        root_ptr as int,
                        v,
                        k,
                    )
            },
    {
        let n = db.count_blocks();
        let mut out: Vec<(TrieHash, BlockHeaderHash)> = Vec::new();
        let mut i: u32 = 0;
        while i < n
            invariant
                consistent(*self, *db),
                n == db.rows@.len(),
                i <= n,
                out@.len() == roots_before(db.rows@, i as int),
                forall|j: int|
                    0 <= j < i && #[trigger] confirmed_row(db.rows@, j) ==> {
                        &&& db.rows@[j].external is Some
                        &&& root_ptr + TRIEHASH_ENCODED_SIZE <= db.rows@[j].external.unwrap().1
                        &&& root_entry_of(
                            self.bytes(),
                            db.rows@,
                            root_ptr as int,
                            j,
                            (out@[roots_before(db.rows@, j)].0)@,
                            (out@[roots_before(db.rows@, j)].1)@,
                        )
                    },
            decreases n - i,
        {
            let unconfirmed = match db.is_unconfirmed_block(i) {
                Ok(u) => u,
                Err(_) => {
                    proof {
                        assert(false);
                    }
                    return Err(StoreError::Corruption);
                },
            };
            if !unconfirmed {
                let (offset, length) = match db.get_external_trie_offset_length(i) {
                    Ok(p) => p,
                    Err(_) => {
                        proof {
                            assert(confirmed_row(db.rows@, i as int));
                            assert(!roots_readable(db.rows@, root_ptr as int));
                        }
                        return Err(StoreError::Corruption);
                    },
                };
                if (root_ptr as u64) + (TRIEHASH_ENCODED_SIZE as u64) > length {
                    proof {
                        assert(confirmed_row(db.rows@, i as int));
                        assert(!roots_readable(db.rows@, root_ptr as int));
                    }
                    return Err(StoreError::Corruption);
                }
                proof {
                    assert(self.fd.len() == self.fd@.len());
                    assert(is_ext(db.rows@, i as int));
                    assert(ext_end(db.rows@, i as int) <= self.bytes().len());
                }
                let hash = match self.read_at(offset + (root_ptr as u64), TRIEHASH_ENCODED_SIZE) {
                    Ok(b) => TrieHash(b),
                    Err(_) => {
                        proof {
                            assert(false);
                        }
                        return Err(StoreError::Corruption);
                    },
                };
                let bhh = match db.get_block_hash(i) {
                    Ok(h) => h,
                    Err(_) => {
                        proof {
                            assert(false);
                        }
                        return Err(StoreError::Corruption);
                    },
                };
                let ghost before = out@;
                out.push((hash, bhh));
                proof {
                    assert forall|j: int|
                        0 <= j < i + 1 && #[trigger] confirmed_row(db.rows@, j) implies {
                        &&& db.rows@[j].external is Some
                        &&& root_ptr + TRIEHASH_ENCODED_SIZE <= db.rows@[j].external.unwrap().1
                        &&& root_entry_of(
                            self.bytes(),
                            db.rows@,
                            root_ptr as int,
                            j,
                            (out@[roots_before(db.rows@, j)].0)@,
                            (out@[roots_before(db.rows@, j)].1)@,
                        )
                    } by {
                        if j < i as int {
                            lemma_roots_before_monotone(db.rows@, 0, j);
                            lemma_roots_before_monotone(db.rows@, j + 1, i as int);
                            assert(0 <= roots_before(db.rows@, j) < before.len());
                            assert(out@[roots_before(db.rows@, j)] == before[roots_before(
                                db.rows@,
                                j,
                            )]);
                        } else {
                            assert(roots_before(db.rows@, j) == before.len());
                        }
                    }
                }
            }
            i = i + 1;
        }
        let ghost pre_sort = out@;
        proof {
            assert(roots_readable(db.rows@, root_ptr as int));
            assert forall|i2: int| #[trigger] confirmed_row(db.rows@, i2) implies entry_listed(
                self.bytes(),
                db.rows@,
                root_ptr as int,
                pre_sort,
                i2,
            ) by {
                lemma_roots_before_monotone(db.rows@, 0, i2);
                lemma_roots_before_monotone(db.rows@, i2 + 1, db.rows@.len() as int);
                let k = roots_before(db.rows@, i2);
                assert(0 <= k < pre_sort.len());
                assert(root_entry_of(
                    self.bytes(),
                    db.rows@,
                    root_ptr as int,
                    i2,
                    (pre_sort[k].0)@,
                    (pre_sort[k].1)@,
                ));
            }
            assert forall|k: int| 0 <= k < pre_sort.len() implies #[trigger] entry_from_row(
                self.bytes(),
                db.rows@,
                root_ptr as int,
                pre_sort,
                k,
            ) by {
                lemma_roots_before_inverse(db.rows@, db.rows@.len() as int, k);
                let j = choose|j: int|
                    0 <= j < db.rows@.len() && #[trigger] confirmed_row(db.rows@, j)
                        && roots_before(db.rows@, j) == k;
                assert(root_entry_of(
                    self.bytes(),
                    db.rows@,
                    root_ptr as int,
                    j,
                    (pre_sort[k].0)@,
                    (pre_sort[k].1)@,
                ));
            }
        }
        sort_root_pairs(&mut out);
        proof {
            lemma_entries_transfer(
                self.bytes(),
                db.rows@,
                root_ptr as int,
                pre_sort,
                out@,
            );
        }
        Ok(out)
    }
}


/// Random-access reader of node hashes for one snapshot: holds the metadata
/// index, the blob log, and the snapshot identifier, and serves hash reads
/// by pointer without deserializing any sibling node.
pub struct TrieFileNodeHashReader<'a> {
    db: &'a MetaIndex,
    file: &'a TrieFileRAM,
    block_id: u32,
}

impl<'a> TrieFileNodeHashReader<'a> {
    pub closed spec fn spec_db(self) -> MetaIndex {
        *self.db
    }

    pub closed spec fn spec_file(self) -> TrieFileRAM {
        *self.file
    }

    pub closed spec fn spec_block_id(self) -> u32 {
        self.block_id
    }

    pub fn new(db: &'a MetaIndex, file: &'a TrieFileRAM, block_id: u32) -> (r:
        TrieFileNodeHashReader<'a>)
        ensures
            r.spec_db() == *db,
            r.spec_file() == *file,
            r.spec_block_id() == block_id,
    {
        TrieFileNodeHashReader { db, file, block_id }
    }

    /// The fixed-width hash of the node this pointer addresses, bounded by
    /// the snapshot's recorded length exactly as `get_node_hash_bytes`.
    pub fn read_node_hash_bytes(&self, ptr: &TriePtr) -> (r: Result<TrieHash, StoreError>)
        requires
            consistent(self.spec_file(), self.spec_db()),
        ensures
            ({
                let rows = self.spec_db().rows@;
                let id = self.spec_block_id() as int;
                &&& !is_ext(rows, id) ==> r == Err::<TrieHash, StoreError>(StoreError::NotFound)
                &&& is_ext(rows, id) ==> {
                    let off = ext_start(rows, id);
                    let len = rows[id].external.unwrap().1 as int;
                    &&& ptr.ptr + TRIEHASH_ENCODED_SIZE > len ==> r == Err::<TrieHash, StoreError>(
                        StoreError::Corruption,
                    )
                    &&& ptr.ptr + TRIEHASH_ENCODED_SIZE <= len ==> r is Ok && r.unwrap()@
                        == self.spec_file().bytes().subrange(
                        off + ptr.ptr,
                        off + ptr.ptr + TRIEHASH_ENCODED_SIZE,
                    )
                }
            }),
    {
        let (offset, length) = match self.db.get_external_trie_offset_length(self.block_id) {
            Ok(p) => p,
            Err(e) => { return Err(e) },
        };
        if (ptr.ptr() as u64) + (TRIEHASH_ENCODED_SIZE as u64) > length {
            return Err(StoreError::Corruption);
        }
        proof {
            assert(self.file.fd.len() == self.file.fd@.len());
            assert(is_ext(self.db.rows@, self.block_id as int));
            assert(ext_end(self.db.rows@, self.block_id as int) <= self.file.bytes().len());
        }
        match self.file.read_at(offset + (ptr.ptr() as u64), TRIEHASH_ENCODED_SIZE) {
            Ok(b) => Ok(TrieHash(b)),
            Err(e) => Err(e),
        }
    }
}

} // verus!

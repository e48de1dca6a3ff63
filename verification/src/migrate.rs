//! The migrator: a one-shot, resumable pass that copies every confirmed
//! snapshot still stored inline in the metadata index into the blob log,
//! replacing each row's inline bytes with its new `(offset, length)`.
//!
//! Unconfirmed snapshots are transient state and are never migrated; rows
//! that already carry an external offset were handled by an earlier,
//! interrupted run and are left alone — which is what makes re-running the
//! migration after a crash safe, and a second complete run a no-op.
//!
//! Unlike an ordinary append, migration writes each blob at the log's
//! physical end-of-stream and records that true write position: this pass
//! is precisely what re-establishes the index's bookkeeping from real
//! offsets, so here — and only here — the write position is not derived
//! from the index's total.  Bytes a crashed run left unreferenced are
//! simply left behind as waste; the re-run appends after them.

use vstd::prelude::*;

use crate::errors::StoreError;
use crate::index::{total_ext, MetaIndex, TrieRecord};
use crate::node::BlockHeaderHash;
use crate::storage::{consistent, ext_end, ext_start, is_ext, TrieFileRAM};

verus! {

/// What the migrator decides for one snapshot identifier.  Keeping the
/// skip reasons distinct from one another — and from failure — is part of
/// the design: a skipped row is expected, never an error.
pub enum MigrateStep {
    /// The identifier names no snapshot.
    SkipMissing,
    /// The snapshot is unconfirmed, in-flight state: not canonical history,
    /// never migrated.
    SkipUnconfirmed,
    /// The snapshot already lives in the blob log: an earlier run got here.
    SkipMigrated,
    /// Confirmed and still inline: append these bytes to the log, then
    /// record the offset for this snapshot (named by this block hash).
    Migrate(BlockHeaderHash, Vec<u8>),
}

/// Is row `i` due for migration: present, confirmed, and still inline?
pub open spec fn migratable(rows: Seq<TrieRecord>, i: int) -> bool {
    0 <= i < rows.len() && !rows[i].unconfirmed && rows[i].inline is Some
}

/// How many bytes migrating rows `[0, n)` in order appends to the log.
pub open spec fn mig_prefix(rows: Seq<TrieRecord>, n: int) -> int
    decreases n,
{
    if n <= 0 {
        0
    } else {
        mig_prefix(rows, n - 1) + if migratable(rows, n - 1) {
            rows[n - 1].inline.unwrap()@.len() as int
        } else {
            0
        }
    }
}

pub proof fn lemma_mig_prefix_nonneg(rows: Seq<TrieRecord>, n: int)
    ensures
        mig_prefix(rows, n) >= 0,
    decreases n,
{
    if n > 0 {
        lemma_mig_prefix_nonneg(rows, n - 1);
    }
}

pub proof fn lemma_mig_prefix_monotone(rows: Seq<TrieRecord>, m: int, n: int)
    requires
        0 <= m <= n,
    ensures
        mig_prefix(rows, m) <= mig_prefix(rows, n),
    decreases n,
{
    if m < n {
        lemma_mig_prefix_monotone(rows, m, n - 1);
    }
}

/// With nothing to migrate below `n`, migration appends nothing there.
pub proof fn lemma_mig_prefix_zero(rows: Seq<TrieRecord>, n: int)
    requires
        forall|i: int| 0 <= i < n ==> !migratable(rows, i),
    ensures
        mig_prefix(rows, n) == 0,
    decreases n,
{
    if n > 0 {
        lemma_mig_prefix_zero(rows, n - 1);
    }
}

/// Decide what to do with one snapshot identifier.  Skips are expected
/// outcomes, kept distinct from one another; only a confirmed, still-inline
/// snapshot yields its block hash and bytes for migration.
pub fn migrate_step(db: &MetaIndex, block_id: u32) -> (r: MigrateStep)
    requires
        db.wf(),
    ensures
        block_id >= db.rows@.len() ==> r is SkipMissing,
        (block_id < db.rows@.len() && db.rows@[block_id as int].unconfirmed) ==> r
            is SkipUnconfirmed,
        (block_id < db.rows@.len() && !db.rows@[block_id as int].unconfirmed && db.rows@[
            block_id as int
        ].inline is None) ==> r is SkipMigrated,
        migratable(db.rows@, block_id as int) ==> (r matches MigrateStep::Migrate(bhh, blob)
            && bhh@ == db.rows@[block_id as int].block_hash@ && blob@ == db.rows@[
            block_id as int
        ].inline.unwrap()@),
{
    match db.is_unconfirmed_block(block_id) {
        Err(_) => MigrateStep::SkipMissing,
        Ok(true) => MigrateStep::SkipUnconfirmed,
        Ok(false) => {
            match db.open_trie_blob(block_id) {
                Err(_) => MigrateStep::SkipMigrated,
                Ok(blob) => {
                    match db.get_block_hash(block_id) {
                        Ok(bhh) => MigrateStep::Migrate(bhh, blob),
                        Err(_) => MigrateStep::SkipMissing,
                    }
                },
            }
        },
    }
}

impl TrieFileRAM {
    /// Migrate every confirmed, still-inline snapshot into the blob log,
    /// in identifier order, recording each snapshot's new `(offset, length)`
    /// in the metadata index and leaving unconfirmed snapshots untouched.
    ///
    /// Each blob is written at the log's physical end-of-stream at the
    /// moment of the write, and that true position is recorded — migration
    /// re-establishes the index from write positions rather than from the
    /// index-total rule ordinary appends follow.  On success the migrated
    /// snapshots sit back to back after the log's old physical end, each
    /// readable byte-for-byte at its recorded range; rows not due for
    /// migration are unchanged, and if nothing was due, the log and the
    /// index are exactly as they were.  Success is owed whenever the handle
    /// is writable and the migrated bytes fit the address space; on the
    /// only other failure the already-migrated prefix remains recorded and
    /// valid, so the migration can simply be re-run.
    pub fn export_trie_blobs(&mut self, db: &mut MetaIndex) -> (r: Result<(), StoreError>)
        requires
            consistent(*old(self), *old(db)),
        ensures
            consistent(*final(self), *final(db)),
            final(self).is_readonly() == old(self).is_readonly(),
            final(self).cached() == old(self).cached(),
            final(db).rows@.len() == old(db).rows@.len(),
            final(self).bytes().subrange(0, old(self).bytes().len() as int) == old(self).bytes(),
            old(self).is_readonly() <==> r == Err::<(), StoreError>(StoreError::ReadOnly),
            old(self).is_readonly() ==> final(self).bytes() == old(self).bytes() && *final(db)
                == *old(db),
            r is Err ==> r.unwrap_err() == StoreError::ReadOnly || r.unwrap_err()
                == StoreError::SizeOverflow,
            (!old(self).is_readonly() && old(self).bytes().len() + mig_prefix(
                old(db).rows@,
                old(db).rows@.len() as int,
            ) <= usize::MAX) ==> r is Ok,
            forall|i: int|
                0 <= i < old(db).rows@.len() && !migratable(old(db).rows@, i)
                    ==> final(db).rows@[i] == old(db).rows@[i],
            r is Ok ==> {
                let rows0 = old(db).rows@;
                let base = old(self).bytes().len() as int;
                &&& forall|i: int|
                    #[trigger] migratable(rows0, i) ==> {
                        let off = base + mig_prefix(rows0, i);
                        let len = rows0[i].inline.unwrap()@.len() as int;
                        &&& final(db).rows@[i].external == Some((off as u64, len as u64))
                        &&& final(db).rows@[i].inline is None
                        &&& final(db).rows@[i].block_hash == rows0[i].block_hash
                        &&& final(db).rows@[i].unconfirmed == rows0[i].unconfirmed
                        &&& final(self).bytes().subrange(off, off + len) == rows0[
                            i
                        ].inline.unwrap()@
                    }
                &&& total_ext(final(db).rows@) == total_ext(rows0) + mig_prefix(
                    rows0,
                    rows0.len() as int,
                )
                &&& final(self).bytes().len() == base + mig_prefix(rows0, rows0.len() as int)
            },
            r is Ok ==> ((forall|i: int|
                0 <= i < old(db).rows@.len() ==> !migratable(old(db).rows@, i))
                ==> (final(db).rows@ == old(db).rows@ && final(self).bytes() == old(
                self,
            ).bytes())),
            r is Err ==> forall|i: int|
                0 <= i < old(db).rows@.len() ==> (final(db).rows@[i] == old(db).rows@[i] || (
                #[trigger] migratable(old(db).rows@, i) && {
                    let off = old(self).bytes().len() + mig_prefix(old(db).rows@, i);
                    let len = old(db).rows@[i].inline.unwrap()@.len() as int;
                    &&& final(db).rows@[i].external == Some((off as u64, len as u64))
                    &&& final(db).rows@[i].inline is None
                    &&& final(db).rows@[i].block_hash == old(db).rows@[i].block_hash
                    &&& final(db).rows@[i].unconfirmed == old(db).rows@[i].unconfirmed
                    &&& final(self).bytes().subrange(off, off + len) == old(db).rows@[
                        i
                    ].inline.unwrap()@
                })),
    {
        if self.readonly() {
            proof {
                assert(self.bytes().subrange(0, self.bytes().len() as int) =~= self.bytes());
            }
            return Err(StoreError::ReadOnly);
        }
        let max_block = db.count_blocks();
        let ghost rows0 = old(db).rows@;
        let ghost total0 = total_ext(rows0);
        let ghost len0 = old(self).bytes().len() as int;
        proof {
            crate::index::lemma_total_prefix_nonneg(rows0, rows0.len() as int);
        }
        let mut block_id: u32 = 0;
        while block_id < max_block
            invariant
                consistent(*self, *db),
                !self.is_readonly(),
                old(self).is_readonly() == false,
                self.cached() == old(self).cached(),
                max_block == rows0.len(),
                rows0 == old(db).rows@,
                total0 == total_ext(rows0),
                len0 == old(self).bytes().len() as int,
                0 <= total0 <= len0,
                block_id <= max_block,
                db.rows@.len() == rows0.len(),
                total_ext(db.rows@) == total0 + mig_prefix(rows0, block_id as int),
                self.bytes().len() == len0 + mig_prefix(rows0, block_id as int),
                self.bytes().subrange(0, len0) == old(self).bytes(),
                (forall|i: int| 0 <= i < block_id ==> !migratable(rows0, i)) ==> (self.bytes()
                    == old(self).bytes() && db.rows@ == rows0),
                forall|i: int|
                    0 <= i < rows0.len() && !(0 <= i < block_id && migratable(rows0, i))
                        ==> db.rows@[i] == rows0[i],
                forall|i: int|
                    0 <= i < block_id && #[trigger] migratable(rows0, i) ==> {
                        let off = len0 + mig_prefix(rows0, i);
                        let len = rows0[i].inline.unwrap()@.len() as int;
                        &&& db.rows@[i].external == Some((off as u64, len as u64))
                        &&& db.rows@[i].inline is None
                        &&& db.rows@[i].block_hash == rows0[i].block_hash
                        &&& db.rows@[i].unconfirmed == rows0[i].unconfirmed
                        &&& self.bytes().subrange(off, off + len) == rows0[i].inline.unwrap()@
                    },
            decreases rows0.len() - block_id,
        {
            match migrate_step(db, block_id) {
                MigrateStep::SkipMissing => {},
                MigrateStep::SkipUnconfirmed => {},
                MigrateStep::SkipMigrated => {},
                MigrateStep::Migrate(bhh, blob) => {
                    proof {
                        assert(migratable(rows0, block_id as int));
                        lemma_mig_prefix_nonneg(rows0, block_id as int);
                        self.lemma_bytes_len_bound();
                    }
                    self.seek_end();
                    let offset = self.stream_position();
                    let n: usize = blob.len();
                    let ghost pre_log = self.bytes();
                    let ghost pre_rows = db.rows@;
                    match self.write(blob.as_slice()) {
                        Ok(_) => {},
                        Err(e) => {
                            proof {
                                assert(e == StoreError::SizeOverflow);
                                assert(mig_prefix(rows0, block_id as int + 1) == mig_prefix(
                                    rows0,
                                    block_id as int,
                                ) + n);
                                lemma_mig_prefix_monotone(
                                    rows0,
                                    block_id as int + 1,
                                    rows0.len() as int,
                                );
                                assert(len0 + mig_prefix(rows0, rows0.len() as int) > usize::MAX);
                            }
                            return Err(e);
                        },
                    }
                    self.flush();
                    proof {
                        assert(self.bytes() =~= pre_log + blob@);
                        assert(self.bytes().subrange(0, pre_log.len() as int) =~= pre_log);
                        assert(self.bytes().subrange(
                            pre_log.len() as int,
                            pre_log.len() as int + blob@.len() as int,
                        ) =~= blob@);
                        assert(db.rows@[block_id as int] == rows0[block_id as int]);
                        assert(crate::index::rec_wf(db.rows@[block_id as int]));
                        assert(db.rows@[block_id as int].external is None);
                    }
                    match db.write_external_trie_blob(&bhh, offset, n as u64, Some(block_id)) {
                        Ok(_) => {},
                        Err(e) => {
                            proof {
                                assert(false);
                            }
                            return Err(e);
                        },
                    }
                    proof {
                        let rows1 = db.rows@;
                        let id = block_id as int;
                        crate::index::lemma_total_update(pre_rows, id, rows1[id]);
                        assert(rows1 =~= pre_rows.update(id, rows1[id]));
                        crate::index::lemma_total_prefix_agree(
                            rows1,
                            pre_rows.update(id, rows1[id]),
                            rows1.len() as int,
                        );
                        assert(total_ext(rows1) == total_ext(pre_rows) + n);
                        assert(mig_prefix(rows0, id + 1) == mig_prefix(rows0, id) + n);
                        assert forall|i: int| #[trigger]
                            is_ext(rows1, i) implies ext_end(rows1, i) <= self.bytes().len() by {
                            if i == id {
                                assert(ext_end(rows1, i) == offset + n);
                            } else {
                                assert(rows1[i] == pre_rows[i]);
                                assert(is_ext(pre_rows, i));
                                assert(ext_end(pre_rows, i) <= pre_log.len());
                            }
                        }
                        assert forall|cid: u32| #[trigger]
                            self.cached().contains_key(cid) implies is_ext(rows1, cid as int)
                            && rows1[cid as int].external == Some(self.cached()[cid]) by {
                            assert(is_ext(pre_rows, cid as int));
                        }
                        assert(self.bytes().subrange(0, len0) =~= old(self).bytes());
                        assert forall|i: int|
                            0 <= i < block_id + 1 && #[trigger] migratable(rows0, i) implies {
                            let off = len0 + mig_prefix(rows0, i);
                            let len = rows0[i].inline.unwrap()@.len() as int;
                            &&& db.rows@[i].external == Some((off as u64, len as u64))
                            &&& db.rows@[i].inline is None
                            &&& db.rows@[i].block_hash == rows0[i].block_hash
                            &&& db.rows@[i].unconfirmed == rows0[i].unconfirmed
                            &&& self.bytes().subrange(off, off + len) == rows0[i].inline.unwrap()@
                        } by {
                            let off = len0 + mig_prefix(rows0, i);
                            let len = rows0[i].inline.unwrap()@.len() as int;
                            lemma_mig_prefix_nonneg(rows0, i);
                            if i < block_id as int {
                                assert(db.rows@[i] == pre_rows[i]);
                                assert(mig_prefix(rows0, i + 1) == mig_prefix(rows0, i) + len);
                                lemma_mig_prefix_monotone(rows0, i + 1, block_id as int);
                                assert(off + len <= pre_log.len());
                                assert(self.bytes().subrange(off, off + len) =~= pre_log.subrange(
                                    off,
                                    off + len,
                                ));
                            } else {
                                assert(i == block_id as int);
                                assert(off == offset as int);
                                assert(len == n as int);
                            }
                        }
                    }
                },
            }
            block_id = block_id + 1;
        }
        Ok(())
    }
}

} // verus!

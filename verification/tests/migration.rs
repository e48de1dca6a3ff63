use trie_blobs::index::MetaIndex;
use trie_blobs::migrate::MigrateStep;
use trie_blobs::node::BlockHeaderHash;
use trie_blobs::storage::TrieFileRAM;

fn bhh(tag: u8) -> BlockHeaderHash {
    BlockHeaderHash(vec![tag; 32])
}

fn blob_for(tag: u8, len: usize) -> Vec<u8> {
    (0..len).map(|i| tag.wrapping_add(i as u8)).collect()
}

#[test]
fn test_migration_completeness() {
    let mut db = MetaIndex::new();
    let mut blobs = TrieFileRAM::new(false);

    // three confirmed snapshots and two unconfirmed ones, all inline
    let confirmed = [0u8, 2, 4];
    let unconfirmed = [1u8, 3];
    for tag in 0..5u8 {
        let is_unconfirmed = tag % 2 == 1;
        db.write_trie_blob(&bhh(tag + 1), &blob_for(tag, 10 + tag as usize), is_unconfirmed)
            .unwrap();
    }

    blobs.export_trie_blobs(&mut db).unwrap();

    // exactly the confirmed snapshots carry an external range now, and each
    // reads back byte-for-byte
    for &tag in confirmed.iter() {
        let id = db.get_block_identifier(&bhh(tag + 1)).unwrap();
        let (_, length) = db.get_external_trie_offset_length(id).unwrap();
        assert_eq!(length as usize, 10 + tag as usize);
        assert_eq!(blobs.read_trie_blob(&db, id).unwrap(), blob_for(tag, 10 + tag as usize));
        assert!(db.open_trie_blob(id).is_err());
    }
    // the unconfirmed ones are untouched: still inline, no external range
    for &tag in unconfirmed.iter() {
        let id = db.get_block_identifier(&bhh(tag + 1)).unwrap();
        assert!(db.get_external_trie_offset_length(id).is_err());
        assert_eq!(db.open_trie_blob(id).unwrap(), blob_for(tag, 10 + tag as usize));
        assert!(db.is_unconfirmed_block(id).unwrap());
    }
}

#[test]
fn test_migration_idempotent_on_resume() {
    let mut db = MetaIndex::new();
    let mut blobs = TrieFileRAM::new(false);

    for tag in 0..4u8 {
        db.write_trie_blob(&bhh(tag + 1), &blob_for(tag, 16), false).unwrap();
    }
    blobs.export_trie_blobs(&mut db).unwrap();

    let offsets_before: Vec<(u64, u64)> = (0..4u32)
        .map(|id| db.get_external_trie_offset_length(id).unwrap())
        .collect();
    let log_end_before = blobs.seek_end();

    // re-running the migration appends nothing and changes no row
    blobs.export_trie_blobs(&mut db).unwrap();

    let offsets_after: Vec<(u64, u64)> = (0..4u32)
        .map(|id| db.get_external_trie_offset_length(id).unwrap())
        .collect();
    assert_eq!(offsets_before, offsets_after);
    assert_eq!(blobs.seek_end(), log_end_before);
}

#[test]
fn test_migrate_existing_trie_blobs() {
    // a store with 128 confirmed snapshots, each previously inline, migrated
    // in one pass
    let mut db = MetaIndex::new();
    let mut blobs = TrieFileRAM::new(false);

    let mut originals: Vec<Vec<u8>> = Vec::new();
    for i in 0..128u32 {
        let mut hash_bytes = vec![0u8; 32];
        hash_bytes[0..8].copy_from_slice(&(i as u64).to_be_bytes());
        let blob: Vec<u8> = (0..(32 + (i % 7) as usize)).map(|k| (i as u8).wrapping_add(k as u8)).collect();
        db.write_trie_blob(&BlockHeaderHash(hash_bytes), &blob, false).unwrap();
        originals.push(blob);
    }

    blobs.export_trie_blobs(&mut db).unwrap();

    // the external ranges, in identifier order, are strictly increasing,
    // non-overlapping, and cover [0, total) with no gaps
    let mut expected_offset: u64 = 0;
    for id in 0..128u32 {
        let (offset, length) = db.get_external_trie_offset_length(id).unwrap();
        assert_eq!(offset, expected_offset);
        assert_eq!(length as usize, originals[id as usize].len());
        assert_eq!(blobs.read_trie_blob(&db, id).unwrap(), originals[id as usize]);
        expected_offset += length;
    }
    assert_eq!(blobs.seek_end(), expected_offset);
    assert_eq!(db.get_external_blobs_length().unwrap(), expected_offset);
}

#[test]
fn test_migrate_step_classification() {
    let mut db = MetaIndex::new();
    let mut blobs = TrieFileRAM::new(false);

    db.write_trie_blob(&bhh(1), &[7, 8, 9], false).unwrap();
    db.write_trie_blob(&bhh(2), &[1, 1], true).unwrap();
    blobs.store_trie_blob(&mut db, &bhh(3), &[5, 5, 5], None).unwrap();

    match trie_blobs::migrate::migrate_step(&db, 0) {
        MigrateStep::Migrate(hash, blob) => {
            assert_eq!(hash.0, vec![1u8; 32]);
            assert_eq!(blob, vec![7, 8, 9]);
        },
        _ => panic!("a confirmed inline snapshot is due for migration"),
    }
    assert!(matches!(trie_blobs::migrate::migrate_step(&db, 1), MigrateStep::SkipUnconfirmed));
    assert!(matches!(trie_blobs::migrate::migrate_step(&db, 2), MigrateStep::SkipMigrated));
    assert!(matches!(trie_blobs::migrate::migrate_step(&db, 3), MigrateStep::SkipMissing));
}

#[test]
fn test_migration_after_appends() {
    // appends through the store and a later migration share one log: the
    // migrated snapshots land after the appended ones, and everything still
    // reads back
    let mut db = MetaIndex::new();
    let mut blobs = TrieFileRAM::new(false);

    let appended = blob_for(9, 20);
    let id_appended = blobs.store_trie_blob(&mut db, &bhh(9), &appended, None).unwrap();
    db.write_trie_blob(&bhh(1), &blob_for(1, 12), false).unwrap();

    blobs.export_trie_blobs(&mut db).unwrap();

    let id_migrated = db.get_block_identifier(&bhh(1)).unwrap();
    let (offset, length) = db.get_external_trie_offset_length(id_migrated).unwrap();
    assert_eq!(offset, 20);
    assert_eq!(length, 12);
    assert_eq!(blobs.read_trie_blob(&db, id_migrated).unwrap(), blob_for(1, 12));
    assert_eq!(blobs.read_trie_blob(&db, id_appended).unwrap(), appended);
}

#[test]
fn test_migration_resumes_over_orphaned_bytes() {
    // a crash between a blob write and its index update leaves unreferenced
    // trailing bytes in the log; migration appends after them, at the true
    // physical end-of-stream, and records that position
    let mut db = MetaIndex::new();
    let mut blobs = TrieFileRAM::new(false);

    let kept = blob_for(5, 8);
    let id_kept = blobs.store_trie_blob(&mut db, &bhh(5), &kept, None).unwrap();
    // an append whose index update never happened: orphaned bytes at [8, 24)
    blobs.append_trie_blob(&db, &blob_for(6, 16)).unwrap();
    assert_eq!(blobs.seek_end(), 24);

    // migration writes at the physical end (24) and records that offset
    db.write_trie_blob(&bhh(1), &blob_for(1, 10), false).unwrap();
    blobs.export_trie_blobs(&mut db).unwrap();

    let id = db.get_block_identifier(&bhh(1)).unwrap();
    let (offset, length) = db.get_external_trie_offset_length(id).unwrap();
    assert_eq!((offset, length), (24, 10));
    assert_eq!(blobs.seek_end(), 34);
    assert_eq!(blobs.read_trie_blob(&db, id).unwrap(), blob_for(1, 10));
    assert_eq!(blobs.read_trie_blob(&db, id_kept).unwrap(), kept);
    // the logical total counts only recorded lengths, never the waste
    assert_eq!(db.get_external_blobs_length().unwrap(), 18);
}

use trie_blobs::errors::StoreError;
use trie_blobs::index::MetaIndex;
use trie_blobs::node::{BlockHeaderHash, TriePtr};
use trie_blobs::storage::{TrieFileNodeHashReader, TrieFileRAM};
use trie_blobs::visit_diff;

fn bhh(tag: u8) -> BlockHeaderHash {
    BlockHeaderHash(vec![tag; 32])
}

#[test]
fn test_load_store_trie_blob() {
    let mut db = MetaIndex::new();
    let mut blobs = TrieFileRAM::new(false);

    blobs
        .store_trie_blob(&mut db, &BlockHeaderHash(vec![0x01; 32]), &[1, 2, 3, 4, 5], None)
        .unwrap();
    blobs
        .store_trie_blob(&mut db, &BlockHeaderHash(vec![0x02; 32]), &[10, 20, 30, 40, 50], None)
        .unwrap();

    let block_id = db.get_block_identifier(&BlockHeaderHash(vec![0x01; 32])).unwrap();
    assert_eq!(blobs.get_trie_offset(&db, block_id).unwrap(), 0);

    let buf = blobs.read_trie_blob(&db, block_id).unwrap();
    assert_eq!(buf, vec![1, 2, 3, 4, 5]);

    let block_id = db.get_block_identifier(&BlockHeaderHash(vec![0x02; 32])).unwrap();
    assert_eq!(blobs.get_trie_offset(&db, block_id).unwrap(), 5);

    let buf = blobs.read_trie_blob(&db, block_id).unwrap();
    assert_eq!(buf, vec![10, 20, 30, 40, 50]);
}

#[test]
fn test_append_offsets_and_reads() {
    let mut db = MetaIndex::new();
    let mut blobs = TrieFileRAM::new(false);

    let off1 = blobs.append_trie_blob(&db, &[1, 2, 3, 4, 5]).unwrap();
    db.write_external_trie_blob(&bhh(1), off1, 5, None).unwrap();
    let off2 = blobs.append_trie_blob(&db, &[10, 20, 30, 40, 50]).unwrap();
    db.write_external_trie_blob(&bhh(2), off2, 5, None).unwrap();

    assert_eq!(off1, 0);
    assert_eq!(off2, 5);
    assert_eq!(blobs.read_at(0, 5).unwrap(), vec![1, 2, 3, 4, 5]);
    assert_eq!(blobs.read_at(5, 5).unwrap(), vec![10, 20, 30, 40, 50]);
}

#[test]
fn test_offset_cache_survives_index() {
    let mut blobs = TrieFileRAM::new(false);
    let id;
    {
        let mut db = MetaIndex::new();
        id = blobs.store_trie_blob(&mut db, &bhh(7), &[9, 9, 9], None).unwrap();
        // first resolution populates the cache from the index
        assert_eq!(blobs.get_trie_offset(&db, id).unwrap(), 0);
        // second resolution returns the same offset
        assert_eq!(blobs.get_trie_offset(&db, id).unwrap(), 0);
        drop(db);
    }
    // the index is gone; the cached offset still answers, unchanged
    assert_eq!(blobs.cached_trie_offset(id), Some(0));
}

#[test]
fn test_uncached_resolution_is_not_offset_zero() {
    let db = MetaIndex::new();
    let mut blobs = TrieFileRAM::new(false);
    assert_eq!(blobs.get_trie_offset(&db, 0), Err(StoreError::NotFound));
    assert_eq!(blobs.cached_trie_offset(0), None);
}

#[test]
fn test_out_of_range_pointer_rejected() {
    let mut db = MetaIndex::new();
    let mut blobs = TrieFileRAM::new(false);

    // two adjacent snapshots of 40 bytes each
    let first: Vec<u8> = (0..40).collect();
    let second: Vec<u8> = (100..140).collect();
    let id1 = blobs.store_trie_blob(&mut db, &bhh(1), &first, None).unwrap();
    let id2 = blobs.store_trie_blob(&mut db, &bhh(2), &second, None).unwrap();

    // a hash read needs 32 bytes: relative offset 20 would run past byte 40,
    // into the second snapshot, and must be rejected instead
    let bad = TriePtr::new(0, 0, 20);
    assert!(matches!(
        blobs.get_node_hash_bytes(&db, id1, &bad),
        Err(StoreError::Corruption)
    ));
    assert!(matches!(
        blobs.get_node_hash_bytes_by_bhh(&db, &bhh(1), &bad),
        Err(StoreError::Corruption)
    ));
    assert!(matches!(blobs.read_node_type(&db, id1, &bad), Err(StoreError::Corruption)));

    // in range: exactly the snapshot's own bytes come back
    let good = TriePtr::new(0, 0, 8);
    let hash = blobs.get_node_hash_bytes(&db, id1, &good).unwrap();
    assert_eq!(hash.0, first[8..40].to_vec());
    let hash2 = blobs.get_node_hash_bytes(&db, id2, &good).unwrap();
    assert_eq!(hash2.0, second[8..40].to_vec());
}

#[test]
fn test_read_node_type_regions() {
    let mut db = MetaIndex::new();
    let mut blobs = TrieFileRAM::new(false);

    let blob: Vec<u8> = (0..64).collect();
    let id = blobs.store_trie_blob(&mut db, &bhh(3), &blob, None).unwrap();

    let ptr = TriePtr::new(4, 0, 16);
    let (node, hash) = blobs.read_node_type(&db, id, &ptr).unwrap();
    assert_eq!(hash.0, blob[16..48].to_vec());
    assert_eq!(node.id, 4);
    assert_eq!(node.bytes, blob[48..64].to_vec());

    // the hashless variant returns exactly the same node, skipping the hash
    let node = blobs.read_node_type_nohash(&db, id, &ptr).unwrap();
    assert_eq!(node.bytes, blob[48..64].to_vec());

    let no_room = TriePtr::new(4, 0, 40);
    assert!(matches!(
        blobs.read_node_type_nohash(&db, id, &no_room),
        Err(StoreError::Corruption)
    ));
}

#[test]
fn test_node_hash_reader() {
    let mut db = MetaIndex::new();
    let mut blobs = TrieFileRAM::new(false);

    let blob: Vec<u8> = (10..74).collect();
    let id = blobs.store_trie_blob(&mut db, &bhh(4), &blob, None).unwrap();

    let reader = TrieFileNodeHashReader::new(&db, &blobs, id);
    let hash = reader.read_node_hash_bytes(&TriePtr::new(0, 0, 0)).unwrap();
    assert_eq!(hash.0, blob[0..32].to_vec());
    assert!(matches!(
        reader.read_node_hash_bytes(&TriePtr::new(0, 0, 33)),
        Err(StoreError::Corruption)
    ));
}

#[test]
fn test_read_only_store_refuses_writes() {
    let mut db = MetaIndex::new();
    let mut blobs = TrieFileRAM::new(true);
    assert_eq!(
        blobs.store_trie_blob(&mut db, &bhh(1), &[1, 2, 3], None),
        Err(StoreError::ReadOnly)
    );
    assert_eq!(blobs.export_trie_blobs(&mut db), Err(StoreError::ReadOnly));
    assert_eq!(db.count_blocks(), 0);
}

#[test]
fn test_snapshots_are_immutable() {
    let mut db = MetaIndex::new();
    let mut blobs = TrieFileRAM::new(false);

    let id = blobs.store_trie_blob(&mut db, &bhh(1), &[1, 2, 3], None).unwrap();
    // storing again under the same hash is refused
    assert_eq!(
        blobs.store_trie_blob(&mut db, &bhh(1), &[4, 5, 6], None),
        Err(StoreError::Corruption)
    );
    // re-pointing a committed snapshot is refused
    assert_eq!(
        blobs.store_trie_blob(&mut db, &bhh(1), &[4, 5, 6], Some(id)),
        Err(StoreError::Corruption)
    );
    assert_eq!(blobs.read_trie_blob(&db, id).unwrap(), vec![1, 2, 3]);
}

#[test]
fn test_read_all_block_hashes_and_roots() {
    let mut db = MetaIndex::new();
    let mut blobs = TrieFileRAM::new(false);

    // stored in descending hash order: the enumeration re-sorts ascending
    let first: Vec<u8> = (0..40).collect();
    let second: Vec<u8> = (50..90).collect();
    blobs.store_trie_blob(&mut db, &bhh(2), &first, None).unwrap();
    blobs.store_trie_blob(&mut db, &bhh(1), &second, None).unwrap();

    let pairs = blobs.read_all_block_hashes_and_roots(&db, 4).unwrap();
    assert_eq!(pairs.len(), 2);
    assert_eq!(pairs[0].1 .0, vec![1u8; 32]);
    assert_eq!(pairs[0].0 .0, second[4..36].to_vec());
    assert_eq!(pairs[1].1 .0, vec![2u8; 32]);
    assert_eq!(pairs[1].0 .0, first[4..36].to_vec());

    // a snapshot too short for a root hash at that pointer is corrupt
    assert_eq!(
        blobs.read_all_block_hashes_and_roots(&db, 30).unwrap_err(),
        StoreError::Corruption
    );

    // a confirmed snapshot that is still inline is an unexpected state for
    // this enumeration: loud, never silently omitted
    db.write_trie_blob(&bhh(3), &[1, 2, 3], false).unwrap();
    assert_eq!(
        blobs.read_all_block_hashes_and_roots(&db, 4).unwrap_err(),
        StoreError::Corruption
    );

    // an unconfirmed inline snapshot, by contrast, is simply not enumerated
    let mut db2 = MetaIndex::new();
    let mut blobs2 = TrieFileRAM::new(false);
    blobs2.store_trie_blob(&mut db2, &bhh(1), &first, None).unwrap();
    db2.write_trie_blob(&bhh(9), &[1, 2, 3], true).unwrap();
    assert_eq!(blobs2.read_all_block_hashes_and_roots(&db2, 0).unwrap().len(), 1);
}

#[test]
fn test_size_overflow_rejected() {
    let mut db = MetaIndex::new();
    // an offset/length pair past the end of the address space is refused
    assert_eq!(
        db.write_external_trie_blob(&bhh(1), u64::MAX, 2, None),
        Err(StoreError::SizeOverflow)
    );
    assert_eq!(db.count_blocks(), 0);
}

#[test]
fn test_record_for_missing_identifier_rejected() {
    let mut db = MetaIndex::new();
    assert_eq!(
        db.write_external_trie_blob(&bhh(1), 0, 2, Some(5)),
        Err(StoreError::NotFound)
    );
}

#[test]
fn test_visit_diff() {
    assert!(!visit_diff(&42, &42));
    assert!(visit_diff(&42, &43));
}

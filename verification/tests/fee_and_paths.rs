use trie_blobs::fee::{block_estimate_from_rates, fee_rate, next_estimate, sort_fee_rates, FeeRateEstimate};
use trie_blobs::paths::{blob_storage_path, is_memory_path};

#[test]
fn test_sort_fee_rates() {
    let mut rates = vec![5u64, 1, 4, 1, 3];
    sort_fee_rates(&mut rates);
    assert_eq!(rates, vec![1, 1, 3, 4, 5]);

    let mut empty: Vec<u64> = vec![];
    sort_fee_rates(&mut empty);
    assert!(empty.is_empty());
}

#[test]
fn test_block_estimate_percentiles() {
    // twenty measurements: the 5th, 50th and 95th percentiles are the
    // second-lowest, the eleventh, and the highest
    let mut rates: Vec<u64> = (1..=20u64).collect();
    let e = block_estimate_from_rates(&mut rates).unwrap();
    assert_eq!(e.slow, 2);
    assert_eq!(e.medium, 11);
    assert_eq!(e.fast, 20);

    let mut single = vec![7u64];
    let e = block_estimate_from_rates(&mut single).unwrap();
    assert_eq!((e.slow, e.medium, e.fast), (7, 7, 7));

    let mut none: Vec<u64> = vec![];
    assert!(block_estimate_from_rates(&mut none).is_none());
}

#[test]
fn test_next_estimate_decay() {
    let prior = FeeRateEstimate { fast: 800, medium: 400, slow: 200 };
    let measured = FeeRateEstimate { fast: 400, medium: 200, slow: 100 };
    // decay 3/4: three quarters of the prior plus one quarter of the block
    let next = next_estimate(Some(&prior), &measured, 3, 4);
    assert_eq!(next, FeeRateEstimate { fast: 700, medium: 350, slow: 175 });

    // with no prior estimate the block's measurement stands
    let first = next_estimate(None, &measured, 3, 4);
    assert_eq!(first, measured);
}

#[test]
fn test_fee_rate_floors_cost_at_one() {
    assert_eq!(fee_rate(100, 0), 100);
    assert_eq!(fee_rate(100, 3), 33);
    assert_eq!(fee_rate(0, 5), 0);
}

#[test]
fn test_memory_path_sentinel() {
    assert!(is_memory_path(":memory:"));
    assert!(!is_memory_path("/tmp/marf.sqlite"));
    assert!(!is_memory_path(":memory"));
    assert!(!is_memory_path(""));
}

#[test]
fn test_blob_storage_path_convention() {
    assert_eq!(blob_storage_path("/data/marf.sqlite"), "/data/marf.sqlite.blobs");
    assert_eq!(blob_storage_path(""), ".blobs");
}

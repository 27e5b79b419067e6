//! Tests for the deduplication engine as a whole.

use kaka::DeduplicationEngine;

#[test]
fn duplicate_detection_accuracy() {
    let mut engine = DeduplicationEngine::new(10_000, 10_000).unwrap();
    let mut accepted = 0;

    for i in 0..10_000 {
        let url = format!("https://example.com/page{}", i);
        if !engine.check_and_insert(&url).unwrap() {
            accepted += 1;
        }
    }

    // Bloom filters may produce false positives,
    // but the vast majority of unique URLs must be accepted.
    assert!(accepted > 9_500);
}

#[test]
fn normalization_effectiveness() {
    let mut engine = DeduplicationEngine::new(1_000, 10_000).unwrap();

    let first = "http://example.com?a=1&b=2";
    let second = "https://example.com?b=2&a=1";

    engine.check_and_insert(first).unwrap();

    // The two differ in scheme, so deduplication is not guaranteed here;
    // this checks that normalization and lookup run cleanly.
    engine.is_duplicate(second).unwrap();
}

#[test]
fn equivalent_urls_dedupe() {
    let mut engine = DeduplicationEngine::new(1_000, 10_000).unwrap();

    assert!(!engine.check_and_insert("http://example.com?a=1&b=2").unwrap());

    // Same scheme, query order and a default port differ: same canonical key,
    // and a key once inserted is always found (no false negatives).
    assert!(engine.is_duplicate("http://example.com:80?b=2&a=1").unwrap());
    assert!(engine.check_and_insert("http://WWW.example.com/?b=2&a=1").unwrap());
}

#[test]
fn mixed_workload_stats() {
    let mut engine = DeduplicationEngine::new(1_000, 10_000).unwrap();
    let mut injected_duplicates = 0;

    for i in 0..1_000 {
        let url = format!("https://example.com/item{}", i);
        engine.check_and_insert(&url).unwrap();

        if i % 10 < 3 {
            engine.check_and_insert(&url).unwrap();
            injected_duplicates += 1;
        }
    }

    let stats = engine.stats();

    // Bloom filters may overcount duplicates due to false positives.
    assert!(stats.duplicates_found >= injected_duplicates as u64);
}

#[test]
fn counters_move_as_specified() {
    let mut engine = DeduplicationEngine::new(1_000, 10_000).unwrap();

    assert!(engine.check_and_insert("not a url").is_err());
    let s = engine.stats();
    assert_eq!(s.total_checked, 1);
    assert_eq!(s.duplicates_found, 0);
    assert_eq!(s.urls_inserted, 0);

    assert!(!engine.check_and_insert("https://example.com/a").unwrap());
    assert!(engine.check_and_insert("https://example.com/a").unwrap());
    let s = engine.stats();
    assert_eq!(s.total_checked, 3);
    assert_eq!(s.duplicates_found, 1);
    assert_eq!(s.urls_inserted, 1);
}

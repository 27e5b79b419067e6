//! Tests for the SimHash engine.

use kaka::errors::ConfigError;
use kaka::simhash::SimHash;
use kaka::simhash::SimHashEngine;

fn similarity(h1: SimHash, h2: SimHash) -> f64 {
    1.0 - (SimHashEngine::hamming_distance(h1, h2) as f64) / 64.0
}

#[test]
fn hash_consistency() {
    let engine = SimHashEngine::new(64).unwrap();
    let url = "https://example.com/page";

    let h1 = engine.compute_hash_from_url(url).unwrap();
    let h2 = engine.compute_hash_from_url(url).unwrap();

    assert_eq!(h1, h2);
}

#[test]
fn same_seeds_same_fingerprints() {
    let e1 = SimHashEngine::with_seeds(7, 11, 13, 17);
    let e2 = SimHashEngine::with_seeds(7, 11, 13, 17);
    let url = "https://example.com/page?a=1";

    assert_eq!(
        e1.compute_hash_from_url(url).unwrap(),
        e2.compute_hash_from_url(url).unwrap()
    );
}

#[test]
fn similarity_same_domain() {
    let engine = SimHashEngine::with_seeds(1, 2, 3, 4);

    let h1 = engine.compute_hash_from_url("https://example.com/page1").unwrap();
    let h2 = engine.compute_hash_from_url("https://example.com/page2").unwrap();

    assert!(similarity(h1, h2) > 0.9);
}

#[test]
fn similarity_different_domain() {
    let engine = SimHashEngine::with_seeds(1, 2, 3, 4);

    let h1 = engine.compute_hash_from_url("https://example.com/page").unwrap();
    let h2 = engine.compute_hash_from_url("https://other.com/page").unwrap();

    assert!(similarity(h1, h2) < 0.7);
}

#[test]
fn minor_query_change_high_similarity() {
    let engine = SimHashEngine::with_seeds(1, 2, 3, 4);

    let h1 = engine.compute_hash_from_url("https://example.com/article").unwrap();
    let h2 = engine.compute_hash_from_url("https://example.com/article?id=1").unwrap();

    assert!(similarity(h1, h2) > 0.95);
}

#[test]
fn edge_cases() {
    let engine = SimHashEngine::new(64).unwrap();

    engine.compute_hash_from_url("https://x.com").unwrap();
    engine.compute_hash_from_url("https://example.com/").unwrap();
    engine
        .compute_hash_from_url("https://example.com/very/long/path/with/data")
        .unwrap();
}

#[test]
fn only_64_bit_width_is_supported() {
    assert!(SimHashEngine::new(64).is_ok());
    assert!(matches!(
        SimHashEngine::new(32),
        Err(ConfigError::UnsupportedBitWidth)
    ));
    assert!(matches!(
        SimHashEngine::new(128),
        Err(ConfigError::UnsupportedBitWidth)
    ));
}

#[test]
fn invalid_url_fails_the_call() {
    let engine = SimHashEngine::new(64).unwrap();
    assert!(engine.compute_hash_from_url("not a url").is_err());
}

#[test]
fn hamming_distance_properties_on_values() {
    let a = SimHash(0b1011);
    let b = SimHash(0b0110);

    assert_eq!(SimHashEngine::hamming_distance(a, b), 3);
    assert_eq!(SimHashEngine::hamming_distance(b, a), 3);
    assert_eq!(SimHashEngine::hamming_distance(a, a), 0);
    assert_eq!(
        SimHashEngine::hamming_distance(SimHash(0), SimHash(u64::MAX)),
        64
    );
    assert!((similarity(a, a) - 1.0).abs() < 1e-12);
    assert!((similarity(a, b) - similarity(b, a)).abs() < 1e-12);
}

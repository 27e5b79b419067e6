//! Tests for the Bloom filter.

use kaka::bloom::BloomFilter;
use kaka::errors::ConfigError;

#[test]
fn basic_insertion_and_lookup() {
    let mut bloom = BloomFilter::new(1000, 10_000).unwrap();

    for i in 0..1000 {
        bloom.insert(&format!("https://example.com/{}", i));
    }

    for i in 0..1000 {
        assert!(bloom.contains(&format!("https://example.com/{}", i)));
    }
}

#[test]
fn false_positive_rate_within_expected_bounds() {
    let mut bloom = BloomFilter::new(10_000, 10_000).unwrap();

    for i in 0..10_000 {
        bloom.insert(&format!("https://example.com/{}", i));
    }

    for i in 0..10_000 {
        assert!(bloom.contains(&format!("https://example.com/{}", i)));
    }

    let trials = 100_000;
    let mut false_positives = 0;

    for i in 10_000..(10_000 + trials) {
        if bloom.contains(&format!("https://example.com/{}", i)) {
            false_positives += 1;
        }
    }

    let measured_fp = false_positives as f64 / trials as f64;
    assert!(measured_fp <= 0.011);
}

#[test]
fn edge_cases_are_handled() {
    let mut bloom = BloomFilter::new(100, 10_000).unwrap();

    bloom.insert("");
    bloom.insert(&"a".repeat(3000));
    bloom.insert("https://例え.テスト");

    assert!(bloom.contains(""));
    assert!(bloom.contains(&"a".repeat(3000)));
    assert!(bloom.contains("https://例え.テスト"));
}

#[test]
fn no_false_negatives_on_varied_keys() {
    let mut bloom = BloomFilter::new(1000, 10_000).unwrap();
    let keys = [
        "",
        "a",
        "https://example.com/",
        "https://example.com/?a=1",
        "path/only",
        "ümlaut",
        "https://example.com/very/long/path/with/many/segments",
    ];

    for key in keys {
        bloom.insert(key);
    }

    for key in keys {
        assert!(bloom.contains(key), "false negative for {}", key);
    }
}

#[test]
fn fresh_filter_contains_nothing() {
    let bloom = BloomFilter::new(1000, 10_000).unwrap();

    assert!(!bloom.contains("https://example.com/"));
    assert!(!bloom.contains(""));
}

#[test]
fn construction_rejects_misuse() {
    assert!(matches!(
        BloomFilter::new(0, 10_000),
        Err(ConfigError::ZeroCapacity)
    ));
    assert!(matches!(
        BloomFilter::new(100, 0),
        Err(ConfigError::RateOutOfRange)
    ));
    assert!(matches!(
        BloomFilter::new(100, 1_000_000),
        Err(ConfigError::RateOutOfRange)
    ));
}

#[test]
fn sizing_matches_formulas() {
    // m = ceil(-n * ln(p) / (ln 2)^2) and k = ceil((m / n) * ln 2); the
    // fixed-point logarithm can shift the first ceiling by a few bits.
    let bloom = BloomFilter::new(10_000, 10_000).unwrap();
    let ln2 = std::f64::consts::LN_2;
    let m_expected = (-(10_000f64) * 0.01f64.ln() / (ln2 * ln2)).ceil();
    let m = bloom.bit_count();
    assert!((m as f64 - m_expected).abs() <= 20.0);
    let k_expected = ((m as f64 / 10_000f64) * ln2).ceil() as u32;
    assert_eq!(bloom.hash_count(), k_expected);
    assert_eq!(bloom.hash_count(), 7);
    assert_eq!(bloom.items_inserted(), 0);
}

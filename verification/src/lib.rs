//! URL deduplication core for large-scale web crawlers.
//!
//! Three subsystems decide which URLs in a stream are new and which are
//! duplicates of URLs already observed, without storing the URLs themselves:
//!
//! * a URL normalizer that maps textually divergent but equivalent URLs to
//!   one canonical string ([`normalizer::UrlNormalizer`]),
//! * a Bloom filter over canonical strings with no false negatives and a
//!   tunable false-positive rate ([`bloom::BloomFilter`]),
//! * a SimHash engine that fingerprints URLs for near-duplicate queries by
//!   Hamming distance ([`simhash::SimHashEngine`]).
//!
//! [`DeduplicationEngine`] wires the normalizer and the Bloom filter into a
//! single `check_and_insert` operation and keeps advisory counters.

use vstd::prelude::*;

pub mod bitarray;
pub mod bloom;
pub mod chars;
pub mod errors;
pub mod hashing;
pub mod normalizer;
pub mod pairsort;
pub mod simhash;
pub mod urlparse;

use crate::bloom::bloom_bits;
use crate::bloom::bloom_hashes;
use crate::bloom::BloomFilter;
use crate::bloom::BloomView;
use crate::bloom::MAX_CAPACITY;
use crate::bloom::MILLION;
use crate::errors::ConfigError;
use crate::errors::ParseError;
use crate::normalizer::canonical_seq;
use crate::normalizer::default_config;
use crate::normalizer::default_tracking;
use crate::normalizer::NormView;
use crate::normalizer::UrlNormalizer;
use crate::urlparse::url_host;
use crate::urlparse::url_parses;

verus! {

/// Deduplication engine: normalizes each incoming URL and keeps its
/// canonical form in a Bloom filter, counting checks, duplicates and
/// inserts.
pub struct DeduplicationEngine {
    bloom: BloomFilter,
    normalizer: UrlNormalizer,
    total_checked: u64,
    duplicates_found: u64,
    urls_inserted: u64,
}

/// Mathematical view of a [`DeduplicationEngine`].
pub struct EngineView {
    /// The Bloom filter's view.
    pub bloom: BloomView,
    /// The normalizer's view.
    pub norm: NormView,
    /// URLs handed to `check_and_insert`.
    pub total_checked: u64,
    /// Checks that found the canonical key already present.
    pub duplicates_found: u64,
    /// Keys newly inserted.
    pub urls_inserted: u64,
}

impl View for DeduplicationEngine {
    type V = EngineView;

    closed spec fn view(&self) -> EngineView {
        EngineView {
            bloom: self.bloom@,
            norm: self.normalizer@,
            total_checked: self.total_checked,
            duplicates_found: self.duplicates_found,
            urls_inserted: self.urls_inserted,
        }
    }
}

/// Immutable snapshot of engine statistics. The three counters are read
/// independently; under concurrent use the snapshot need not be a
/// consistent cross-counter instant.
#[derive(Debug, Clone, Copy, PartialEq, Eq, Structural)]
pub struct EngineStatsSnapshot {
    /// URLs handed to `check_and_insert`.
    pub total_checked: u64,
    /// Checks that found the canonical key already present.
    pub duplicates_found: u64,
    /// Keys newly inserted.
    pub urls_inserted: u64,
}

impl DeduplicationEngine {
    /// Builds an engine for `capacity` expected unique URLs and a Bloom
    /// false-positive target of `fp_rate_ppm` parts per million, with the
    /// default normalizer.
    ///
    /// Fails exactly as [`BloomFilter::new`] does; the fresh engine holds no
    /// key and every counter is zero.
    pub fn new(capacity: usize, fp_rate_ppm: u32) -> (r: Result<DeduplicationEngine, ConfigError>)
        requires
            capacity <= MAX_CAPACITY,
        ensures
            r is Ok <==> (capacity >= 1 && 1 <= fp_rate_ppm < MILLION),
            capacity == 0 ==> r == Err::<DeduplicationEngine, ConfigError>(
                ConfigError::ZeroCapacity,
            ),
            capacity >= 1 && !(1 <= fp_rate_ppm < MILLION) ==> r == Err::<
                DeduplicationEngine,
                ConfigError,
            >(ConfigError::RateOutOfRange),
            r matches Ok(e) ==> {
                &&& e@.bloom.wf()
                &&& e@.bloom.num_hashes == bloom_hashes(capacity, fp_rate_ppm)
                &&& e@.bloom.bits.len() == bloom_bits(capacity, fp_rate_ppm)
                &&& e@.bloom.inserted == 0
                &&& forall|j: int| 0 <= j < e@.bloom.bits.len() ==> !e@.bloom.bits[j]
                &&& e@.norm.config == default_config()
                &&& e@.norm.tracking == default_tracking()
                &&& e@.norm.rules.len() == 0
                &&& e@.total_checked == 0
                &&& e@.duplicates_found == 0
                &&& e@.urls_inserted == 0
            },
    {
        let bloom = match BloomFilter::new(capacity, fp_rate_ppm) {
            Ok(b) => b,
            Err(e) => {
                return Err(e);
            },
        };
        Ok(
            DeduplicationEngine {
                bloom,
                normalizer: UrlNormalizer::new(),
                total_checked: 0,
                duplicates_found: 0,
                urls_inserted: 0,
            },
        )
    }

    /// Normalizes, checks and inserts a URL: `Ok(true)` when the canonical
    /// key was already present (a duplicate), `Ok(false)` when it was new
    /// and has now been inserted.
    ///
    /// `total_checked` always moves by one. On a parse failure the error is
    /// returned and nothing else changes; on a duplicate only
    /// `duplicates_found` moves and the filter is untouched; on a new key
    /// the key's positions are set and `urls_inserted` moves.
    pub fn check_and_insert(&mut self, url: &str) -> (r: Result<bool, ParseError>)
        requires
            old(self)@.bloom.wf(),
            old(self)@.total_checked < u64::MAX,
            old(self)@.duplicates_found < u64::MAX,
            old(self)@.urls_inserted < u64::MAX,
            old(self)@.bloom.inserted < u64::MAX,
        ensures
            final(self)@.bloom.wf(),
            final(self)@.norm == old(self)@.norm,
            final(self)@.total_checked == old(self)@.total_checked + 1,
            r is Ok <==> (url_parses(url@) && url_host(url@) is Some),
            !url_parses(url@) ==> r == Err::<bool, ParseError>(ParseError::Syntax),
            url_parses(url@) && url_host(url@) is None ==> r == Err::<bool, ParseError>(
                ParseError::MissingHost,
            ),
            r is Err ==> {
                &&& final(self)@.bloom == old(self)@.bloom
                &&& final(self)@.duplicates_found == old(self)@.duplicates_found
                &&& final(self)@.urls_inserted == old(self)@.urls_inserted
            },
            r matches Ok(dup) ==> {
                let key = canonical_seq(old(self)@.norm, url@);
                &&& dup == old(self)@.bloom.has_key(key)
                &&& final(self)@.bloom.has_key(key)
                &&& (dup ==> {
                    &&& final(self)@.bloom == old(self)@.bloom
                    &&& final(self)@.duplicates_found == old(self)@.duplicates_found + 1
                    &&& final(self)@.urls_inserted == old(self)@.urls_inserted
                })
                &&& (!dup ==> {
                    &&& final(self)@.bloom.same_shape(old(self)@.bloom)
                    &&& final(self)@.bloom.inserted == old(self)@.bloom.inserted + 1
                    &&& forall|j: int|
                        0 <= j < final(self)@.bloom.bits.len() ==> final(self)@.bloom.bits[j] == (
                        old(self)@.bloom.bits[j] || exists|i: int|
                            0 <= i < old(self)@.bloom.num_hashes && #[trigger] old(
                                self,
                            )@.bloom.position(key, i) == j)
                    &&& final(self)@.duplicates_found == old(self)@.duplicates_found
                    &&& final(self)@.urls_inserted == old(self)@.urls_inserted + 1
                })
            },
    {
        self.total_checked = self.total_checked + 1;
        let normalized = match self.normalizer.normalize(url) {
            Ok(c) => c,
            Err(e) => {
                return Err(e);
            },
        };
        if self.bloom.contains(normalized.as_str()) {
            self.duplicates_found = self.duplicates_found + 1;
            Ok(true)
        } else {
            self.bloom.insert(normalized.as_str());
            self.urls_inserted = self.urls_inserted + 1;
            Ok(false)
        }
    }

    /// Is the URL's canonical key already in the filter? A pure lookup: no
    /// mutation, no counter movement.
    pub fn is_duplicate(&self, url: &str) -> (r: Result<bool, ParseError>)
        requires
            self@.bloom.wf(),
        ensures
            r is Ok <==> (url_parses(url@) && url_host(url@) is Some),
            !url_parses(url@) ==> r == Err::<bool, ParseError>(ParseError::Syntax),
            url_parses(url@) && url_host(url@) is None ==> r == Err::<bool, ParseError>(
                ParseError::MissingHost,
            ),
            r matches Ok(dup) ==> dup == self@.bloom.has_key(canonical_seq(self@.norm, url@)),
    {
        let normalized = match self.normalizer.normalize(url) {
            Ok(c) => c,
            Err(e) => {
                return Err(e);
            },
        };
        Ok(self.bloom.contains(normalized.as_str()))
    }

    /// Reads the three counters.
    pub fn stats(&self) -> (s: EngineStatsSnapshot)
        ensures
            s.total_checked == self@.total_checked,
            s.duplicates_found == self@.duplicates_found,
            s.urls_inserted == self@.urls_inserted,
    {
        EngineStatsSnapshot {
            total_checked: self.total_checked,
            duplicates_found: self.duplicates_found,
            urls_inserted: self.urls_inserted,
        }
    }

    /// The underlying Bloom filter's bit count (`m`).
    pub fn bloom_bit_count(&self) -> (r: usize)
        ensures
            r == self@.bloom.bits.len(),
    {
        self.bloom.bit_count()
    }

    /// The underlying Bloom filter's hash count (`k`).
    pub fn bloom_hash_count(&self) -> (r: u32)
        ensures
            r == self@.bloom.num_hashes,
    {
        self.bloom.hash_count()
    }

    /// How many keys the underlying Bloom filter has taken.
    pub fn bloom_items_inserted(&self) -> (r: u64)
        ensures
            r == self@.bloom.inserted,
    {
        self.bloom.items_inserted()
    }
}

} // verus!

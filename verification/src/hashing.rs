//! Trusted boundary around ahash's keyed hasher.
//!
//! Both the Bloom filter and the SimHash engine hash with `ahash`, keyed by
//! four 64-bit seeds drawn once per instance. With fixed seeds ahash is a
//! pure function of its input — `RandomState::with_seeds` documents that
//! equal seeds produce identical hashers — so each hash below is named by an
//! uninterpreted spec function of the seeds and the hashed value. Nothing is
//! assumed about the hash values themselves.

use std::hash::BuildHasher;
use std::hash::Hash;
use std::hash::Hasher;

use vstd::prelude::*;

verus! {

/// What ahash, keyed with the given seeds, returns for a string.
pub uninterp spec fn ahash_str(k0: u64, k1: u64, k2: u64, k3: u64, s: Seq<char>) -> u64;

/// What ahash, keyed with the given seeds, returns for one 64-bit value.
pub uninterp spec fn ahash_u64(k0: u64, k1: u64, k2: u64, k3: u64, x: u64) -> u64;

/// What ahash, keyed with the given seeds, returns for a three-character
/// window.
pub uninterp spec fn ahash_window(k0: u64, k1: u64, k2: u64, k3: u64, a: char, b: char, c: char) -> u64;

/// What ahash, keyed with the given seeds, returns for a key/value pair
/// hashed in sequence.
pub uninterp spec fn ahash_pair(k0: u64, k1: u64, k2: u64, k3: u64, k: Seq<char>, v: Seq<char>) -> u64;

/// Relies on `ahash::RandomState::new`: each call draws fresh random keys,
/// from which four seed words are derived. Nothing is promised of the
/// result.
#[verifier::external_body]
pub(crate) fn fresh_seeds() -> (u64, u64, u64, u64) {
    let st = ahash::RandomState::new();
    (st.hash_one(0u64), st.hash_one(1u64), st.hash_one(2u64), st.hash_one(3u64))
}

/// Relies on `ahash::RandomState::with_seeds` and `hash_one`: with fixed
/// seeds, the hash of a string depends on the seeds and the string alone.
#[verifier::external_body]
pub(crate) fn hash_str(k0: u64, k1: u64, k2: u64, k3: u64, s: &str) -> (r: u64)
    ensures
        r == ahash_str(k0, k1, k2, k3, s@),
{
    ahash::RandomState::with_seeds(k0, k1, k2, k3).hash_one(s)
}

/// Relies on `ahash::RandomState::with_seeds` and `hash_one`: with fixed
/// seeds, the hash of a 64-bit value depends on the seeds and the value
/// alone.
#[verifier::external_body]
pub(crate) fn hash_u64(k0: u64, k1: u64, k2: u64, k3: u64, x: u64) -> (r: u64)
    ensures
        r == ahash_u64(k0, k1, k2, k3, x),
{
    ahash::RandomState::with_seeds(k0, k1, k2, k3).hash_one(x)
}

/// Relies on `ahash::RandomState::with_seeds` and `hash_one`: with fixed
/// seeds, the hash of a three-character window depends on the seeds and the
/// characters alone.
#[verifier::external_body]
pub(crate) fn hash_window(k0: u64, k1: u64, k2: u64, k3: u64, a: char, b: char, c: char) -> (r:
    u64)
    ensures
        r == ahash_window(k0, k1, k2, k3, a, b, c),
{
    ahash::RandomState::with_seeds(k0, k1, k2, k3).hash_one([a, b, c])
}

/// Relies on `ahash::RandomState::with_seeds`, `build_hasher`, `Hash::hash`
/// and `Hasher::finish`: with fixed seeds, hashing a key and a value in
/// sequence depends on the seeds and the two character vectors alone.
#[verifier::external_body]
pub(crate) fn hash_pair(k0: u64, k1: u64, k2: u64, k3: u64, k: &Vec<char>, v: &Vec<char>) -> (r:
    u64)
    ensures
        r == ahash_pair(k0, k1, k2, k3, k@, v@),
{
    let mut h = ahash::RandomState::with_seeds(k0, k1, k2, k3).build_hasher();
    k.hash(&mut h);
    v.hash(&mut h);
    h.finish()
}

} // verus!

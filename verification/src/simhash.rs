//! SimHash fingerprinting for near-duplicate URL detection.
//!
//! A 64-bit locality-sensitive fingerprint of a URL, built from weighted
//! features of its parsed form: every three-character window of the domain
//! (weight 3), every three-character window of the path (weight `2 * (L - i)
//! / L` at offset `i`, so early path segments weigh more), and every decoded
//! query pair (weight 1). Each feature's keyed hash adds its weight to the
//! accumulator of every bit position where the hash has a one, and subtracts
//! it where it has a zero; bit `b` of the fingerprint is set exactly when
//! accumulator `b` ends positive.
//!
//! Fingerprints from one engine are deterministic; engines with different
//! seeds produce incomparable fingerprints, so one engine must serve an
//! entire corpus.

use vstd::arithmetic::power2::lemma2_to64;
use vstd::arithmetic::power2::lemma_pow2_adds;
use vstd::arithmetic::power2::lemma_pow2_pos;
use vstd::arithmetic::power2::lemma_pow2_strictly_increases;
use vstd::arithmetic::power2::pow2;
use vstd::prelude::*;

use crate::errors::ConfigError;
use crate::errors::ParseError;
use crate::hashing::ahash_pair;
use crate::hashing::ahash_window;
use crate::hashing::fresh_seeds;
use crate::hashing::hash_pair;
use crate::hashing::hash_window;
use crate::urlparse::parse_url;
use crate::urlparse::url_domain;
use crate::urlparse::url_pairs;
use crate::urlparse::url_parses;
use crate::urlparse::url_path;
use crate::urlparse::ParsedUrl;

verus! {

/// A 64-bit SimHash fingerprint. Equality is integer equality; distance is
/// the population count of the XOR.
#[derive(Debug, Copy, Clone, Eq, PartialEq, Structural)]
pub struct SimHash(pub u64);

/// SimHash engine: four hasher seed words drawn at construction. Features
/// are sliding windows of three characters.
pub struct SimHashEngine {
    k0: u64,
    k1: u64,
    k2: u64,
    k3: u64,
}

impl View for SimHashEngine {
    type V = (u64, u64, u64, u64);

    closed spec fn view(&self) -> (u64, u64, u64, u64) {
        (self.k0, self.k1, self.k2, self.k3)
    }
}

/// Is bit `b` of `h` one?
pub open spec fn bit_is_set(h: u64, b: int) -> bool {
    (h >> (b as u64)) & 1u64 == 1u64
}

/// The weighted features of a domain: one per three-character window, at
/// weight 3.
pub open spec fn domain_features(seeds: (u64, u64, u64, u64), d: Seq<char>) -> Seq<(u64, int)> {
    Seq::new(
        if d.len() >= 3 {
            (d.len() - 2) as nat
        } else {
            0
        },
        |i: int| (ahash_window(seeds.0, seeds.1, seeds.2, seeds.3, d[i], d[i + 1], d[i + 2]), 3),
    )
}

/// The weight of the path window at offset `i`: `2 * (L - i) / L` with `L`
/// the path length (at least one), integer division — 2 at the front of the
/// path, falling to 0 or 1 at the tail.
pub open spec fn path_weight(len: int, i: int) -> int {
    let l = if len >= 1 {
        len
    } else {
        1
    };
    2 * (l - i) / l
}

/// The weighted features of a path: one per three-character window, at the
/// position-dependent weight.
pub open spec fn path_features(seeds: (u64, u64, u64, u64), p: Seq<char>) -> Seq<(u64, int)> {
    Seq::new(
        if p.len() >= 3 {
            (p.len() - 2) as nat
        } else {
            0
        },
        |i: int|
            (
                ahash_window(seeds.0, seeds.1, seeds.2, seeds.3, p[i], p[i + 1], p[i + 2]),
                path_weight(p.len() as int, i),
            ),
    )
}

/// The weighted features of the decoded query pairs: one per pair, in
/// order, key and value hashed in sequence, at weight 1.
pub open spec fn query_features(
    seeds: (u64, u64, u64, u64),
    ps: Seq<(Seq<char>, Seq<char>)>,
) -> Seq<(u64, int)> {
    Seq::new(
        ps.len(),
        |i: int| (ahash_pair(seeds.0, seeds.1, seeds.2, seeds.3, ps[i].0, ps[i].1), 1),
    )
}

/// All weighted features of a parseable URL: domain windows, then path
/// windows, then query pairs.
pub open spec fn url_features(seeds: (u64, u64, u64, u64), s: Seq<char>) -> Seq<(u64, int)> {
    (match url_domain(s) {
        Some(d) => domain_features(seeds, d),
        None => Seq::empty(),
    }) + path_features(seeds, url_path(s)) + query_features(seeds, url_pairs(s))
}

/// The accumulator of bit `b` after all features: each feature adds its
/// weight where its hash has a one bit, and subtracts it where it has a
/// zero bit.
pub open spec fn acc_bit(feats: Seq<(u64, int)>, b: int) -> int
    decreases feats.len(),
{
    if feats.len() == 0 {
        0
    } else {
        acc_bit(feats.drop_last(), b) + (if bit_is_set(feats.last().0, b) {
            feats.last().1
        } else {
            -feats.last().1
        })
    }
}

/// The low `b` bits of the fingerprint: bit `b0` is set exactly when
/// accumulator `b0` is positive (an accumulator at zero leaves the bit
/// clear).
pub open spec fn simhash_value(feats: Seq<(u64, int)>, b: int) -> int
    decreases b,
{
    if b <= 0 {
        0
    } else {
        simhash_value(feats, b - 1) + (if acc_bit(feats, b - 1) > 0 {
            pow2((b - 1) as nat) as int
        } else {
            0
        })
    }
}

/// The fingerprint of a parseable URL under the given seeds.
pub open spec fn spec_simhash(seeds: (u64, u64, u64, u64), s: Seq<char>) -> int {
    simhash_value(url_features(seeds, s), 64)
}

/// The fingerprint's low `b` bits fit in `b` bits.
pub proof fn lemma_simhash_value_bound(feats: Seq<(u64, int)>, b: int)
    requires
        b >= 0,
    ensures
        0 <= simhash_value(feats, b) < pow2(b as nat),
    decreases b,
{
    if b == 0 {
        lemma_pow2_pos(0);
    } else {
        lemma_simhash_value_bound(feats, b - 1);
        lemma_pow2_adds((b - 1) as nat, 1);
        lemma2_to64();
        assert(pow2(b as nat) == pow2((b - 1) as nat) * 2);
    }
}

/// Accumulators bounded by the feature weights: with every weight in
/// `[0, 3]`, no accumulator strays past three per feature.
pub proof fn lemma_acc_bit_bound(feats: Seq<(u64, int)>, b: int)
    requires
        forall|i: int| 0 <= i < feats.len() ==> 0 <= (#[trigger] feats[i]).1 <= 3,
    ensures
        -3 * feats.len() <= acc_bit(feats, b) <= 3 * feats.len(),
    decreases feats.len(),
{
    if feats.len() > 0 {
        assert(forall|i: int|
            0 <= i < feats.drop_last().len() ==> (#[trigger] feats.drop_last()[i]) == feats[i]);
        lemma_acc_bit_bound(feats.drop_last(), b);
    }
}

/// Reading the fingerprint off a vector that matches the accumulators.
proof fn lemma_fin_congruent(acc: Seq<int>, feats: Seq<(u64, int)>, b: int)
    requires
        forall|b2: int| 0 <= b2 < b ==> acc[b2] == acc_bit(feats, b2),
        b <= acc.len(),
    ensures
        fin_value(acc, b) == simhash_value(feats, b),
    decreases b,
{
    if b > 0 {
        lemma_fin_congruent(acc, feats, b - 1);
    }
}

/// The low `b` bits of the fingerprint, read off an accumulator vector.
pub open spec fn fin_value(acc: Seq<int>, b: int) -> int
    decreases b,
{
    if b <= 0 {
        0
    } else {
        fin_value(acc, b - 1) + (if acc[b - 1] > 0 {
            pow2((b - 1) as nat) as int
        } else {
            0
        })
    }
}

/// Adds `w` to every accumulator whose bit of `h` is one, subtracts it from
/// every other.
fn accumulate(acc: &mut Vec<i128>, h: u64, w: i64)
    requires
        old(acc)@.len() == 64,
        0 <= w <= 3,
        forall|b: int|
            0 <= b < 64 ==> -0xA0000000000000000 <= (#[trigger] old(acc)@[b])
                <= 0xA0000000000000000,
    ensures
        final(acc)@.len() == 64,
        forall|b: int|
            0 <= b < 64 ==> final(acc)@[b] == old(acc)@[b] + (if bit_is_set(h, b) {
                w as int
            } else {
                -(w as int)
            }),
{
    let mut b: usize = 0;
    while b < 64
        invariant
            acc@.len() == 64,
            b <= 64,
            0 <= w <= 3,
            forall|b2: int|
                b <= b2 < 64 ==> -0xA0000000000000000 <= (#[trigger] acc@[b2])
                    <= 0xA0000000000000000,
            forall|b2: int|
                b <= b2 < 64 ==> (#[trigger] acc@[b2]) == old(acc)@[b2],
            forall|b2: int|
                0 <= b2 < b ==> (#[trigger] acc@[b2]) == old(acc)@[b2] + (if bit_is_set(h, b2) {
                    w as int
                } else {
                    -(w as int)
                }),
        decreases 64 - b,
    {
        let bit = (h >> (b as u64)) & 1;
        if bit == 1 {
            acc[b] = acc[b] + (w as i128);
        } else {
            acc[b] = acc[b] - (w as i128);
        }
        b = b + 1;
    }
}

/// Turns the accumulators into the fingerprint: bit `b` set exactly when
/// accumulator `b` is positive.
fn finalize(acc: &Vec<i128>) -> (out: u64)
    requires
        acc@.len() == 64,
    ensures
        out as int == fin_value(acc@.map_values(|x: i128| x as int), 64),
{
    let ghost accv = acc@.map_values(|x: i128| x as int);
    let mut out: u64 = 0;
    let mut b: usize = 0;
    proof {
        lemma2_to64();
    }
    while b < 64
        invariant
            acc@.len() == 64,
            accv == acc@.map_values(|x: i128| x as int),
            b <= 64,
            out as int == fin_value(accv, b as int),
            out < pow2(b as nat),
        decreases 64 - b,
    {
        proof {
            lemma_pow2_adds(b as nat, 1);
            lemma2_to64();
            if b < 63 {
                lemma_pow2_strictly_increases((b + 1) as nat, 64);
            }
            assert(pow2((b + 1) as nat) == pow2(b as nat) * 2);
        }
        if acc[b] > 0 {
            let bitval: u64 = 1u64 << (b as u64);
            proof {
                vstd::bits::lemma_u64_shl_is_mul(1u64, b as u64);
                assert(bitval == pow2(b as nat));
            }
            out = out + bitval;
        }
        b = b + 1;
    }
    proof {
        assert(out as int == fin_value(accv, 64));
    }
    out
}

/// One bit of `x >> n` at a time: the population count of the low `n`
/// shifts of `x`.
pub open spec fn popcount_rec(x: u64, n: nat) -> nat
    decreases n,
{
    if n == 0 {
        0
    } else {
        ((x & 1) as nat) + popcount_rec(x >> 1u64, (n - 1) as nat)
    }
}

/// The number of one bits in `x`.
pub open spec fn popcount64(x: u64) -> nat {
    popcount_rec(x, 64)
}

impl SimHashEngine {
    /// Builds a 64-bit SimHash engine; any other width fails with
    /// [`ConfigError::UnsupportedBitWidth`]. Seeds are drawn fresh, so the
    /// engine's fingerprints are comparable only with its own.
    pub fn new(bit_width: usize) -> (r: Result<SimHashEngine, ConfigError>)
        ensures
            r is Ok <==> bit_width == 64,
            bit_width != 64 ==> r == Err::<SimHashEngine, ConfigError>(
                ConfigError::UnsupportedBitWidth,
            ),
    {
        if bit_width != 64 {
            return Err(ConfigError::UnsupportedBitWidth);
        }
        let (k0, k1, k2, k3) = fresh_seeds();
        Ok(SimHashEngine { k0, k1, k2, k3 })
    }

    /// An engine with explicit seeds. Unlike [`SimHashEngine::new`], whose
    /// seeds are drawn fresh, two engines built with the same seeds
    /// fingerprint alike under the same build of the library (the keyed
    /// hasher does not promise stability across versions or platforms).
    pub fn with_seeds(k0: u64, k1: u64, k2: u64, k3: u64) -> (e: SimHashEngine)
        ensures
            e@ == (k0, k1, k2, k3),
    {
        SimHashEngine { k0, k1, k2, k3 }
    }

    /// Fingerprints a raw URL: exactly [`spec_simhash`] of the engine's
    /// seeds and the input. Fails with [`ParseError::Syntax`] exactly when
    /// the parser rejects the input.
    pub fn compute_hash_from_url(&self, input: &str) -> (r: Result<SimHash, ParseError>)
        ensures
            r is Ok <==> url_parses(input@),
            r matches Ok(h) ==> h.0 as int == spec_simhash(self@, input@),
            !url_parses(input@) ==> r == Err::<SimHash, ParseError>(ParseError::Syntax),
    {
        let p = match parse_url(input) {
            Some(p) => p,
            None => {
                return Err(ParseError::Syntax);
            },
        };
        let ghost seeds = self@;
        let mut acc: Vec<i128> = Vec::new();
        let mut z: usize = 0;
        while z < 64
            invariant
                acc@.len() == z,
                z <= 64,
                forall|b: int| 0 <= b < z ==> (#[trigger] acc@[b]) == 0,
            decreases 64 - z,
        {
            acc.push(0);
            z = z + 1;
        }
        let ghost mut feats: Seq<(u64, int)> = Seq::empty();
        proof {
            assert(forall|b: int| 0 <= b < 64 ==> acc_bit(feats, b) == 0);
        }
        // domain windows, weight 3
        match &p.domain {
            Some(d) => {
                let dn = d.len();
                if dn >= 3 {
                    let mut i: usize = 0;
                    while i < dn - 2
                        invariant
                            dn == d@.len(),
                            3 <= dn,
                            i <= dn - 2,
                            acc@.len() == 64,
                            seeds == self@,
                            feats =~= domain_features(seeds, d@).take(i as int),
                            feats.len() == i,
                            forall|fi: int| 0 <= fi < feats.len() ==> 0 <= (#[trigger] feats[fi]).1 <= 3,
                            forall|b: int| 0 <= b < 64 ==> (#[trigger] acc@[b]) == acc_bit(feats, b),
                        decreases dn - 2 - i,
                    {
                        let h = hash_window(self.k0, self.k1, self.k2, self.k3, d[i], d[i + 1], d[i + 2]);
                        proof {
                            lemma_acc_bit_bound(feats, 0);
                            assert forall|b: int| 0 <= b < 64 implies -0xA0000000000000000 <= (
                            #[trigger] acc@[b]) <= 0xA0000000000000000 by {
                                lemma_acc_bit_bound(feats, b);
                            }
                        }
                        accumulate(&mut acc, h, 3);
                        proof {
                            let f = (h, 3int);
                            let nf = feats.push(f);
                            assert(nf.drop_last() =~= feats);
                            assert forall|b: int| 0 <= b < 64 implies (#[trigger] acc@[b])
                                == acc_bit(nf, b) by {
                                assert(acc_bit(nf, b) == acc_bit(feats, b) + (if bit_is_set(h, b) {
                                    3int
                                } else {
                                    -3int
                                }));
                            }
                            feats = nf;
                            assert(feats =~= domain_features(seeds, d@).take(i + 1));
                        }
                        i = i + 1;
                    }
                    proof {
                        assert(feats =~= domain_features(seeds, d@));
                    }
                }
                proof {
                    if d@.len() < 3 {
                        assert(feats =~= domain_features(seeds, d@));
                    }
                }
            },
            None => {},
        }
        let ghost dom_feats = feats;
        proof {
            assert(dom_feats.len() <= 0xFFFFFFFFFFFFFFFF);
            assert(dom_feats =~= (match url_domain(input@) {
                Some(dd) => domain_features(seeds, dd),
                None => Seq::<(u64, int)>::empty(),
            }));
        }
        // path windows, position-weighted
        let plen = p.path.len();
        if plen >= 3 {
            let mut i: usize = 0;
            while i < plen - 2
                invariant
                    plen == p.path@.len(),
                    3 <= plen,
                    i <= plen - 2,
                    acc@.len() == 64,
                    seeds == self@,
                    dom_feats.len() <= 0xFFFFFFFFFFFFFFFF,
                    feats =~= dom_feats + path_features(seeds, p.path@).take(i as int),
                    feats.len() == dom_feats.len() + i,
                    forall|fi: int| 0 <= fi < feats.len() ==> 0 <= (#[trigger] feats[fi]).1 <= 3,
                    forall|b: int| 0 <= b < 64 ==> (#[trigger] acc@[b]) == acc_bit(feats, b),
                decreases plen - 2 - i,
            {
                let h = hash_window(
                    self.k0,
                    self.k1,
                    self.k2,
                    self.k3,
                    p.path[i],
                    p.path[i + 1],
                    p.path[i + 2],
                );
                let w128: u128 = 2 * ((plen - i) as u128) / (plen as u128);
                proof {
                    assert(w128 <= 2) by (nonlinear_arith)
                        requires
                            w128 as int == 2 * (plen - i) / (plen as int),
                            0 <= i,
                            i < plen,
                    ;
                    assert(w128 as int == path_weight(plen as int, i as int));
                }
                let w: i64 = w128 as i64;
                proof {
                    assert forall|b: int| 0 <= b < 64 implies -0xA0000000000000000 <= (
                    #[trigger] acc@[b]) <= 0xA0000000000000000 by {
                        lemma_acc_bit_bound(feats, b);
                    }
                }
                accumulate(&mut acc, h, w);
                proof {
                    let f = (h, w as int);
                    let nf = feats.push(f);
                    assert(nf.drop_last() =~= feats);
                    assert forall|b: int| 0 <= b < 64 implies (#[trigger] acc@[b]) == acc_bit(
                        nf,
                        b,
                    ) by {
                        assert(acc_bit(nf, b) == acc_bit(feats, b) + (if bit_is_set(h, b) {
                            w as int
                        } else {
                            -(w as int)
                        }));
                    }
                    feats = nf;
                    assert(path_features(seeds, p.path@)[i as int] == f);
                    assert(path_features(seeds, p.path@).take(i + 1) =~= path_features(
                        seeds,
                        p.path@,
                    ).take(i as int).push(f));
                    assert(feats =~= dom_feats + path_features(seeds, p.path@).take(i + 1));
                }
                i = i + 1;
            }
            proof {
                assert(path_features(seeds, p.path@).take((plen - 2) as int) =~= path_features(
                    seeds,
                    p.path@,
                ));
                assert(feats =~= dom_feats + path_features(seeds, p.path@));
            }
        } else {
            proof {
                assert(path_features(seeds, p.path@) =~= Seq::<(u64, int)>::empty());
                assert(feats =~= dom_feats + path_features(seeds, p.path@));
            }
        }
        let ghost dp_feats = feats;
        proof {
            assert(dp_feats.len() <= 2 * 0xFFFFFFFFFFFFFFFF);
        }
        // query pairs, weight 1
        let qn = p.pairs.len();
        let mut i: usize = 0;
        while i < qn
            invariant
                qn == p.pairs@.len(),
                i <= qn,
                acc@.len() == 64,
                seeds == self@,
                dp_feats.len() <= 2 * 0xFFFFFFFFFFFFFFFF,
                feats =~= dp_feats + query_features(seeds, crate::urlparse::pairs_view(p.pairs@)).take(
                    i as int,
                ),
                feats.len() == dp_feats.len() + i,
                forall|fi: int| 0 <= fi < feats.len() ==> 0 <= (#[trigger] feats[fi]).1 <= 3,
                forall|b: int| 0 <= b < 64 ==> (#[trigger] acc@[b]) == acc_bit(feats, b),
            decreases qn - i,
        {
            let h = hash_pair(self.k0, self.k1, self.k2, self.k3, &p.pairs[i].0, &p.pairs[i].1);
            proof {
                assert forall|b: int| 0 <= b < 64 implies -0xA0000000000000000 <= (
                #[trigger] acc@[b]) <= 0xA0000000000000000 by {
                    lemma_acc_bit_bound(feats, b);
                }
            }
            accumulate(&mut acc, h, 1);
            proof {
                let qv = crate::urlparse::pairs_view(p.pairs@);
                let f = (h, 1int);
                let nf = feats.push(f);
                assert(nf.drop_last() =~= feats);
                assert forall|b: int| 0 <= b < 64 implies (#[trigger] acc@[b]) == acc_bit(nf, b) by {
                    assert(acc_bit(nf, b) == acc_bit(feats, b) + (if bit_is_set(h, b) {
                        1int
                    } else {
                        -1int
                    }));
                }
                feats = nf;
                assert(qv[i as int] == (p.pairs@[i as int].0@, p.pairs@[i as int].1@));
                assert(query_features(seeds, qv)[i as int] == f);
                assert(query_features(seeds, qv).take(i + 1) =~= query_features(seeds, qv).take(
                    i as int,
                ).push(f));
                assert(feats =~= dp_feats + query_features(seeds, qv).take(i + 1));
            }
            i = i + 1;
        }
        proof {
            let qv = crate::urlparse::pairs_view(p.pairs@);
            assert(query_features(seeds, qv).take(qn as int) =~= query_features(seeds, qv));
            assert(feats =~= dp_feats + query_features(seeds, qv));
            assert(feats =~= url_features(seeds, input@));
        }
        let out = finalize(&acc);
        proof {
            let accv = acc@.map_values(|x: i128| x as int);
            assert(forall|b: int| 0 <= b < 64 ==> accv[b] == acc_bit(feats, b));
            lemma_fin_congruent(accv, feats, 64);
        }
        Ok(SimHash(out))
    }

    /// The number of differing bits between two fingerprints, at most 64.
    pub fn hamming_distance(h1: SimHash, h2: SimHash) -> (r: u32)
        ensures
            r == popcount64(h1.0 ^ h2.0),
            r <= 64,
    {
        let mut x = h1.0 ^ h2.0;
        let ghost orig = x;
        let mut count: u32 = 0;
        let mut i: u32 = 0;
        while i < 64
            invariant
                i <= 64,
                count <= i,
                popcount64(orig) == count + popcount_rec(x, (64 - i) as nat),
            decreases 64 - i,
        {
            let ghost oldx = x;
            proof {
                assert(x & 1u64 <= 1) by (bit_vector);
                assert(popcount_rec(oldx, (64 - i) as nat) == ((oldx & 1u64) as nat)
                    + popcount_rec(oldx >> 1u64, (63 - i) as nat));
            }
            count = count + ((x & 1) as u32);
            x = x >> 1u64;
            i = i + 1;
        }
        assert(popcount_rec(x, 0) == 0);
        count
    }
}

/// Hamming distance is symmetric: `a ^ b` and `b ^ a` are the same word.
pub proof fn lemma_hamming_symmetric(a: u64, b: u64)
    ensures
        popcount64(a ^ b) == popcount64(b ^ a),
{
    assert(a ^ b == b ^ a) by (bit_vector);
}

/// A fingerprint is at distance zero from itself: similarity one.
pub proof fn lemma_hamming_self_zero(a: u64)
    ensures
        popcount64(a ^ a) == 0,
{
    assert(a ^ a == 0u64) by (bit_vector);
    lemma_popcount_rec_of_zero(64);
}

/// Zero has no one bits, however many are counted.
proof fn lemma_popcount_rec_of_zero(n: nat)
    ensures
        popcount_rec(0u64, n) == 0,
    decreases n,
{
    if n > 0 {
        assert(0u64 >> 1u64 == 0u64) by (bit_vector);
        assert((0u64 & 1u64) == 0u64) by (bit_vector);
        lemma_popcount_rec_of_zero((n - 1) as nat);
    }
}

/// Distance zero means equality: similarity is exactly one only between
/// equal fingerprints.
pub proof fn lemma_hamming_zero_iff_eq(a: u64, b: u64)
    ensures
        (popcount64(a ^ b) == 0) <==> (a == b),
{
    if a == b {
        lemma_hamming_self_zero(a);
    }
    if popcount64(a ^ b) == 0 {
        lemma_popcount_zero_means_zero(a ^ b, 64);
        assert((a ^ b) == 0u64 ==> a == b) by (bit_vector);
    }
}

/// A word whose counted bits are all zero is zero, provided every one bit
/// lies among the counted ones.
proof fn lemma_popcount_zero_means_zero(x: u64, n: u64)
    requires
        n <= 64,
        n == 64 || x < (1u64 << n),
        popcount_rec(x, n as nat) == 0,
    ensures
        x == 0,
    decreases n,
{
    if n == 0 {
        assert(x < (1u64 << 0u64) ==> x == 0) by (bit_vector);
    } else {
        let x1 = x >> 1u64;
        assert((x & 1u64) == 0u64 && x != 0 ==> (x >> 1u64) != 0) by (bit_vector);
        assert(x >> 1u64 < (1u64 << 63u64)) by (bit_vector);
        if n < 64 {
            assert(x < (1u64 << n) ==> (x >> 1u64) < (1u64 << (n - 1) as u64)) by (bit_vector)
                requires
                    1 <= n < 64,
            ;
        }
        lemma_popcount_zero_means_zero(x1, (n - 1) as u64);
        assert(x & 1u64 == 0);
        assert(x1 == 0);
        if x != 0 {
            assert(false);
        }
    }
}

} // verus!

//! Bloom filter over canonical URL strings.
//!
//! A packed bit array of `m` bits and `k` hash positions per element, with
//! no false negatives and a tunable false-positive rate. Double hashing
//! derives the `k` positions from two base hashes: `position_i = (h1 + i *
//! h2) mod m`, with wrapping 64-bit arithmetic before the modulus.
//!
//! Sizing follows the standard formulas: `m = ceil(-n * ln(p) / (ln 2)^2)`
//! bits and `k = ceil((m / n) * ln 2)` hash positions. The logarithm is
//! computed in fixed point — `ln(1/p) / (ln 2)^2 = log2(1/p) / ln 2`, with
//! `log2(1/p)` carrying an exact integer part and twenty truncated fraction
//! bits, and `ln 2` as the rational `693147 / 1000000`.
//!
//! Once built, the geometry (`m`, `k`) and the hasher seeds are fixed;
//! a bit, once set, is never cleared.

use vstd::prelude::*;

use crate::bitarray::bitarray_get;
use crate::bitarray::bitarray_len;
use crate::bitarray::bitarray_set;
use crate::bitarray::bitarray_zeros;
use crate::bitarray::bits_of;
use crate::bitarray::BitArray;
use crate::errors::ConfigError;
use crate::hashing::ahash_str;
use crate::hashing::ahash_u64;
use crate::hashing::fresh_seeds;
use crate::hashing::hash_str;
use crate::hashing::hash_u64;
use vstd::arithmetic::power2::lemma2_to64;
use vstd::arithmetic::power2::pow2;

verus! {

/// The numerator of the rational approximation of `ln 2`, in millionths.
pub const LN2_MILLIONTHS: u64 = 693147;

/// One million: the denominator of rates given in parts per million.
pub const MILLION: u64 = 1000000;

/// The fixed-point scale of the logarithm: `2^20`.
pub const LOG_SCALE: u64 = 1048576;

/// The largest capacity a filter can be built for; keeps the bit count
/// within what the packed bit vector can hold on every platform.
pub const MAX_CAPACITY: usize = 18000000;

/// Bloom filter for approximate membership of canonical URL strings:
/// no false negatives, tunable false-positive rate, bounded memory.
pub struct BloomFilter {
    bits: BitArray,
    num_hashes: u32,
    k0: u64,
    k1: u64,
    k2: u64,
    k3: u64,
    items_inserted: u64,
}

/// Mathematical view of a [`BloomFilter`]: the bit sequence, the number of
/// hash positions per element, the hasher seeds and the insert count.
pub struct BloomView {
    /// The `m` bits of the array.
    pub bits: Seq<bool>,
    /// `k`, the number of hash positions per element.
    pub num_hashes: u32,
    /// The four ahash seed words, fixed at construction.
    pub seeds: (u64, u64, u64, u64),
    /// How many inserts the filter has taken.
    pub inserted: u64,
}

impl BloomView {
    /// A usable filter: at least one bit and one hash position.
    pub open spec fn wf(self) -> bool {
        1 <= self.bits.len() && self.num_hashes >= 1
    }

    /// The first base hash of a key.
    pub open spec fn h1(self, key: Seq<char>) -> u64 {
        ahash_str(self.seeds.0, self.seeds.1, self.seeds.2, self.seeds.3, key)
    }

    /// The second base hash: the keyed hash of the first.
    pub open spec fn h2(self, key: Seq<char>) -> u64 {
        ahash_u64(self.seeds.0, self.seeds.1, self.seeds.2, self.seeds.3, self.h1(key))
    }

    /// The `i`-th bit position of a key: `(h1 + i * h2) mod m`, the products
    /// and sums wrapping at 64 bits.
    pub open spec fn position(self, key: Seq<char>, i: int) -> int
        recommends
            self.wf(),
            0 <= i < self.num_hashes,
    {
        (self.h1(key).wrapping_add((i as u64).wrapping_mul(self.h2(key))) as int) % (
        self.bits.len() as int)
    }

    /// Every one of the key's positions is set.
    pub open spec fn has_key(self, key: Seq<char>) -> bool {
        forall|i: int| 0 <= i < self.num_hashes ==> self.bits[#[trigger] self.position(key, i)]
    }

    /// Two filters with the same geometry and seeds address keys alike.
    pub open spec fn same_shape(self, other: BloomView) -> bool {
        self.bits.len() == other.bits.len() && self.num_hashes == other.num_hashes && self.seeds
            == other.seeds
    }
}

impl View for BloomFilter {
    type V = BloomView;

    closed spec fn view(&self) -> BloomView {
        BloomView {
            bits: bits_of(self.bits),
            num_hashes: self.num_hashes,
            seeds: (self.k0, self.k1, self.k2, self.k3),
            inserted: self.items_inserted,
        }
    }
}

/// Floor of the base-two logarithm of `1000000 / den`: the largest `e`
/// with `den * 2^e <= 1000000` (at most 19, since `2^20` alone exceeds one
/// million).
pub open spec fn log2_floor(den: int, e: int) -> int
    decreases 19 - e,
{
    if e >= 19 {
        e
    } else if den * pow2((e + 1) as nat) <= MILLION {
        log2_floor(den, e + 1)
    } else {
        e
    }
}

/// The next `j` fraction bits of the base-two logarithm of `y / 2^32`, for
/// a mantissa `y` in `[2^32, 2^33)`: square, truncate back to scale, and
/// emit a one bit exactly when the square reaches two.
pub open spec fn log2_frac(y: int, j: int) -> int
    decreases j,
{
    if j <= 0 {
        0
    } else {
        let y2 = (y * y) / 0x100000000;
        if y2 >= 0x200000000 {
            pow2((j - 1) as nat) + log2_frac(y2 / 2, j - 1)
        } else {
            log2_frac(y2, j - 1)
        }
    }
}

/// `log2(1000000 / ppm) * 2^20`: the base-two logarithm of `1/p` in fixed
/// point — the integer part exact, twenty fraction bits truncated.
pub open spec fn log2_fixed(ppm: u32) -> int {
    let e = log2_floor(ppm as int, 0);
    let y0 = (MILLION * 0x100000000) / ((ppm as int) * pow2(e as nat));
    e * (LOG_SCALE as int) + log2_frac(y0, 20)
}

/// The bit count of a filter built for `capacity` elements at rate `ppm`:
/// `m = ceil(capacity * ln(1/p) / (ln 2)^2)`, computed over the fixed-point
/// logarithm as `ceil(capacity * log2(1/p) / ln 2)` — the same number,
/// since `ln x = log2 x * ln 2` — with `ln 2` as the rational
/// `693147 / 1000000`, and at least one bit.
pub open spec fn bloom_bits(capacity: usize, ppm: u32) -> int {
    let q = (capacity * log2_fixed(ppm) * MILLION + ((LOG_SCALE * LN2_MILLIONTHS) as int - 1)) / (
    (LOG_SCALE * LN2_MILLIONTHS) as int);
    if q < 1 {
        1
    } else {
        q
    }
}

/// The hash count of a filter built for `capacity` elements at rate `ppm`:
/// `k = ceil((m / capacity) * ln 2)`, over the rational `ln 2`.
pub open spec fn bloom_hashes(capacity: usize, ppm: u32) -> int {
    (bloom_bits(capacity, ppm) * (LN2_MILLIONTHS as int) + capacity * (MILLION as int) - 1) / (
    capacity * (MILLION as int))
}

/// Integer division brackets: multiples of the divisor on either side of
/// the numerator bound the quotient.
proof fn lemma_div_bounds(a: int, d: int, lo: int, hi: int)
    requires
        d > 0,
        lo * d <= a,
        a < hi * d,
    ensures
        lo <= a / d < hi,
{
    vstd::arithmetic::div_mod::lemma_fundamental_div_mod(a, d);
    vstd::arithmetic::div_mod::lemma_mod_bound(a, d);
    let q = a / d;
    let r = a % d;
    assert(lo <= q && q < hi) by (nonlinear_arith)
        requires
            a == d * q + r,
            0 <= r < d,
            lo * d <= a,
            a < hi * d,
            d > 0,
    ;
}

/// Step lemma bracketing the logarithm's integer part.
proof fn lemma_log2_floor_step(den: int, e: int)
    requires
        1 <= den < MILLION,
        0 <= e <= 19,
        den * pow2(e as nat) <= MILLION,
    ensures
        e <= log2_floor(den, e) <= 19,
        den * pow2(log2_floor(den, e) as nat) <= MILLION,
        MILLION < den * pow2((log2_floor(den, e) + 1) as nat),
    decreases 19 - e,
{
    lemma2_to64();
    if e >= 19 {
        assert(den * pow2(20) > MILLION) by (nonlinear_arith)
            requires
                den >= 1,
                pow2(20) == 0x100000,
                MILLION == 1000000,
        ;
    } else if den * pow2((e + 1) as nat) <= MILLION {
        lemma_log2_floor_step(den, e + 1);
    }
}

/// The integer part of the fixed-point logarithm is exactly bracketed:
/// `ppm * 2^e <= 1000000 < ppm * 2^(e+1)`.
pub proof fn lemma_log2_floor_brackets(ppm: u32)
    requires
        1 <= ppm < MILLION,
    ensures
        0 <= log2_floor(ppm as int, 0) <= 19,
        (ppm as int) * pow2(log2_floor(ppm as int, 0) as nat) <= MILLION,
        MILLION < (ppm as int) * pow2((log2_floor(ppm as int, 0) + 1) as nat),
{
    lemma2_to64();
    assert((ppm as int) * pow2(0) == ppm) by (nonlinear_arith)
        requires
            pow2(0) == 1,
    ;
    lemma_log2_floor_step(ppm as int, 0);
}

/// The fraction bits stay below the scale.
proof fn lemma_log2_frac_bound(y: int, j: int)
    requires
        j >= 0,
    ensures
        0 <= log2_frac(y, j) < pow2(j as nat),
    decreases j,
{
    lemma2_to64();
    if j > 0 {
        let y2 = (y * y) / 0x100000000;
        vstd::arithmetic::power2::lemma_pow2_unfold(j as nat);
        if y2 >= 0x200000000 {
            lemma_log2_frac_bound(y2 / 2, j - 1);
        } else {
            lemma_log2_frac_bound(y2, j - 1);
        }
    }
}

/// The bit count is the exact ceiling of `capacity * f / (2^20 * ln 2)`
/// over the fixed-point logarithm `f`: `m` reaches the product, one bit
/// fewer falls short (whenever the product is positive at all), and a bit
/// array never has fewer than one bit.
pub proof fn lemma_bloom_bits_ceil(capacity: usize, ppm: u32)
    requires
        capacity >= 1,
        1 <= ppm < MILLION,
    ensures
        bloom_bits(capacity, ppm) >= 1,
        bloom_bits(capacity, ppm) * ((LOG_SCALE * LN2_MILLIONTHS) as int) >= capacity
            * log2_fixed(ppm) * MILLION,
        capacity * log2_fixed(ppm) * MILLION > 0 ==> (bloom_bits(capacity, ppm) - 1) * ((LOG_SCALE
            * LN2_MILLIONTHS) as int) < capacity * log2_fixed(ppm) * MILLION,
{
    lemma_log2_floor_brackets(ppm);
    let e = log2_floor(ppm as int, 0);
    let y0 = (MILLION * 0x100000000) / ((ppm as int) * pow2(e as nat));
    lemma_log2_frac_bound(y0, 20);
    let f = log2_fixed(ppm);
    assert(f >= 0);
    let num = capacity * f * MILLION;
    assert(num >= 0) by (nonlinear_arith)
        requires
            capacity >= 0,
            f >= 0,
            num == capacity * f * (MILLION as int),
    ;
    let d = (LOG_SCALE * LN2_MILLIONTHS) as int;
    vstd::arithmetic::div_mod::lemma_fundamental_div_mod(num + (d - 1), d);
    vstd::arithmetic::div_mod::lemma_mod_bound(num + (d - 1), d);
}

/// The hash count is the exact ceiling of `(m / capacity) * ln 2`, and at
/// least one.
pub proof fn lemma_bloom_hashes_ceil(capacity: usize, ppm: u32)
    requires
        capacity >= 1,
    ensures
        bloom_hashes(capacity, ppm) >= 1,
        bloom_hashes(capacity, ppm) * (capacity * (MILLION as int)) >= bloom_bits(capacity, ppm)
            * (LN2_MILLIONTHS as int),
        (bloom_hashes(capacity, ppm) - 1) * (capacity * (MILLION as int)) < bloom_bits(
            capacity,
            ppm,
        ) * (LN2_MILLIONTHS as int),
{
    let m = bloom_bits(capacity, ppm);
    assert(m >= 1);
    let d = capacity * (MILLION as int);
    assert(d >= 1000000) by (nonlinear_arith)
        requires
            capacity >= 1,
            d == capacity * 1000000,
    ;
    let num = m * (LN2_MILLIONTHS as int) + d - 1;
    vstd::arithmetic::div_mod::lemma_fundamental_div_mod(num, d);
    vstd::arithmetic::div_mod::lemma_mod_bound(num, d);
    assert(m * (LN2_MILLIONTHS as int) >= 693147) by (nonlinear_arith)
        requires
            m >= 1,
    ;
    let k = bloom_hashes(capacity, ppm);
    assert(k >= 1 && k * d >= m * (LN2_MILLIONTHS as int) && (k - 1) * d < m * (
    LN2_MILLIONTHS as int)) by (nonlinear_arith)
        requires
            num == d * k + num % d,
            0 <= num % d < d,
            num == m * (LN2_MILLIONTHS as int) + d - 1,
            m * (LN2_MILLIONTHS as int) >= 693147,
            d >= 1000000,
    ;
}

impl BloomFilter {
    /// Builds a filter for `capacity` expected elements and a target
    /// false-positive rate of `fp_rate_ppm` parts per million.
    ///
    /// Fails with [`ConfigError::ZeroCapacity`] exactly when `capacity` is
    /// zero, and with [`ConfigError::RateOutOfRange`] exactly when the rate
    /// is not strictly between zero and one. The fresh filter holds no key.
    pub fn new(capacity: usize, fp_rate_ppm: u32) -> (r: Result<BloomFilter, ConfigError>)
        requires
            capacity <= MAX_CAPACITY,
        ensures
            r is Ok <==> (capacity >= 1 && 1 <= fp_rate_ppm < MILLION),
            capacity == 0 ==> r == Err::<BloomFilter, ConfigError>(ConfigError::ZeroCapacity),
            capacity >= 1 && !(1 <= fp_rate_ppm < MILLION) ==> r == Err::<
                BloomFilter,
                ConfigError,
            >(ConfigError::RateOutOfRange),
            r matches Ok(f) ==> {
                &&& f@.wf()
                &&& f@.num_hashes == bloom_hashes(capacity, fp_rate_ppm)
                &&& f@.bits.len() == bloom_bits(capacity, fp_rate_ppm)
                &&& f@.inserted == 0
                &&& forall|j: int| 0 <= j < f@.bits.len() ==> !f@.bits[j]
            },
    {
        if capacity == 0 {
            return Err(ConfigError::ZeroCapacity);
        }
        if fp_rate_ppm == 0 || fp_rate_ppm >= 1000000 {
            return Err(ConfigError::RateOutOfRange);
        }
        // the integer part of log2(1/p)
        let den: u128 = fp_rate_ppm as u128;
        let mut e: u32 = 0;
        let mut pwe: u128 = 1;
        let mut pw: u128 = 2;
        proof {
            lemma2_to64();
        }
        loop
            invariant_except_break
                1 <= den < 1000000,
                e <= 19,
                pwe == pow2(e as nat),
                pw == pow2((e + 1) as nat),
                den * pwe <= 1000000,
                log2_floor(den as int, 0) == log2_floor(den as int, e as int),
            ensures
                e <= 19,
                pwe == pow2(e as nat),
                den * pwe <= 1000000,
                (den as int) * pow2((e + 1) as nat) > 1000000,
                e as int == log2_floor(den as int, 0),
            decreases 19 - e,
        {
            if e >= 19 {
                proof {
                    lemma2_to64();
                    assert((den as int) * pow2(20) > 1000000) by (nonlinear_arith)
                        requires
                            den >= 1,
                            pow2(20) == 0x100000,
                    ;
                }
                break;
            }
            proof {
                lemma2_to64();
                vstd::arithmetic::power2::lemma_pow2_strictly_increases((e + 1) as nat, 20);
                assert(den * pw < 0x100000u128 * 0x100000u128) by (nonlinear_arith)
                    requires
                        den < 0x100000,
                        pw < 0x100000,
                ;
            }
            let prod = den * pw;
            if prod > 1000000 {
                break;
            }
            proof {
                vstd::arithmetic::power2::lemma_pow2_unfold((e + 2) as nat);
            }
            pwe = pw;
            pw = pw * 2;
            e = e + 1;
        }
        // the mantissa 1e6 * 2^32 / (ppm * 2^e), in [2^32, 2^33)
        proof {
            vstd::arithmetic::power2::lemma_pow2_pos(e as nat);
            assert(den * pwe >= 1) by (nonlinear_arith)
                requires
                    den >= 1,
                    pwe >= 1,
            ;
        }
        let denom: u128 = den * pwe;
        proof {
            assert(denom * 0x100000000 <= 1000000u128 * 0x100000000) by (nonlinear_arith)
                requires
                    denom <= 1000000,
            ;
            vstd::arithmetic::power2::lemma_pow2_unfold((e + 1) as nat);
            assert(2 * denom > 1000000) by (nonlinear_arith)
                requires
                    (den as int) * (2 * pow2(e as nat)) > 1000000,
                    denom == den * pwe,
                    pwe == pow2(e as nat),
            ;
            assert(1000000u128 * 0x100000000 < denom * 0x200000000) by (nonlinear_arith)
                requires
                    2 * denom > 1000000,
            ;
            lemma_div_bounds((1000000 * 0x100000000) as int, denom as int, 0x100000000, 0x200000000);
        }
        let y0: u128 = 1000000u128 * 0x100000000u128 / denom;
        // twenty fraction bits by shift-and-square
        let ghost y0v = y0 as int;
        let ghost target = (e as int) * 0x100000 + log2_frac(y0v, 20);
        let mut y: u128 = y0;
        let mut f: u64 = (e as u64) * 1048576;
        let mut bit: u64 = 524288;
        let mut j: u32 = 20;
        proof {
            lemma_log2_frac_bound(y0v, 20);
            lemma2_to64();
        }
        while j > 0
            invariant
                j <= 20,
                0x100000000 <= y < 0x200000000,
                j >= 1 ==> bit as int == pow2((j - 1) as nat),
                f as int + log2_frac(y as int, j as int) == target,
                0 <= f as int <= target,
                target < 0x1400000,
            decreases j,
        {
            proof {
                assert(y * y < 0x200000000u128 * 0x200000000u128) by (nonlinear_arith)
                    requires
                        y < 0x200000000,
                ;
                assert(y * y >= 0x100000000u128 * 0x100000000u128) by (nonlinear_arith)
                    requires
                        y >= 0x100000000,
                ;
                lemma_div_bounds((y * y) as int, 0x100000000, 0x100000000, 0x400000000);
            }
            let y2: u128 = (y * y) / 0x100000000;
            if y2 >= 0x200000000 {
                proof {
                    lemma_log2_frac_bound((y2 / 2) as int, j - 1);
                }
                y = y2 / 2;
                f = f + bit;
            } else {
                proof {
                    lemma_log2_frac_bound(y2 as int, j - 1);
                }
                y = y2;
            }
            proof {
                if j >= 2 {
                    vstd::arithmetic::power2::lemma_pow2_unfold((j - 1) as nat);
                }
            }
            bit = bit / 2;
            j = j - 1;
        }
        proof {
            assert(f as int == target);
            assert(f as int == log2_fixed(fp_rate_ppm));
        }
        // m = ceil(capacity * f * 1e6 / (2^20 * ln2)), at least one bit
        proof {
            assert((capacity as u128) * (f as u128) <= 18000000u128 * 0x1400000u128)
                by (nonlinear_arith)
                requires
                    capacity <= 18000000,
                    f < 0x1400000,
            ;
        }
        let m_num: u128 = (capacity as u128) * (f as u128) * 1000000;
        let dd: u128 = 1048576u128 * 693147u128;
        let q: u128 = (m_num + (dd - 1)) / dd;
        let m128: u128 = if q < 1 {
            1
        } else {
            q
        };
        proof {
            assert(m128 as int == bloom_bits(capacity, fp_rate_ppm));
            vstd::arithmetic::div_mod::lemma_div_is_ordered(
                (m_num + (dd - 1)) as int,
                (18000000u128 * 0x1400000u128 * 1000000 + (dd - 1)) as int,
                dd as int,
            );
            assert((18000000u128 * 0x1400000u128 * 1000000 + (1048576u128 * 693147u128 - 1))
                as int / (1048576u128 * 693147u128) as int <= 536870911);
        }
        let m: usize = m128 as usize;
        proof {
            assert(m128 <= 536870911);
            assert(usize::MAX / 8 >= 536870911);
        }
        // k = ceil((m / capacity) * ln 2)
        let k_d: u128 = (capacity as u128) * 1000000;
        let k_num: u128 = m128 * 693147 + (k_d - 1);
        let k128: u128 = k_num / k_d;
        proof {
            assert(k128 as int == bloom_hashes(capacity, fp_rate_ppm));
            assert(m128 * 693147 >= 693147) by (nonlinear_arith)
                requires
                    m128 >= 1,
            ;
            assert(m_num <= (capacity as u128) * 20971519 * 1000000) by (nonlinear_arith)
                requires
                    m_num == (capacity as u128) * (f as u128) * 1000000,
                    f <= 20971519,
            ;
            assert(q * dd <= m_num + (dd - 1)) by {
                vstd::arithmetic::div_mod::lemma_fundamental_div_mod(
                    (m_num + (dd - 1)) as int,
                    dd as int,
                );
                vstd::arithmetic::div_mod::lemma_mod_bound((m_num + (dd - 1)) as int, dd as int);
            }
            assert(m128 <= 30 * (capacity as u128)) by (nonlinear_arith)
                requires
                    q * dd <= m_num + (dd - 1),
                    m_num <= (capacity as u128) * 20971519 * 1000000,
                    dd == 1048576u128 * 693147u128,
                    capacity >= 1,
                    m128 == (if q < 1 { 1u128 } else { q }),
            ;
            assert(k_num < 65 * k_d) by (nonlinear_arith)
                requires
                    k_num == m128 * 693147 + (k_d - 1),
                    m128 <= 30 * (capacity as u128),
                    k_d == (capacity as u128) * 1000000,
                    capacity >= 1,
            ;
            assert(k_num >= 1 * k_d);
            lemma_div_bounds(k_num as int, k_d as int, 1, 65);
        }
        let k: u32 = k128 as u32;
        let (k0, k1, k2, k3) = fresh_seeds();
        let bits = bitarray_zeros(m);
        let f = BloomFilter { bits, num_hashes: k, k0, k1, k2, k3, items_inserted: 0 };
        Ok(f)
    }

    /// The number of bits in the array (`m`).
    pub fn bit_count(&self) -> (r: usize)
        ensures
            r == self@.bits.len(),
    {
        bitarray_len(&self.bits)
    }

    /// The number of hash positions per element (`k`).
    pub fn hash_count(&self) -> (r: u32)
        ensures
            r == self@.num_hashes,
    {
        self.num_hashes
    }

    /// How many inserts the filter has taken.
    pub fn items_inserted(&self) -> (r: u64)
        ensures
            r == self@.inserted,
    {
        self.items_inserted
    }

    /// The `i`-th bit position for the given base hashes.
    fn position_exec(&self, h1: u64, h2: u64, i: u32, Ghost(key): Ghost<Seq<char>>) -> (idx:
        usize)
        requires
            self@.wf(),
            h1 == self@.h1(key),
            h2 == self@.h2(key),
        ensures
            idx == self@.position(key, i as int),
            idx < self@.bits.len(),
    {
        let m = bitarray_len(&self.bits) as u64;
        let x = h1.wrapping_add((i as u64).wrapping_mul(h2));
        (x % m) as usize
    }

    /// Inserts a key: sets its `k` positions and counts the insert.
    ///
    /// Afterwards the filter has the key — the no-false-negative guarantee —
    /// and every bit that was set stays set; no other bit changes.
    #[verifier::rlimit(50)]
    #[verifier::spinoff_prover]
    pub fn insert(&mut self, value: &str)
        requires
            old(self)@.wf(),
            old(self)@.inserted < u64::MAX,
        ensures
            final(self)@.same_shape(old(self)@),
            final(self)@.wf(),
            final(self)@.inserted == old(self)@.inserted + 1,
            final(self)@.has_key(value@),
            forall|j: int|
                0 <= j < final(self)@.bits.len() ==> final(self)@.bits[j] == (old(self)@.bits[j]
                    || exists|i: int|
                    0 <= i < old(self)@.num_hashes && #[trigger] old(self)@.position(value@, i)
                        == j),
    {
        let h1 = hash_str(self.k0, self.k1, self.k2, self.k3, value);
        let h2 = hash_u64(self.k0, self.k1, self.k2, self.k3, h1);
        proof {
            assert(h1 == self@.h1(value@));
            assert(h2 == self@.h2(value@));
        }
        let k = self.num_hashes;
        let ghost orig = self@;
        self.items_inserted = self.items_inserted + 1;
        assert(self@.bits == orig.bits && self@.seeds == orig.seeds);
        let mut i: u32 = 0;
        while i < k
            invariant
                k == orig.num_hashes,
                i <= k,
                h1 == orig.h1(value@),
                h2 == orig.h2(value@),
                self@.same_shape(orig),
                self@.seeds == orig.seeds,
                self@.inserted == orig.inserted + 1,
                orig.wf(),
                forall|j: int|
                    0 <= j < self@.bits.len() ==> self@.bits[j] == (orig.bits[j] || exists|i2: int|
                        0 <= i2 < i && #[trigger] orig.position(value@, i2) == j),
            decreases k - i,
        {
            let idx = self.position_exec(h1, h2, i, Ghost(value@));
            proof {
                assert(self@.position(value@, i as int) == orig.position(value@, i as int));
                assert(idx == orig.position(value@, i as int));
            }
            let ghost before = self@.bits;
            bitarray_set(&mut self.bits, idx);
            proof {
                assert(self@.bits =~= before.update(idx as int, true));
                assert forall|j: int| 0 <= j < self@.bits.len() implies self@.bits[j] == (
                orig.bits[j] || exists|i2: int|
                    0 <= i2 < i + 1 && #[trigger] orig.position(value@, i2) == j) by {
                    if j == idx {
                        assert(orig.position(value@, i as int) == j);
                        assert(self@.bits[j]);
                    } else {
                        assert(self@.bits[j] == before[j]);
                        if exists|i2: int|
                            0 <= i2 < i + 1 && #[trigger] orig.position(value@, i2) == j {
                            let w = choose|i2: int|
                                0 <= i2 < i + 1 && #[trigger] orig.position(value@, i2) == j;
                            assert(w < i);
                        }
                    }
                }
            }
            i = i + 1;
        }
        proof {
            assert forall|i2: int| 0 <= i2 < orig.num_hashes implies self@.bits[#[trigger] self@.position(
                value@,
                i2,
            )] by {
                assert(self@.position(value@, i2) == orig.position(value@, i2));
                let j = orig.position(value@, i2);
                assert(0 <= j < self@.bits.len());
                assert(0 <= i2 < i && orig.position(value@, i2) == j);
                assert(self@.bits[j] == (orig.bits[j] || exists|i3: int|
                    0 <= i3 < i && #[trigger] orig.position(value@, i3) == j));
                assert(exists|i3: int| 0 <= i3 < i && #[trigger] orig.position(value@, i3) == j);
                assert(self@.bits[j]);
            }
        }
    }

    /// Is the key possibly in the set? `false` means definitely absent;
    /// `true` means all of the key's positions are set.
    pub fn contains(&self, value: &str) -> (r: bool)
        requires
            self@.wf(),
        ensures
            r == self@.has_key(value@),
    {
        let h1 = hash_str(self.k0, self.k1, self.k2, self.k3, value);
        let h2 = hash_u64(self.k0, self.k1, self.k2, self.k3, h1);
        proof {
            assert(h1 == self@.h1(value@));
            assert(h2 == self@.h2(value@));
        }
        let k = self.num_hashes;
        let mut i: u32 = 0;
        while i < k
            invariant
                k == self@.num_hashes,
                i <= k,
                h1 == self@.h1(value@),
                h2 == self@.h2(value@),
                self@.wf(),
                forall|i2: int|
                    0 <= i2 < i ==> self@.bits[#[trigger] self@.position(value@, i2)],
            decreases k - i,
        {
            let idx = self.position_exec(h1, h2, i, Ghost(value@));
            if !bitarray_get(&self.bits, idx) {
                assert(!self@.bits[self@.position(value@, i as int)]);
                return false;
            }
            i = i + 1;
        }
        true
    }
}

/// No false negatives: a filter that just took an insert of `x` reports `x`
/// as possibly present — [`BloomFilter::insert`] guarantees `has_key`, and
/// [`BloomFilter::contains`] returns exactly `has_key`.
pub proof fn lemma_no_false_negatives(pre: BloomView, post: BloomView, key: Seq<char>)
    requires
        pre.wf(),
        post.same_shape(pre),
        forall|j: int|
            0 <= j < post.bits.len() ==> post.bits[j] == (pre.bits[j] || exists|i: int|
                0 <= i < pre.num_hashes && #[trigger] pre.position(key, i) == j),
    ensures
        post.has_key(key),
{
    assert forall|i: int| 0 <= i < post.num_hashes implies post.bits[#[trigger] post.position(
        key,
        i,
    )] by {
        assert(post.position(key, i) == pre.position(key, i));
        assert(0 <= pre.position(key, i) < post.bits.len());
    }
}

/// Monotonicity: growing the bit set never makes a key disappear. A query
/// may turn from `false` to `true` as others insert, never the reverse.
pub proof fn lemma_has_key_monotone(v1: BloomView, v2: BloomView, key: Seq<char>)
    requires
        v2.same_shape(v1),
        forall|j: int| 0 <= j < v1.bits.len() ==> v1.bits[j] ==> v2.bits[j],
        v1.has_key(key),
        v1.wf(),
    ensures
        v2.has_key(key),
{
    assert forall|i: int| 0 <= i < v2.num_hashes implies v2.bits[#[trigger] v2.position(key, i)] by {
        assert(v2.position(key, i) == v1.position(key, i));
        assert(v1.bits[v1.position(key, i)]);
        assert(0 <= v1.position(key, i) < v1.bits.len());
    }
}

/// A fresh filter holds no key at all: with every bit zero, every query
/// answers `false`.
pub proof fn lemma_fresh_has_nothing(v: BloomView, key: Seq<char>)
    requires
        v.wf(),
        forall|j: int| 0 <= j < v.bits.len() ==> !v.bits[j],
    ensures
        !v.has_key(key),
{
    assert(0 <= v.position(key, 0) < v.bits.len());
    assert(!v.bits[v.position(key, 0)]);
}

} // verus!

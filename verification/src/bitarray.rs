//! Trusted boundary around bitvec's packed bit vector.
//!
//! The Bloom filter's bit array is a `bitvec::vec::BitVec` with the default
//! `usize` store and `Lsb0` ordering, held in [`BitArray`], which Verus
//! treats as opaque. The sequence of bits the array holds is named by
//! [`bits_of`]; the operations the filter needs — build all-zero, set one
//! bit, read one bit, length — are wrapped with contracts over that name,
//! each stating what the crate's source shows.

use vstd::prelude::*;

verus! {

/// A packed array of bits, backed by bitvec's `BitVec`.
#[verifier::external_body]
pub struct BitArray {
    bits: bitvec::vec::BitVec<usize, bitvec::order::Lsb0>,
}

/// The bits an array holds, in index order.
pub uninterp spec fn bits_of(b: BitArray) -> Seq<bool>;

/// Relies on `BitVec::repeat`: a vector of `len` copies of the given bit,
/// here always zero. The bit count of a packed vector is capped at one
/// eighth of `usize::MAX` (it is stored as a byte-addressable span), and
/// `repeat` panics beyond that; the bound excludes those lengths.
#[verifier::external_body]
pub(crate) fn bitarray_zeros(len: usize) -> (r: BitArray)
    requires
        len <= usize::MAX / 8,
    ensures
        bits_of(r) == Seq::new(len as nat, |i: int| false),
{
    BitArray { bits: bitvec::vec::BitVec::repeat(false, len) }
}

/// Relies on `BitSlice::set` (reached through `BitVec`'s `DerefMut`): writes
/// one bit, here always to one, and panics only when the index is out of
/// range.
#[verifier::external_body]
pub(crate) fn bitarray_set(b: &mut BitArray, i: usize)
    requires
        i < bits_of(*old(b)).len(),
    ensures
        bits_of(*final(b)) == bits_of(*old(b)).update(i as int, true),
{
    b.bits.set(i, true);
}

/// Relies on `BitSlice`'s `Index` impl: reads one bit, and panics only when
/// the index is out of range.
#[verifier::external_body]
pub(crate) fn bitarray_get(b: &BitArray, i: usize) -> (r: bool)
    requires
        i < bits_of(*b).len(),
    ensures
        r == bits_of(*b)[i as int],
{
    b.bits[i]
}

/// Relies on `BitVec::len`: the number of bits held.
#[verifier::external_body]
pub(crate) fn bitarray_len(b: &BitArray) -> (r: usize)
    ensures
        r == bits_of(*b).len(),
{
    b.bits.len()
}

} // verus!

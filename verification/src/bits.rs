//! Big-endian bit strings inside byte sequences.
//!
//! Bit `i` of a byte sequence is bit `7 - i % 8` of byte `i / 8`: the most significant bit of the
//! first byte comes first.

use vstd::arithmetic::power2::*;
use vstd::prelude::*;

verus! {

/// The value, 0 or 1, of bit `index`.
pub open spec fn bit_at(bytes: Seq<u8>, index: int) -> nat {
    ((bytes[index / 8] >> ((7 - index % 8) as u8)) & 1u8) as nat
}

/// The unsigned number written by the `count` bits that start at bit `start`.
pub open spec fn bits_value(bytes: Seq<u8>, start: int, count: nat) -> nat
    decreases count,
{
    if count == 0 {
        0
    } else {
        2 * bits_value(bytes, start, (count - 1) as nat) + bit_at(bytes, start + count - 1)
    }
}

pub proof fn lemma_bit_at_bound(bytes: Seq<u8>, index: int)
    ensures
        bit_at(bytes, index) <= 1,
{
    let byte: u8 = bytes[index / 8];
    let shift: u8 = (7 - index % 8) as u8;
    assert((byte >> shift) & 1u8 <= 1u8) by (bit_vector);
}

/// A number written in `count` bits is below `2^count`.
pub proof fn lemma_bits_value_bound(bytes: Seq<u8>, start: int, count: nat)
    ensures
        bits_value(bytes, start, count) < pow2(count),
    decreases count,
{
    if count == 0 {
        lemma_pow2_pos(0);
    } else {
        lemma_bits_value_bound(bytes, start, (count - 1) as nat);
        lemma_bit_at_bound(bytes, start + count - 1);
        lemma_pow2_unfold(count);
    }
}

/// Reading `high` bits and then `low` bits is reading one number of `high + low` bits, of which
/// the first read gives the upper part and the second read the lower part.
pub proof fn lemma_bits_value_split(bytes: Seq<u8>, start: int, high: nat, low: nat)
    ensures
        bits_value(bytes, start, high + low) == bits_value(bytes, start, high) * pow2(low)
            + bits_value(bytes, start + high, low),
    decreases low,
{
    if low == 0 {
        assert(pow2(0) == 1) by {
            lemma2_to64();
        }
    } else {
        let rest = (low - 1) as nat;
        lemma_bits_value_split(bytes, start, high, rest);
        lemma_pow2_unfold(low);
        let head = bits_value(bytes, start, high);
        assert(2 * (head * pow2(rest)) == head * (2 * pow2(rest))) by (nonlinear_arith);
        assert(start + (high + low) - 1 == (start + high) + low - 1);
        assert((high + low - 1) as nat == high + rest);
    }
}

/// Appends one bit to a number that is shorter than 64 bits.
pub(crate) fn append_bit(
    value: u64,
    byte: u8,
    position: usize,
    Ghost(bytes): Ghost<Seq<u8>>,
    Ghost(start): Ghost<int>,
) -> (next: u64)
    requires
        0 <= start <= position,
        position - start < 64,
        byte == bytes[position as int / 8],
        value == bits_value(bytes, start, (position - start) as nat),
    ensures
        next == bits_value(bytes, start, (position - start + 1) as nat),
{
    let shift: u8 = (7 - (position % 8)) as u8;
    let bit: u8 = (byte >> shift) & 1;
    proof {
        lemma_bits_value_bound(bytes, start, (position - start) as nat);
        lemma_bit_at_bound(bytes, position as int);
        lemma2_to64();
        lemma2_to64_rest();
        if position - start < 63 {
            lemma_pow2_strictly_increases((position - start) as nat, 63);
        }
        let wide: u64 = bit as u64;
        assert((value << 1) | wide == 2 * value + wide) by (bit_vector)
            requires
                value < 0x8000_0000_0000_0000,
                wide <= 1,
        ;
    }
    (value << 1) | (bit as u64)
}

} // verus!

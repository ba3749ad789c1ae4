//! LP coefficient refinement and HP flexbits parsing.

use super::bit_reader::{BitCursor, PacketBitReader};
use super::coefficients;
use super::error::EntropyError;
use crate::bits;
use vstd::arithmetic::power2::*;
use vstd::prelude::*;

verus! {

/// The positions of a 4-by-4 block, column by column.
pub const TRANSPOSE: [usize; 16] = [0, 4, 8, 12, 1, 5, 9, 13, 2, 6, 10, 14, 3, 7, 11, 15];

/// The flexbits value at the cursor: it takes the sign of the coefficient that it refines, and a
/// sign bit of its own where that coefficient is zero and the value is not.
pub open spec fn flex_at(cursor: BitCursor, vlc_coefficient: i32, flex_bits: u8) -> (
    Result<i32, EntropyError>,
    BitCursor,
) {
    if flex_bits > 29 {
        (
            Err(
                EntropyError::InvalidParameter {
                    parameter: "flexbits width",
                    value: flex_bits as i64,
                },
            ),
            cursor,
        )
    } else {
        match cursor.read(flex_bits) {
            (Err(error), next) => (Err(error), next),
            (Ok(value), next) => if vlc_coefficient > 0 {
                (Ok(value as i32), next)
            } else if vlc_coefficient < 0 {
                (Ok((-value) as i32), next)
            } else {
                coefficients::signed_at(next, value as i32)
            },
        }
    }
}

/// Decode one HP flexbits value.
pub fn decode_flex(reader: &mut PacketBitReader<'_>, vlc_coefficient: i32, flex_bits: u8) -> (result:
    Result<i32, EntropyError>)
    ensures
        (result, final(reader)@) == flex_at(old(reader)@, vlc_coefficient, flex_bits),
{
    if flex_bits > 29 {
        return Err(
            EntropyError::InvalidParameter { parameter: "flexbits width", value: flex_bits as i64 },
        );
    }
    proof {
        bits::lemma_bits_value_bound(reader@.bytes, reader@.position as int, flex_bits as nat);
        lemma2_to64();
        if flex_bits < 29 {
            lemma_pow2_strictly_increases(flex_bits as nat, 29);
        }
    }
    let value: i32 = reader.read_bits(flex_bits)? as i32;
    if vlc_coefficient > 0 {
        Ok(value)
    } else if vlc_coefficient < 0 {
        coefficients::signed(value, true)
    } else {
        coefficients::apply_sign(reader, value)
    }
}

/// A flexbits value is no larger than its width allows.
proof fn lemma_flex_bound(cursor: BitCursor, vlc_coefficient: i32, flex_bits: u8)
    ensures
        flex_at(cursor, vlc_coefficient, flex_bits).0 matches Ok(value) ==> -pow2(flex_bits as nat)
            <= value <= pow2(flex_bits as nat),
{
    bits::lemma_bits_value_bound(cursor.bytes, cursor.position as int, flex_bits as nat);
    lemma2_to64();
    if flex_bits < 29 {
        lemma_pow2_strictly_increases(flex_bits as nat, 29);
    }
}

/// The flexbits of the positions from entry `k` of the transpose order on, over `output`.
pub open spec fn flex_block_from(
    cursor: BitCursor,
    vlc_coefficients: Seq<i32>,
    bits_left: u8,
    trim_flexbits: u8,
    k: nat,
    output: Seq<i32>,
) -> (Result<Seq<i32>, EntropyError>, BitCursor)
    decreases 16 - k,
{
    if k >= 16 {
        (Ok(output), cursor)
    } else {
        let position = TRANSPOSE[k as int] as int;
        match flex_at(cursor, vlc_coefficients[position], bits_left) {
            (Err(error), next) => (Err(error), next),
            (Ok(flex), next) => flex_block_from(
                next,
                vlc_coefficients,
                bits_left,
                trim_flexbits,
                k + 1,
                output.update(position, (flex * pow2(trim_flexbits as nat)) as i32),
            ),
        }
    }
}

/// The flexbits of a block.
pub open spec fn flex_block_at(
    cursor: BitCursor,
    vlc_coefficients: Seq<i32>,
    model_bits: u8,
    trim_flexbits: u8,
) -> (Result<Seq<i32>, EntropyError>, BitCursor) {
    if model_bits > 15 {
        (
            Err(
                EntropyError::InvalidParameter {
                    parameter: "HP model bits",
                    value: model_bits as i64,
                },
            ),
            cursor,
        )
    } else if trim_flexbits > 15 {
        (
            Err(
                EntropyError::InvalidParameter {
                    parameter: "trim flexbits",
                    value: trim_flexbits as i64,
                },
            ),
            cursor,
        )
    } else if model_bits <= trim_flexbits {
        (Ok(Seq::new(16, |i: int| 0i32)), cursor)
    } else {
        flex_block_from(
            cursor,
            vlc_coefficients,
            (model_bits - trim_flexbits) as u8,
            trim_flexbits,
            1,
            Seq::new(16, |i: int| 0i32),
        )
    }
}

/// Every entry of the transpose order is a position, and only the first is the first position.
pub proof fn lemma_transpose()
    ensures
        forall|k: int| 1 <= k < 16 ==> 1 <= #[trigger] TRANSPOSE[k] < 16,
        forall|left: int, right: int|
            0 <= left < right < 16 ==> #[trigger] TRANSPOSE[left] != #[trigger] TRANSPOSE[right],
{
}

/// Decode all 15 flexbits positions of an HP block in transpose order.
pub fn decode_flex_block(
    reader: &mut PacketBitReader<'_>,
    vlc_coefficients: &[i32; 16],
    model_bits: u8,
    trim_flexbits: u8,
) -> (result: Result<[i32; 16], EntropyError>)
    ensures
        ({
            let (expected, cursor) = flex_block_at(
                old(reader)@,
                vlc_coefficients@,
                model_bits,
                trim_flexbits,
            );
            &&& final(reader)@ == cursor
            &&& match (result, expected) {
                (Ok(block), Ok(values)) => block@ == values,
                (Err(error), Err(reason)) => error == reason,
                _ => false,
            }
        }),
{
    if model_bits > 15 {
        return Err(
            EntropyError::InvalidParameter { parameter: "HP model bits", value: model_bits as i64 },
        );
    }
    if trim_flexbits > 15 {
        return Err(
            EntropyError::InvalidParameter {
                parameter: "trim flexbits",
                value: trim_flexbits as i64,
            },
        );
    }
    let mut output: [i32; 16] = [0i32;16];
    assert(output@ =~= Seq::new(16, |i: int| 0i32));
    if model_bits <= trim_flexbits {
        return Ok(output);
    }
    let bits_left: u8 = model_bits - trim_flexbits;
    let ghost whole = flex_block_at(old(reader)@, vlc_coefficients@, model_bits, trim_flexbits);
    proof {
        lemma_transpose();
    }
    for k in 1usize..16
        invariant
            forall|k: int| 1 <= k < 16 ==> 1 <= #[trigger] TRANSPOSE[k] < 16,
            bits_left + trim_flexbits <= 15,
            whole == flex_block_from(
                reader@,
                vlc_coefficients@,
                bits_left,
                trim_flexbits,
                k as nat,
                output@,
            ),
            whole == flex_block_at(old(reader)@, vlc_coefficients@, model_bits, trim_flexbits),
    {
        let position: usize = TRANSPOSE[k];
        let ghost origin = reader@;
        let flex: i32 = decode_flex(reader, vlc_coefficients[position], bits_left)?;
        proof {
            lemma_flex_bound(origin, vlc_coefficients[position as int], bits_left);
            lemma_pow2_adds(bits_left as nat, trim_flexbits as nat);
            lemma2_to64();
            if bits_left + trim_flexbits < 15 {
                lemma_pow2_strictly_increases((bits_left + trim_flexbits) as nat, 15);
            }
            lemma_pow2_pos(trim_flexbits as nat);
            let unit = pow2(trim_flexbits as nat) as int;
            let bound = pow2(bits_left as nat) as int;
            assert(-(bound * unit) <= flex * unit <= bound * unit) by (nonlinear_arith)
                requires
                    -bound <= flex <= bound,
                    unit >= 0,
            ;
        }
        output[position] = flex * coefficients::power_of_two(trim_flexbits);
    }
    Ok(output)
}

/// What refining coefficients gives, where it leaves the cursor, and the coefficients afterwards.
pub struct RefinementStep {
    /// Success or the error.
    pub result: Result<(), EntropyError>,
    /// The cursor afterwards.
    pub cursor: BitCursor,
    /// The coefficients afterwards.
    pub coefficients: Seq<i32>,
}

/// The error of a position that names no coefficient but the first or none at all.
pub open spec fn position_error(position: usize) -> EntropyError {
    EntropyError::InvalidParameter {
        parameter: "LP refinement position",
        value: if position > i64::MAX {
            i64::MAX
        } else {
            position as i64
        },
    }
}

/// Refines the coefficients at the positions in order.
pub open spec fn lp_refined(
    cursor: BitCursor,
    coefficients: Seq<i32>,
    positions: Seq<usize>,
    model_bits: u8,
) -> RefinementStep
    decreases positions.len(),
{
    if positions.len() == 0 {
        RefinementStep { result: Ok(()), cursor, coefficients }
    } else if !(1 <= positions[0] < 16) {
        RefinementStep { result: Err(position_error(positions[0])), cursor, coefficients }
    } else {
        let position = positions[0] as int;
        match flex_at(cursor, coefficients[position], model_bits) {
            (Err(error), next) => RefinementStep { result: Err(error), cursor: next, coefficients },
            (Ok(refinement), next) => {
                match coefficients::refined(
                    coefficients[position],
                    model_bits,
                    refinement as int,
                ) {
                    Ok(value) => lp_refined(
                        next,
                        coefficients.update(position, value),
                        positions.drop_first(),
                        model_bits,
                    ),
                    Err(error) => RefinementStep {
                        result: Err(error),
                        cursor: next,
                        coefficients,
                    },
                }
            },
        }
    }
}

/// Refine the fifteen LP positions in the 4-by-4 transpose order.
pub fn decode_lp_refinement(
    reader: &mut PacketBitReader<'_>,
    coefficients: &mut [i32; 16],
    model_bits: u8,
) -> (result: Result<(), EntropyError>)
    ensures
        (RefinementStep { result, cursor: final(reader)@, coefficients: final(coefficients)@ })
            == lp_refined(
            old(reader)@,
            old(coefficients)@,
            TRANSPOSE@.subrange(1, 16),
            model_bits,
        ),
{
    let order: [usize; 16] = TRANSPOSE;
    let positions: &[usize] = vstd::slice::slice_subrange(order.as_slice(), 1, 16);
    decode_lp_refinement_at(reader, coefficients, positions, model_bits)
}

/// Refine selected LP positions in the supplied traversal order.
pub fn decode_lp_refinement_at(
    reader: &mut PacketBitReader<'_>,
    coefficients: &mut [i32; 16],
    positions: &[usize],
    model_bits: u8,
) -> (result: Result<(), EntropyError>)
    ensures
        (RefinementStep { result, cursor: final(reader)@, coefficients: final(coefficients)@ })
            == lp_refined(old(reader)@, old(coefficients)@, positions@, model_bits),
{
    let ghost whole = lp_refined(old(reader)@, old(coefficients)@, positions@, model_bits);
    assert(positions@.skip(0) =~= positions@);
    for k in 0..positions.len()
        invariant
            whole == lp_refined(
                reader@,
                coefficients@,
                positions@.skip(k as int),
                model_bits,
            ),
            whole == lp_refined(old(reader)@, old(coefficients)@, positions@, model_bits),
    {
        let position: usize = positions[k];
        proof {
            assert(positions@.skip(k as int)[0] == position);
            assert(positions@.skip(k as int).drop_first() =~= positions@.skip(k as int + 1));
        }
        if position == 0 || position >= 16 {
            let value: i64 = if position as u64 > i64::MAX as u64 {
                i64::MAX
            } else {
                position as i64
            };
            return Err(
                EntropyError::InvalidParameter { parameter: "LP refinement position", value },
            );
        }
        let refinement: i32 = decode_flex(reader, coefficients[position], model_bits)?;
        let value: i32 = coefficients::refine(coefficients[position], model_bits, refinement)?;
        coefficients[position] = value;
    }
    assert(positions@.skip(positions@.len() as int) =~= Seq::<usize>::empty());
    Ok(())
}

} // verus!

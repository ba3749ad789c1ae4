//! Coefficient unpacking and raster placement.

use crate::decode::arena::{ArenaModel, CoefficientArena, PredictionMode};
use crate::reconstruct::contract::QuantizedMacroblock;
use crate::types::{BandPresence, JxrError, JxrErrorKind};
use vstd::prelude::*;

verus! {

/// Where blocks are predicted from.
#[derive(Debug, Clone, Copy, PartialEq, Eq, Structural)]
pub enum HighPassDirection {
    /// Nowhere.
    Unpredicted,
    /// The block to the left.
    FromLeft,
    /// The block above.
    FromTop,
}

/// Prediction of the high-pass coefficients of a macroblock, supplied by the caller.
#[derive(Debug, Clone, Copy, PartialEq, Eq, Structural)]
pub struct HighPassKernel {
    /// Where blocks are predicted from.
    pub direction: HighPassDirection,
    /// Blocks across the macroblock.
    pub block_columns: u8,
    /// Blocks down the macroblock.
    pub block_rows: u8,
}

/// Whether the executable prediction computes what the rule says.
pub open spec fn predicts<P: Fn(HighPassKernel, [i32; 256]) -> Option<[i32; 256]>>(
    prediction: P,
    rule: spec_fn(HighPassKernel, Seq<i32>) -> Option<Seq<i32>>,
) -> bool {
    forall|kernel: HighPassKernel, values: [i32; 256], output: Option<[i32; 256]>| #[trigger]
        call_ensures(prediction, (kernel, values), output) ==> match (
            output,
            rule(kernel, values@),
        ) {
            (Some(output), Some(expected)) => output@ == expected,
            (None, None) => true,
            _ => false,
        }
}

/// Whether the prediction can be run.
pub open spec fn runnable<P: Fn(HighPassKernel, [i32; 256]) -> Option<[i32; 256]>>(
    prediction: P,
) -> bool {
    forall|kernel: HighPassKernel, values: [i32; 256]| call_requires(prediction, (kernel, values))
}

/// The array of some values.
pub open spec fn array_of<const N: usize>(values: Seq<i32>) -> [i32; N] {
    choose|array: [i32; N]| array@ == values
}

/// An array is the array of its values.
pub(crate) proof fn lemma_array_of<const N: usize>(array: [i32; N])
    ensures
        array_of::<N>(array@) == array,
{
    let chosen = array_of::<N>(array@);
    assert(array@ == array@);
    assert(chosen@ == array@);
    assert forall|index: int| 0 <= index < N implies chosen[index] == array[index] by {
        assert(chosen@[index] == array@[index]);
    }
    assert(chosen =~= array);
}

/// The coefficients of a macroblock that has some bands.
#[verifier::allow_in_spec]
pub fn packed_coefficient_count(bands: BandPresence, block_count: u8) -> u16
    returns
        (match bands {
            BandPresence::DcOnly => 1u16,
            BandPresence::NoHighPass => block_count as u16,
            BandPresence::NoFlexbits | BandPresence::All => (block_count * 16) as u16,
        }),
{
    match bands {
        BandPresence::DcOnly => 1,
        BandPresence::NoHighPass => block_count as u16,
        BandPresence::NoFlexbits | BandPresence::All => block_count as u16 * 16,
    }
}

/// The DC and low-pass coefficients among packed coefficients, followed by zeros.
pub open spec fn low_of(packed: Seq<i32>, bands: BandPresence, block_count: int) -> Seq<i32> {
    Seq::new(
        16,
        |index: int|
            match bands {
                BandPresence::DcOnly => if index == 0 {
                    packed[0]
                } else {
                    0
                },
                BandPresence::NoHighPass => if index < block_count {
                    packed[index]
                } else {
                    0
                },
                BandPresence::NoFlexbits | BandPresence::All => if index < block_count {
                    packed[16 * index]
                } else {
                    0
                },
            },
    )
}

/// The high-pass coefficients among packed coefficients, block by block. The first one of each
/// block is zero, and so are those of missing blocks.
pub open spec fn high_of(packed: Seq<i32>, bands: BandPresence, block_count: int) -> Seq<i32> {
    Seq::new(
        256,
        |index: int|
            if bands.has_high_pass() && index < 16 * block_count && index % 16 != 0 {
                packed[index]
            } else {
                0
            },
    )
}

/// Unpacks the coefficients of a macroblock.
fn unpack_coefficients(
    arena: &CoefficientArena,
    offset: usize,
    bands: BandPresence,
    block_count: usize,
    dc_low_pass: &mut [i32; 16],
    high_pass: &mut [i32; 256],
)
    requires
        block_count <= 16,
        offset + packed_coefficient_count(bands, block_count as u8) <= arena.coefficients@.len(),
        forall|index: int| 0 <= index < 16 ==> #[trigger] old(dc_low_pass)@[index] == 0,
        forall|index: int| 0 <= index < 256 ==> #[trigger] old(high_pass)@[index] == 0,
    ensures
        final(dc_low_pass)@ == low_of(
            arena.coefficients@.subrange(
                offset as int,
                offset + packed_coefficient_count(bands, block_count as u8),
            ),
            bands,
            block_count as int,
        ),
        final(high_pass)@ == high_of(
            arena.coefficients@.subrange(
                offset as int,
                offset + packed_coefficient_count(bands, block_count as u8),
            ),
            bands,
            block_count as int,
        ),
{
    let ghost packed = arena.coefficients@.subrange(
        offset as int,
        offset + packed_coefficient_count(bands, block_count as u8),
    );
    let length: usize = arena.coefficients.len();
    match bands {
        BandPresence::DcOnly => {
            dc_low_pass[0] = arena.coefficients[offset];
        },
        BandPresence::NoHighPass => {
            for block in 0..block_count
                invariant
                    block_count <= 16,
                    bands is NoHighPass,
                    length == arena.coefficients@.len(),
                    offset + block_count <= length,
                    packed == arena.coefficients@.subrange(offset as int, offset + block_count),
                    forall|index: int|
                        0 <= index < 16 ==> #[trigger] dc_low_pass@[index] == (if index < block {
                            packed[index]
                        } else {
                            0
                        }),
            {
                dc_low_pass[block] = arena.coefficients[offset + block];
            }
        },
        BandPresence::NoFlexbits | BandPresence::All => {
            for block in 0..block_count
                invariant
                    block_count <= 16,
                    length == arena.coefficients@.len(),
                    offset + 16 * block_count <= length,
                    packed == arena.coefficients@.subrange(
                        offset as int,
                        offset + 16 * block_count,
                    ),
                    forall|index: int|
                        0 <= index < 16 ==> #[trigger] dc_low_pass@[index] == (if index < block {
                            packed[16 * index]
                        } else {
                            0
                        }),
                    forall|index: int|
                        0 <= index < 256 ==> #[trigger] high_pass@[index] == (if index < 16 * block
                            && index % 16 != 0 {
                            packed[index]
                        } else {
                            0
                        }),
            {
                dc_low_pass[block] = arena.coefficients[offset + 16 * block];
                for place in 1..16
                    invariant
                        block < block_count <= 16,
                        length == arena.coefficients@.len(),
                        offset + 16 * block_count <= length,
                        packed == arena.coefficients@.subrange(
                            offset as int,
                            offset + 16 * block_count,
                        ),
                        forall|index: int|
                            0 <= index < 256 ==> #[trigger] high_pass@[index] == (if index < 16
                                * block + place && index % 16 != 0 {
                                packed[index]
                            } else {
                                0
                            }),
                {
                    let index: usize = 16 * block + place;
                    high_pass[index] = arena.coefficients[offset + index];
                }
            }
        },
    }
    assert(dc_low_pass@ =~= low_of(packed, bands, block_count as int));
    assert(high_pass@ =~= high_of(packed, bands, block_count as int));
}

/// Where blocks are predicted from, for modes that predict high-pass coefficients.
#[verifier::allow_in_spec]
pub fn direction_of(mode: PredictionMode) -> Option<HighPassDirection>
    returns
        (match mode {
            PredictionMode::Unpredicted => Some(HighPassDirection::Unpredicted),
            PredictionMode::FromLeft => Some(HighPassDirection::FromLeft),
            PredictionMode::FromTop => Some(HighPassDirection::FromTop),
            PredictionMode::FromTopLeft => None,
        }),
{
    match mode {
        PredictionMode::Unpredicted => Some(HighPassDirection::Unpredicted),
        PredictionMode::FromLeft => Some(HighPassDirection::FromLeft),
        PredictionMode::FromTop => Some(HighPassDirection::FromTop),
        PredictionMode::FromTopLeft => None,
    }
}

/// Whether macroblocks of a shape have high-pass prediction.
#[verifier::allow_in_spec]
pub fn is_predictable_shape(block_columns: u8, block_rows: u8) -> bool
    returns
        ((block_columns == 4 && block_rows == 4) || (block_columns == 2 && block_rows == 4) || (
        block_columns == 2 && block_rows == 2)),
{
    (block_columns == 4 && block_rows == 4) || (block_columns == 2 && block_rows == 4) || (
    block_columns == 2 && block_rows == 2)
}

/// The high-pass coefficients after prediction.
pub open spec fn predicted(
    coefficients: Seq<i32>,
    mode: PredictionMode,
    block_columns: u8,
    block_rows: u8,
    rule: spec_fn(HighPassKernel, Seq<i32>) -> Option<Seq<i32>>,
) -> Result<Seq<i32>, JxrError> {
    match direction_of(mode) {
        None => Err(
            JxrError::new(JxrErrorKind::InternalInvariant, "high-pass prediction direction"),
        ),
        Some(direction) => if !is_predictable_shape(block_columns, block_rows) {
            Err(
                JxrError::new(
                    JxrErrorKind::InternalInvariant,
                    "high-pass prediction block geometry",
                ),
            )
        } else {
            match rule(HighPassKernel { direction, block_columns, block_rows }, coefficients) {
                Some(values) => Ok(values),
                None => Err(JxrError::arithmetic("high-pass coefficient prediction")),
            }
        },
    }
}

fn apply_high_pass_prediction<P: Fn(HighPassKernel, [i32; 256]) -> Option<[i32; 256]>>(
    coefficients: [i32; 256],
    mode: PredictionMode,
    block_columns: u8,
    block_rows: u8,
    prediction: &P,
) -> (result: Result<[i32; 256], JxrError>)
    requires
        runnable(*prediction),
    ensures
        forall|rule: spec_fn(HighPassKernel, Seq<i32>) -> Option<Seq<i32>>| #[trigger]
            predicts(*prediction, rule) ==> match (
                result,
                predicted(coefficients@, mode, block_columns, block_rows, rule),
            ) {
                (Ok(values), Ok(expected)) => values@ == expected,
                (Err(error), Err(expected)) => error == expected,
                _ => false,
            },
{
    let direction: HighPassDirection = match direction_of(mode) {
        Some(direction) => direction,
        None => {
            return Err(
                JxrError::new(JxrErrorKind::InternalInvariant, "high-pass prediction direction"),
            );
        },
    };
    if !is_predictable_shape(block_columns, block_rows) {
        return Err(
            JxrError::new(
                JxrErrorKind::InternalInvariant,
                "high-pass prediction block geometry",
            ),
        );
    }
    match prediction(HighPassKernel { direction, block_columns, block_rows }, coefficients) {
        Some(values) => Ok(values),
        None => Err(JxrError::arithmetic("high-pass coefficient prediction")),
    }
}

/// A macroblock of an arena.
pub open spec fn unpacked(
    arena: ArenaModel,
    index: int,
    block_columns: u8,
    block_rows: u8,
    rule: spec_fn(HighPassKernel, Seq<i32>) -> Option<Seq<i32>>,
) -> Result<QuantizedMacroblock, JxrError> {
    let blocks = block_columns * block_rows;
    let bands = arena.macroblocks.bands[index];
    let offset = arena.macroblocks.coefficient_offsets[index] as int;
    let end = offset + packed_coefficient_count(bands, blocks as u8);
    let packed = arena.coefficients.subrange(offset, end);
    let high = predicted(
        high_of(packed, bands, blocks),
        arena.macroblocks.hp_predictions[index],
        block_columns,
        block_rows,
        rule,
    );
    if end > usize::MAX {
        Err(JxrError::arithmetic("macroblock coefficient range"))
    } else if end > arena.coefficients.len() {
        Err(JxrError::new(JxrErrorKind::InvalidSyntax, "macroblock coefficients"))
    } else if high is Err {
        Err(high->Err_0)
    } else {
        Ok(
            QuantizedMacroblock {
                dc_low_pass: array_of(low_of(packed, bands, blocks)),
                high_pass: array_of(high->Ok_0),
                quantizers: arena.macroblocks.quantizers[index],
                bands,
            },
        )
    }
}

/// Returns a macroblock of an arena.
pub(crate) fn unpack_macroblock<P: Fn(HighPassKernel, [i32; 256]) -> Option<[i32; 256]>>(
    arena: &CoefficientArena,
    index: usize,
    block_columns: u8,
    block_rows: u8,
    prediction: &P,
) -> (result: Result<QuantizedMacroblock, JxrError>)
    requires
        runnable(*prediction),
        block_columns * block_rows <= 16,
        index < arena@.macroblocks.coefficient_offsets.len(),
        index < arena@.macroblocks.bands.len(),
        index < arena@.macroblocks.hp_predictions.len(),
        index < arena@.macroblocks.quantizers.len(),
    ensures
        forall|rule: spec_fn(HighPassKernel, Seq<i32>) -> Option<Seq<i32>>| #[trigger]
            predicts(*prediction, rule) ==> result == unpacked(
                arena@,
                index as int,
                block_columns,
                block_rows,
                rule,
            ),
{
    assert(block_columns * block_rows >= 0) by (nonlinear_arith);
    let blocks: u8 = block_columns * block_rows;
    let bands: BandPresence = arena.macroblocks.bands[index];
    let offset: usize = arena.macroblocks.coefficient_offsets[index] as usize;
    let end: usize = match offset.checked_add(packed_coefficient_count(bands, blocks) as usize) {
        Some(end) => end,
        None => return Err(JxrError::arithmetic("macroblock coefficient range")),
    };
    if end > arena.coefficients.len() {
        return Err(JxrError::new(JxrErrorKind::InvalidSyntax, "macroblock coefficients"));
    }
    let mut dc_low_pass: [i32; 16] = [0;16];
    let mut high_pass: [i32; 256] = [0;256];
    unpack_coefficients(
        arena,
        offset,
        bands,
        blocks as usize,
        &mut dc_low_pass,
        &mut high_pass,
    );
    let high_pass: [i32; 256] = apply_high_pass_prediction(
        high_pass,
        arena.macroblocks.hp_predictions[index],
        block_columns,
        block_rows,
        prediction,
    )?;
    proof {
        lemma_array_of(dc_low_pass);
        lemma_array_of(high_pass);
    }
    Ok(
        QuantizedMacroblock {
            dc_low_pass,
            high_pass,
            quantizers: arena.macroblocks.quantizers[index],
            bands,
        },
    )
}

/// Unpacking loses no coefficient: of a macroblock with all bands, each packed coefficient is
/// found again, the first one of each block among the low-pass coefficients and the others in
/// their place.
pub proof fn lemma_unpacking_keeps_coefficients(
    packed: Seq<i32>,
    bands: BandPresence,
    block_count: int,
    index: int,
)
    requires
        bands.has_high_pass(),
        0 <= block_count <= 16,
        0 <= index < 16 * block_count,
    ensures
        packed[index] == (if index % 16 == 0 {
            low_of(packed, bands, block_count)[index / 16]
        } else {
            high_of(packed, bands, block_count)[index]
        }),
{
}

} // verus!

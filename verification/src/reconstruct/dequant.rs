//! Scaling of quantized coefficients.

use crate::cpu::CpuCapabilities;
use crate::reconstruct::contract::{QuantizedMacroblock, ReconstructionError};
use vstd::prelude::*;

verus! {

/// Number of coefficients from which vector units are used.
pub const MIN_VECTOR_COEFFICIENTS: usize = 64;

/// Quantization step other than zero.
#[derive(Debug, Clone, Copy, PartialEq, Eq)]
pub struct Quantizer {
    step: u32,
}

/// Whether a coefficient fits after scaling.
pub open spec fn fits_scaled(coefficient: i32, step: u32) -> bool {
    i32::MIN <= coefficient * step <= i32::MAX
}

impl Quantizer {
    /// The quantization step.
    pub closed spec fn step_size(self) -> u32 {
        self.step
    }

    /// Creates a quantizer, unless the step is zero.
    pub fn new(step: u32) -> (quantizer: Option<Self>)
        ensures
            quantizer is Some <==> step != 0,
            quantizer matches Some(quantizer) ==> quantizer.step_size() == step,
    {
        if step == 0 {
            None
        } else {
            Some(Quantizer { step })
        }
    }

    /// Returns the quantization step.
    pub fn step(self) -> (step: u32)
        ensures
            step == self.step_size(),
    {
        self.step
    }

    /// Returns a coefficient times the step, if it fits.
    pub fn dequantize(self, coefficient: i32) -> (value: Option<i32>)
        ensures
            value == (if fits_scaled(coefficient, self.step_size()) {
                Some((coefficient * self.step_size()) as i32)
            } else {
                None
            }),
    {
        let step: u32 = self.step;
        proof {
            assert(-0x8000_0000 * 0xFFFF_FFFF <= coefficient * step <= 0x7FFF_FFFF * 0xFFFF_FFFF)
                by (nonlinear_arith)
                requires
                    -0x8000_0000 <= coefficient <= 0x7FFF_FFFF,
                    0 <= step <= 0xFFFF_FFFF,
            ;
        }
        let product: i64 = coefficient as i64 * step as i64;
        if product < i32::MIN as i64 || product > i32::MAX as i64 {
            None
        } else {
            Some(product as i32)
        }
    }
}

/// Coefficients times a step.
pub open spec fn scaled(input: Seq<i32>, step: u32) -> Seq<i32> {
    Seq::new(input.len(), |index: int| (input[index] * step) as i32)
}

/// Whether all coefficients fit after scaling.
pub open spec fn all_fit(input: Seq<i32>, step: u32) -> bool {
    forall|index: int| 0 <= index < input.len() ==> fits_scaled(#[trigger] input[index], step)
}

/// The error of a coefficient that does not fit after scaling.
pub open spec fn scaling_overflow() -> ReconstructionError {
    ReconstructionError::ArithmeticOverflow("coefficient dequantization")
}

/// Scales coefficients, and returns whether vector units are used for so many of them.
///
/// Vector units change how fast the coefficients are scaled, never what comes out.
pub fn scale_coefficients(
    cpu: CpuCapabilities,
    quantizer: Quantizer,
    input: &[i32],
    output: &mut Vec<i32>,
) -> (result: Result<bool, ReconstructionError>)
    ensures
        result == (if input@.len() != old(output)@.len() {
            Err::<bool, ReconstructionError>(
                ReconstructionError::InvalidPlaneGeometry(
                    "SIMD dequantization slice lengths differ",
                ),
            )
        } else if !all_fit(input@, quantizer.step_size()) {
            Err(scaling_overflow())
        } else {
            Ok(input@.len() >= MIN_VECTOR_COEFFICIENTS && cpu.vectorizes())
        }),
        final(output)@ == (if result is Ok {
            scaled(input@, quantizer.step_size())
        } else {
            old(output)@
        }),
{
    if input.len() != output.len() {
        return Err(
            ReconstructionError::InvalidPlaneGeometry("SIMD dequantization slice lengths differ"),
        );
    }
    for index in 0..input.len()
        invariant
            forall|earlier: int|
                0 <= earlier < index ==> fits_scaled(
                    #[trigger] input@[earlier],
                    quantizer.step_size(),
                ),
            output@ == old(output)@,
            input@.len() == old(output)@.len(),
    {
        if quantizer.dequantize(input[index]).is_none() {
            assert(!fits_scaled(input@[index as int], quantizer.step_size()));
            return Err(ReconstructionError::ArithmeticOverflow("coefficient dequantization"));
        }
    }
    for index in 0..input.len()
        invariant
            all_fit(input@, quantizer.step_size()),
            input@.len() == output@.len(),
            forall|earlier: int|
                0 <= earlier < index ==> #[trigger] output@[earlier] == (input@[earlier]
                    * quantizer.step_size()) as i32,
    {
        assert(fits_scaled(input@[index as int], quantizer.step_size()));
        if let Some(value) = quantizer.dequantize(input[index]) {
            output.set(index, value);
        }
    }
    assert(output@ =~= scaled(input@, quantizer.step_size()));
    Ok(input.len() >= MIN_VECTOR_COEFFICIENTS && cpu.accelerates_i32())
}

/// The DC and low-pass coefficients of a macroblock of `blocks` blocks, scaled.
pub open spec fn low_scaled(macroblock: QuantizedMacroblock, blocks: int) -> Result<
    Seq<i32>,
    ReconstructionError,
> {
    let dc = macroblock.quantizers.dc;
    let low_pass = macroblock.quantizers.low_pass;
    let input = macroblock.dc_low_pass@;
    let coded = macroblock.bands.has_low_pass();
    if dc == 0 {
        Err(ReconstructionError::ZeroQuantizer("DC"))
    } else if low_pass == 0 {
        Err(ReconstructionError::ZeroQuantizer("low-pass"))
    } else if !fits_scaled(input[0], dc) || (coded && !all_fit(
        input.subrange(1, blocks),
        low_pass,
    )) {
        Err(scaling_overflow())
    } else {
        Ok(
            Seq::new(
                16,
                |index: int|
                    if index == 0 {
                        (input[0] * dc) as i32
                    } else if index < blocks && coded {
                        (input[index] * low_pass) as i32
                    } else {
                        0
                    },
            ),
        )
    }
}

/// Whether an array result is the one that is expected.
pub open spec fn gives<const N: usize>(
    result: Result<[i32; N], ReconstructionError>,
    expected: Result<Seq<i32>, ReconstructionError>,
) -> bool {
    match (result, expected) {
        (Ok(values), Ok(expected)) => values@ == expected,
        (Err(error), Err(expected)) => error == expected,
        _ => false,
    }
}

fn quantizer(step: u32, band: &'static str) -> (result: Result<Quantizer, ReconstructionError>)
    ensures
        match result {
            Ok(quantizer) => step != 0 && quantizer.step_size() == step,
            Err(error) => step == 0 && error == ReconstructionError::ZeroQuantizer(band),
        },
{
    match Quantizer::new(step) {
        Some(quantizer) => Ok(quantizer),
        None => Err(ReconstructionError::ZeroQuantizer(band)),
    }
}

fn scale(quantizer: Quantizer, coefficient: i32) -> (result: Result<i32, ReconstructionError>)
    ensures
        result == (if fits_scaled(coefficient, quantizer.step_size()) {
            Ok::<i32, ReconstructionError>((coefficient * quantizer.step_size()) as i32)
        } else {
            Err(scaling_overflow())
        }),
{
    match quantizer.dequantize(coefficient) {
        Some(value) => Ok(value),
        None => Err(ReconstructionError::ArithmeticOverflow("coefficient dequantization")),
    }
}

/// The DC coefficient of a macroblock, scaled.
pub open spec fn dc_scaled(macroblock: QuantizedMacroblock) -> Result<i32, ReconstructionError> {
    if macroblock.quantizers.dc == 0 {
        Err(ReconstructionError::ZeroQuantizer("DC"))
    } else if !fits_scaled(macroblock.dc_low_pass@[0], macroblock.quantizers.dc) {
        Err(scaling_overflow())
    } else {
        Ok((macroblock.dc_low_pass@[0] * macroblock.quantizers.dc) as i32)
    }
}

/// Returns the DC coefficient of a macroblock, scaled.
pub(crate) fn dequantize_dc(macroblock: &QuantizedMacroblock) -> (result: Result<
    i32,
    ReconstructionError,
>)
    ensures
        result == dc_scaled(*macroblock),
{
    let dc: Quantizer = quantizer(macroblock.quantizers.dc, "DC")?;
    scale(dc, macroblock.dc_low_pass[0])
}

/// Returns the DC and low-pass coefficients of a macroblock of `blocks` blocks, scaled.
pub(crate) fn dequantize_low(macroblock: &QuantizedMacroblock, blocks: usize) -> (result: Result<
    [i32; 16],
    ReconstructionError,
>)
    requires
        1 <= blocks <= 16,
    ensures
        gives(result, low_scaled(*macroblock, blocks as int)),
{
    let dc: Quantizer = quantizer(macroblock.quantizers.dc, "DC")?;
    let low_pass: Quantizer = quantizer(macroblock.quantizers.low_pass, "low-pass")?;
    let ghost input = macroblock.dc_low_pass@;
    let ghost rest = input.subrange(1, blocks as int);
    let mut low: [i32; 16] = [0;16];
    low[0] = scale(dc, macroblock.dc_low_pass[0])?;
    if macroblock.bands.has_low_pass() {
        for index in 1..blocks
            invariant
                1 <= blocks <= 16,
                input == macroblock.dc_low_pass@,
                rest == input.subrange(1, blocks as int),
                macroblock.bands.has_low_pass(),
                dc.step_size() == macroblock.quantizers.dc,
                dc.step_size() != 0,
                low_pass.step_size() == macroblock.quantizers.low_pass,
                low_pass.step_size() != 0,
                fits_scaled(input[0], dc.step_size()),
                forall|earlier: int|
                    0 <= earlier < index - 1 ==> fits_scaled(
                        #[trigger] rest[earlier],
                        low_pass.step_size(),
                    ),
                forall|place: int|
                    0 <= place < 16 ==> #[trigger] low@[place] == (if place == 0 {
                        (input[0] * dc.step_size()) as i32
                    } else if place < index {
                        (input[place] * low_pass.step_size()) as i32
                    } else {
                        0
                    }),
        {
            assert(rest[index - 1] == input[index as int]);
            low[index] = scale(low_pass, macroblock.dc_low_pass[index])?;
        }
    }
    assert(low@ =~= low_scaled(*macroblock, blocks as int)->Ok_0);
    Ok(low)
}

/// High-pass coefficients without the first one of each block.
pub open spec fn without_first(input: Seq<i32>, count: int) -> Seq<i32> {
    Seq::new(
        count as nat,
        |index: int|
            if index % 16 == 0 {
                0
            } else {
                input[index]
            },
    )
}

/// The high-pass coefficients of a macroblock of `blocks` blocks, scaled; the first one of each
/// block is zero.
pub open spec fn high_scaled(macroblock: QuantizedMacroblock, blocks: int) -> Result<
    Seq<i32>,
    ReconstructionError,
> {
    let step = macroblock.quantizers.high_pass;
    let coded = macroblock.bands.has_high_pass();
    let input = without_first(macroblock.high_pass@, 16 * blocks);
    if step == 0 {
        Err(ReconstructionError::ZeroQuantizer("high-pass"))
    } else if coded && !all_fit(input, step) {
        Err(scaling_overflow())
    } else {
        Ok(
            Seq::new(
                256,
                |index: int|
                    if coded && index < 16 * blocks {
                        (input[index] * step) as i32
                    } else {
                        0
                    },
            ),
        )
    }
}

/// Returns the high-pass coefficients of a macroblock of `blocks` blocks, scaled, with vector
/// units if there are some.
pub(crate) fn dequantize_high(
    macroblock: &QuantizedMacroblock,
    blocks: usize,
    cpu: Option<CpuCapabilities>,
) -> (result: Result<[i32; 256], ReconstructionError>)
    requires
        1 <= blocks <= 16,
    ensures
        gives(result, high_scaled(*macroblock, blocks as int)),
{
    let step: Quantizer = quantizer(macroblock.quantizers.high_pass, "high-pass")?;
    let count: usize = blocks * 16;
    let ghost input = without_first(macroblock.high_pass@, count as int);
    let mut high: [i32; 256] = [0;256];
    if macroblock.bands.has_high_pass() {
        let mut coefficients: Vec<i32> = Vec::new();
        for index in 0..count
            invariant
                count <= 256,
                input == without_first(macroblock.high_pass@, count as int),
                coefficients@ == input.take(index as int),
        {
            coefficients.push(
                if index % 16 == 0 {
                    0
                } else {
                    macroblock.high_pass[index]
                },
            );
            assert(coefficients@ =~= input.take(index as int + 1));
        }
        assert(coefficients@ =~= input);
        let mut output: Vec<i32> = Vec::new();
        match cpu {
            Some(cpu) => {
                for index in 0..count
                    invariant
                        output@.len() == index,
                {
                    output.push(0);
                }
                scale_coefficients(cpu, step, coefficients.as_slice(), &mut output)?;
            },
            None => {
                for index in 0..count
                    invariant
                        step.step_size() != 0,
                        step.step_size() == macroblock.quantizers.high_pass,
                        macroblock.bands.has_high_pass(),
                        count == 16 * blocks,
                        input == without_first(macroblock.high_pass@, count as int),
                        coefficients@ == input,
                        output@ == scaled(input.take(index as int), step.step_size()),
                        forall|earlier: int|
                            0 <= earlier < index ==> fits_scaled(
                                #[trigger] input[earlier],
                                step.step_size(),
                            ),
                {
                    output.push(scale(step, coefficients[index])?);
                    assert(output@ =~= scaled(input.take(index as int + 1), step.step_size()));
                }
                assert(input.take(count as int) =~= input);
            },
        }
        for index in 0..count
            invariant
                count <= 256,
                count == output@.len(),
                count == input.len(),
                output@ == scaled(input, step.step_size()),
                forall|place: int|
                    0 <= place < 256 ==> #[trigger] high@[place] == (if place < index {
                        (input[place] * step.step_size()) as i32
                    } else {
                        0
                    }),
        {
            high[index] = output[index];
        }
    }
    assert(high@ =~= high_scaled(*macroblock, blocks as int)->Ok_0);
    Ok(high)
}

} // verus!

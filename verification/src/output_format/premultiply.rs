//! Typed output-storage alpha premultiplication.

use crate::output_format::error::OutputFormatError;
use crate::output_format::samples;
use crate::output_format::samples::{DecodedSamples, Element, SamplesModel, Storage};
use crate::reconstruct::raster;
use crate::types::PixelFormat;
use vstd::prelude::*;

verus! {

/// Operator on the numbers of a pixel, supplied by the caller.
#[derive(Debug, Clone, Copy, PartialEq, Eq, Structural)]
pub enum PixelOperator {
    /// An unsigned number times alpha, where the given number stands for one.
    PremultiplyUnsigned(u32),
    /// A signed number times alpha, where the given number stands for one.
    PremultiplySigned(i32),
    /// A number with a sign and 15 bits of magnitude times alpha.
    PremultiplySignMagnitude,
    /// A single-precision bit pattern times alpha.
    PremultiplyFloat,
    /// The word with a shared exponent of red, green and blue.
    PackRgbe,
}

/// Whether a number is one that an operator gives.
pub open spec fn in_range(operator: PixelOperator, value: int) -> bool {
    match operator {
        PixelOperator::PremultiplyUnsigned(maximum) => 0 <= value <= maximum,
        PixelOperator::PremultiplySigned(maximum) => -1 - maximum <= value <= maximum,
        PixelOperator::PremultiplySignMagnitude => 0 <= value <= u16::MAX,
        PixelOperator::PremultiplyFloat | PixelOperator::PackRgbe => 0 <= value <= u32::MAX,
    }
}

/// Whether an operator always gives a number.
pub open spec fn always_gives(operator: PixelOperator) -> bool {
    operator == PixelOperator::PremultiplyFloat || operator == PixelOperator::PackRgbe
}

/// Whether the operators can be called, and give numbers in range.
pub open spec fn usable<O: Fn(PixelOperator, [i64; 3]) -> Option<i64>>(operators: O) -> bool {
    &&& forall|operator: PixelOperator, values: [i64; 3]|
        call_requires(operators, (operator, values))
    &&& forall|operator: PixelOperator, values: [i64; 3], output: Option<i64>| #[trigger]
        call_ensures(operators, (operator, values), output) ==> match output {
            Some(value) => in_range(operator, value as int),
            None => !always_gives(operator),
        }
}

/// Whether the executable operators compute what the rule says.
pub open spec fn computes<O: Fn(PixelOperator, [i64; 3]) -> Option<i64>>(
    operators: O,
    rule: spec_fn(PixelOperator, Seq<int>) -> Option<int>,
) -> bool {
    forall|operator: PixelOperator, values: [i64; 3], output: Option<i64>| #[trigger]
        call_ensures(operators, (operator, values), output) ==> match (
            output,
            rule(operator, seq![values[0] as int, values[1] as int, values[2] as int]),
        ) {
            (Some(output), Some(expected)) => output == expected,
            (None, None) => true,
            _ => false,
        }
}

/// The operator for a kind of storage.
pub open spec fn premultiplier(storage: Storage) -> Option<PixelOperator> {
    match storage {
        Storage::U8 => Some(PixelOperator::PremultiplyUnsigned(255)),
        Storage::U16 => Some(PixelOperator::PremultiplyUnsigned(65_535)),
        Storage::I16 => Some(PixelOperator::PremultiplySigned(32_767)),
        Storage::I32 => Some(PixelOperator::PremultiplySigned(i32::MAX)),
        Storage::F16 => Some(PixelOperator::PremultiplySignMagnitude),
        Storage::F32 => Some(PixelOperator::PremultiplyFloat),
        _ => None,
    }
}

/// A colour number times the alpha number of its pixel, which comes last.
pub open spec fn product(
    values: Seq<int>,
    channels: int,
    index: int,
    operator: PixelOperator,
    rule: spec_fn(PixelOperator, Seq<int>) -> Option<int>,
) -> Option<int> {
    rule(
        operator,
        seq![values[index], values[(index / channels) * channels + channels - 1], 0],
    )
}

/// Numbers, with each colour number times the alpha number of its pixel.
pub open spec fn premultiplied_values(
    values: Seq<int>,
    channels: int,
    operator: PixelOperator,
    rule: spec_fn(PixelOperator, Seq<int>) -> Option<int>,
) -> Result<Seq<int>, OutputFormatError> {
    if exists|index: int|
        0 <= index < values.len() && index % channels != channels - 1 && (#[trigger] product(
            values,
            channels,
            index,
            operator,
            rule,
        )) is None {
        Err(OutputFormatError::arithmetic("premultiplying output alpha"))
    } else {
        Ok(
            Seq::new(
                values.len(),
                |index: int|
                    if index % channels == channels - 1 {
                        values[index]
                    } else {
                        product(values, channels, index, operator, rule)->0
                    },
            ),
        )
    }
}

/// Samples, with each colour number times the alpha number of its pixel.
pub open spec fn premultiplied(
    samples: SamplesModel,
    channels: int,
    rule: spec_fn(PixelOperator, Seq<int>) -> Option<int>,
) -> Result<SamplesModel, OutputFormatError> {
    match premultiplier(samples.storage) {
        None => Err(OutputFormatError::unsupported("alpha premultiplication for packed output")),
        Some(operator) => match premultiplied_values(samples.values, channels, operator, rule) {
            Err(error) => Err(error),
            Ok(values) => Ok(SamplesModel { storage: samples.storage, values }),
        },
    }
}

/// Whether an executable result is the one that is expected.
pub open spec fn leaves(
    result: Result<(), OutputFormatError>,
    values: Seq<int>,
    expected: Result<Seq<int>, OutputFormatError>,
) -> bool {
    match (result, expected) {
        (Ok(_), Ok(expected)) => values == expected,
        (Err(error), Err(expected)) => error == expected,
        _ => false,
    }
}

/// Multiplies each colour element by the alpha element of its pixel.
pub(crate) fn premultiply_elements<T: Element, O: Fn(PixelOperator, [i64; 3]) -> Option<i64>>(
    values: &mut Vec<T>,
    channels: usize,
    operator: PixelOperator,
    operators: &O,
) -> (result: Result<(), OutputFormatError>)
    requires
        usable(*operators),
        channels >= 1,
        old(values)@.len() as int % channels as int == 0,
        forall|value: int| in_range(operator, value) ==> #[trigger] T::holds(value),
    ensures
        final(values)@.len() == old(values)@.len(),
        forall|rule: spec_fn(PixelOperator, Seq<int>) -> Option<int>| #[trigger]
            computes(*operators, rule) ==> leaves(
                result,
                samples::numbers(final(values)@),
                premultiplied_values(
                    samples::numbers(old(values)@),
                    channels as int,
                    operator,
                    rule,
                ),
            ),
{
    let ghost input = samples::numbers(values@);
    let length: usize = values.len();
    let mut index: usize = 0;
    while index < length
        invariant
            usable(*operators),
            channels >= 1,
            length == values@.len(),
            length == old(values)@.len(),
            length as int % channels as int == 0,
            index <= length,
            input == samples::numbers(old(values)@),
            forall|value: int| in_range(operator, value) ==> #[trigger] T::holds(value),
            forall|place: int|
                index <= place < length ==> #[trigger] values@[place] == old(values)@[place],
            forall|place: int|
                0 <= place < length && place % (channels as int) == channels - 1
                    ==> #[trigger] values@[place] == old(values)@[place],
            forall|rule: spec_fn(PixelOperator, Seq<int>) -> Option<int>, place: int|
                computes(*operators, rule) && 0 <= place < index && place % (channels as int)
                    != channels - 1 ==> (#[trigger] product(
                    input,
                    channels as int,
                    place,
                    operator,
                    rule,
                )) == Some(values@[place].number()),
        decreases length - index,
    {
        let column: usize = index % channels;
        if column != channels - 1 {
            proof {
                lemma_alpha_place(index as int, length as int, channels as int);
            }
            let alpha: usize = index - column + (channels - 1);
            let operands: [i64; 3] = [values[index].to_number(), values[alpha].to_number(), 0];
            let output: Option<i64> = operators(operator, operands);
            proof {
                assert(values@[index as int] == old(values)@[index as int]);
                assert(values@[alpha as int] == old(values)@[alpha as int]);
                assert forall|rule: spec_fn(PixelOperator, Seq<int>) -> Option<int>| #[trigger]
                    computes(*operators, rule) implies match (
                    output,
                    product(input, channels as int, index as int, operator, rule),
                ) {
                    (Some(output), Some(expected)) => output == expected,
                    (None, None) => true,
                    _ => false,
                } by {
                    assert(seq![operands[0] as int, operands[1] as int, operands[2] as int]
                        =~= seq![
                        input[index as int],
                        input[(index as int / channels as int) * channels + channels - 1],
                        0,
                    ]);
                }
            }
            match output {
                Some(value) => {
                    let element: T = T::from_number(value);
                    values.set(index, element);
                },
                None => {
                    return Err(OutputFormatError::arithmetic("premultiplying output alpha"));
                },
            }
        }
        index = index + 1;
    }
    proof {
        assert forall|rule: spec_fn(PixelOperator, Seq<int>) -> Option<int>| #[trigger]
            computes(*operators, rule) implies leaves(
            Ok::<(), OutputFormatError>(()),
            samples::numbers(values@),
            premultiplied_values(input, channels as int, operator, rule),
        ) by {
            let expected = premultiplied_values(input, channels as int, operator, rule);
            assert(expected is Ok);
            assert forall|place: int| 0 <= place < length implies #[trigger] samples::numbers(
                values@,
            )[place] == expected->Ok_0[place] by {
                if place % (channels as int) == channels - 1 {
                    assert(values@[place] == old(values)@[place]);
                } else {
                    assert(product(input, channels as int, place, operator, rule) == Some(
                        values@[place].number(),
                    ));
                }
            }
            assert(samples::numbers(values@) =~= expected->Ok_0);
        }
    }
    Ok(())
}

/// The alpha number of a pixel is one of the numbers.
proof fn lemma_alpha_place(index: int, length: int, channels: int)
    requires
        0 <= index < length,
        channels >= 1,
        length % channels == 0,
    ensures
        index - index % channels == (index / channels) * channels,
        0 <= index % channels < channels,
        (index / channels) * channels + channels - 1 < length,
        ((index / channels) * channels + channels - 1) % channels == channels - 1,
{
    vstd::arithmetic::div_mod::lemma_fundamental_div_mod(index, channels);
    vstd::arithmetic::div_mod::lemma_fundamental_div_mod(length, channels);
    let row = index / channels;
    let rows = length / channels;
    assert(channels * row == row * channels) by (nonlinear_arith);
    assert(channels * rows == rows * channels) by (nonlinear_arith);
    assert(row < rows) by (nonlinear_arith)
        requires
            row * channels <= index,
            index < rows * channels,
            channels >= 1,
    ;
    assert(row * channels + channels <= rows * channels) by (nonlinear_arith)
        requires
            row + 1 <= rows,
            channels >= 1,
    ;
    raster::lemma_parts(row, channels - 1, channels);
}

/// Multiplies each colour number by the alpha number of its pixel.
pub(crate) fn premultiply_output<O: Fn(PixelOperator, [i64; 3]) -> Option<i64>>(
    samples: &mut DecodedSamples,
    format: PixelFormat,
    operators: &O,
) -> (result: Result<(), OutputFormatError>)
    requires
        usable(*operators),
        premultiplier(old(samples)@.storage) is Some ==> format.layout().channels() >= 1 && old(
            samples,
        )@.values.len() as int % format.layout().channels() as int == 0,
    ensures
        final(samples)@.storage == old(samples)@.storage,
        final(samples)@.values.len() == old(samples)@.values.len(),
        forall|rule: spec_fn(PixelOperator, Seq<int>) -> Option<int>| #[trigger]
            computes(*operators, rule) ==> match (
                result,
                premultiplied(old(samples)@, format.layout().channels() as int, rule),
            ) {
                (Ok(_), Ok(expected)) => final(samples)@ == expected,
                (Err(error), Err(expected)) => error == expected,
                _ => false,
            },
{
    let channels: usize = format.channel_count() as usize;
    match samples {
        DecodedSamples::U8(values) => premultiply_elements(
            values,
            channels,
            PixelOperator::PremultiplyUnsigned(255),
            operators,
        ),
        DecodedSamples::U16(values) => premultiply_elements(
            values,
            channels,
            PixelOperator::PremultiplyUnsigned(65_535),
            operators,
        ),
        DecodedSamples::I16(values) => premultiply_elements(
            values,
            channels,
            PixelOperator::PremultiplySigned(32_767),
            operators,
        ),
        DecodedSamples::I32(values) => premultiply_elements(
            values,
            channels,
            PixelOperator::PremultiplySigned(i32::MAX),
            operators,
        ),
        DecodedSamples::F16(values) => premultiply_elements(
            values,
            channels,
            PixelOperator::PremultiplySignMagnitude,
            operators,
        ),
        DecodedSamples::F32(values) => premultiply_elements(
            values,
            channels,
            PixelOperator::PremultiplyFloat,
            operators,
        ),
        _ => Err(OutputFormatError::unsupported("alpha premultiplication for packed output")),
    }
}

} // verus!

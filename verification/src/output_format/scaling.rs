//! Bias, scaled-stream rounding, and postscaling.

use crate::output_format::error::OutputFormatError;
use crate::output_format::request::OutputBitDepth;
use crate::types::ColorFormat;
use vstd::arithmetic::power2::*;
use vstd::prelude::*;

verus! {

/// Whether a number fits in 32 bits with a sign.
pub open spec fn fits(value: int) -> bool {
    i32::MIN <= value <= i32::MAX
}

/// The left shift of a bit depth.
pub open spec fn shift_of(depth: OutputBitDepth) -> u8 {
    match depth {
        OutputBitDepth::U16 { shift_bits } | OutputBitDepth::I16 { shift_bits }
        | OutputBitDepth::I32 { shift_bits } => shift_bits,
        _ => 0,
    }
}

/// The bias of a bit depth: half of the unsigned range, before the left shift.
pub open spec fn bias_of(depth: OutputBitDepth) -> int {
    match depth {
        OutputBitDepth::Rgb555 => 16,
        OutputBitDepth::Rgb565 => 32,
        OutputBitDepth::U8 => 128,
        OutputBitDepth::U10 | OutputBitDepth::Rgb101010 => 512,
        OutputBitDepth::U16 { shift_bits } => 0x8000int / pow2(shift_bits as nat) as int,
        _ => 0,
    }
}

/// The bias of a component: half of it for the colours of CMYK, the other way for its black, and
/// none for RGBE.
pub open spec fn component_bias(output_color: ColorFormat, component: int, bias: int) -> int {
    match output_color {
        ColorFormat::Cmyk => if component < 3 {
            bias / 2
        } else {
            -(bias / 2)
        },
        ColorFormat::Rgbe => 0,
        _ => bias,
    }
}

/// What is added to scaled samples before they are shifted.
pub open spec fn rounding_of(depth: OutputBitDepth, scaled: bool) -> int {
    if !scaled {
        0
    } else {
        match depth {
            OutputBitDepth::Bit1White | OutputBitDepth::Bit1Black | OutputBitDepth::U16 { .. } => 4,
            _ => 3,
        }
    }
}

/// What samples are divided by: eight for scaled streams, and two more for red and blue with fewer
/// bits than green.
pub open spec fn divisor_of(depth: OutputBitDepth, component: int, scaled: bool) -> int {
    let stream = if scaled {
        8int
    } else {
        1
    };
    if depth == OutputBitDepth::Rgb565 && component != 1 {
        2 * stream
    } else {
        stream
    }
}

/// A sample after bias, rounding, division and left shift.
pub open spec fn scaled_component(
    sample: i32,
    component: int,
    output_color: ColorFormat,
    depth: OutputBitDepth,
    scaled: bool,
) -> Result<i32, OutputFormatError> {
    let bias = component_bias(output_color, component, bias_of(depth)) * if scaled {
        8int
    } else {
        1
    };
    let rounded = sample + bias + rounding_of(depth, scaled);
    let divided = rounded / divisor_of(depth, component, scaled);
    let shifted = divided * pow2(shift_of(depth) as nat);
    if shift_of(depth) >= 32 {
        Err(OutputFormatError::unsupported("integer SHIFT_BITS greater than 31"))
    } else if !fits(sample + bias) {
        Err(OutputFormatError::arithmetic("adding output bias"))
    } else if !fits(rounded) {
        Err(OutputFormatError::arithmetic("adding scaled-stream rounding"))
    } else if !fits(shifted) {
        Err(OutputFormatError::arithmetic("integer postscaling"))
    } else {
        Ok(shifted as i32)
    }
}

/// Returns a power of two.
pub(crate) fn power_of_two(exponent: u8) -> (power: u64)
    requires
        exponent <= 32,
    ensures
        power == pow2(exponent as nat),
        1 <= power <= 0x1_0000_0000,
{
    proof {
        lemma2_to64();
        if exponent < 32 {
            lemma_pow2_strictly_increases(exponent as nat, 32);
        }
        lemma_pow2_pos(exponent as nat);
        vstd::bits::lemma_u64_shl_is_mul(1, exponent as u64);
    }
    1u64 << (exponent as u64)
}

fn bias(depth: OutputBitDepth) -> (result: Result<i32, OutputFormatError>)
    ensures
        match result {
            Ok(bias) => shift_of(depth) < 32 && bias == bias_of(depth) && 0 <= bias <= 0x8000,
            Err(error) => shift_of(depth) >= 32 && error == OutputFormatError::unsupported(
                "integer SHIFT_BITS greater than 31",
            ),
        },
{
    let (base, shift): (u64, u8) = match depth {
        OutputBitDepth::Rgb555 => (16, 0),
        OutputBitDepth::Rgb565 => (32, 0),
        OutputBitDepth::U8 => (128, 0),
        OutputBitDepth::U10 | OutputBitDepth::Rgb101010 => (512, 0),
        OutputBitDepth::U16 { shift_bits } => (0x8000, shift_bits),
        OutputBitDepth::I16 { shift_bits } | OutputBitDepth::I32 { shift_bits } => (0, shift_bits),
        OutputBitDepth::Bit1White | OutputBitDepth::Bit1Black | OutputBitDepth::F16
        | OutputBitDepth::F32 { .. } => (0, 0),
    };
    if shift >= 32 {
        return Err(OutputFormatError::unsupported("integer SHIFT_BITS greater than 31"));
    }
    let power: u64 = power_of_two(shift);
    proof {
        lemma2_to64();
        assert(0 <= base as int / power as int <= base) by (nonlinear_arith)
            requires
                0 <= base,
                1 <= power,
        ;
        if shift == 0 {
            assert(base as int / 1 == base);
        }
        if base == 0 {
            assert(0int / power as int == 0) by (nonlinear_arith)
                requires
                    power >= 1,
            ;
        }
    }
    Ok((base / power) as i32)
}

/// Returns a sample after bias, rounding, division and left shift.
pub fn scale_integer_component(
    sample: i32,
    component: usize,
    output_color: ColorFormat,
    depth: OutputBitDepth,
    scaled: bool,
) -> (result: Result<i32, OutputFormatError>)
    ensures
        result == scaled_component(sample, component as int, output_color, depth, scaled),
{
    let bias: i32 = bias(depth)?;
    let component_bias: i32 = match output_color {
        ColorFormat::Cmyk => if component < 3 {
            bias / 2
        } else {
            -(bias / 2)
        },
        ColorFormat::Rgbe => 0,
        _ => bias,
    };
    let stream: i64 = if scaled {
        8
    } else {
        1
    };
    let biased: i64 = sample as i64 + component_bias as i64 * stream;
    if biased < i32::MIN as i64 || biased > i32::MAX as i64 {
        return Err(OutputFormatError::arithmetic("adding output bias"));
    }
    let rounding: i64 = if scaled {
        match depth {
            OutputBitDepth::Bit1White | OutputBitDepth::Bit1Black | OutputBitDepth::U16 { .. } => 4,
            _ => 3,
        }
    } else {
        0
    };
    let rounded: i64 = biased + rounding;
    if rounded > i32::MAX as i64 {
        return Err(OutputFormatError::arithmetic("adding scaled-stream rounding"));
    }
    let narrow: bool = match depth {
        OutputBitDepth::Rgb565 => component != 1,
        _ => false,
    };
    let value: i32 = rounded as i32;
    proof {
        assert(value >> 1u32 == value / 2) by (bit_vector);
        assert(value >> 3u32 == value / 8) by (bit_vector);
        assert(value >> 4u32 == value / 16) by (bit_vector);
    }
    let divided: i32 = if scaled {
        if narrow {
            value >> 4
        } else {
            value >> 3
        }
    } else {
        if narrow {
            value >> 1
        } else {
            value
        }
    };
    proof {
        let divisor = divisor_of(depth, component as int, scaled);
        if scaled {
            assert(divisor == 8 || divisor == 16);
            if narrow {
                assert(divisor == 16);
                assert(rounded as int / 16 == rounded as int / divisor);
            } else {
                assert(divisor == 8);
                assert(rounded as int / 8 == rounded as int / divisor);
            }
        } else if narrow {
            assert(divisor == 2);
            assert(rounded as int / 2 == rounded as int / divisor);
        } else {
            assert(divisor == 1);
            assert(rounded as int / 1 == rounded as int / divisor);
        }
    }
    let shift: u8 = match depth {
        OutputBitDepth::U16 { shift_bits } | OutputBitDepth::I16 { shift_bits }
        | OutputBitDepth::I32 { shift_bits } => shift_bits,
        _ => 0,
    };
    let power: u64 = power_of_two(shift);
    proof {
        assert(-0x8000_0000 * 0x1_0000_0000 <= divided * power <= 0x7FFF_FFFF * 0x1_0000_0000)
            by (nonlinear_arith)
            requires
                -0x8000_0000 <= divided <= 0x7FFF_FFFF,
                1 <= power <= 0x1_0000_0000,
        ;
    }
    let shifted: i64 = divided as i64 * power as i64;
    if shifted < i32::MIN as i64 || shifted > i32::MAX as i64 {
        return Err(OutputFormatError::arithmetic("integer postscaling"));
    }
    Ok(shifted as i32)
}

/// The magnitude of a number.
pub open spec fn magnitude(value: int) -> int {
    if value < 0 {
        -value
    } else {
        value
    }
}

/// The half-precision bit pattern of a sample: sign, and the magnitude, capped at 15 bits.
pub open spec fn half_pattern(sample: i32, scaled: bool) -> Result<u16, OutputFormatError> {
    match scaled_component(sample, 0, ColorFormat::Luma, OutputBitDepth::F16, scaled) {
        Err(error) => Err(error),
        Ok(value) => {
            let size = if magnitude(value as int) > 0x7FFF {
                0x7FFF
            } else {
                magnitude(value as int)
            };
            Ok(
                (size + if value < 0 {
                    0x8000int
                } else {
                    0
                }) as u16,
            )
        },
    }
}

/// Returns the half-precision bit pattern of a sample.
pub fn float16_bits(sample: i32, scaled: bool) -> (result: Result<u16, OutputFormatError>)
    ensures
        result == half_pattern(sample, scaled),
{
    let value: i32 = scale_integer_component(
        sample,
        0,
        ColorFormat::Luma,
        OutputBitDepth::F16,
        scaled,
    )?;
    let size: i64 = if value < 0 {
        -(value as i64)
    } else {
        value as i64
    };
    let capped: u16 = if size > 0x7FFF {
        0x7FFF
    } else {
        size as u16
    };
    Ok(
        if value < 0 {
            0x8000 + capped
        } else {
            capped
        },
    )
}

/// A mantissa and an exponent, with the mantissa doubled and the exponent lowered until the
/// mantissa has its leading bit or the exponent is one.
pub open spec fn normalized(mantissa: int, exponent: int, leading: int) -> (int, int)
    decreases exponent,
{
    if 0 < mantissa < leading && exponent > 1 {
        normalized(2 * mantissa, exponent - 1, leading)
    } else {
        (mantissa, exponent)
    }
}

/// The single-precision bit pattern of a sample whose magnitude holds an exponent and
/// `mantissa_length` bits of mantissa.
pub open spec fn single_pattern(
    sample: i32,
    scaled: bool,
    mantissa_length: u8,
    exponent_bias: i8,
) -> Result<u32, OutputFormatError> {
    let depth = OutputBitDepth::F32 { mantissa_length, exponent_bias };
    let converted = scaled_component(sample, 0, ColorFormat::Luma, depth, scaled);
    let value = converted->Ok_0;
    let size = magnitude(value as int);
    let leading = pow2(mantissa_length as nat) as int;
    let coded = size / leading;
    let (mantissa, exponent) = if coded == 0 {
        normalized(size % leading, 128 - exponent_bias, leading)
    } else {
        (size % leading + leading, coded - exponent_bias + 127)
    };
    let stored_exponent = if mantissa < leading {
        0
    } else {
        exponent
    };
    let stored_mantissa = if mantissa < leading {
        mantissa
    } else {
        mantissa - leading
    };
    if mantissa_length > 23 {
        Err(OutputFormatError::unsupported("BD32F mantissa length greater than 23"))
    } else if converted is Err {
        Err(converted->Err_0)
    } else if stored_exponent < 0 || stored_exponent > 255 {
        Err(OutputFormatError::InvalidFloatingPointSample)
    } else {
        Ok(
            (stored_exponent * 0x80_0000 + stored_mantissa * pow2((23 - mantissa_length) as nat)
                + if value < 0 {
                0x8000_0000int
            } else {
                0
            }) as u32,
        )
    }
}

/// The leading bit of a doubled mantissa.
proof fn lemma_normalized(mantissa: int, exponent: int, leading: int)
    requires
        0 <= mantissa < 2 * leading,
        leading >= 1,
    ensures
        0 <= normalized(mantissa, exponent, leading).0 < 2 * leading,
        normalized(mantissa, exponent, leading).1 <= exponent,
    decreases exponent,
{
    if 0 < mantissa < leading && exponent > 1 {
        lemma_normalized(2 * mantissa, exponent - 1, leading);
    }
}

/// Returns the single-precision bit pattern of a sample whose magnitude holds an exponent and
/// `mantissa_length` bits of mantissa.
pub fn float32_bits(sample: i32, scaled: bool, mantissa_length: u8, exponent_bias: i8) -> (result:
    Result<u32, OutputFormatError>)
    ensures
        result == single_pattern(sample, scaled, mantissa_length, exponent_bias),
{
    if mantissa_length > 23 {
        return Err(OutputFormatError::unsupported("BD32F mantissa length greater than 23"));
    }
    let value: i32 = scale_integer_component(
        sample,
        0,
        ColorFormat::Luma,
        OutputBitDepth::F32 { mantissa_length, exponent_bias },
        scaled,
    )?;
    let size: u64 = if value < 0 {
        (-(value as i64)) as u64
    } else {
        value as u64
    };
    let leading: u64 = power_of_two(mantissa_length);
    let rest: u64 = power_of_two(23 - mantissa_length);
    proof {
        lemma2_to64();
        lemma_pow2_adds(mantissa_length as nat, (23 - mantissa_length) as nat);
        lemma_split(size as int, leading as int);
    }
    let coded: u64 = size / leading;
    let mut mantissa: u64 = size % leading;
    let mut exponent: i64 = 128 - exponent_bias as i64;
    if coded != 0 {
        mantissa = mantissa + leading;
        exponent = coded as i64 - exponent_bias as i64 + 127;
    }
    let ghost goal = normalized(mantissa as int, exponent as int, leading as int);
    proof {
        lemma_normalized(mantissa as int, exponent as int, leading as int);
    }
    while mantissa < leading && exponent > 1 && mantissa > 0
        invariant
            1 <= leading <= 0x1_0000_0000,
            mantissa < 2 * leading,
            exponent <= 0x1_0000_0000,
            goal == normalized(mantissa as int, exponent as int, leading as int),
        decreases exponent,
    {
        exponent = exponent - 1;
        mantissa = 2 * mantissa;
    }
    let (stored_exponent, stored_mantissa): (i64, u64) = if mantissa < leading {
        (0, mantissa)
    } else {
        (exponent, mantissa - leading)
    };
    if stored_exponent < 0 || stored_exponent > 255 {
        return Err(OutputFormatError::InvalidFloatingPointSample);
    }
    proof {
        assert(stored_mantissa * rest < leading * rest) by (nonlinear_arith)
            requires
                stored_mantissa < leading,
                rest >= 1,
        ;
        assert(leading * rest == 0x80_0000);
        assert(0 <= stored_mantissa * rest) by (nonlinear_arith);
    }
    let low: u64 = stored_mantissa * rest;
    let sign: u64 = if value < 0 {
        0x8000_0000
    } else {
        0
    };
    Ok((sign + stored_exponent as u64 * 0x80_0000 + low) as u32)
}

/// A quotient and a remainder are not above the dividend.
proof fn lemma_split(value: int, unit: int)
    requires
        value >= 0,
        unit >= 1,
    ensures
        0 <= value / unit <= value,
        0 <= value % unit < unit,
{
    assert(0 <= value / unit <= value && 0 <= value % unit < unit) by (nonlinear_arith)
        requires
            value >= 0,
            unit >= 1,
    ;
}

} // verus!

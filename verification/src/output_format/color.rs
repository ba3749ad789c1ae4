//! Reversible internal-to-output colour conversions.

use crate::output_format::error::OutputFormatError;
use crate::output_format::scaling;
use crate::types::{ChromaSampling, ColorFormat};
use vstd::prelude::*;

verus! {

/// The error of a conversion that overflowed.
pub open spec fn conversion_overflow() -> OutputFormatError {
    OutputFormatError::arithmetic("converting internal colour")
}

/// Half of a number, rounded up.
pub open spec fn half_up(value: int) -> int {
    (value + 1) / 2
}

/// Red, green and blue from luma and two chroma components.
pub open spec fn rgb_of(y: int, u: int, v: int) -> (int, int, int) {
    let green = y - (-u) / 2;
    let red = green - u - half_up(v);
    (red, green, v + red)
}

/// Luma and two chroma components from red, green and blue.
pub open spec fn yuv_of(red: int, green: int, blue: int) -> (int, int, int) {
    let v = blue - red;
    let u = green - red - half_up(v);
    (green + (-u) / 2, u, v)
}

/// The conversion to red, green and blue loses nothing: luma and chroma can be had back.
pub proof fn lemma_yuv_is_reversible(y: int, u: int, v: int)
    ensures
        yuv_of(rgb_of(y, u, v).0, rgb_of(y, u, v).1, rgb_of(y, u, v).2) == (y, u, v),
{
}

/// Every red, green and blue has luma and chroma that it is converted from.
pub proof fn lemma_rgb_is_reached(red: int, green: int, blue: int)
    ensures
        rgb_of(yuv_of(red, green, blue).0, yuv_of(red, green, blue).1, yuv_of(red, green, blue).2)
            == (red, green, blue),
{
}

/// Cyan, magenta, yellow and black from luma, two chroma components and black.
pub open spec fn cmyk_of(y: int, u: int, v: int, k: int) -> (int, int, int, int) {
    let black = k + y / 2;
    let magenta = black - y - u / 2;
    let cyan = u + magenta + v / 2;
    (cyan, magenta, cyan - v, black)
}

/// Luma, two chroma components and black from cyan, magenta, yellow and black.
pub open spec fn yuvk_of(cyan: int, magenta: int, yellow: int, black: int) -> (int, int, int, int) {
    let v = cyan - yellow;
    let u = cyan - magenta - v / 2;
    let y = black - magenta - u / 2;
    (y, u, v, black - y / 2)
}

/// The conversion to cyan, magenta, yellow and black loses nothing.
pub proof fn lemma_yuvk_is_reversible(y: int, u: int, v: int, k: int)
    ensures
        ({
            let ink = cmyk_of(y, u, v, k);
            yuvk_of(ink.0, ink.1, ink.2, ink.3) == (y, u, v, k)
        }),
{
}

/// The red, green and blue of luma and chroma samples, if no step overflows.
pub open spec fn converted_yuv(y: i32, u: i32, v: i32) -> Result<Seq<i32>, OutputFormatError> {
    let (red, green, blue) = rgb_of(y as int, u as int, v as int);
    if scaling::fits(-u) && scaling::fits(green) && scaling::fits(green - u) && scaling::fits(red)
        && scaling::fits(blue) {
        Ok(seq![red as i32, green as i32, blue as i32])
    } else {
        Err(conversion_overflow())
    }
}

/// The inks of luma, chroma and black samples, if no step overflows.
pub open spec fn converted_yuvk(y: i32, u: i32, v: i32, k: i32) -> Result<
    Seq<i32>,
    OutputFormatError,
> {
    let (cyan, magenta, yellow, black) = cmyk_of(y as int, u as int, v as int, k as int);
    if scaling::fits(black) && scaling::fits(black - y) && scaling::fits(magenta) && scaling::fits(
        u + magenta,
    ) && scaling::fits(cyan) && scaling::fits(yellow) {
        Ok(seq![cyan as i32, magenta as i32, yellow as i32, black as i32])
    } else {
        Err(conversion_overflow())
    }
}

/// Four components of the output colour format from four of the internal one.
pub open spec fn converted(
    internal: ColorFormat,
    output: ColorFormat,
    input: Seq<i32>,
    packed_rgb: bool,
    red_blue_not_swapped: bool,
) -> Result<Seq<i32>, OutputFormatError> {
    match (internal, output) {
        (ColorFormat::Luma, ColorFormat::Luma) => Ok(seq![input[0], 0, 0, 0]),
        (ColorFormat::Luma, ColorFormat::Rgb) => Ok(seq![input[0], input[0], input[0], 0]),
        (ColorFormat::Yuv(ChromaSampling::Cs444), ColorFormat::Rgb)
        | (ColorFormat::Yuv(ChromaSampling::Cs444), ColorFormat::Rgbe) => match converted_yuv(
            input[0],
            input[1],
            input[2],
        ) {
            Err(error) => Err(error),
            Ok(rgb) => if packed_rgb && !red_blue_not_swapped {
                Ok(seq![rgb[2], rgb[1], rgb[0], 0])
            } else {
                Ok(seq![rgb[0], rgb[1], rgb[2], 0])
            },
        },
        (ColorFormat::YuvK, ColorFormat::Cmyk) => converted_yuvk(
            input[0],
            input[1],
            input[2],
            input[3],
        ),
        (ColorFormat::YuvK, ColorFormat::CmykDirect) => Ok(
            seq![input[1], input[2], input[3], input[0]],
        ),
        _ => Err(
            OutputFormatError::unsupported(
                if internal != output {
                    "internal-to-output colour conversion"
                } else if internal is NComponent {
                    "N-component conversion requires direct component handling"
                } else {
                    "direct conversion requires component handling"
                },
            ),
        ),
    }
}

fn narrowed(value: i64) -> (result: Result<i32, OutputFormatError>)
    ensures
        result == (if scaling::fits(value as int) {
            Ok::<i32, OutputFormatError>(value as i32)
        } else {
            Err(conversion_overflow())
        }),
{
    if value < i32::MIN as i64 || value > i32::MAX as i64 {
        Err(OutputFormatError::arithmetic("converting internal colour"))
    } else {
        Ok(value as i32)
    }
}

/// Returns half of a number, rounded down.
fn half_down(value: i32) -> (half: i32)
    ensures
        half == value as int / 2,
{
    assert(value >> 1u32 == value / 2) by (bit_vector);
    value >> 1
}

fn inverse_yuv(y: i32, u: i32, v: i32) -> (result: Result<[i32; 3], OutputFormatError>)
    ensures
        match (result, converted_yuv(y, u, v)) {
            (Ok(rgb), Ok(expected)) => rgb@ == expected,
            (Err(error), Err(expected)) => error == expected,
            _ => false,
        },
{
    let temporary: i32 = narrowed(-(u as i64))?;
    let green: i32 = narrowed(y as i64 - half_down(temporary) as i64)?;
    let sum: i32 = narrowed(temporary as i64 + green as i64)?;
    let half: i64 = half_down(v) as i64 + if v % 2 != 0 {
        1
    } else {
        0
    };
    assert(half == half_up(v as int));
    let red: i32 = narrowed(sum as i64 - half)?;
    let blue: i32 = narrowed(v as i64 + red as i64)?;
    let rgb: [i32; 3] = [red, green, blue];
    assert(rgb@ =~= converted_yuv(y, u, v)->Ok_0);
    Ok(rgb)
}

fn inverse_yuvk(y: i32, u: i32, v: i32, k: i32) -> (result: Result<[i32; 4], OutputFormatError>)
    ensures
        match (result, converted_yuvk(y, u, v, k)) {
            (Ok(ink), Ok(expected)) => ink@ == expected,
            (Err(error), Err(expected)) => error == expected,
            _ => false,
        },
{
    let black: i32 = narrowed(k as i64 + half_down(y) as i64)?;
    let rest: i32 = narrowed(black as i64 - y as i64)?;
    let magenta: i32 = narrowed(rest as i64 - half_down(u) as i64)?;
    let sum: i32 = narrowed(u as i64 + magenta as i64)?;
    let cyan: i32 = narrowed(sum as i64 + half_down(v) as i64)?;
    let yellow: i32 = narrowed(cyan as i64 - v as i64)?;
    let ink: [i32; 4] = [cyan, magenta, yellow, black];
    assert(ink@ =~= converted_yuvk(y, u, v, k)->Ok_0);
    Ok(ink)
}

/// Returns four components of the output colour format from those of the internal one.
pub fn convert(
    internal: ColorFormat,
    output: ColorFormat,
    input: &[i32],
    packed_rgb: bool,
    red_blue_not_swapped: bool,
) -> (result: Result<[i32; 4], OutputFormatError>)
    requires
        internal matches ColorFormat::Luma ==> input@.len() >= 1,
        internal matches ColorFormat::Yuv(_) ==> input@.len() >= 3,
        internal matches ColorFormat::YuvK ==> input@.len() >= 4,
    ensures
        match (result, converted(internal, output, input@, packed_rgb, red_blue_not_swapped)) {
            (Ok(components), Ok(expected)) => components@ == expected,
            (Err(error), Err(expected)) => error == expected,
            _ => false,
        },
{
    let ghost expected = converted(internal, output, input@, packed_rgb, red_blue_not_swapped);
    match (internal, output) {
        (ColorFormat::Luma, ColorFormat::Luma) => {
            let components: [i32; 4] = [input[0], 0, 0, 0];
            assert(components@ =~= expected->Ok_0);
            Ok(components)
        },
        (ColorFormat::Luma, ColorFormat::Rgb) => {
            let components: [i32; 4] = [input[0], input[0], input[0], 0];
            assert(components@ =~= expected->Ok_0);
            Ok(components)
        },
        (ColorFormat::Yuv(ChromaSampling::Cs444), ColorFormat::Rgb) | (
            ColorFormat::Yuv(ChromaSampling::Cs444),
            ColorFormat::Rgbe,
        ) => {
            let rgb: [i32; 3] = inverse_yuv(input[0], input[1], input[2])?;
            let components: [i32; 4] = if packed_rgb && !red_blue_not_swapped {
                [rgb[2], rgb[1], rgb[0], 0]
            } else {
                [rgb[0], rgb[1], rgb[2], 0]
            };
            assert(components@ =~= expected->Ok_0);
            Ok(components)
        },
        (ColorFormat::YuvK, ColorFormat::Cmyk) => inverse_yuvk(
            input[0],
            input[1],
            input[2],
            input[3],
        ),
        (ColorFormat::YuvK, ColorFormat::CmykDirect) => {
            let components: [i32; 4] = [input[1], input[2], input[3], input[0]];
            assert(components@ =~= expected->Ok_0);
            Ok(components)
        },
        _ => {
            let counted: bool = match internal {
                ColorFormat::NComponent(_) => true,
                _ => false,
            };
            Err(
                OutputFormatError::unsupported(
                    if internal != output {
                        "internal-to-output colour conversion"
                    } else if counted {
                        "N-component conversion requires direct component handling"
                    } else {
                        "direct conversion requires component handling"
                    },
                ),
            )
        },
    }
}

} // verus!

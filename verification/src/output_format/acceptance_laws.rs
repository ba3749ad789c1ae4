//! Which requests are accepted, property by property.

use crate::output_format::channel_laws;
use crate::output_format::request::OutputBitDepth;
use crate::output_format::samples::{storage_of, Storage};
use crate::output_format::validate;
use crate::types::{ChannelLayout, ChromaSampling, ColorFormat, PixelFormat};
use vstd::prelude::*;

verus! {

/// The kind of storage of a bit depth.
pub open spec fn storage_of_depth(depth: OutputBitDepth) -> Storage {
    match depth {
        OutputBitDepth::Bit1White | OutputBitDepth::Bit1Black => Storage::BitPacked,
        OutputBitDepth::U8 => Storage::U8,
        OutputBitDepth::U10 | OutputBitDepth::U16 { .. } => Storage::U16,
        OutputBitDepth::I16 { .. } => Storage::I16,
        OutputBitDepth::I32 { .. } => Storage::I32,
        OutputBitDepth::F16 => Storage::F16,
        OutputBitDepth::F32 { .. } => Storage::F32,
        OutputBitDepth::Rgb555 => Storage::Rgb555,
        OutputBitDepth::Rgb565 => Storage::Rgb565,
        OutputBitDepth::Rgb101010 => Storage::Rgb101010,
    }
}

/// A bit depth goes with the pixel formats that have its kind of storage; single bits are luma, and
/// bytes can also share an exponent.
pub proof fn lemma_depth_has_storage(depth: OutputBitDepth, format: PixelFormat)
    ensures
        validate::depth_fits_storage(depth, format) <==> {
            ||| storage_of(format) == storage_of_depth(depth) && (format is BitPacked
                ==> format.layout() == ChannelLayout::Luma)
            ||| depth == OutputBitDepth::U8 && format == PixelFormat::Rgbe
        },
{
}

/// The colour format that the colours of a layout have.
pub open spec fn color_of_layout(layout: ChannelLayout) -> ColorFormat {
    match layout {
        ChannelLayout::Luma | ChannelLayout::LumaAlpha => ColorFormat::Luma,
        ChannelLayout::Yuv(sampling) | ChannelLayout::Yuva(sampling) => ColorFormat::Yuv(sampling),
        ChannelLayout::Rgb | ChannelLayout::Rgbx | ChannelLayout::Rgba | ChannelLayout::Bgr
        | ChannelLayout::Bgrx | ChannelLayout::Bgra => ColorFormat::Rgb,
        ChannelLayout::Cmyk | ChannelLayout::Cmyka => ColorFormat::Cmyk,
        ChannelLayout::NComponent(count) | ChannelLayout::NComponentAlpha(
            count,
        ) => ColorFormat::NComponent(count),
    }
}

/// A colour format goes with the layouts of its colours, inks with the layout of inks whether or
/// not they are converted, and colours with a shared exponent with their own pixel format alone.
pub proof fn lemma_color_has_layout(color: ColorFormat, format: PixelFormat)
    ensures
        validate::color_fits_layout(color, format) <==> {
            ||| color == ColorFormat::Rgbe && format == PixelFormat::Rgbe
            ||| color == ColorFormat::CmykDirect && color_of_layout(format.layout())
                == ColorFormat::Cmyk
            ||| color != ColorFormat::Rgbe && color == color_of_layout(format.layout())
        },
{
}

/// A layout has alpha exactly if its last channel means alpha, and has as many channels as mean
/// something or pad.
pub proof fn lemma_layout_has_alpha(layout: ChannelLayout)
    ensures
        validate::layout_has_alpha(layout) <==> channel_laws::meaning_of(
            layout,
            layout.channels() - 1,
        ) is Alpha,
        layout.channels() == (match color_of_layout(layout) {
            ColorFormat::Luma => 1int,
            ColorFormat::Cmyk => 4,
            ColorFormat::NComponent(count) => count as int,
            _ => 3,
        }) + (if validate::layout_has_alpha(layout) || layout == ChannelLayout::Rgbx || layout
            == ChannelLayout::Bgrx {
            1int
        } else {
            0
        }),
{
}

/// Colours are given out as they are coded, or luma as red, green and blue that are not floating
/// point, luma and full chroma as red, green and blue or with a shared exponent, and luma, chroma
/// and black as inks. There is no other conversion.
pub proof fn lemma_conversions(internal: ColorFormat, output: ColorFormat, depth: OutputBitDepth)
    ensures
        validate::conversion_exists(internal, output, depth) <==> {
            ||| internal == output && (internal == ColorFormat::Luma || internal is Yuv
                || internal is NComponent)
            ||| output == ColorFormat::Rgb && internal == ColorFormat::Luma && !(depth is F16)
                && !(depth is F32)
            ||| (output == ColorFormat::Rgb || output == ColorFormat::Rgbe) && internal
                == ColorFormat::Yuv(ChromaSampling::Cs444)
            ||| (output == ColorFormat::Cmyk || output == ColorFormat::CmykDirect) && internal
                == ColorFormat::YuvK
        },
{
}

/// Red, green and blue come at every bit depth, luma at every one that is not packed, luma and
/// chroma at those of whole numbers of 16 bits at most, inks and components as bytes and as 16 bits
/// without a sign, and a shared exponent with bytes alone.
pub proof fn lemma_depths_of_colors(color: ColorFormat, depth: OutputBitDepth)
    ensures
        validate::color_has_depth(color, depth) <==> match depth {
            OutputBitDepth::U8 => color != ColorFormat::YuvK,
            OutputBitDepth::U16 { .. } => color != ColorFormat::YuvK && color != ColorFormat::Rgbe,
            OutputBitDepth::U10 | OutputBitDepth::I16 { .. } => color == ColorFormat::Luma || color
                == ColorFormat::Rgb || color is Yuv,
            OutputBitDepth::Rgb555 | OutputBitDepth::Rgb565 | OutputBitDepth::Rgb101010 => color
                == ColorFormat::Rgb,
            _ => color == ColorFormat::Luma || color == ColorFormat::Rgb,
        },
{
}

} // verus!

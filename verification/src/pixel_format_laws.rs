//! What the known pixel formats have in common, property by property.

use crate::header::types::HeadersModel;
use crate::pixel_format::{descriptor_of, format_disagreement};
use crate::types::{
    AnnexABitDepth, AnnexAChannelOrder, AnnexANumericKind, AnnexAPixelFamily,
    AnnexAPixelFormatDescriptor, ChromaSampling,
};
use vstd::prelude::*;

verus! {

/// The codes of the formats with alpha.
pub open spec fn with_alpha(code: u8) -> bool {
    ||| 0x0f <= code <= 0x10
    ||| 0x16 <= code <= 0x17
    ||| 0x19 <= code <= 0x1a
    ||| 0x1d <= code <= 0x1e
    ||| 0x2c <= code <= 0x3a
    ||| code == 0x43
    ||| 0x4c <= code <= 0x53
    ||| code == 0x56
}

/// The codes of the formats whose colours are multiplied by alpha.
pub open spec fn with_multiplied_colors(code: u8) -> bool {
    ||| code == 0x10
    ||| code == 0x17
    ||| code == 0x1a
}

/// The codes of the formats of bytes.
pub open spec fn of_bytes(code: u8) -> bool {
    ||| code == 0x08
    ||| 0x0c <= code <= 0x10
    ||| code == 0x1c
    ||| 0x20 <= code <= 0x25
    ||| code == 0x2c
    ||| 0x2e <= code <= 0x33
    ||| code == 0x3d
    ||| 0x44 <= code <= 0x45
    ||| code == 0x48
    ||| 0x4c <= code <= 0x4d
    ||| code == 0x50
    ||| code == 0x54
    ||| code == 0x56
}

/// The codes of the formats of 16 bits without a sign.
pub open spec fn of_words(code: u8) -> bool {
    ||| code == 0x0b
    ||| 0x15 <= code <= 0x17
    ||| code == 0x1f
    ||| 0x26 <= code <= 0x2b
    ||| code == 0x2d
    ||| 0x34 <= code <= 0x39
    ||| code == 0x43
    ||| code == 0x47
    ||| code == 0x4a
    ||| code == 0x4f
    ||| code == 0x52
    ||| code == 0x55
}

/// The codes of the formats of ten bits.
pub open spec fn of_ten_bits(code: u8) -> bool {
    ||| code == 0x46
    ||| code == 0x49
    ||| code == 0x4e
    ||| code == 0x51
}

/// The codes of the formats of 16 bits with a sign.
pub open spec fn of_signed_words(code: u8) -> bool {
    ||| 0x12 <= code <= 0x13
    ||| code == 0x1d
    ||| code == 0x40
    ||| code == 0x4b
    ||| code == 0x53
}

/// The codes of the formats of 32 bits with a sign.
pub open spec fn of_signed_longs(code: u8) -> bool {
    ||| code == 0x18
    ||| code == 0x1e
    ||| code == 0x3f
    ||| code == 0x41
}

/// The codes of the half-precision formats.
pub open spec fn of_halves(code: u8) -> bool {
    ||| 0x3a <= code <= 0x3b
    ||| code == 0x3e
    ||| code == 0x42
}

/// The codes of the single-precision formats.
pub open spec fn of_singles(code: u8) -> bool {
    ||| code == 0x11
    ||| 0x19 <= code <= 0x1b
}

/// The codes of the luma formats.
pub open spec fn of_luma(code: u8) -> bool {
    ||| code == 0x05
    ||| code == 0x08
    ||| code == 0x0b
    ||| code == 0x11
    ||| code == 0x13
    ||| 0x3e <= code <= 0x3f
}

/// The codes of the formats of inks that are converted.
pub open spec fn of_inks(code: u8) -> bool {
    ||| code == 0x1c
    ||| code == 0x1f
    ||| 0x2c <= code <= 0x2d
}

/// The codes of the formats of inks that are stored as they are.
pub open spec fn of_direct_inks(code: u8) -> bool {
    ||| code == 0x43
    ||| 0x54 <= code <= 0x56
}

/// The codes of the 4:2:0 formats.
pub open spec fn of_quarter_chroma(code: u8) -> bool {
    ||| code == 0x44
    ||| code == 0x4c
}

/// The codes of the 4:2:2 formats.
pub open spec fn of_half_chroma(code: u8) -> bool {
    ||| 0x45 <= code <= 0x47
    ||| 0x4d <= code <= 0x4f
}

/// The codes of the 4:4:4 formats.
pub open spec fn of_full_chroma(code: u8) -> bool {
    ||| 0x48 <= code <= 0x4b
    ||| 0x50 <= code <= 0x53
}

/// The codes of the formats of any components.
pub open spec fn of_components(code: u8) -> bool {
    ||| 0x20 <= code <= 0x2b
    ||| 0x2e <= code <= 0x39
}

/// The codes of the formats with blue first and padding.
pub open spec fn padded_behind_blue_green_red(code: u8) -> bool {
    code == 0x0e
}

/// The codes of the formats with red first and padding.
pub open spec fn padded_behind_red_green_blue(code: u8) -> bool {
    ||| code == 0x1b
    ||| 0x40 <= code <= 0x42
}

/// A known format has the alpha, bit depth and family that its code stands for.
pub proof fn lemma_known_properties(code: u8)
    ensures
        descriptor_of(code) matches Some(known) ==> {
            &&& known.alpha == with_alpha(code)
            &&& known.premultiplied_alpha == with_multiplied_colors(code)
            &&& known.bit_depth == AnnexABitDepth::U8 <==> of_bytes(code)
            &&& known.bit_depth == AnnexABitDepth::U16 <==> of_words(code)
            &&& known.bit_depth == AnnexABitDepth::U10 <==> of_ten_bits(code)
            &&& known.bit_depth == AnnexABitDepth::I16 <==> of_signed_words(code)
            &&& known.bit_depth == AnnexABitDepth::I32 <==> of_signed_longs(code)
            &&& known.bit_depth == AnnexABitDepth::F16 <==> of_halves(code)
            &&& known.bit_depth == AnnexABitDepth::F32 <==> of_singles(code)
            &&& known.bit_depth == AnnexABitDepth::Bit1 <==> code == 0x05
            &&& known.bit_depth == AnnexABitDepth::Rgb555 <==> code == 0x09
            &&& known.bit_depth == AnnexABitDepth::Rgb565 <==> code == 0x0a
            &&& known.bit_depth == AnnexABitDepth::Rgb101010 <==> code == 0x14
            &&& known.family == AnnexAPixelFamily::Luma <==> of_luma(code)
            &&& known.family == AnnexAPixelFamily::Rgbe <==> code == 0x3d
            &&& known.family == (AnnexAPixelFamily::Cmyk { direct: false }) <==> of_inks(code)
            &&& known.family == (AnnexAPixelFamily::Cmyk { direct: true }) <==> of_direct_inks(code)
            &&& known.family == AnnexAPixelFamily::Yuv(ChromaSampling::Cs420) <==> of_quarter_chroma(
                code,
            )
            &&& known.family == AnnexAPixelFamily::Yuv(ChromaSampling::Cs422) <==> of_half_chroma(
                code,
            )
            &&& known.family == AnnexAPixelFamily::Yuv(ChromaSampling::Cs444) <==> of_full_chroma(
                code,
            )
            &&& known.family == AnnexAPixelFamily::NComponent <==> of_components(code)
        },
{
}

/// The numbers of a known format are what its bit depth can hold, its channels are those of its
/// family and alpha, and their order is that of its family; blue comes first in packed formats and
/// in formats of bytes, but for one of them.
pub proof fn lemma_known_order(code: u8)
    ensures
        descriptor_of(code) matches Some(known) ==> {
            let alpha: int = if known.alpha {
                1
            } else {
                0
            };
            &&& known.numeric == AnnexANumericKind::FixedPoint <==> known.bit_depth
                == AnnexABitDepth::I16 || known.bit_depth == AnnexABitDepth::I32
            &&& known.numeric == AnnexANumericKind::Float <==> known.bit_depth
                == AnnexABitDepth::F16 || known.bit_depth == AnnexABitDepth::F32 || known.family
                == AnnexAPixelFamily::Rgbe
            &&& match known.family {
                AnnexAPixelFamily::Luma => known.channels == 1 + alpha && known.order
                    == AnnexAChannelOrder::Luma,
                AnnexAPixelFamily::Rgb => known.channels == 3 + alpha && known.order == (if code
                    == 0x09 || code == 0x0a || code == 0x14 {
                    AnnexAChannelOrder::PackedBgr
                } else if code == 0x0c {
                    AnnexAChannelOrder::Bgr
                } else if padded_behind_blue_green_red(code) {
                    AnnexAChannelOrder::Bgrx
                } else if padded_behind_red_green_blue(code) {
                    AnnexAChannelOrder::Rgbx
                } else if known.alpha && of_bytes(code) {
                    AnnexAChannelOrder::Bgra
                } else if known.alpha {
                    AnnexAChannelOrder::Rgba
                } else {
                    AnnexAChannelOrder::Rgb
                }),
                AnnexAPixelFamily::Rgbe => known.channels == 3 && known.order
                    == AnnexAChannelOrder::Rgbe,
                AnnexAPixelFamily::Cmyk { .. } => known.channels == 4 + alpha && known.order
                    == AnnexAChannelOrder::Cmyk,
                AnnexAPixelFamily::Yuv(_) => known.channels == 3 + alpha && known.order
                    == AnnexAChannelOrder::Yuv,
                AnnexAPixelFamily::NComponent => known.channels == (if known.alpha {
                    4 + (code - 0x2e) % 6
                } else {
                    3 + (code - 0x20) % 6
                }) && known.order == AnnexAChannelOrder::Components,
            }
        },
{
}

/// The output colour format code of a family.
pub open spec fn color_code(family: AnnexAPixelFamily) -> int {
    match family {
        AnnexAPixelFamily::Luma => 0,
        AnnexAPixelFamily::Yuv(ChromaSampling::Cs420) => 1,
        AnnexAPixelFamily::Yuv(ChromaSampling::Cs422) => 2,
        AnnexAPixelFamily::Yuv(ChromaSampling::Cs444) => 3,
        AnnexAPixelFamily::Cmyk { direct: false } => 4,
        AnnexAPixelFamily::Cmyk { direct: true } => 5,
        AnnexAPixelFamily::NComponent => 6,
        AnnexAPixelFamily::Rgb => 7,
        AnnexAPixelFamily::Rgbe => 8,
    }
}

/// Whether a bit depth is the one of an output bit depth code.
pub open spec fn depth_coded(depth: AnnexABitDepth, code: int) -> bool {
    match depth {
        AnnexABitDepth::Bit1 => code == 0 || code == 15,
        AnnexABitDepth::U8 => code == 1,
        AnnexABitDepth::U16 => code == 2,
        AnnexABitDepth::I16 => code == 3,
        AnnexABitDepth::F16 => code == 4,
        AnnexABitDepth::I32 => code == 6,
        AnnexABitDepth::F32 => code == 7,
        AnnexABitDepth::Rgb555 => code == 8,
        AnnexABitDepth::U10 | AnnexABitDepth::Rgb101010 => code == 9,
        AnnexABitDepth::Rgb565 => code == 10,
    }
}

/// A known pixel format agrees with the codestreams of its container exactly if they have its
/// colour format, its bit depth and as many components, one component of alpha if it has alpha and
/// none if not, and are multiplied by alpha as it says, which alpha in a codestream of its own
/// leaves to it.
pub proof fn lemma_agreement(
    format: AnnexAPixelFormatDescriptor,
    headers: HeadersModel,
    separate: Option<HeadersModel>,
)
    ensures
        format_disagreement(format, headers, separate) is None <==> {
            &&& headers.image.output_color_format == color_code(format.family)
            &&& depth_coded(format.bit_depth, headers.image.output_bit_depth as int)
            &&& format.channels == headers.primary.components + (if format.alpha {
                1int
            } else {
                0
            })
            &&& format.alpha <==> headers.alpha is Some || separate is Some
            &&& separate is None ==> headers.image.flags.flag(7) == format.premultiplied_alpha
            &&& headers.alpha matches Some(alpha) ==> alpha.components == 1
            &&& separate matches Some(other) ==> depth_coded(
                format.bit_depth,
                other.image.output_bit_depth as int,
            ) && (match other.alpha {
                Some(alpha) => alpha.components,
                None => other.primary.components,
            }) == 1
        },
{
}

} // verus!

//! Annex-A pixel-format identifier classification and codestream consistency checks.

use crate::codestream::{ParsedCodestream, ParsedModel};
use crate::error::NativeError;
use crate::header::types::{HeadersModel, PlaneModel};
use crate::types::{
    AnnexABitDepth, AnnexAChannelOrder, AnnexANumericKind, AnnexAPixelFamily, AnnexAPixelFormat,
    AnnexAPixelFormatDescriptor, ChromaSampling,
};
use vstd::prelude::*;

verus! {

/// The bytes that every known identifier begins with.
pub const GUID_PREFIX: [u8; 15] = [
    0x24, 0xc3, 0xdd, 0x6f, 0x03, 0x4e, 0xfe, 0x4b, 0xb1, 0x85, 0x3d, 0x77, 0x76, 0x8d, 0xc9,
];

/// A format with the given properties.
#[verifier::allow_in_spec]
pub fn descriptor(
    family: AnnexAPixelFamily,
    channels: u8,
    alpha: bool,
    premultiplied_alpha: bool,
    bit_depth: AnnexABitDepth,
    numeric: AnnexANumericKind,
    order: AnnexAChannelOrder,
) -> AnnexAPixelFormatDescriptor
    returns
        (AnnexAPixelFormatDescriptor {
            family,
            channels,
            alpha,
            premultiplied_alpha,
            bit_depth,
            numeric,
            order,
        }),
{
    AnnexAPixelFormatDescriptor {
        family,
        channels,
        alpha,
        premultiplied_alpha,
        bit_depth,
        numeric,
        order,
    }
}

/// A format of one luma channel.
#[verifier::allow_in_spec]
pub fn luma(depth: AnnexABitDepth, numeric: AnnexANumericKind) -> AnnexAPixelFormatDescriptor
    returns
        descriptor(
            AnnexAPixelFamily::Luma,
            1,
            false,
            false,
            depth,
            numeric,
            AnnexAChannelOrder::Luma,
        ),
{
    descriptor(
        AnnexAPixelFamily::Luma,
        1,
        false,
        false,
        depth,
        numeric,
        AnnexAChannelOrder::Luma,
    )
}

/// A format of three fields in one word.
#[verifier::allow_in_spec]
pub fn packed_rgb(depth: AnnexABitDepth) -> AnnexAPixelFormatDescriptor
    returns
        descriptor(
            AnnexAPixelFamily::Rgb,
            3,
            false,
            false,
            depth,
            AnnexANumericKind::Unsigned,
            AnnexAChannelOrder::PackedBgr,
        ),
{
    descriptor(
        AnnexAPixelFamily::Rgb,
        3,
        false,
        false,
        depth,
        AnnexANumericKind::Unsigned,
        AnnexAChannelOrder::PackedBgr,
    )
}

/// A format of red, green and blue.
#[verifier::allow_in_spec]
pub fn rgb(depth: AnnexABitDepth, numeric: AnnexANumericKind, order: AnnexAChannelOrder) -> AnnexAPixelFormatDescriptor
    returns
        descriptor(AnnexAPixelFamily::Rgb, 3, false, false, depth, numeric, order),
{
    descriptor(AnnexAPixelFamily::Rgb, 3, false, false, depth, numeric, order)
}

/// A format of red, green, blue and alpha.
#[verifier::allow_in_spec]
pub fn rgba(
    premultiplied: bool,
    depth: AnnexABitDepth,
    numeric: AnnexANumericKind,
    order: AnnexAChannelOrder,
) -> AnnexAPixelFormatDescriptor
    returns
        descriptor(AnnexAPixelFamily::Rgb, 4, true, premultiplied, depth, numeric, order),
{
    descriptor(AnnexAPixelFamily::Rgb, 4, true, premultiplied, depth, numeric, order)
}

/// A format of cyan, magenta, yellow and black.
#[verifier::allow_in_spec]
pub fn cmyk(direct: bool, alpha: bool, depth: AnnexABitDepth) -> AnnexAPixelFormatDescriptor
    returns
        descriptor(
            AnnexAPixelFamily::Cmyk { direct },
            if alpha {
                5
            } else {
                4
            },
            alpha,
            false,
            depth,
            AnnexANumericKind::Unsigned,
            AnnexAChannelOrder::Cmyk,
        ),
{
    descriptor(
        AnnexAPixelFamily::Cmyk { direct },
        if alpha {
            5
        } else {
            4
        },
        alpha,
        false,
        depth,
        AnnexANumericKind::Unsigned,
        AnnexAChannelOrder::Cmyk,
    )
}

/// A format of unsigned luma and chroma.
#[verifier::allow_in_spec]
pub fn yuv(sampling: ChromaSampling, alpha: bool, depth: AnnexABitDepth) -> AnnexAPixelFormatDescriptor
    returns
        descriptor(
            AnnexAPixelFamily::Yuv(sampling),
            if alpha {
                4
            } else {
                3
            },
            alpha,
            false,
            depth,
            AnnexANumericKind::Unsigned,
            AnnexAChannelOrder::Yuv,
        ),
{
    descriptor(
        AnnexAPixelFamily::Yuv(sampling),
        if alpha {
            4
        } else {
            3
        },
        alpha,
        false,
        depth,
        AnnexANumericKind::Unsigned,
        AnnexAChannelOrder::Yuv,
    )
}

/// A format of fixed-point luma and chroma.
#[verifier::allow_in_spec]
pub fn yuv_fixed(sampling: ChromaSampling, alpha: bool) -> AnnexAPixelFormatDescriptor
    returns
        descriptor(
            AnnexAPixelFamily::Yuv(sampling),
            if alpha {
                4
            } else {
                3
            },
            alpha,
            false,
            AnnexABitDepth::I16,
            AnnexANumericKind::FixedPoint,
            AnnexAChannelOrder::Yuv,
        ),
{
    descriptor(
        AnnexAPixelFamily::Yuv(sampling),
        if alpha {
            4
        } else {
            3
        },
        alpha,
        false,
        AnnexABitDepth::I16,
        AnnexANumericKind::FixedPoint,
        AnnexAChannelOrder::Yuv,
    )
}

/// The luma, packed and shared-exponent formats.
pub open spec fn basic_of(code: u8) -> Option<AnnexAPixelFormatDescriptor> {
    if code == 0x05 {
        Some(luma(AnnexABitDepth::Bit1, AnnexANumericKind::Unsigned))
    } else if code == 0x08 {
        Some(luma(AnnexABitDepth::U8, AnnexANumericKind::Unsigned))
    } else if code == 0x0b {
        Some(luma(AnnexABitDepth::U16, AnnexANumericKind::Unsigned))
    } else if code == 0x13 {
        Some(luma(AnnexABitDepth::I16, AnnexANumericKind::FixedPoint))
    } else if code == 0x3e {
        Some(luma(AnnexABitDepth::F16, AnnexANumericKind::Float))
    } else if code == 0x3f {
        Some(luma(AnnexABitDepth::I32, AnnexANumericKind::FixedPoint))
    } else if code == 0x11 {
        Some(luma(AnnexABitDepth::F32, AnnexANumericKind::Float))
    } else if code == 0x09 {
        Some(packed_rgb(AnnexABitDepth::Rgb555))
    } else if code == 0x0a {
        Some(packed_rgb(AnnexABitDepth::Rgb565))
    } else if code == 0x14 {
        Some(packed_rgb(AnnexABitDepth::Rgb101010))
    } else if code == 0x3d {
        Some(
            descriptor(
                AnnexAPixelFamily::Rgbe,
                3,
                false,
                false,
                AnnexABitDepth::U8,
                AnnexANumericKind::Float,
                AnnexAChannelOrder::Rgbe,
            ),
        )
    } else {
        None
    }
}

fn basic_descriptor(code: u8) -> (found: Option<AnnexAPixelFormatDescriptor>)
    ensures
        found == basic_of(code),
{
    match code {
        0x05 => Some(luma(AnnexABitDepth::Bit1, AnnexANumericKind::Unsigned)),
        0x08 => Some(luma(AnnexABitDepth::U8, AnnexANumericKind::Unsigned)),
        0x0b => Some(luma(AnnexABitDepth::U16, AnnexANumericKind::Unsigned)),
        0x13 => Some(luma(AnnexABitDepth::I16, AnnexANumericKind::FixedPoint)),
        0x3e => Some(luma(AnnexABitDepth::F16, AnnexANumericKind::Float)),
        0x3f => Some(luma(AnnexABitDepth::I32, AnnexANumericKind::FixedPoint)),
        0x11 => Some(luma(AnnexABitDepth::F32, AnnexANumericKind::Float)),
        0x09 => Some(packed_rgb(AnnexABitDepth::Rgb555)),
        0x0a => Some(packed_rgb(AnnexABitDepth::Rgb565)),
        0x14 => Some(packed_rgb(AnnexABitDepth::Rgb101010)),
        0x3d => Some(
            descriptor(
                AnnexAPixelFamily::Rgbe,
                3,
                false,
                false,
                AnnexABitDepth::U8,
                AnnexANumericKind::Float,
                AnnexAChannelOrder::Rgbe,
            ),
        ),
        _ => None,
    }
}

/// The formats of red, green and blue.
pub open spec fn rgb_of(code: u8) -> Option<AnnexAPixelFormatDescriptor> {
    if code == 0x0d {
        Some(rgb(AnnexABitDepth::U8, AnnexANumericKind::Unsigned, AnnexAChannelOrder::Rgb))
    } else if code == 0x0c {
        Some(rgb(AnnexABitDepth::U8, AnnexANumericKind::Unsigned, AnnexAChannelOrder::Bgr))
    } else if code == 0x0e {
        Some(rgb(AnnexABitDepth::U8, AnnexANumericKind::Unsigned, AnnexAChannelOrder::Bgrx))
    } else if code == 0x15 {
        Some(rgb(AnnexABitDepth::U16, AnnexANumericKind::Unsigned, AnnexAChannelOrder::Rgb))
    } else if code == 0x12 {
        Some(rgb(AnnexABitDepth::I16, AnnexANumericKind::FixedPoint, AnnexAChannelOrder::Rgb))
    } else if code == 0x40 {
        Some(rgb(AnnexABitDepth::I16, AnnexANumericKind::FixedPoint, AnnexAChannelOrder::Rgbx))
    } else if code == 0x3b {
        Some(rgb(AnnexABitDepth::F16, AnnexANumericKind::Float, AnnexAChannelOrder::Rgb))
    } else if code == 0x42 {
        Some(rgb(AnnexABitDepth::F16, AnnexANumericKind::Float, AnnexAChannelOrder::Rgbx))
    } else if code == 0x18 {
        Some(rgb(AnnexABitDepth::I32, AnnexANumericKind::FixedPoint, AnnexAChannelOrder::Rgb))
    } else if code == 0x41 {
        Some(rgb(AnnexABitDepth::I32, AnnexANumericKind::FixedPoint, AnnexAChannelOrder::Rgbx))
    } else if code == 0x1b {
        Some(rgb(AnnexABitDepth::F32, AnnexANumericKind::Float, AnnexAChannelOrder::Rgbx))
    } else {
        None
    }
}

fn rgb_descriptor(code: u8) -> (found: Option<AnnexAPixelFormatDescriptor>)
    ensures
        found == rgb_of(code),
{
    match code {
        0x0d => Some(rgb(AnnexABitDepth::U8, AnnexANumericKind::Unsigned, AnnexAChannelOrder::Rgb)),
        0x0c => Some(rgb(AnnexABitDepth::U8, AnnexANumericKind::Unsigned, AnnexAChannelOrder::Bgr)),
        0x0e => Some(
            rgb(AnnexABitDepth::U8, AnnexANumericKind::Unsigned, AnnexAChannelOrder::Bgrx),
        ),
        0x15 => Some(
            rgb(AnnexABitDepth::U16, AnnexANumericKind::Unsigned, AnnexAChannelOrder::Rgb),
        ),
        0x12 => Some(
            rgb(AnnexABitDepth::I16, AnnexANumericKind::FixedPoint, AnnexAChannelOrder::Rgb),
        ),
        0x40 => Some(
            rgb(AnnexABitDepth::I16, AnnexANumericKind::FixedPoint, AnnexAChannelOrder::Rgbx),
        ),
        0x3b => Some(rgb(AnnexABitDepth::F16, AnnexANumericKind::Float, AnnexAChannelOrder::Rgb)),
        0x42 => Some(rgb(AnnexABitDepth::F16, AnnexANumericKind::Float, AnnexAChannelOrder::Rgbx)),
        0x18 => Some(
            rgb(AnnexABitDepth::I32, AnnexANumericKind::FixedPoint, AnnexAChannelOrder::Rgb),
        ),
        0x41 => Some(
            rgb(AnnexABitDepth::I32, AnnexANumericKind::FixedPoint, AnnexAChannelOrder::Rgbx),
        ),
        0x1b => Some(rgb(AnnexABitDepth::F32, AnnexANumericKind::Float, AnnexAChannelOrder::Rgbx)),
        _ => None,
    }
}

/// The formats of red, green, blue and alpha.
pub open spec fn rgba_of(code: u8) -> Option<AnnexAPixelFormatDescriptor> {
    if code == 0x0f {
        Some(rgba(false, AnnexABitDepth::U8, AnnexANumericKind::Unsigned, AnnexAChannelOrder::Bgra))
    } else if code == 0x16 {
        Some(
            rgba(false, AnnexABitDepth::U16, AnnexANumericKind::Unsigned, AnnexAChannelOrder::Rgba),
        )
    } else if code == 0x1d {
        Some(
            rgba(
                false,
                AnnexABitDepth::I16,
                AnnexANumericKind::FixedPoint,
                AnnexAChannelOrder::Rgba,
            ),
        )
    } else if code == 0x3a {
        Some(rgba(false, AnnexABitDepth::F16, AnnexANumericKind::Float, AnnexAChannelOrder::Rgba))
    } else if code == 0x1e {
        Some(
            rgba(
                false,
                AnnexABitDepth::I32,
                AnnexANumericKind::FixedPoint,
                AnnexAChannelOrder::Rgba,
            ),
        )
    } else if code == 0x19 {
        Some(rgba(false, AnnexABitDepth::F32, AnnexANumericKind::Float, AnnexAChannelOrder::Rgba))
    } else if code == 0x10 {
        Some(rgba(true, AnnexABitDepth::U8, AnnexANumericKind::Unsigned, AnnexAChannelOrder::Bgra))
    } else if code == 0x17 {
        Some(rgba(true, AnnexABitDepth::U16, AnnexANumericKind::Unsigned, AnnexAChannelOrder::Rgba))
    } else if code == 0x1a {
        Some(rgba(true, AnnexABitDepth::F32, AnnexANumericKind::Float, AnnexAChannelOrder::Rgba))
    } else {
        None
    }
}

fn rgba_descriptor(code: u8) -> (found: Option<AnnexAPixelFormatDescriptor>)
    ensures
        found == rgba_of(code),
{
    match code {
        0x0f => Some(
            rgba(false, AnnexABitDepth::U8, AnnexANumericKind::Unsigned, AnnexAChannelOrder::Bgra),
        ),
        0x16 => Some(
            rgba(false, AnnexABitDepth::U16, AnnexANumericKind::Unsigned, AnnexAChannelOrder::Rgba),
        ),
        0x1d => Some(
            rgba(
                false,
                AnnexABitDepth::I16,
                AnnexANumericKind::FixedPoint,
                AnnexAChannelOrder::Rgba,
            ),
        ),
        0x3a => Some(
            rgba(false, AnnexABitDepth::F16, AnnexANumericKind::Float, AnnexAChannelOrder::Rgba),
        ),
        0x1e => Some(
            rgba(
                false,
                AnnexABitDepth::I32,
                AnnexANumericKind::FixedPoint,
                AnnexAChannelOrder::Rgba,
            ),
        ),
        0x19 => Some(
            rgba(false, AnnexABitDepth::F32, AnnexANumericKind::Float, AnnexAChannelOrder::Rgba),
        ),
        0x10 => Some(
            rgba(true, AnnexABitDepth::U8, AnnexANumericKind::Unsigned, AnnexAChannelOrder::Bgra),
        ),
        0x17 => Some(
            rgba(true, AnnexABitDepth::U16, AnnexANumericKind::Unsigned, AnnexAChannelOrder::Rgba),
        ),
        0x1a => Some(
            rgba(true, AnnexABitDepth::F32, AnnexANumericKind::Float, AnnexAChannelOrder::Rgba),
        ),
        _ => None,
    }
}

/// The formats of inks and of luma and chroma.
pub open spec fn cmyk_yuv_of(code: u8) -> Option<AnnexAPixelFormatDescriptor> {
    if code == 0x1c {
        Some(cmyk(false, false, AnnexABitDepth::U8))
    } else if code == 0x2c {
        Some(cmyk(false, true, AnnexABitDepth::U8))
    } else if code == 0x1f {
        Some(cmyk(false, false, AnnexABitDepth::U16))
    } else if code == 0x2d {
        Some(cmyk(false, true, AnnexABitDepth::U16))
    } else if code == 0x54 {
        Some(cmyk(true, false, AnnexABitDepth::U8))
    } else if code == 0x56 {
        Some(cmyk(true, true, AnnexABitDepth::U8))
    } else if code == 0x55 {
        Some(cmyk(true, false, AnnexABitDepth::U16))
    } else if code == 0x43 {
        Some(cmyk(true, true, AnnexABitDepth::U16))
    } else if code == 0x44 {
        Some(yuv(ChromaSampling::Cs420, false, AnnexABitDepth::U8))
    } else if code == 0x45 {
        Some(yuv(ChromaSampling::Cs422, false, AnnexABitDepth::U8))
    } else if code == 0x46 {
        Some(yuv(ChromaSampling::Cs422, false, AnnexABitDepth::U10))
    } else if code == 0x47 {
        Some(yuv(ChromaSampling::Cs422, false, AnnexABitDepth::U16))
    } else if code == 0x48 {
        Some(yuv(ChromaSampling::Cs444, false, AnnexABitDepth::U8))
    } else if code == 0x49 {
        Some(yuv(ChromaSampling::Cs444, false, AnnexABitDepth::U10))
    } else if code == 0x4a {
        Some(yuv(ChromaSampling::Cs444, false, AnnexABitDepth::U16))
    } else if code == 0x4b {
        Some(yuv_fixed(ChromaSampling::Cs444, false))
    } else if code == 0x4c {
        Some(yuv(ChromaSampling::Cs420, true, AnnexABitDepth::U8))
    } else if code == 0x4d {
        Some(yuv(ChromaSampling::Cs422, true, AnnexABitDepth::U8))
    } else if code == 0x4e {
        Some(yuv(ChromaSampling::Cs422, true, AnnexABitDepth::U10))
    } else if code == 0x4f {
        Some(yuv(ChromaSampling::Cs422, true, AnnexABitDepth::U16))
    } else if code == 0x50 {
        Some(yuv(ChromaSampling::Cs444, true, AnnexABitDepth::U8))
    } else if code == 0x51 {
        Some(yuv(ChromaSampling::Cs444, true, AnnexABitDepth::U10))
    } else if code == 0x52 {
        Some(yuv(ChromaSampling::Cs444, true, AnnexABitDepth::U16))
    } else if code == 0x53 {
        Some(yuv_fixed(ChromaSampling::Cs444, true))
    } else {
        None
    }
}

fn cmyk_yuv_descriptor(code: u8) -> (found: Option<AnnexAPixelFormatDescriptor>)
    ensures
        found == cmyk_yuv_of(code),
{
    match code {
        0x1c => Some(cmyk(false, false, AnnexABitDepth::U8)),
        0x2c => Some(cmyk(false, true, AnnexABitDepth::U8)),
        0x1f => Some(cmyk(false, false, AnnexABitDepth::U16)),
        0x2d => Some(cmyk(false, true, AnnexABitDepth::U16)),
        0x54 => Some(cmyk(true, false, AnnexABitDepth::U8)),
        0x56 => Some(cmyk(true, true, AnnexABitDepth::U8)),
        0x55 => Some(cmyk(true, false, AnnexABitDepth::U16)),
        0x43 => Some(cmyk(true, true, AnnexABitDepth::U16)),
        0x44 => Some(yuv(ChromaSampling::Cs420, false, AnnexABitDepth::U8)),
        0x45 => Some(yuv(ChromaSampling::Cs422, false, AnnexABitDepth::U8)),
        0x46 => Some(yuv(ChromaSampling::Cs422, false, AnnexABitDepth::U10)),
        0x47 => Some(yuv(ChromaSampling::Cs422, false, AnnexABitDepth::U16)),
        0x48 => Some(yuv(ChromaSampling::Cs444, false, AnnexABitDepth::U8)),
        0x49 => Some(yuv(ChromaSampling::Cs444, false, AnnexABitDepth::U10)),
        0x4a => Some(yuv(ChromaSampling::Cs444, false, AnnexABitDepth::U16)),
        0x4b => Some(yuv_fixed(ChromaSampling::Cs444, false)),
        0x4c => Some(yuv(ChromaSampling::Cs420, true, AnnexABitDepth::U8)),
        0x4d => Some(yuv(ChromaSampling::Cs422, true, AnnexABitDepth::U8)),
        0x4e => Some(yuv(ChromaSampling::Cs422, true, AnnexABitDepth::U10)),
        0x4f => Some(yuv(ChromaSampling::Cs422, true, AnnexABitDepth::U16)),
        0x50 => Some(yuv(ChromaSampling::Cs444, true, AnnexABitDepth::U8)),
        0x51 => Some(yuv(ChromaSampling::Cs444, true, AnnexABitDepth::U10)),
        0x52 => Some(yuv(ChromaSampling::Cs444, true, AnnexABitDepth::U16)),
        0x53 => Some(yuv_fixed(ChromaSampling::Cs444, true)),
        _ => None,
    }
}

/// A format of components without a common meaning.
#[verifier::allow_in_spec]
pub fn components(channels: u8, alpha: bool, depth: AnnexABitDepth) -> AnnexAPixelFormatDescriptor
    returns
        descriptor(
            AnnexAPixelFamily::NComponent,
            channels,
            alpha,
            false,
            depth,
            AnnexANumericKind::Unsigned,
            AnnexAChannelOrder::Components,
        ),
{
    descriptor(
        AnnexAPixelFamily::NComponent,
        channels,
        alpha,
        false,
        depth,
        AnnexANumericKind::Unsigned,
        AnnexAChannelOrder::Components,
    )
}

/// The formats of three to eight components, and of as many and alpha.
pub open spec fn ncomponent_of(code: u8) -> Option<AnnexAPixelFormatDescriptor> {
    if 0x20 <= code <= 0x25 {
        Some(components((code - 0x20 + 3) as u8, false, AnnexABitDepth::U8))
    } else if 0x2e <= code <= 0x33 {
        Some(components((code - 0x2e + 4) as u8, true, AnnexABitDepth::U8))
    } else if 0x26 <= code <= 0x2b {
        Some(components((code - 0x26 + 3) as u8, false, AnnexABitDepth::U16))
    } else if 0x34 <= code <= 0x39 {
        Some(components((code - 0x34 + 4) as u8, true, AnnexABitDepth::U16))
    } else {
        None
    }
}

fn ncomponent_descriptor(code: u8) -> (found: Option<AnnexAPixelFormatDescriptor>)
    ensures
        found == ncomponent_of(code),
{
    if 0x20 <= code && code <= 0x25 {
        Some(components(code - 0x20 + 3, false, AnnexABitDepth::U8))
    } else if 0x2e <= code && code <= 0x33 {
        Some(components(code - 0x2e + 4, true, AnnexABitDepth::U8))
    } else if 0x26 <= code && code <= 0x2b {
        Some(components(code - 0x26 + 3, false, AnnexABitDepth::U16))
    } else if 0x34 <= code && code <= 0x39 {
        Some(components(code - 0x34 + 4, true, AnnexABitDepth::U16))
    } else {
        None
    }
}

/// What the last byte of a known identifier stands for.
pub open spec fn descriptor_of(code: u8) -> Option<AnnexAPixelFormatDescriptor> {
    if ncomponent_of(code) is Some {
        ncomponent_of(code)
    } else if basic_of(code) is Some {
        basic_of(code)
    } else if rgb_of(code) is Some {
        rgb_of(code)
    } else if rgba_of(code) is Some {
        rgba_of(code)
    } else {
        cmyk_yuv_of(code)
    }
}

fn known_descriptor(code: u8) -> (found: Option<AnnexAPixelFormatDescriptor>)
    ensures
        found == descriptor_of(code),
{
    if let Some(found) = ncomponent_descriptor(code) {
        return Some(found);
    }
    if let Some(found) = basic_descriptor(code) {
        return Some(found);
    }
    if let Some(found) = rgb_descriptor(code) {
        return Some(found);
    }
    if let Some(found) = rgba_descriptor(code) {
        return Some(found);
    }
    cmyk_yuv_descriptor(code)
}

/// Whether an identifier begins as every known one does.
pub open spec fn has_known_prefix(guid: Seq<u8>) -> bool {
    guid.take(15) == GUID_PREFIX@
}

/// The format that an identifier stands for, if it is known.
pub open spec fn known_format(guid: Seq<u8>) -> Option<AnnexAPixelFormatDescriptor> {
    if has_known_prefix(guid) {
        descriptor_of(guid[15])
    } else {
        None
    }
}

/// The classification of an identifier.
pub open spec fn pixel_format_of(guid: [u8; 16]) -> AnnexAPixelFormat {
    match known_format(guid@) {
        Some(known) => AnnexAPixelFormat::Known(known),
        None => AnnexAPixelFormat::Unknown(guid),
    }
}

/// Classify a raw Annex-A pixel-format identifier.
#[must_use]
pub fn classify_annex_a_pixel_format(guid: [u8; 16]) -> (format: AnnexAPixelFormat)
    ensures
        format == pixel_format_of(guid),
{
    let prefix: [u8; 15] = GUID_PREFIX;
    for index in 0..15usize
        invariant
            prefix == GUID_PREFIX,
            forall|earlier: int| 0 <= earlier < index ==> guid[earlier] == prefix[earlier],
    {
        if guid[index] != prefix[index] {
            proof {
                if has_known_prefix(guid@) {
                    assert(guid@.take(15)[index as int] == GUID_PREFIX@[index as int]);
                }
            }
            return AnnexAPixelFormat::Unknown(guid);
        }
    }
    proof {
        assert(guid@.take(15) =~= GUID_PREFIX@);
    }
    match known_descriptor(guid[15]) {
        Some(known) => AnnexAPixelFormat::Known(known),
        None => AnnexAPixelFormat::Unknown(guid),
    }
}

/// Every last byte from 0x08 to 0x56, but for 0x3c, and 0x05 stand for a format, and no other.
pub proof fn lemma_known_codes(code: u8)
    ensures
        descriptor_of(code) is Some <==> code == 0x05 || (0x08 <= code <= 0x56 && code != 0x3c),
{
}

/// A known format has as many channels as its family and its alpha ask for.
pub proof fn lemma_known_channels(code: u8)
    ensures
        descriptor_of(code) matches Some(known) ==> known.channels >= 1 + (if known.alpha {
            1int
        } else {
            0int
        }) && (known.premultiplied_alpha ==> known.alpha),
{
}

/// Whether a codestream and its container agree on premultiplication; with alpha in a codestream
/// of its own, the container alone decides.
#[verifier::allow_in_spec]
pub fn premultiplication_is_consistent(
    separate_alpha: bool,
    codestream_premultiplied: bool,
    annex_a_premultiplied: bool,
) -> bool
    returns
        (separate_alpha || codestream_premultiplied == annex_a_premultiplied),
{
    separate_alpha || codestream_premultiplied == annex_a_premultiplied
}

/// The output colour code of a family.
#[verifier::allow_in_spec]
pub fn output_color_code(family: AnnexAPixelFamily) -> u8
    returns
        (match family {
            AnnexAPixelFamily::Luma => 0u8,
            AnnexAPixelFamily::Yuv(ChromaSampling::Cs420) => 1u8,
            AnnexAPixelFamily::Yuv(ChromaSampling::Cs422) => 2u8,
            AnnexAPixelFamily::Yuv(ChromaSampling::Cs444) => 3u8,
            AnnexAPixelFamily::Cmyk { direct } => if direct {
                5u8
            } else {
                4u8
            },
            AnnexAPixelFamily::NComponent => 6u8,
            AnnexAPixelFamily::Rgb => 7u8,
            AnnexAPixelFamily::Rgbe => 8u8,
        }),
{
    match family {
        AnnexAPixelFamily::Luma => 0,
        AnnexAPixelFamily::Yuv(ChromaSampling::Cs420) => 1,
        AnnexAPixelFamily::Yuv(ChromaSampling::Cs422) => 2,
        AnnexAPixelFamily::Yuv(ChromaSampling::Cs444) => 3,
        AnnexAPixelFamily::Cmyk { direct } => if direct {
            5
        } else {
            4
        },
        AnnexAPixelFamily::NComponent => 6,
        AnnexAPixelFamily::Rgb => 7,
        AnnexAPixelFamily::Rgbe => 8,
    }
}

/// Whether a bit-depth code of a codestream means the given depth.
#[verifier::allow_in_spec]
pub fn bit_depth_matches(depth: AnnexABitDepth, code: u8) -> bool
    returns
        (match depth {
            AnnexABitDepth::Bit1 => code == 0 || code == 15,
            AnnexABitDepth::U8 => code == 1,
            AnnexABitDepth::U10 | AnnexABitDepth::Rgb101010 => code == 9,
            AnnexABitDepth::U16 => code == 2,
            AnnexABitDepth::I16 => code == 3,
            AnnexABitDepth::F16 => code == 4,
            AnnexABitDepth::I32 => code == 6,
            AnnexABitDepth::F32 => code == 7,
            AnnexABitDepth::Rgb555 => code == 8,
            AnnexABitDepth::Rgb565 => code == 10,
        }),
{
    match depth {
        AnnexABitDepth::Bit1 => code == 0 || code == 15,
        AnnexABitDepth::U8 => code == 1,
        AnnexABitDepth::U10 | AnnexABitDepth::Rgb101010 => code == 9,
        AnnexABitDepth::U16 => code == 2,
        AnnexABitDepth::I16 => code == 3,
        AnnexABitDepth::F16 => code == 4,
        AnnexABitDepth::I32 => code == 6,
        AnnexABitDepth::F32 => code == 7,
        AnnexABitDepth::Rgb555 => code == 8,
        AnnexABitDepth::Rgb565 => code == 10,
    }
}

fn invalid(field: &'static str) -> (error: NativeError)
    ensures
        error == (NativeError::InvalidSyntax { field }),
{
    NativeError::InvalidSyntax { field }
}

/// The plane that holds the alpha of a separate alpha codestream.
pub open spec fn separate_plane(headers: HeadersModel) -> PlaneModel {
    match headers.alpha {
        Some(alpha) => alpha,
        None => headers.primary,
    }
}

/// The disagreement, if any, between a known pixel format and the codestreams of its container.
pub open spec fn format_disagreement(
    format: AnnexAPixelFormatDescriptor,
    headers: HeadersModel,
    separate: Option<HeadersModel>,
) -> Option<&'static str> {
    if headers.image.output_color_format != output_color_code(format.family) {
        Some("Annex-A pixel format colour declaration")
    } else if !bit_depth_matches(format.bit_depth, headers.image.output_bit_depth) {
        Some("Annex-A pixel format bit depth")
    } else if headers.primary.components != format.channels - (if format.alpha {
        1int
    } else {
        0int
    }) {
        Some("Annex-A pixel format component count")
    } else if (headers.alpha is Some || separate is Some) != format.alpha {
        Some("Annex-A pixel format alpha declaration")
    } else if !premultiplication_is_consistent(
        separate is Some,
        headers.image.flags.flag(7),
        format.premultiplied_alpha,
    ) {
        Some("Annex-A pixel format premultiplied alpha")
    } else if headers.alpha is Some && headers.alpha->0.components != 1 {
        Some("Annex-A alpha component count")
    } else if separate is Some && separate_plane(separate->0).components != 1 {
        Some("Annex-A alpha component count")
    } else if separate is Some && !bit_depth_matches(
        format.bit_depth,
        separate->0.image.output_bit_depth,
    ) {
        Some("Annex-A separate alpha bit depth")
    } else {
        None
    }
}

/// The disagreement, if any, between the pixel format of a container and its codestreams; an
/// unknown format disagrees with nothing.
pub open spec fn pixel_format_disagreement(parsed: ParsedModel) -> Option<&'static str> {
    match parsed.annex_a {
        None => None,
        Some(annex) => match known_format(annex.pixel_format_guid) {
            None => None,
            Some(format) => format_disagreement(
                format,
                parsed.headers,
                parsed.separate_alpha_headers,
            ),
        },
    }
}

/// Requires that the pixel format of a container agrees with its codestreams.
pub(crate) fn validate_annex_a_pixel_format(parsed: &ParsedCodestream) -> (result: Result<
    (),
    NativeError,
>)
    ensures
        result == (match pixel_format_disagreement(parsed@) {
            None => Ok::<(), NativeError>(()),
            Some(field) => Err(NativeError::InvalidSyntax { field }),
        }),
{
    let annex = match &parsed.annex_a {
        Some(annex) => annex,
        None => return Ok(()),
    };
    let format = match classify_annex_a_pixel_format(annex.pixel_format_guid) {
        AnnexAPixelFormat::Known(format) => format,
        AnnexAPixelFormat::Unknown(_) => return Ok(()),
    };
    proof {
        lemma_known_channels(annex.pixel_format_guid[15]);
    }
    let image = &parsed.headers.image;
    if image.output_color_format != output_color_code(format.family) {
        return Err(invalid("Annex-A pixel format colour declaration"));
    }
    if !bit_depth_matches(format.bit_depth, image.output_bit_depth) {
        return Err(invalid("Annex-A pixel format bit depth"));
    }
    let primary_components: u8 = if format.alpha {
        format.channels - 1
    } else {
        format.channels
    };
    if parsed.headers.primary.components != primary_components as u16 {
        return Err(invalid("Annex-A pixel format component count"));
    }
    let actual_alpha: bool = parsed.headers.alpha.is_some()
        || parsed.separate_alpha_headers.is_some();
    if actual_alpha != format.alpha {
        return Err(invalid("Annex-A pixel format alpha declaration"));
    }
    if !premultiplication_is_consistent(
        parsed.separate_alpha_headers.is_some(),
        image.flags.premultiplied_alpha(),
        format.premultiplied_alpha,
    ) {
        return Err(invalid("Annex-A pixel format premultiplied alpha"));
    }
    if let Some(alpha) = &parsed.headers.alpha {
        if alpha.components != 1 {
            return Err(invalid("Annex-A alpha component count"));
        }
    }
    if let Some(headers) = &parsed.separate_alpha_headers {
        let components: u16 = match &headers.alpha {
            Some(alpha) => alpha.components,
            None => headers.primary.components,
        };
        if components != 1 {
            return Err(invalid("Annex-A alpha component count"));
        }
        if !bit_depth_matches(format.bit_depth, headers.image.output_bit_depth) {
            return Err(invalid("Annex-A separate alpha bit depth"));
        }
    }
    Ok(())
}

/// Whether the primary samples are multiplied by alpha: the container says so where alpha has a
/// codestream of its own and the pixel format is known, and the codestream otherwise.
pub open spec fn premultiplied_source(parsed: ParsedModel) -> bool {
    if parsed.separate_alpha_headers is Some && parsed.annex_a is Some && known_format(
        parsed.annex_a->0.pixel_format_guid,
    ) is Some {
        known_format(parsed.annex_a->0.pixel_format_guid)->0.premultiplied_alpha
    } else {
        parsed.headers.image.flags.flag(7)
    }
}

/// Returns whether the primary samples are multiplied by alpha.
pub(crate) fn source_is_premultiplied(parsed: &ParsedCodestream) -> (premultiplied: bool)
    ensures
        premultiplied == premultiplied_source(parsed@),
{
    if parsed.separate_alpha_headers.is_some() {
        if let Some(annex) = &parsed.annex_a {
            if let AnnexAPixelFormat::Known(format) = classify_annex_a_pixel_format(
                annex.pixel_format_guid,
            ) {
                return format.premultiplied_alpha;
            }
        }
    }
    parsed.headers.image.flags.premultiplied_alpha()
}

} // verus!

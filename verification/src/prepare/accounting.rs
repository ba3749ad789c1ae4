//! Sizes of the buffers that a decode needs.

use crate::metadata::{ImageInfo, InfoModel};
use crate::types::{
    BandPresence, ChromaSampling, ColorFormat, DecodeScale, JxrError, PixelFormat, Rect,
};
use vstd::prelude::*;

verus! {

/// The bytes of some rows.
pub open spec fn area(
    format: PixelFormat,
    width: u32,
    channels: u32,
    rows: u32,
    operation: &'static str,
) -> Result<usize, JxrError> {
    let row = format.row_size(width, channels);
    if row > usize::MAX {
        Err(JxrError::arithmetic("output row size"))
    } else if row * rows > usize::MAX {
        Err(JxrError::arithmetic(operation))
    } else {
        Ok((row * rows) as usize)
    }
}

fn area_bytes(
    format: PixelFormat,
    width: u32,
    channels: u32,
    rows: u32,
    operation: &'static str,
) -> (result: Result<usize, JxrError>)
    ensures
        result == area(format, width, channels, rows, operation),
{
    let row: usize = format.row_bytes_for_channels(width, channels)?;
    match row.checked_mul(rows as usize) {
        Some(bytes) => Ok(bytes),
        None => Err(JxrError::arithmetic(operation)),
    }
}

/// The bytes of the decoded pixels of a region.
///
/// Subsampled formats have a luma plane, two chroma planes and, where it is asked for, an alpha
/// plane as large as the luma plane.
pub open spec fn output_size(
    format: PixelFormat,
    output_color_format: u8,
    include_alpha: bool,
    region: Rect,
) -> Result<usize, JxrError> {
    let luma = area(format, region.w, 1, region.h, "planar luma allocation");
    let chroma = area(
        format,
        region.w / 2,
        1,
        if output_color_format == 1 {
            region.h / 2
        } else {
            region.h
        },
        "planar chroma allocation",
    );
    let total = luma->Ok_0 + 2 * chroma->Ok_0 + if include_alpha {
        luma->Ok_0 as int
    } else {
        0
    };
    if output_color_format != 1 && output_color_format != 2 {
        area(format, region.w, format.layout().channels(), region.h, "host output allocation")
    } else if luma is Err {
        luma
    } else if chroma is Err {
        chroma
    } else if 2 * chroma->Ok_0 > usize::MAX {
        Err(JxrError::arithmetic("planar chroma allocation"))
    } else if total > usize::MAX {
        Err(JxrError::arithmetic("planar host output allocation"))
    } else {
        Ok(total as usize)
    }
}

/// Returns the bytes of the decoded pixels of a region.
pub fn host_output_bytes(
    format: PixelFormat,
    output_color_format: u8,
    include_alpha: bool,
    region: Rect,
) -> (result: Result<usize, JxrError>)
    ensures
        result == output_size(format, output_color_format, include_alpha, region),
{
    if output_color_format != 1 && output_color_format != 2 {
        return area_bytes(
            format,
            region.w,
            format.channel_count(),
            region.h,
            "host output allocation",
        );
    }
    let luma: usize = area_bytes(format, region.w, 1, region.h, "planar luma allocation")?;
    let chroma_height: u32 = if output_color_format == 1 {
        region.h / 2
    } else {
        region.h
    };
    let one_chroma: usize = area_bytes(
        format,
        region.w / 2,
        1,
        chroma_height,
        "planar chroma allocation",
    )?;
    let chroma: usize = match one_chroma.checked_mul(2) {
        Some(bytes) => bytes,
        None => return Err(JxrError::arithmetic("planar chroma allocation")),
    };
    let alpha: usize = if include_alpha {
        luma
    } else {
        0
    };
    match luma.checked_add(chroma) {
        Some(bytes) => match bytes.checked_add(alpha) {
            Some(total) => Ok(total),
            None => Err(JxrError::arithmetic("planar host output allocation")),
        },
        None => Err(JxrError::arithmetic("planar host output allocation")),
    }
}

/// The coefficients of a component in a macroblock, by the bands that are kept.
#[verifier::allow_in_spec]
pub fn band_coefficient_count(bands: BandPresence, dc: usize, low_pass: usize, all: usize) -> usize
    returns
        (match bands {
            BandPresence::DcOnly => dc,
            BandPresence::NoHighPass => low_pass,
            BandPresence::NoFlexbits | BandPresence::All => all,
        }),
{
    match bands {
        BandPresence::DcOnly => dc,
        BandPresence::NoHighPass => low_pass,
        BandPresence::NoFlexbits | BandPresence::All => all,
    }
}

/// The coefficients of all components in a macroblock.
pub open spec fn macroblock_size(color: ColorFormat, bands: BandPresence) -> int {
    let full = band_coefficient_count(bands, 1, 16, 256);
    match color {
        ColorFormat::Luma => full as int,
        ColorFormat::Yuv(ChromaSampling::Cs420) => full + 2 * band_coefficient_count(
            bands,
            1,
            4,
            64,
        ),
        ColorFormat::Yuv(ChromaSampling::Cs422) => full + 2 * band_coefficient_count(
            bands,
            1,
            8,
            128,
        ),
        ColorFormat::Yuv(ChromaSampling::Cs444) | ColorFormat::Rgb => 3 * full,
        ColorFormat::Cmyk | ColorFormat::CmykDirect | ColorFormat::YuvK | ColorFormat::Rgbe => 4
            * full,
        ColorFormat::NComponent(components) => components * full,
    }
}

/// Returns the coefficients of all components in a macroblock; they always fit.
pub fn coefficients_per_macroblock(color: ColorFormat, bands: BandPresence) -> (result: Result<
    usize,
    JxrError,
>)
    ensures
        result == Ok::<usize, JxrError>(macroblock_size(color, bands) as usize),
        0 <= macroblock_size(color, bands) <= 0xFFFF * 256,
{
    let full: usize = band_coefficient_count(bands, 1, 16, 256);
    let count: usize = match color {
        ColorFormat::Luma => full,
        ColorFormat::Yuv(ChromaSampling::Cs420) => full + 2 * band_coefficient_count(
            bands,
            1,
            4,
            64,
        ),
        ColorFormat::Yuv(ChromaSampling::Cs422) => full + 2 * band_coefficient_count(
            bands,
            1,
            8,
            128,
        ),
        ColorFormat::Yuv(ChromaSampling::Cs444) | ColorFormat::Rgb => 3 * full,
        ColorFormat::Cmyk | ColorFormat::CmykDirect | ColorFormat::YuvK | ColorFormat::Rgbe => 4
            * full,
        ColorFormat::NComponent(components) => {
            proof {
                assert(0 <= components * full <= 0xFFFF * 256) by (nonlinear_arith)
                    requires
                        0 <= components <= 0xFFFF,
                        0 <= full <= 256,
                ;
            }
            components as usize * full
        },
    };
    Ok(count)
}

/// The coefficients of all planes in a macroblock, at a resolution.
pub open spec fn planned_macroblock_size(
    info: InfoModel,
    include_alpha: bool,
    scale: DecodeScale,
) -> int {
    macroblock_size(info.primary.color_format, scale.retained_bands(info.primary.bands)) + (
    match info.alpha {
        Some(alpha) => if include_alpha {
            macroblock_size(alpha.color_format, scale.retained_bands(alpha.bands))
        } else {
            0
        },
        None => 0,
    })
}

/// The bytes of the coefficients of some macroblocks.
pub open spec fn coefficient_size(
    info: InfoModel,
    include_alpha: bool,
    macroblocks: u32,
    scale: DecodeScale,
) -> Result<usize, JxrError> {
    let bytes = 4 * (macroblocks * planned_macroblock_size(info, include_alpha, scale));
    if bytes > usize::MAX {
        Err(JxrError::arithmetic("coefficient allocation size"))
    } else {
        Ok(bytes as usize)
    }
}

/// Returns the bytes of the coefficients of some macroblocks.
pub(crate) fn coefficient_bytes(
    info: &ImageInfo,
    include_alpha: bool,
    macroblocks: u32,
    scale: DecodeScale,
) -> (result: Result<usize, JxrError>)
    ensures
        result == coefficient_size(info@, include_alpha, macroblocks, scale),
{
    let primary: usize = coefficients_per_macroblock(
        info.primary.color_format,
        scale.retained_bands(info.primary.bands),
    )?;
    let alpha: usize = match info.alpha {
        Some(alpha) => if include_alpha {
            coefficients_per_macroblock(alpha.color_format, scale.retained_bands(alpha.bands))?
        } else {
            0
        },
        None => 0,
    };
    let each: usize = primary + alpha;
    proof {
        assert(macroblocks * each >= 0) by (nonlinear_arith);
    }
    match (macroblocks as usize).checked_mul(each) {
        Some(count) => match count.checked_mul(4) {
            Some(bytes) => Ok(bytes),
            None => Err(JxrError::arithmetic("coefficient allocation size")),
        },
        None => Err(JxrError::arithmetic("coefficient allocation size")),
    }
}

} // verus!

//! Laws of the sizes that a plan counts with.

use crate::output_format::laws;
use crate::output_format::packing;
use crate::output_format::planar;
use crate::output_format::premultiply::PixelOperator;
use crate::output_format::request::{OutputBitDepth, OutputFormatRequest, PlaneView};
use crate::output_format::samples::{storage_of, Storage};
use crate::prepare::accounting;
use crate::types::{
    BandPresence, ChannelLayout, ChromaSampling, ColorFormat, DecodeScale, PixelFormat, Rect,
};
use vstd::prelude::*;

verus! {

/// The bytes of an element of a kind of storage.
pub open spec fn element_bytes(storage: Storage) -> int {
    match storage {
        Storage::BitPacked | Storage::U8 => 1,
        Storage::U16 | Storage::I16 | Storage::F16 | Storage::Rgb555 | Storage::Rgb565 => 2,
        Storage::I32 | Storage::F32 | Storage::Rgb101010 | Storage::Rgbe => 4,
    }
}

proof fn lemma_rows(height: int, width: int, channels: int)
    ensures
        width * channels * height == height * width * channels,
        2 * (width * channels) * height == height * width * channels * 2,
        4 * (width * channels) * height == height * width * channels * 4,
        2 * width * height == height * width * 1 * 2,
        4 * width * height == height * width * 1 * 4,
{
    assert(width * channels * height == height * width * channels) by (nonlinear_arith);
    assert(2 * (width * channels) * height == height * width * channels * 2) by (nonlinear_arith);
    assert(4 * (width * channels) * height == height * width * channels * 4) by (nonlinear_arith);
    assert(2 * width * height == height * width * 1 * 2) by (nonlinear_arith);
    assert(4 * width * height == height * width * 1 * 4) by (nonlinear_arith);
}

/// The rows of an image have as many bytes as its numbers.
pub(crate) proof fn lemma_row_fills(request: OutputFormatRequest, region: Rect)
    requires
        request.pixel_format matches PixelFormat::BitPacked(layout) ==> layout
            == ChannelLayout::Luma,
        region.w == request.crop.width,
        region.h == request.crop.height,
    ensures
        ({
            let format = request.pixel_format;
            let row = format.row_size(region.w, format.layout().channels());
            &&& row * region.h == packing::number_count(request) * element_bytes(storage_of(format))
            &&& region.h * row == row * region.h
        }),
{
    let format = request.pixel_format;
    let channels = format.layout().channels();
    let row = format.row_size(region.w, channels);
    lemma_rows(region.h as int, region.w as int, channels as int);
    assert(row * region.h == region.h * row) by (nonlinear_arith);
    if format is BitPacked {
        let width = region.w as int;
        assert(width * channels == width) by (nonlinear_arith)
            requires
                channels == 1,
        ;
        assert(row == (width + 7) / 8);
    }
}

/// A plan allows as many bytes for an image as formatting it fills.
pub proof fn lemma_image_fills_its_bytes(
    planes: Seq<PlaneView>,
    alpha: Option<PlaneView>,
    request: OutputFormatRequest,
    rule: spec_fn(PixelOperator, Seq<int>) -> Option<int>,
    output_color_format: u8,
    region: Rect,
)
    requires
        packing::formatted(planes, alpha, request, rule) is Ok,
        request.pixel_format matches PixelFormat::BitPacked(layout) ==> layout
            == ChannelLayout::Luma,
        output_color_format != 1,
        output_color_format != 2,
        region.w == request.crop.width,
        region.h == request.crop.height,
    ensures
        accounting::output_size(
            request.pixel_format,
            output_color_format,
            alpha is Some,
            region,
        ) matches Ok(bytes) ==> {
            let samples = packing::formatted(planes, alpha, request, rule)->Ok_0;
            bytes == samples.values.len() * element_bytes(samples.storage)
        },
{
    laws::lemma_formatted_size(planes, alpha, request, rule);
    lemma_row_fills(request, region);
}

/// A plan allows as many bytes for the planes of an image as packing them fills.
pub proof fn lemma_planes_fill_their_bytes(
    planes: Seq<PlaneView>,
    alpha: Option<PlaneView>,
    request: OutputFormatRequest,
    region: Rect,
)
    requires
        planar::planar_formatted(planes, alpha, request) is Ok,
        region.w == request.crop.width,
        region.h == request.crop.height,
    ensures
        accounting::output_size(
            request.pixel_format,
            if request.output_color == ColorFormat::Yuv(ChromaSampling::Cs420) {
                1
            } else {
                2
            },
            alpha is Some,
            region,
        ) matches Ok(bytes) ==> bytes == planar::planar_formatted(
            planes,
            alpha,
            request,
        )->Ok_0.values.len() * planar::sample_bytes(request.bit_depth),
{
    let windows = planar::windows_of(planes, alpha, request);
    let vectors = request.bit_depth == OutputBitDepth::U8;
    planar::lemma_planes_are_consecutive(windows, request, vectors, windows.len());
    reveal_with_fuel(planar::total_area, 5);
    let whole = region.h as int * region.w as int;
    let chroma = planar::chroma_crop(request);
    let part = chroma.height as int * chroma.width as int;
    lemma_rows(region.h as int, region.w as int, 1);
    lemma_rows(chroma.height as int, chroma.width as int, 1);
    assert(whole * 1 == whole && part * 1 == part) by (nonlinear_arith);
    let total = planar::total_area(windows, windows.len());
    assert(total == whole + 2 * part + if alpha is Some {
        whole
    } else {
        0
    });
}

/// The blocks of 4 by 4 samples that a macroblock has of a component other than the first one.
pub open spec fn chroma_blocks(color: ColorFormat) -> int {
    match color {
        ColorFormat::Yuv(ChromaSampling::Cs420) => 4,
        ColorFormat::Yuv(ChromaSampling::Cs422) => 8,
        _ => 16,
    }
}

/// The components of a colour format, the first one not counted.
pub open spec fn further_components(color: ColorFormat) -> int {
    match color {
        ColorFormat::Luma => 0,
        ColorFormat::Yuv(_) => 2,
        ColorFormat::Rgb => 2,
        ColorFormat::NComponent(components) => components - 1,
        _ => 3,
    }
}

/// A macroblock has a coefficient for each of its samples where all bands are coded, one for each
/// block without the high-pass band, and one for each component where nothing but DC is coded.
pub proof fn lemma_coefficients_are_counted(color: ColorFormat, bands: BandPresence)
    ensures
        ({
            let blocks = 16 + further_components(color) * chroma_blocks(color);
            accounting::macroblock_size(color, bands) == match bands {
                BandPresence::All | BandPresence::NoFlexbits => 16 * blocks,
                BandPresence::NoHighPass => blocks,
                BandPresence::DcOnly => 1 + further_components(color),
            }
        }),
{
    let further = further_components(color);
    assert(16 * (16 + further * 16) == (1 + further) * 256) by (nonlinear_arith);
    assert(16 + further * 16 == (1 + further) * 16) by (nonlinear_arith);
    assert((1 + further) * 1 == 1 + further) by (nonlinear_arith);
}

/// No macroblock has fewer than no coefficients.
pub(crate) proof fn lemma_size_is_not_negative(color: ColorFormat, bands: BandPresence)
    ensures
        accounting::macroblock_size(color, bands) >= 0,
{
    let full = accounting::band_coefficient_count(bands, 1, 16, 256) as int;
    assert(forall|components: u16| 0 <= #[trigger] (components * full)) by (nonlinear_arith)
        requires
            full >= 0,
    ;
}

/// A colour format has as many components as a macroblock has DC coefficients.
pub proof fn lemma_components_are_counted(color: ColorFormat)
    ensures
        color.components() matches Some(count) ==> count == 1 + further_components(color) && count
            == accounting::macroblock_size(color, BandPresence::DcOnly),
        color.components() is None <==> color == ColorFormat::NComponent(0),
{
    lemma_coefficients_are_counted(color, BandPresence::DcOnly);
}

/// At a lower resolution a macroblock of luma keeps as many coefficients as it has samples there,
/// and no resolution needs a band that is not coded.
pub proof fn lemma_scaled_samples_have_coefficients(scale: DecodeScale, bands: BandPresence)
    ensures
        accounting::macroblock_size(ColorFormat::Luma, scale.retained_bands(BandPresence::All))
            * scale.denominator() * scale.denominator() == 256,
        accounting::macroblock_size(ColorFormat::Luma, scale.retained_bands(bands))
            <= accounting::macroblock_size(ColorFormat::Luma, bands),
        scale != DecodeScale::Full && bands.has_low_pass() ==> scale.retained_bands(bands)
            == scale.retained_bands(BandPresence::All),
{
    assert(256int * 1 * 1 == 256 && 16int * 4 * 4 == 256 && 1int * 16 * 16 == 256)
        by (nonlinear_arith);
}

} // verus!

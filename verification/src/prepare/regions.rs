//! Pixel and macroblock rectangles of a decode.

use crate::types::{DecodeScale, JxrError, OverlapMode, Rect};
use vstd::prelude::*;

verus! {

/// The smallest multiple of `unit` that is not below `value`, in units.
pub open spec fn units(value: int, unit: int) -> int {
    (value + unit - 1) / unit
}

/// The smaller of two numbers.
pub open spec fn smaller(left: int, right: int) -> int {
    if left < right {
        left
    } else {
        right
    }
}

/// The amount by which `left` exceeds `right`, if it does.
pub open spec fn excess(left: int, right: int) -> int {
    if left > right {
        left - right
    } else {
        0
    }
}

/// The pixels of a region at a resolution: those that overlap it.
pub open spec fn scaled_region(region: Rect, scale: DecodeScale) -> Result<Rect, JxrError> {
    let unit = scale.denominator() as int;
    if region.x + region.w > u32::MAX {
        Err(JxrError::arithmetic("scaled output region right edge"))
    } else if region.y + region.h > u32::MAX {
        Err(JxrError::arithmetic("scaled output region bottom edge"))
    } else {
        Ok(
            Rect {
                x: (region.x as int / unit) as u32,
                y: (region.y as int / unit) as u32,
                w: (units(region.x + region.w, unit) - region.x as int / unit) as u32,
                h: (units(region.y + region.h, unit) - region.y as int / unit) as u32,
            },
        )
    }
}

fn divide_up(value: u32, unit: u32) -> (count: u32)
    requires
        unit == 1 || unit == 4 || unit == 16,
    ensures
        count == units(value as int, unit as int),
{
    let wide: u64 = value as u64 + (unit as u64 - 1);
    if unit == 1 {
        value
    } else if unit == 4 {
        (wide / 4) as u32
    } else {
        (wide / 16) as u32
    }
}

/// Returns the pixels of a region at a resolution: those that overlap it.
pub fn native_output_region(region: Rect, scale: DecodeScale) -> (result: Result<Rect, JxrError>)
    ensures
        result == scaled_region(region, scale),
{
    let denominator: u32 = scale.denominator();
    let right: u32 = match region.x.checked_add(region.w) {
        Some(right) => right,
        None => return Err(JxrError::arithmetic("scaled output region right edge")),
    };
    let bottom: u32 = match region.y.checked_add(region.h) {
        Some(bottom) => bottom,
        None => return Err(JxrError::arithmetic("scaled output region bottom edge")),
    };
    let x: u32 = region.x / denominator;
    let y: u32 = region.y / denominator;
    let right: u32 = divide_up(right, denominator);
    let bottom: u32 = divide_up(bottom, denominator);
    Ok(Rect { x, y, w: right - x, h: bottom - y })
}

/// A region keeps its pixels at full resolution.
pub proof fn lemma_full_resolution(region: Rect)
    requires
        region.x + region.w <= u32::MAX,
        region.y + region.h <= u32::MAX,
    ensures
        scaled_region(region, DecodeScale::Full) == Ok::<Rect, JxrError>(region),
{
    let unit = DecodeScale::Full.denominator() as int;
    assert(unit == 1);
    assert forall|value: int| #[trigger] (value / unit) == value by {
        assert(value / 1 == value);
    }
}

/// A scaled region covers the region that it was made from, and no row or column of it could be
/// left out.
pub proof fn lemma_scaled_region_covers(region: Rect, scale: DecodeScale)
    requires
        scaled_region(region, scale) is Ok,
        region.w > 0,
        region.h > 0,
    ensures
        ({
            let scaled = scaled_region(region, scale)->Ok_0;
            let unit = scale.denominator() as int;
            &&& scaled.x * unit <= region.x < (scaled.x + 1) * unit
            &&& scaled.y * unit <= region.y < (scaled.y + 1) * unit
            &&& (scaled.x + scaled.w - 1) * unit < region.x + region.w <= (scaled.x + scaled.w)
                * unit
            &&& (scaled.y + scaled.h - 1) * unit < region.y + region.h <= (scaled.y + scaled.h)
                * unit
            &&& scaled.w > 0
            &&& scaled.h > 0
        }),
{
    let unit = scale.denominator() as int;
    lemma_division(region.x as int, unit);
    lemma_division(region.y as int, unit);
    lemma_division(region.x + region.w + unit - 1, unit);
    lemma_division(region.y + region.h + unit - 1, unit);
    lemma_smaller_quotient(region.x as int, region.x + region.w - 1, unit);
    lemma_smaller_quotient(region.y as int, region.y + region.h - 1, unit);
    let scaled = scaled_region(region, scale)->Ok_0;
    assert(scaled.x + scaled.w == units(region.x + region.w, unit));
    assert(scaled.y + scaled.h == units(region.y + region.h, unit));
    assert((scaled.x + 1) * unit == scaled.x * unit + unit) by (nonlinear_arith);
    assert((scaled.y + 1) * unit == scaled.y * unit + unit) by (nonlinear_arith);
    assert((scaled.x + scaled.w - 1) * unit == (scaled.x + scaled.w) * unit - unit)
        by (nonlinear_arith);
    assert((scaled.y + scaled.h - 1) * unit == (scaled.y + scaled.h) * unit - unit)
        by (nonlinear_arith);
}

/// A quotient and the multiples around the dividend.
proof fn lemma_division(value: int, unit: int)
    requires
        unit > 0,
        value >= 0,
    ensures
        value / unit * unit <= value < value / unit * unit + unit,
        0 <= value / unit <= value,
{
    vstd::arithmetic::div_mod::lemma_fundamental_div_mod(value, unit);
    vstd::arithmetic::mul::lemma_mul_is_commutative(value / unit, unit);
    vstd::arithmetic::div_mod::lemma_div_pos_is_pos(value, unit);
    vstd::arithmetic::div_mod::lemma_div_is_ordered_by_denominator(value, 1, unit);
}

/// One more than a quotient of something smaller is the quotient rounded up, or less.
proof fn lemma_smaller_quotient(value: int, last: int, unit: int)
    requires
        unit > 0,
        0 <= value <= last,
    ensures
        value / unit < units(last + 1, unit),
{
    vstd::arithmetic::div_mod::lemma_div_is_ordered(value, last, unit);
    vstd::arithmetic::div_mod::lemma_div_plus_one(last, unit);
}

/// A whole image keeps its origin, and its width and height are divided and rounded up.
pub proof fn lemma_scaled_image(width: u32, height: u32, scale: DecodeScale)
    ensures
        scaled_region(Rect::full((width, height)), scale) == Ok::<Rect, JxrError>(
            Rect {
                x: 0,
                y: 0,
                w: units(width as int, scale.denominator() as int) as u32,
                h: units(height as int, scale.denominator() as int) as u32,
            },
        ),
{
}

/// The pixels to reconstruct for a region: whole macroblocks, and one more on each side where
/// macroblocks overlap, as far as there are pixels.
pub open spec fn surrounding_region(
    region: Rect,
    dimensions: (u32, u32),
    overlap: OverlapMode,
) -> Rect {
    let halo = if overlap == OverlapMode::Off {
        0int
    } else {
        16
    };
    let x = excess(region.x as int / 16 * 16, halo);
    let y = excess(region.y as int / 16 * 16, halo);
    let right = smaller(units(region.x + region.w, 16) * 16 + halo, dimensions.0 as int);
    let bottom = smaller(units(region.y + region.h, 16) * 16 + halo, dimensions.1 as int);
    Rect { x: x as u32, y: y as u32, w: excess(right, x) as u32, h: excess(bottom, y) as u32 }
}

fn surrounding_end(start: u32, length: u32, halo: u32, dimension: u32) -> (end: u32)
    requires
        halo <= 16,
    ensures
        end == smaller(units(start + length, 16) * 16 + halo, dimension as int),
{
    let end: u64 = (start as u64 + length as u64 + 15) / 16 * 16 + halo as u64;
    if end < dimension as u64 {
        end as u32
    } else {
        dimension
    }
}

/// Returns the pixels to reconstruct for a region: whole macroblocks, and one more on each side
/// where macroblocks overlap, as far as there are pixels.
pub fn reconstruction_region(region: Rect, dimensions: (u32, u32), overlap: OverlapMode) -> (
surrounding: Rect)
    ensures
        surrounding == surrounding_region(region, dimensions, overlap),
{
    let halo: u32 = if overlap == OverlapMode::Off {
        0
    } else {
        16
    };
    let x0: u32 = (region.x / 16) * 16;
    let y0: u32 = (region.y / 16) * 16;
    let x: u32 = x0.saturating_sub(halo);
    let y: u32 = y0.saturating_sub(halo);
    let right: u32 = surrounding_end(region.x, region.w, halo, dimensions.0);
    let bottom: u32 = surrounding_end(region.y, region.h, halo, dimensions.1);
    Rect { x, y, w: right.saturating_sub(x), h: bottom.saturating_sub(y) }
}

/// The pixels to reconstruct for a region of an image lie in the image, and the region lies in
/// them.
pub proof fn lemma_surrounding_region(region: Rect, dimensions: (u32, u32), overlap: OverlapMode)
    requires
        region.within(dimensions),
    ensures
        ({
            let surrounding = surrounding_region(region, dimensions, overlap);
            &&& surrounding.within(dimensions)
            &&& surrounding.x <= region.x
            &&& surrounding.y <= region.y
            &&& region.x + region.w <= surrounding.x + surrounding.w
            &&& region.y + region.h <= surrounding.y + surrounding.h
        }),
{
}

/// Whether subsampled chroma must be brought to full resolution.
#[verifier::allow_in_spec]
pub fn upsamples_chroma(internal_color_format: u8, output_color_format: u8) -> bool
    returns
        ((internal_color_format == 1 || internal_color_format == 2) && !(output_color_format == 1
            || output_color_format == 2)),
{
    (internal_color_format == 1 || internal_color_format == 2) && !(output_color_format == 1
        || output_color_format == 2)
}

/// The first and last macroblock, in one direction, that a region depends on.
pub open spec fn macroblock_bounds(margin: u32, start: u32, length: u32, macroblocks: u32, halo: int) -> (
    int,
    int,
) {
    (
        excess((margin + start) / 16, halo),
        smaller(units(margin + start + length, 16) + halo, macroblocks as int),
    )
}

/// The macroblocks that a region depends on: left, top, right and bottom.
pub open spec fn needed_macroblocks(
    margins: [u32; 2],
    macroblocks: [u32; 2],
    overlap: OverlapMode,
    internal_color_format: u8,
    output_color_format: u8,
    region: Rect,
) -> Result<Seq<u32>, JxrError> {
    let halo = if overlap != OverlapMode::Off || upsamples_chroma(
        internal_color_format,
        output_color_format,
    ) {
        1int
    } else {
        0
    };
    let columns = macroblock_bounds(margins[0], region.x, region.w, macroblocks[0], halo);
    let rows = macroblock_bounds(margins[1], region.y, region.h, macroblocks[1], halo);
    if margins[0] + region.x > u32::MAX {
        Err(JxrError::arithmetic("region coded x"))
    } else if margins[1] + region.y > u32::MAX {
        Err(JxrError::arithmetic("region coded y"))
    } else if margins[0] + region.x + region.w > u32::MAX {
        Err(JxrError::arithmetic("region coded width"))
    } else if margins[1] + region.y + region.h > u32::MAX {
        Err(JxrError::arithmetic("region coded height"))
    } else {
        Ok(seq![columns.0 as u32, rows.0 as u32, columns.1 as u32, rows.1 as u32])
    }
}

fn last_macroblock(end: u32, halo: u32, macroblocks: u32) -> (last: u32)
    requires
        halo <= 1,
    ensures
        last == smaller(units(end as int, 16) + halo, macroblocks as int),
{
    let last: u32 = divide_up(end, 16) + halo;
    if last < macroblocks {
        last
    } else {
        macroblocks
    }
}

/// Returns the macroblocks that a region depends on: left, top, right and bottom.
pub fn reconstruction_bounds(
    margins: [u32; 2],
    macroblocks: [u32; 2],
    overlap: OverlapMode,
    internal_color_format: u8,
    output_color_format: u8,
    output_region: Rect,
) -> (result: Result<[u32; 4], JxrError>)
    ensures
        match (
            result,
            needed_macroblocks(
                margins,
                macroblocks,
                overlap,
                internal_color_format,
                output_color_format,
                output_region,
            ),
        ) {
            (Ok(bounds), Ok(expected)) => bounds@ == expected,
            (Err(error), Err(expected)) => error == expected,
            _ => false,
        },
{
    let start_x: u32 = match margins[0].checked_add(output_region.x) {
        Some(start) => start,
        None => return Err(JxrError::arithmetic("region coded x")),
    };
    let start_y: u32 = match margins[1].checked_add(output_region.y) {
        Some(start) => start,
        None => return Err(JxrError::arithmetic("region coded y")),
    };
    let end_x: u32 = match start_x.checked_add(output_region.w) {
        Some(end) => end,
        None => return Err(JxrError::arithmetic("region coded width")),
    };
    let end_y: u32 = match start_y.checked_add(output_region.h) {
        Some(end) => end,
        None => return Err(JxrError::arithmetic("region coded height")),
    };
    let halo: u32 = if overlap != OverlapMode::Off || upsamples_chroma(
        internal_color_format,
        output_color_format,
    ) {
        1
    } else {
        0
    };
    let bounds: [u32; 4] = [
        (start_x / 16).saturating_sub(halo),
        (start_y / 16).saturating_sub(halo),
        last_macroblock(end_x, halo, macroblocks[0]),
        last_macroblock(end_y, halo, macroblocks[1]),
    ];
    assert(bounds@ =~= needed_macroblocks(
        margins,
        macroblocks,
        overlap,
        internal_color_format,
        output_color_format,
        output_region,
    )->Ok_0);
    Ok(bounds)
}

/// The macroblocks that a region depends on contain the region, as far as there are macroblocks.
pub proof fn lemma_needed_macroblocks_cover(
    margins: [u32; 2],
    macroblocks: [u32; 2],
    overlap: OverlapMode,
    internal_color_format: u8,
    output_color_format: u8,
    region: Rect,
)
    requires
        margins[0] + region.x + region.w <= smaller(16 * macroblocks[0], u32::MAX as int),
        margins[1] + region.y + region.h <= smaller(16 * macroblocks[1], u32::MAX as int),
    ensures
        needed_macroblocks(
            margins,
            macroblocks,
            overlap,
            internal_color_format,
            output_color_format,
            region,
        ) matches Ok(bounds) && bounds.len() == 4 && 16 * bounds[0] <= margins[0] + region.x && 16
            * bounds[1] <= margins[1] + region.y && margins[0] + region.x + region.w <= 16
            * bounds[2] <= 16 * macroblocks[0] && margins[1] + region.y + region.h <= 16 * bounds[3]
            <= 16 * macroblocks[1],
{
}

/// A number, but no more than the largest one that fits.
pub open spec fn capped(value: int) -> int {
    smaller(value, u32::MAX as int)
}

/// The place of a macroblock edge in the image, where `margin` coded pixels precede the image.
pub open spec fn edge_in_image(edge: int, margin: u8, dimension: u32) -> int {
    smaller(excess(edge, margin as int), dimension as int)
}

/// The pixels of the image that a tile covers.
pub open spec fn tile_region(
    margins: Seq<u8>,
    dimensions: (u32, u32),
    x_mb: u32,
    y_mb: u32,
    width_mb: u32,
    height_mb: u32,
) -> Rect {
    let left = capped(16 * x_mb);
    let top = capped(16 * y_mb);
    let x = edge_in_image(left, margins[1], dimensions.0);
    let y = edge_in_image(top, margins[0], dimensions.1);
    let right = edge_in_image(capped(left + 16 * width_mb), margins[1], dimensions.0);
    let bottom = edge_in_image(capped(top + 16 * height_mb), margins[0], dimensions.1);
    Rect { x: x as u32, y: y as u32, w: (right - x) as u32, h: (bottom - y) as u32 }
}

fn clipped_edge(edge: u64, margin: u8, dimension: u32) -> (place: u32)
    ensures
        place == edge_in_image(edge as int, margin, dimension),
{
    let place: u64 = edge.saturating_sub(margin as u64);
    if place < dimension as u64 {
        place as u32
    } else {
        dimension
    }
}

fn capped_to_word(value: u64) -> (result: u64)
    ensures
        result == capped(value as int),
{
    if value < u32::MAX as u64 {
        value
    } else {
        u32::MAX as u64
    }
}

/// Returns the pixels of the image that a tile covers.
pub(crate) fn tile_output_region(
    margins: [u8; 4],
    dimensions: (u32, u32),
    x_mb: u32,
    y_mb: u32,
    width_mb: u32,
    height_mb: u32,
) -> (region: Rect)
    ensures
        region == tile_region(margins@, dimensions, x_mb, y_mb, width_mb, height_mb),
{
    let left: u64 = capped_to_word(16 * x_mb as u64);
    let top: u64 = capped_to_word(16 * y_mb as u64);
    let right: u64 = capped_to_word(left + 16 * width_mb as u64);
    let bottom: u64 = capped_to_word(top + 16 * height_mb as u64);
    let x: u32 = clipped_edge(left, margins[1], dimensions.0);
    let y: u32 = clipped_edge(top, margins[0], dimensions.1);
    let right: u32 = clipped_edge(right, margins[1], dimensions.0);
    let bottom: u32 = clipped_edge(bottom, margins[0], dimensions.1);
    Rect { x, y, w: right - x, h: bottom - y }
}

} // verus!

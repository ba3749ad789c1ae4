//! What holds of every plan.

use crate::annex_a;
use crate::codestream;
use crate::codestream::ParsedModel;
use crate::metadata;
use crate::metadata::InfoModel;
use crate::plan::{DecodeRequest, PlanLimit, TilePlan};
use crate::prepare;
use crate::prepare::accounting;
use crate::prepare::regions;
use crate::prepare::size_laws;
use crate::prepare::tiles;
use crate::tail;
use crate::types::{
    AlphaMode, BitstreamMode, ByteRange, DecodeScale, JxrError, OverlapMode, Rect,
};
use std::ops::Range;
use vstd::prelude::*;

verus! {

/// The separately coded alpha of an input, as an input of its own.
pub open spec fn alpha_input(parsed: ParsedModel, range: Range<usize>) -> ParsedModel {
    ParsedModel {
        codestream_range: range,
        headers: parsed.separate_alpha_headers->0,
        directory: parsed.separate_alpha_directory->0,
        separate_alpha_headers: None,
        separate_alpha_directory: None,
        annex_a: None,
    }
}

/// A codestream that lies within an input has its packets where the directory says.
proof fn lemma_prelude_is_plannable(bytes: Seq<u8>, parsed: ParsedModel)
    requires
        tail::directory_of(bytes, parsed.headers) == Ok::<
            tail::DirectoryModel,
            crate::error::NativeError,
        >(parsed.directory),
        parsed.codestream_range.end - parsed.codestream_range.start == bytes.len(),
    ensures
        prepare::plannable(parsed),
{
    tail::lemma_directory_in_bounds(bytes, parsed.headers);
    let headers = parsed.headers;
    if metadata::described(parsed) is Ok && headers.image.flags.flag(2) {
        assert(metadata::bands_of(headers.primary.bands_present) is Ok);
        assert(tail::tile_total(headers) * tail::packet_bands(headers) >= 1) by (nonlinear_arith)
            requires
                tail::tile_total(headers) >= 1,
                tail::packet_bands(headers) >= 1,
        ;
    }
}

/// Every input that can be parsed can be planned, and so can its separately coded alpha.
pub proof fn lemma_parsed_is_plannable(bytes: Seq<u8>)
    requires
        codestream::parsed_of(bytes) is Ok,
        bytes.len() <= usize::MAX,
    ensures
        prepare::plannable(codestream::parsed_of(bytes)->Ok_0),
        codestream::parsed_of(bytes)->Ok_0.annex_a matches Some(annex)
            ==> annex.alpha_range matches Some(range) ==> prepare::plannable(
            alpha_input(codestream::parsed_of(bytes)->Ok_0, range),
        ),
{
    let parsed = codestream::parsed_of(bytes)->Ok_0;
    if codestream::has_raw_signature(bytes) {
        lemma_prelude_is_plannable(bytes, parsed);
    } else {
        annex_a::lemma_ranges_in_bounds(bytes);
        let range = parsed.codestream_range;
        lemma_prelude_is_plannable(codestream::slice_of(bytes, range), parsed);
        if let Some(range) = parsed.annex_a->0.alpha_range {
            lemma_prelude_is_plannable(
                codestream::slice_of(bytes, range),
                alpha_input(parsed, range),
            );
        }
    }
}

/// The plans of the first tiles of a row, one by one.
proof fn lemma_row_tile(
    parsed: ParsedModel,
    info: InfoModel,
    bounds: Seq<u32>,
    ranges: Seq<ByteRange>,
    row: int,
    columns: nat,
    column: int,
)
    requires
        tiles::row_tiles(parsed, info, bounds, ranges, row, columns) is Ok,
    ensures
        tiles::row_tiles(parsed, info, bounds, ranges, row, columns)->Ok_0.len() == columns,
        0 <= column < columns ==> tiles::tile_error(info, row, column) is None && tiles::row_tiles(
            parsed,
            info,
            bounds,
            ranges,
            row,
            columns,
        )->Ok_0[column] == tiles::tile_at(
            parsed,
            info,
            bounds,
            ranges[row * info.tiles.column_widths.len() + column],
            row,
            column,
        ),
    decreases columns,
{
    if columns > 0 {
        lemma_row_tile(parsed, info, bounds, ranges, row, (columns - 1) as nat, column);
    }
}

/// The plans of the tiles of the first rows, one by one.
proof fn lemma_grid_tile(
    parsed: ParsedModel,
    info: InfoModel,
    bounds: Seq<u32>,
    ranges: Seq<ByteRange>,
    rows: nat,
    row: int,
    column: int,
)
    requires
        tiles::grid_tiles(parsed, info, bounds, ranges, rows) is Ok,
    ensures
        tiles::grid_tiles(parsed, info, bounds, ranges, rows)->Ok_0.len() == rows
            * info.tiles.column_widths.len(),
        0 <= row < rows && 0 <= column < info.tiles.column_widths.len() ==> tiles::tile_error(
            info,
            row,
            column,
        ) is None && tiles::grid_tiles(parsed, info, bounds, ranges, rows)->Ok_0[row
            * info.tiles.column_widths.len() + column] == tiles::tile_at(
            parsed,
            info,
            bounds,
            ranges[row * info.tiles.column_widths.len() + column],
            row,
            column,
        ),
    decreases rows,
{
    let columns = info.tiles.column_widths.len();
    if rows > 0 {
        lemma_grid_tile(parsed, info, bounds, ranges, (rows - 1) as nat, row, column);
        lemma_row_tile(parsed, info, bounds, ranges, rows - 1, columns, column);
        assert((rows - 1) * columns + columns == rows * columns) by (nonlinear_arith);
        if 0 <= row < rows && 0 <= column < columns {
            if row < rows - 1 {
                assert(row * columns + columns <= (rows - 1) * columns) by (nonlinear_arith)
                    requires
                        row + 1 <= rows - 1,
                ;
            }
            assert(row * columns >= 0) by (nonlinear_arith)
                requires
                    row >= 0,
            ;
        }
    }
}

/// The tiles of a plan follow one another: the macroblocks of a tile come right behind those of
/// the tile before it, the first tile starts with macroblock 0, and all tiles together have the
/// macroblocks of the image.
pub proof fn lemma_tiles_are_consecutive(
    parsed: ParsedModel,
    info: InfoModel,
    region: Rect,
    row: int,
    column: int,
)
    requires
        tiles::tiles_of(parsed, info, region) is Ok,
        0 <= row < info.tiles.row_heights.len(),
        0 <= column < info.tiles.column_widths.len(),
    ensures
        ({
            let plans = tiles::tiles_of(parsed, info, region)->Ok_0;
            let columns = info.tiles.column_widths.len();
            let rows = info.tiles.row_heights.len();
            let index = row * columns + column;
            let total = metadata::size_sum(info.tiles.column_widths) * metadata::size_sum(
                info.tiles.row_heights,
            );
            let next = plans[index].macroblock_start + plans[index].macroblock_count;
            &&& plans.len() == rows * columns
            &&& 0 <= index < plans.len()
            &&& plans[0].macroblock_start == 0
            &&& index + 1 < plans.len() ==> plans[index + 1].macroblock_start == next
            &&& index + 1 == plans.len() ==> next == total
        }),
{
    let widths = info.tiles.column_widths;
    let heights = info.tiles.row_heights;
    let columns = widths.len();
    let rows = heights.len();
    let bounds = tiles::coded_bounds(parsed, info, region)->Ok_0;
    let ranges = tiles::packet_ranges(parsed)->Ok_0;
    let index = row * columns + column;
    lemma_grid_tile(parsed, info, bounds, ranges, rows, row, column);
    lemma_grid_tile(parsed, info, bounds, ranges, rows, 0, 0);
    tiles::lemma_tile_index(row, column, rows as int, columns as int);
    tiles::lemma_next_start(info, row, column);
    assert(tiles::place(widths, 0) == 0 && tiles::place(heights, 0) == 0) by {
        assert(widths.take(0).len() == 0);
        assert(heights.take(0).len() == 0);
    }
    assert(tiles::earlier_macroblocks(info, 0, 0) == 0) by (nonlinear_arith)
        requires
            tiles::earlier_macroblocks(info, 0, 0) == tiles::place(heights, 0)
                * metadata::size_sum(widths) + heights[0] * tiles::place(widths, 0),
            tiles::place(widths, 0) == 0,
            tiles::place(heights, 0) == 0,
    ;
    assert(0 * columns == 0);
    if column + 1 < columns {
        lemma_grid_tile(parsed, info, bounds, ranges, rows, row, column + 1);
        tiles::lemma_tile_index(row, column + 1, rows as int, columns as int);
    } else {
        tiles::lemma_next_row(info, row);
        assert((row + 1) * columns == row * columns + columns) by (nonlinear_arith);
        if row + 1 < rows {
            lemma_grid_tile(parsed, info, bounds, ranges, rows, row + 1, 0);
            tiles::lemma_tile_index(row + 1, 0, rows as int, columns as int);
            assert(heights[row + 1] * tiles::place(widths, 0) == 0) by (nonlinear_arith)
                requires
                    tiles::place(widths, 0) == 0,
            ;
        } else {
            tiles::lemma_place_of_end(heights);
            assert(metadata::size_sum(heights) * metadata::size_sum(widths) == metadata::size_sum(
                widths,
            ) * metadata::size_sum(heights)) by (nonlinear_arith);
        }
    }
}

/// Whether a block is one of those that hold something, or at most so many blocks away.
pub open spec fn near(block: int, first: int, last: int, distance: int) -> bool {
    first - distance <= block <= last + distance
}

/// A region depends on the macroblocks that hold its pixels, and on those next to them where
/// macroblocks overlap or chroma is brought to full resolution; and on no others.
pub proof fn lemma_neighbours_are_needed(
    margins: [u32; 2],
    macroblocks: [u32; 2],
    overlap: OverlapMode,
    internal_color_format: u8,
    output_color_format: u8,
    region: Rect,
    x: int,
    y: int,
)
    requires
        region.w >= 1,
        region.h >= 1,
        0 <= x < macroblocks[0],
        0 <= y < macroblocks[1],
        regions::needed_macroblocks(
            margins,
            macroblocks,
            overlap,
            internal_color_format,
            output_color_format,
            region,
        ) is Ok,
    ensures
        ({
            let bounds = regions::needed_macroblocks(
                margins,
                macroblocks,
                overlap,
                internal_color_format,
                output_color_format,
                region,
            )->Ok_0;
            let halved = internal_color_format == 1 || internal_color_format == 2;
            let stays = output_color_format == 1 || output_color_format == 2;
            let distance: int = if overlap == OverlapMode::Off && (!halved || stays) {
                0
            } else {
                1
            };
            let left = margins[0] + region.x;
            let top = margins[1] + region.y;
            &&& bounds.len() == 4
            &&& bounds[0] <= x < bounds[2] <==> near(
                x,
                left / 16,
                (left + region.w - 1) / 16,
                distance,
            )
            &&& bounds[1] <= y < bounds[3] <==> near(
                y,
                top / 16,
                (top + region.h - 1) / 16,
                distance,
            )
        }),
{
}

/// The pixels to reconstruct for a region are those of the blocks of 16 by 16 that hold its pixels,
/// and of those next to them where macroblocks overlap; and no others.
pub proof fn lemma_neighbours_are_reconstructed(
    region: Rect,
    dimensions: (u32, u32),
    overlap: OverlapMode,
    x: int,
    y: int,
)
    requires
        region.within(dimensions),
        region.w >= 1,
        region.h >= 1,
        0 <= x < dimensions.0,
        0 <= y < dimensions.1,
    ensures
        ({
            let surrounding = regions::surrounding_region(region, dimensions, overlap);
            let distance: int = if overlap == OverlapMode::Off {
                0
            } else {
                1
            };
            &&& surrounding.x <= x < surrounding.x + surrounding.w <==> near(
                x / 16,
                region.x as int / 16,
                (region.x + region.w - 1) / 16,
                distance,
            )
            &&& surrounding.y <= y < surrounding.y + surrounding.h <==> near(
                y / 16,
                region.y as int / 16,
                (region.y + region.h - 1) / 16,
                distance,
            )
        }),
{
}

/// A tile covers the pixels of its macroblocks, and is needed if one of its macroblocks is; it has
/// hard boundaries if the image says so.
pub proof fn lemma_tile_covers_its_pixels(
    parsed: ParsedModel,
    info: InfoModel,
    region: Rect,
    row: int,
    column: int,
    x: int,
    y: int,
)
    requires
        tiles::tiles_of(parsed, info, region) is Ok,
        0 <= row < info.tiles.row_heights.len(),
        0 <= column < info.tiles.column_widths.len(),
        16 * metadata::size_sum(info.tiles.column_widths) <= u32::MAX,
        16 * metadata::size_sum(info.tiles.row_heights) <= u32::MAX,
        0 <= x < parsed.headers.image.width,
        0 <= y < parsed.headers.image.height,
    ensures
        ({
            let plan = tiles::tiles_of(parsed, info, region)->Ok_0[row
                * info.tiles.column_widths.len() + column];
            let bounds = tiles::coded_bounds(parsed, info, region)->Ok_0;
            let left = metadata::size_sum(info.tiles.column_widths.take(column)) as int;
            let top = metadata::size_sum(info.tiles.row_heights.take(row)) as int;
            let right = left + info.tiles.column_widths[column];
            let bottom = top + info.tiles.row_heights[row];
            let output = plan.output_region;
            &&& output.x <= x < output.x + output.w <==> left <= (x
                + parsed.headers.image.margins[1]) / 16 < right
            &&& output.y <= y < output.y + output.h <==> top <= (y
                + parsed.headers.image.margins[0]) / 16 < bottom
            &&& plan.hard_boundaries == info.tiles.hard_tiles
            &&& plan.required_for_reconstruction <==> !(right <= bounds[0] || bounds[2] <= left
                || bottom <= bounds[1] || bounds[3] <= top)
            &&& plan.macroblock_count == info.tiles.row_heights[row]
                * info.tiles.column_widths[column]
        }),
{
    let widths = info.tiles.column_widths;
    let heights = info.tiles.row_heights;
    let bounds = tiles::coded_bounds(parsed, info, region)->Ok_0;
    let ranges = tiles::packet_ranges(parsed)->Ok_0;
    lemma_grid_tile(parsed, info, bounds, ranges, heights.len(), row, column);
    tiles::lemma_place_within(widths, column);
    tiles::lemma_place_within(heights, row);
    assert(widths[column] * heights[row] == heights[row] * widths[column]) by (nonlinear_arith);
}

/// The macroblocks of the tiles up to one that are needed.
pub open spec fn needed_count(tiles: Seq<TilePlan>, count: nat) -> int
    decreases count,
{
    if count == 0 {
        0
    } else {
        needed_count(tiles, (count - 1) as nat) + (
        if tiles[count - 1].required_for_reconstruction {
            tiles[count - 1].macroblock_count as int
        } else {
            0
        })
    }
}

proof fn lemma_needed_count(tiles: Seq<TilePlan>, count: nat)
    requires
        count <= tiles.len(),
    ensures
        prepare::selected_total(tiles.take(count as int)) == needed_count(tiles, count),
        needed_count(tiles, count) >= 0,
    decreases count,
{
    if count > 0 {
        lemma_needed_count(tiles, (count - 1) as nat);
        assert(tiles.take(count as int).drop_last() =~= tiles.take(count - 1));
    }
}

/// Every plan keeps the limits that were asked for: those of the input, the image, its components
/// and tiles, of the pixels and of the coefficients, of which there are four bytes for each one of
/// the macroblocks that are needed. The region is not empty and lies in the image; and a lower
/// resolution is planned only for packets by frequency that have the bands for it.
pub proof fn lemma_plan_keeps_limits(
    input_len: usize,
    parsed: ParsedModel,
    info: InfoModel,
    request: DecodeRequest,
    limits: spec_fn(PlanLimit) -> Result<(), JxrError>,
)
    ensures
        prepare::planned(input_len, parsed, info, request, limits) matches Ok(plan) ==> {
            let region = plan.output_region;
            let alpha = plan.alpha is Some || info.alpha_mode == AlphaMode::Integrated;
            let each = accounting::macroblock_size(
                info.primary.color_format,
                plan.scale.retained_bands(info.primary.bands),
            ) + (if alpha && info.alpha is Some {
                accounting::macroblock_size(
                    info.alpha->0.color_format,
                    plan.scale.retained_bands(info.alpha->0.bands),
                )
            } else {
                0
            });
            let frequency = info.primary.bitstream_mode == BitstreamMode::Frequency;
            &&& limits(PlanLimit::CompressedBytes(input_len)) is Ok
            &&& limits(PlanLimit::Dimensions(info.width, info.height)) is Ok
            &&& info.primary.color_format.components() matches Some(count) ==> limits(
                PlanLimit::Components(count),
            ) is Ok
            &&& limits(
                PlanLimit::Tiles(
                    (info.tiles.column_widths.len() * info.tiles.row_heights.len()) as usize,
                ),
            ) is Ok
            &&& limits(PlanLimit::CoefficientBytes(plan.coefficient_bytes)) is Ok
            &&& plan.coefficient_bytes == 4 * (needed_count(plan.tiles, plan.tiles.len()) * each)
            &&& region.w >= 1 && region.h >= 1
            &&& region.x + region.w <= info.width && region.y + region.h <= info.height
            &&& plan.scale != DecodeScale::Full ==> frequency
            &&& plan.scale == DecodeScale::Quarter ==> info.primary.bands.has_low_pass()
            &&& plan.codestream_range.offset + plan.codestream_range.length <= input_len
            &&& plan.codestream_range.offset == parsed.codestream_range.start
            &&& plan.primary.coefficient_plane == 0
            &&& plan.alpha matches Some(plane) ==> plane.coefficient_plane == (if info.alpha_mode
                == AlphaMode::Integrated {
                match info.primary.color_format.components() {
                    Some(count) => count as int,
                    None => 0,
                }
            } else {
                0
            })
        },
{
    if let Ok(plan) = prepare::planned(input_len, parsed, info, request, limits) {
        lemma_needed_count(plan.tiles, plan.tiles.len());
        assert(plan.tiles.take(plan.tiles.len() as int) =~= plan.tiles);
        let primary = info.primary;
        size_laws::lemma_size_is_not_negative(
            primary.color_format,
            plan.scale.retained_bands(primary.bands),
        );
        if let Some(alpha) = info.alpha {
            size_laws::lemma_size_is_not_negative(
                alpha.color_format,
                plan.scale.retained_bands(alpha.bands),
            );
        }
        let each = accounting::planned_macroblock_size(
            info,
            plan.alpha is Some || info.alpha_mode == AlphaMode::Integrated,
            plan.scale,
        );
        let count = needed_count(plan.tiles, plan.tiles.len());
        assert(count * each >= 0) by (nonlinear_arith)
            requires
                count >= 0,
                each >= 0,
        ;
    }
}

} // verus!

//! Plans of the tiles of an image.

use crate::codestream::{ParsedCodestream, ParsedModel};
use crate::metadata;
use crate::metadata::{ImageInfo, InfoModel};
use crate::plan::TilePlan;
use crate::prepare::packets;
use crate::prepare::packets::indexed_tile_packet_ranges;
use crate::prepare::regions;
use crate::prepare::regions::{reconstruction_bounds, tile_output_region};
use crate::tail;
use crate::types::{ByteRange, JxrError, Rect};
use vstd::prelude::*;

verus! {

/// Whether the packets of an input can be found: they start behind the directory, and without an
/// index there is one tile.
pub open spec fn packets_are_placed(parsed: ParsedModel) -> bool {
    &&& parsed.codestream_range.start + parsed.directory.tile_data_offset <= usize::MAX
    &&& parsed.directory.tile_offsets.len() == 0 ==> tail::tile_total(parsed.headers) == 1
        && parsed.codestream_range.start + parsed.directory.tile_data_offset
        <= parsed.codestream_range.end
}

/// The bytes of the packets of every tile.
pub open spec fn packet_ranges(parsed: ParsedModel) -> Result<Seq<ByteRange>, JxrError> {
    let base = (parsed.codestream_range.start + parsed.directory.tile_data_offset) as usize;
    let end = parsed.codestream_range.end;
    if tail::tile_total(parsed.headers) > usize::MAX {
        Err(JxrError::arithmetic("tile count"))
    } else if parsed.directory.tile_offsets.len() == 0 {
        Ok(seq![ByteRange { offset: base, length: (end - base) as usize }])
    } else {
        packets::indexed_ranges(
            base,
            end,
            parsed.directory.tile_offsets,
            tail::tile_total(parsed.headers) as usize,
            parsed.headers.image.flags.flag(1),
        )
    }
}

fn tile_packet_ranges(parsed: &ParsedCodestream) -> (result: Result<Vec<ByteRange>, JxrError>)
    requires
        packets_are_placed(parsed@),
    ensures
        match (result, packet_ranges(parsed@)) {
            (Ok(ranges), Ok(expected)) => ranges@ == expected,
            (Err(error), Err(expected)) => error == expected,
            _ => false,
        },
        result matches Ok(ranges) ==> ranges@.len() == tail::tile_total(parsed@.headers),
{
    let columns: usize = parsed.headers.image.tile_widths_mb.len();
    let rows: usize = parsed.headers.image.tile_heights_mb.len();
    proof {
        assert((columns + 1) * (rows + 1) >= columns + 1 && (columns + 1) * (rows + 1) >= rows + 1)
            by (nonlinear_arith);
    }
    let tile_count: usize = match columns.checked_add(1) {
        Some(columns) => match rows.checked_add(1) {
            Some(rows) => match columns.checked_mul(rows) {
                Some(count) => count,
                None => return Err(JxrError::arithmetic("tile count")),
            },
            None => return Err(JxrError::arithmetic("tile count")),
        },
        None => return Err(JxrError::arithmetic("tile count")),
    };
    let base: usize = parsed.codestream_range.start + parsed.directory.tile_data_offset;
    let end: usize = parsed.codestream_range.end;
    if parsed.directory.tile_offsets.len() == 0 {
        let range: ByteRange = ByteRange::new(base, end - base, end)?;
        let mut ranges: Vec<ByteRange> = Vec::new();
        ranges.push(range);
        assert(ranges@ =~= packet_ranges(parsed@)->Ok_0);
        return Ok(ranges);
    }
    indexed_tile_packet_ranges(
        base,
        end,
        parsed.directory.tile_offsets.as_slice(),
        tile_count,
        parsed.headers.image.flags.frequency_mode(),
    )
}

/// The macroblocks before a tile, in one direction.
pub open spec fn place(sizes: Seq<u32>, index: int) -> int {
    metadata::size_sum(sizes.take(index)) as int
}

/// The sum of all sizes is the place behind the last one.
pub(crate) proof fn lemma_place_of_end(sizes: Seq<u32>)
    ensures
        place(sizes, sizes.len() as int) == metadata::size_sum(sizes),
{
    assert(sizes.take(sizes.len() as int) =~= sizes);
}

/// The next place is one size further.
proof fn lemma_next_place(sizes: Seq<u32>, index: int)
    requires
        0 <= index < sizes.len(),
    ensures
        place(sizes, index + 1) == place(sizes, index) + sizes[index],
{
    assert(sizes.take(index + 1).drop_last() =~= sizes.take(index));
}

/// A size ends at the sum of all sizes or before.
pub(crate) proof fn lemma_place_within(sizes: Seq<u32>, index: int)
    requires
        0 <= index < sizes.len(),
    ensures
        0 <= place(sizes, index),
        place(sizes, index) + sizes[index] <= metadata::size_sum(sizes),
{
    lemma_next_place(sizes, index);
    lemma_place_bound(sizes, index + 1);
}

/// No place lies behind the sum of all sizes.
proof fn lemma_place_bound(sizes: Seq<u32>, index: int)
    requires
        0 <= index <= sizes.len(),
    ensures
        0 <= place(sizes, index) <= metadata::size_sum(sizes),
    decreases sizes.len() - index,
{
    if index < sizes.len() {
        lemma_next_place(sizes, index);
        lemma_place_bound(sizes, index + 1);
    } else {
        lemma_place_of_end(sizes);
    }
}

/// The macroblocks in the tiles before the one in a row and a column.
pub open spec fn earlier_macroblocks(info: InfoModel, row: int, column: int) -> int {
    place(info.tiles.row_heights, row) * metadata::size_sum(info.tiles.column_widths)
        + info.tiles.row_heights[row] * place(info.tiles.column_widths, column)
}

/// The macroblocks in a tile.
pub open spec fn tile_macroblocks(info: InfoModel, row: int, column: int) -> int {
    info.tiles.column_widths[column] * info.tiles.row_heights[row]
}

/// The error of a tile that has too many macroblocks, or too many before it.
pub open spec fn tile_error(info: InfoModel, row: int, column: int) -> Option<JxrError> {
    if tile_macroblocks(info, row, column) > u32::MAX {
        Some(JxrError::arithmetic("tile macroblock count"))
    } else if earlier_macroblocks(info, row, column) + tile_macroblocks(info, row, column)
        > u32::MAX {
        Some(JxrError::arithmetic("tile macroblock offsets"))
    } else {
        None
    }
}

/// The plan of the tile in a row and a column.
pub open spec fn tile_at(
    parsed: ParsedModel,
    info: InfoModel,
    bounds: Seq<u32>,
    range: ByteRange,
    row: int,
    column: int,
) -> TilePlan {
    let x = place(info.tiles.column_widths, column);
    let y = place(info.tiles.row_heights, row);
    let width = info.tiles.column_widths[column];
    let height = info.tiles.row_heights[row];
    TilePlan {
        packet_range: range,
        output_region: regions::tile_region(
            parsed.headers.image.margins,
            (parsed.headers.image.width, parsed.headers.image.height),
            x as u32,
            y as u32,
            width,
            height,
        ),
        macroblock_start: earlier_macroblocks(info, row, column) as u32,
        macroblock_count: tile_macroblocks(info, row, column) as u32,
        hard_boundaries: info.tiles.hard_tiles,
        required_for_reconstruction: x < bounds[2] && x + width > bounds[0] && y < bounds[3] && y
            + height > bounds[1],
    }
}

/// The plans of the first tiles of a row.
pub open spec fn row_tiles(
    parsed: ParsedModel,
    info: InfoModel,
    bounds: Seq<u32>,
    ranges: Seq<ByteRange>,
    row: int,
    columns: nat,
) -> Result<Seq<TilePlan>, JxrError>
    decreases columns,
{
    if columns == 0 {
        Ok(Seq::empty())
    } else {
        let column = columns - 1;
        let earlier = row_tiles(parsed, info, bounds, ranges, row, (columns - 1) as nat);
        if earlier is Err {
            earlier
        } else {
            match tile_error(info, row, column) {
                Some(error) => Err(error),
                None => Ok(
                    earlier->Ok_0.push(
                        tile_at(
                            parsed,
                            info,
                            bounds,
                            ranges[row * info.tiles.column_widths.len() + column],
                            row,
                            column,
                        ),
                    ),
                ),
            }
        }
    }
}

/// The plans of the tiles of the first rows.
pub open spec fn grid_tiles(
    parsed: ParsedModel,
    info: InfoModel,
    bounds: Seq<u32>,
    ranges: Seq<ByteRange>,
    rows: nat,
) -> Result<Seq<TilePlan>, JxrError>
    decreases rows,
{
    if rows == 0 {
        Ok(Seq::empty())
    } else {
        let earlier = grid_tiles(parsed, info, bounds, ranges, (rows - 1) as nat);
        let row = row_tiles(
            parsed,
            info,
            bounds,
            ranges,
            rows - 1,
            info.tiles.column_widths.len(),
        );
        if earlier is Err {
            earlier
        } else if row is Err {
            row
        } else {
            Ok(earlier->Ok_0 + row->Ok_0)
        }
    }
}

/// The macroblocks that the requested region depends on.
pub open spec fn coded_bounds(parsed: ParsedModel, info: InfoModel, region: Rect) -> Result<
    Seq<u32>,
    JxrError,
> {
    regions::needed_macroblocks(
        [parsed.headers.image.margins[1] as u32, parsed.headers.image.margins[0] as u32],
        [
            metadata::size_sum(info.tiles.column_widths) as u32,
            metadata::size_sum(info.tiles.row_heights) as u32,
        ],
        info.primary.overlap,
        parsed.headers.primary.internal_color_format,
        parsed.headers.image.output_color_format,
        region,
    )
}

/// The plans of all tiles, row by row.
pub open spec fn tiles_of(parsed: ParsedModel, info: InfoModel, region: Rect) -> Result<
    Seq<TilePlan>,
    JxrError,
> {
    let ranges = packet_ranges(parsed);
    let bounds = coded_bounds(parsed, info, region);
    if ranges is Err {
        Err(ranges->Err_0)
    } else if bounds is Err {
        Err(bounds->Err_0)
    } else {
        grid_tiles(parsed, info, bounds->Ok_0, ranges->Ok_0, info.tiles.row_heights.len())
    }
}

/// Returns the sum of sizes.
pub(crate) fn sum_sizes(sizes: &Vec<u32>) -> (sum: u32)
    requires
        metadata::size_sum(sizes@) <= u32::MAX,
    ensures
        sum == metadata::size_sum(sizes@),
{
    let mut sum: u32 = 0;
    for index in 0..sizes.len()
        invariant
            metadata::size_sum(sizes@) <= u32::MAX,
            sum == place(sizes@, index as int),
    {
        proof {
            lemma_next_place(sizes@, index as int);
            lemma_place_bound(sizes@, index as int + 1);
        }
        sum = sum + sizes[index];
    }
    proof {
        lemma_place_of_end(sizes@);
    }
    sum
}

fn coded_reconstruction_bounds(
    parsed: &ParsedCodestream,
    info: &ImageInfo,
    output_region: Rect,
) -> (result: Result<[u32; 4], JxrError>)
    requires
        metadata::size_sum(info.tiles.column_widths@) <= u32::MAX,
        metadata::size_sum(info.tiles.row_heights@) <= u32::MAX,
    ensures
        match (result, coded_bounds(parsed@, info@, output_region)) {
            (Ok(bounds), Ok(expected)) => bounds@ == expected,
            (Err(error), Err(expected)) => error == expected,
            _ => false,
        },
{
    reconstruction_bounds(
        [parsed.headers.image.margins[1] as u32, parsed.headers.image.margins[0] as u32],
        [sum_sizes(&info.tiles.column_widths), sum_sizes(&info.tiles.row_heights)],
        info.primary.overlap,
        parsed.headers.primary.internal_color_format,
        parsed.headers.image.output_color_format,
        output_region,
    )
}

/// Whether tile sizes can be used: there are some, and they can be summed.
pub open spec fn grid_is_usable(info: InfoModel) -> bool {
    &&& metadata::size_sum(info.tiles.column_widths) <= u32::MAX
    &&& metadata::size_sum(info.tiles.row_heights) <= u32::MAX
}

/// Once a tile of a row is refused, later tiles of the row do not matter.
proof fn lemma_row_stops(
    parsed: ParsedModel,
    info: InfoModel,
    bounds: Seq<u32>,
    ranges: Seq<ByteRange>,
    row: int,
    some: nat,
    columns: nat,
)
    requires
        some <= columns,
        row_tiles(parsed, info, bounds, ranges, row, some) is Err,
    ensures
        row_tiles(parsed, info, bounds, ranges, row, columns) == row_tiles(
            parsed,
            info,
            bounds,
            ranges,
            row,
            some,
        ),
    decreases columns,
{
    if some < columns {
        lemma_row_stops(parsed, info, bounds, ranges, row, some, (columns - 1) as nat);
    }
}

/// Once a row is refused, later rows do not matter.
proof fn lemma_grid_stops(
    parsed: ParsedModel,
    info: InfoModel,
    bounds: Seq<u32>,
    ranges: Seq<ByteRange>,
    some: nat,
    rows: nat,
)
    requires
        some <= rows,
        grid_tiles(parsed, info, bounds, ranges, some) is Err,
    ensures
        grid_tiles(parsed, info, bounds, ranges, rows) == grid_tiles(
            parsed,
            info,
            bounds,
            ranges,
            some,
        ),
    decreases rows,
{
    if some < rows {
        lemma_grid_stops(parsed, info, bounds, ranges, some, (rows - 1) as nat);
    }
}

/// The macroblocks before the next tile of a row.
pub(crate) proof fn lemma_next_start(info: InfoModel, row: int, column: int)
    requires
        0 <= row < info.tiles.row_heights.len(),
        0 <= column < info.tiles.column_widths.len(),
    ensures
        earlier_macroblocks(info, row, column + 1) == earlier_macroblocks(info, row, column)
            + tile_macroblocks(info, row, column),
{
    let widths = info.tiles.column_widths;
    let height = info.tiles.row_heights[row] as int;
    lemma_next_place(widths, column);
    assert(height * (place(widths, column) + widths[column]) == height * place(widths, column)
        + widths[column] * height) by (nonlinear_arith);
}

/// The macroblocks before the first tile of the next row.
pub(crate) proof fn lemma_next_row(info: InfoModel, row: int)
    requires
        0 <= row < info.tiles.row_heights.len(),
    ensures
        earlier_macroblocks(info, row, info.tiles.column_widths.len() as int) == place(
            info.tiles.row_heights,
            row + 1,
        ) * metadata::size_sum(info.tiles.column_widths),
{
    let widths = info.tiles.column_widths;
    let heights = info.tiles.row_heights;
    let total = metadata::size_sum(widths) as int;
    lemma_next_place(heights, row);
    lemma_place_of_end(widths);
    assert((place(heights, row) + heights[row]) * total == place(heights, row) * total
        + heights[row] * total) by (nonlinear_arith);
}

/// The tile of a row and a column has its range.
pub(crate) proof fn lemma_tile_index(row: int, column: int, rows: int, columns: int)
    requires
        0 <= row < rows,
        0 <= column < columns,
    ensures
        0 <= row * columns + column < rows * columns,
{
    assert(row * columns + columns <= rows * columns) by (nonlinear_arith)
        requires
            row + 1 <= rows,
            0 < columns,
    ;
    assert(row * columns >= 0) by (nonlinear_arith)
        requires
            row >= 0,
            columns > 0,
    ;
}

/// Plans the tiles of one row and adds them to the plans of the rows above.
fn plan_row(
    parsed: &ParsedCodestream,
    info: &ImageInfo,
    bounds: &[u32; 4],
    ranges: &Vec<ByteRange>,
    row: usize,
    y_mb: u32,
    macroblock_start: u32,
    plans: &mut Vec<TilePlan>,
) -> (result: Result<u32, JxrError>)
    requires
        grid_is_usable(info@),
        row < info@.tiles.row_heights.len(),
        ranges@.len() == info@.tiles.row_heights.len() * info@.tiles.column_widths.len(),
        y_mb == place(info@.tiles.row_heights, row as int),
        macroblock_start == place(info@.tiles.row_heights, row as int) * metadata::size_sum(
            info@.tiles.column_widths,
        ),
    ensures
        match (
            result,
            row_tiles(
                parsed@,
                info@,
                bounds@,
                ranges@,
                row as int,
                info@.tiles.column_widths.len(),
            ),
        ) {
            (Ok(next), Ok(expected)) => final(plans)@ == old(plans)@ + expected && next == place(
                info@.tiles.row_heights,
                row + 1,
            ) * metadata::size_sum(info@.tiles.column_widths),
            (Err(error), Err(expected)) => error == expected,
            _ => false,
        },
{
    let height_mb: u32 = info.tiles.row_heights[row];
    let columns: usize = info.tiles.column_widths.len();
    let mut macroblock_start: u32 = macroblock_start;
    let mut x_mb: u32 = 0;
    proof {
        assert(place(info@.tiles.column_widths, 0) == 0) by {
            assert(info@.tiles.column_widths.take(0).len() == 0);
        }
        assert(height_mb * place(info@.tiles.column_widths, 0) == 0) by (nonlinear_arith)
            requires
                place(info@.tiles.column_widths, 0) == 0,
        ;
        assert(plans@ =~= old(plans)@ + Seq::<TilePlan>::empty());
    }
    for column in 0..columns
        invariant
            grid_is_usable(info@),
            columns == info@.tiles.column_widths.len(),
            row < info@.tiles.row_heights.len(),
            height_mb == info@.tiles.row_heights[row as int],
            ranges@.len() == info@.tiles.row_heights.len() * info@.tiles.column_widths.len(),
            y_mb == place(info@.tiles.row_heights, row as int),
            x_mb == place(info@.tiles.column_widths, column as int),
            macroblock_start == earlier_macroblocks(info@, row as int, column as int),
            row_tiles(parsed@, info@, bounds@, ranges@, row as int, column as nat) is Ok,
            plans@ == old(plans)@ + row_tiles(
                parsed@,
                info@,
                bounds@,
                ranges@,
                row as int,
                column as nat,
            )->Ok_0,
    {
        let width_mb: u32 = info.tiles.column_widths[column];
        proof {
            lemma_next_start(info@, row as int, column as int);
            lemma_next_place(info@.tiles.column_widths, column as int);
            lemma_place_bound(info@.tiles.column_widths, column as int + 1);
            lemma_next_place(info@.tiles.row_heights, row as int);
            lemma_place_bound(info@.tiles.row_heights, row as int + 1);
            lemma_tile_index(
                row as int,
                column as int,
                info@.tiles.row_heights.len() as int,
                columns as int,
            );
            if row_tiles(parsed@, info@, bounds@, ranges@, row as int, (column + 1) as nat) is Err {
                lemma_row_stops(
                    parsed@,
                    info@,
                    bounds@,
                    ranges@,
                    row as int,
                    (column + 1) as nat,
                    columns as nat,
                );
            }
            assert(row * columns >= 0) by (nonlinear_arith)
                requires
                    row >= 0,
                    columns >= 0,
            ;
        }
        let count: u32 = match width_mb.checked_mul(height_mb) {
            Some(count) => count,
            None => return Err(JxrError::arithmetic("tile macroblock count")),
        };
        let next_start: u32 = match macroblock_start.checked_add(count) {
            Some(next) => next,
            None => return Err(JxrError::arithmetic("tile macroblock offsets")),
        };
        let range_count: usize = ranges.len();
        assert(range_count == ranges@.len());
        let plan = TilePlan {
            packet_range: ranges[row * columns + column],
            output_region: tile_output_region(
                parsed.headers.image.margins,
                (parsed.headers.image.width, parsed.headers.image.height),
                x_mb,
                y_mb,
                width_mb,
                height_mb,
            ),
            macroblock_start,
            macroblock_count: count,
            hard_boundaries: info.tiles.hard_tiles,
            required_for_reconstruction: x_mb < bounds[2] && x_mb + width_mb > bounds[0] && y_mb
                < bounds[3] && y_mb + height_mb > bounds[1],
        };
        let ghost before = plans@;
        plans.push(plan);
        proof {
            let expected = row_tiles(
                parsed@,
                info@,
                bounds@,
                ranges@,
                row as int,
                (column + 1) as nat,
            )->Ok_0;
            assert(plan == expected.last());
            assert(plans@ =~= old(plans)@ + expected);
        }
        macroblock_start = next_start;
        x_mb = x_mb + width_mb;
    }
    proof {
        lemma_next_row(info@, row as int);
    }
    Ok(macroblock_start)
}

/// Returns the plans of all tiles, row by row.
pub(crate) fn tile_plans(parsed: &ParsedCodestream, info: &ImageInfo, output_region: Rect) -> (result:
    Result<Vec<TilePlan>, JxrError>)
    requires
        packets_are_placed(parsed@),
        grid_is_usable(info@),
        info@.tiles.column_widths.len() == parsed@.headers.image.tile_widths_mb.len() + 1,
        info@.tiles.row_heights.len() == parsed@.headers.image.tile_heights_mb.len() + 1,
    ensures
        match (result, tiles_of(parsed@, info@, output_region)) {
            (Ok(tiles), Ok(expected)) => tiles@ == expected,
            (Err(error), Err(expected)) => error == expected,
            _ => false,
        },
{
    let ranges: Vec<ByteRange> = tile_packet_ranges(parsed)?;
    let bounds: [u32; 4] = coded_reconstruction_bounds(parsed, info, output_region)?;
    proof {
        assert(ranges@.len() == info@.tiles.row_heights.len() * info@.tiles.column_widths.len())
            by (nonlinear_arith)
            requires
                ranges@.len() == info@.tiles.column_widths.len() * info@.tiles.row_heights.len(),
        ;
    }
    let mut plans: Vec<TilePlan> = Vec::new();
    let mut macroblock_start: u32 = 0;
    let mut y_mb: u32 = 0;
    let rows: usize = info.tiles.row_heights.len();
    proof {
        assert(place(info@.tiles.row_heights, 0) == 0) by {
            assert(info@.tiles.row_heights.take(0).len() == 0);
        }
    }
    for row in 0..rows
        invariant
            grid_is_usable(info@),
            rows == info@.tiles.row_heights.len(),
            ranges@.len() == info@.tiles.row_heights.len() * info@.tiles.column_widths.len(),
            y_mb == place(info@.tiles.row_heights, row as int),
            macroblock_start == place(info@.tiles.row_heights, row as int) * metadata::size_sum(
                info@.tiles.column_widths,
            ),
            packet_ranges(parsed@) == Ok::<Seq<ByteRange>, JxrError>(ranges@),
            coded_bounds(parsed@, info@, output_region) == Ok::<Seq<u32>, JxrError>(bounds@),
            grid_tiles(parsed@, info@, bounds@, ranges@, row as nat) == Ok::<
                Seq<TilePlan>,
                JxrError,
            >(plans@),
    {
        proof {
            lemma_next_place(info@.tiles.row_heights, row as int);
            lemma_place_bound(info@.tiles.row_heights, row as int + 1);
            if grid_tiles(parsed@, info@, bounds@, ranges@, (row + 1) as nat) is Err {
                lemma_grid_stops(
                    parsed@,
                    info@,
                    bounds@,
                    ranges@,
                    (row + 1) as nat,
                    rows as nat,
                );
            }
        }
        macroblock_start = plan_row(
            parsed,
            info,
            &bounds,
            &ranges,
            row,
            y_mb,
            macroblock_start,
            &mut plans,
        )?;
        y_mb = y_mb + info.tiles.row_heights[row];
    }
    Ok(plans)
}

} // verus!

//! Laws of reconstruction, macroblock by macroblock.

use crate::reconstruct::contract::{
    ConfigModel, PlanarSamples, QuantizedMacroblock, ReconstructionError,
};
use crate::reconstruct::dequant;
use crate::reconstruct::kernels;
use crate::reconstruct::kernels::Kernel;
use crate::reconstruct::overlap;
use crate::reconstruct::pipeline;
use crate::reconstruct::raster;
use crate::reconstruct::subsampled_overlap;
use crate::reconstruct::transform;
use crate::types::{BandPresence, DecodeScale, OverlapMode};
use vstd::prelude::*;

verus! {

/// The samples of one macroblock: scaled and through both inverse transforms.
pub open spec fn alone(
    macroblock: QuantizedMacroblock,
    config: ConfigModel,
    rule: spec_fn(Kernel, Seq<i32>) -> Option<Seq<i32>>,
) -> Result<Seq<i32>, ReconstructionError> {
    let blocks = config.block_columns * config.block_rows;
    let low = dequant::low_scaled(macroblock, blocks);
    let high = dequant::high_scaled(macroblock, blocks);
    let inverse = transform::first_inverse(low->Ok_0, config, rule);
    if low is Err {
        low
    } else if high is Err {
        high
    } else if inverse is Err {
        inverse
    } else {
        transform::second_inverse(high->Ok_0, inverse->Ok_0, blocks as nat, rule)
    }
}

/// The macroblock that a sample of a plane belongs to.
pub open spec fn macroblock_at(config: ConfigModel, x: int, y: int) -> int {
    (y / (4 * config.block_rows)) * config.macroblocks_x + x / (4 * config.block_columns)
}

/// The place of a sample of a plane in its macroblock: macroblocks hold blocks, and blocks hold
/// samples, row by row.
pub open spec fn place_in_macroblock(config: ConfigModel, x: int, y: int) -> int {
    16 * (((y % (4 * config.block_rows)) / 4) * config.block_columns + (x % (4
        * config.block_columns)) / 4) + 4 * (y % 4) + x % 4
}

/// Whether values are those of a macroblock after scaling and the first inverse transform.
spec fn is_level_of(
    low: Seq<i32>,
    high: Seq<i32>,
    macroblock: QuantizedMacroblock,
    config: ConfigModel,
    rule: spec_fn(Kernel, Seq<i32>) -> Option<Seq<i32>>,
) -> bool {
    let blocks = config.block_columns * config.block_rows;
    let scaled = dequant::low_scaled(macroblock, blocks);
    &&& scaled is Ok
    &&& transform::first_inverse(scaled->Ok_0, config, rule) == Ok::<
        Seq<i32>,
        ReconstructionError,
    >(low)
    &&& dequant::high_scaled(macroblock, blocks) == Ok::<Seq<i32>, ReconstructionError>(high)
    &&& low.len() == 16
}

proof fn lemma_first_levels(
    macroblocks: Seq<QuantizedMacroblock>,
    count: nat,
    config: ConfigModel,
    rule: spec_fn(Kernel, Seq<i32>) -> Option<Seq<i32>>,
    index: int,
)
    requires
        pipeline::first_levels(macroblocks, count, config, rule) is Ok,
    ensures
        ({
            let levels = pipeline::first_levels(macroblocks, count, config, rule)->Ok_0;
            &&& levels.low.len() == count
            &&& levels.high.len() == count
            &&& 0 <= index < count ==> is_level_of(
                levels.low[index],
                levels.high[index],
                macroblocks[index],
                config,
                rule,
            )
        }),
    decreases count,
{
    if count > 0 {
        lemma_first_levels(macroblocks, (count - 1) as nat, config, rule, index);
    }
}

proof fn lemma_second_levels(
    high: Seq<Seq<i32>>,
    low: Seq<Seq<i32>>,
    count: nat,
    blocks: nat,
    rule: spec_fn(Kernel, Seq<i32>) -> Option<Seq<i32>>,
)
    requires
        pipeline::second_levels(high, low, count, blocks, rule) is Ok,
    ensures
        ({
            let samples = pipeline::second_levels(high, low, count, blocks, rule)->Ok_0;
            &&& samples.len() == count
            &&& forall|index: int|
                0 <= index < count ==> transform::second_inverse(
                    high[index],
                    low[index],
                    blocks,
                    rule,
                ) == Ok::<Seq<i32>, ReconstructionError>(#[trigger] samples[index])
        }),
    decreases count,
{
    if count > 0 {
        lemma_second_levels(high, low, (count - 1) as nat, blocks, rule);
    }
}

/// Without overlap each macroblock is reconstructed alone: a sample of the plane is the one that
/// its macroblock gives, whatever the other macroblocks are.
pub proof fn lemma_macroblocks_are_reconstructed_alone(
    macroblocks: Seq<QuantizedMacroblock>,
    config: ConfigModel,
    x: int,
    y: int,
    rule: spec_fn(Kernel, Seq<i32>) -> Option<Seq<i32>>,
)
    requires
        config.overlap == OverlapMode::Off,
        0 <= x < pipeline::config_shape(config).width(),
        0 <= y < pipeline::config_shape(config).height(),
    ensures
        pipeline::full_resolution(macroblocks, config, rule) matches Ok(plane) ==> {
            let macroblock = macroblock_at(config, x, y);
            &&& 0 <= macroblock < macroblocks.len()
            &&& alone(macroblocks[macroblock], config, rule) is Ok
            &&& plane.samples[y * plane.width + x] == alone(
                macroblocks[macroblock],
                config,
                rule,
            )->Ok_0[place_in_macroblock(config, x, y)]
        },
{
    if let Ok(plane) = pipeline::full_resolution(macroblocks, config, rule) {
        let shape = pipeline::config_shape(config);
        let levels = pipeline::first_levels(macroblocks, macroblocks.len(), config, rule);
        let low = levels->Ok_0.low;
        let high = levels->Ok_0.high;
        let columns = config.tiles.column_boundaries;
        let rows = config.tiles.row_boundaries;
        assert(columns[0] < columns[columns.len() - 1]);
        assert(rows[0] < rows[rows.len() - 1]);
        assert(macroblocks.len() == shape.macroblocks_y * shape.macroblocks_x)
            by (nonlinear_arith)
            requires
                macroblocks.len() == config.macroblocks_x * config.macroblocks_y,
                shape.macroblocks_x == config.macroblocks_x,
                shape.macroblocks_y == config.macroblocks_y,
        ;
        lemma_first_levels(macroblocks, macroblocks.len(), config, rule, 0);
        assert forall|index: int| 0 <= index < low.len() implies #[trigger] low[index].len()
            == 16 by {
            lemma_first_levels(macroblocks, macroblocks.len(), config, rule, index);
        }
        raster::lemma_divide_combined(low, shape);
        let blocks = shape.blocks() as nat;
        let samples = pipeline::second_levels(high, low, macroblocks.len(), blocks, rule);
        lemma_second_levels(high, low, macroblocks.len(), blocks, rule);
        let width = shape.width();
        let height = shape.height();
        assert(0 <= y * width + x < height * width) by (nonlinear_arith)
            requires
                0 <= x < width,
                0 <= y,
                y + 1 <= height,
        ;
        raster::lemma_parts(y, x, width);
        let macroblock = macroblock_at(config, x, y);
        raster::lemma_quotient(x, 4 * shape.block_columns, shape.macroblocks_x);
        raster::lemma_quotient(y, 4 * shape.block_rows, shape.macroblocks_y);
        raster::lemma_row_major(
            y / (4 * shape.block_rows),
            x / (4 * shape.block_columns),
            shape.macroblocks_y,
            shape.macroblocks_x,
        );
        assert(plane.samples[y * width + x] == raster::sample_value(
            samples->Ok_0,
            shape,
            y,
            x,
        ));
        lemma_first_levels(macroblocks, macroblocks.len(), config, rule, macroblock);
        assert(samples->Ok_0[macroblock] == alone(
            macroblocks[macroblock],
            config,
            rule,
        )->Ok_0);
    }
}

/// Whether two macroblocks differ at most in the first high-pass coefficients of their blocks.
pub open spec fn same_but_first(left: QuantizedMacroblock, right: QuantizedMacroblock) -> bool {
    &&& left.dc_low_pass@ == right.dc_low_pass@
    &&& left.quantizers == right.quantizers
    &&& left.bands == right.bands
    &&& forall|place: int|
        0 <= place < 256 && place % 16 != 0 ==> #[trigger] left.high_pass@[place]
            == right.high_pass@[place]
}

/// Whether the macroblocks of two components differ at most in the first high-pass coefficients of
/// their blocks.
pub open spec fn all_same_but_first(
    left: Seq<QuantizedMacroblock>,
    right: Seq<QuantizedMacroblock>,
) -> bool {
    left.len() == right.len() && forall|index: int|
        0 <= index < left.len() ==> same_but_first(#[trigger] left[index], right[index])
}

proof fn lemma_same_scaled(left: QuantizedMacroblock, right: QuantizedMacroblock, blocks: int)
    requires
        same_but_first(left, right),
        0 <= blocks <= 16,
    ensures
        dequant::low_scaled(left, blocks) == dequant::low_scaled(right, blocks),
        dequant::high_scaled(left, blocks) == dequant::high_scaled(right, blocks),
        dequant::dc_scaled(left) == dequant::dc_scaled(right),
{
    assert(dequant::without_first(left.high_pass@, 16 * blocks) =~= dequant::without_first(
        right.high_pass@,
        16 * blocks,
    ));
}

proof fn lemma_same_levels(
    left: Seq<QuantizedMacroblock>,
    right: Seq<QuantizedMacroblock>,
    count: nat,
    config: ConfigModel,
    rule: spec_fn(Kernel, Seq<i32>) -> Option<Seq<i32>>,
)
    requires
        all_same_but_first(left, right),
        count <= left.len(),
        config.block_columns * config.block_rows <= 16,
    ensures
        pipeline::first_levels(left, count, config, rule) == pipeline::first_levels(
            right,
            count,
            config,
            rule,
        ),
        pipeline::low_levels(left, count, config, rule) == pipeline::low_levels(
            right,
            count,
            config,
            rule,
        ),
        pipeline::dc_samples(left, count, config.scale_after_first_transform)
            == pipeline::dc_samples(right, count, config.scale_after_first_transform),
    decreases count,
{
    if count > 0 {
        let last = count - 1;
        lemma_same_levels(left, right, last as nat, config, rule);
        assert(config.block_columns * config.block_rows >= 0) by (nonlinear_arith);
        assert(same_but_first(left[last], right[last]));
        lemma_same_scaled(left[last], right[last], config.block_columns * config.block_rows);
    }
}

/// The first high-pass coefficient of a block is ignored, as its place is taken by a low-pass
/// value: macroblocks that differ in nothing else give the same samples, or fail in the same way,
/// at every resolution.
pub proof fn lemma_first_coefficients_are_ignored(
    left: Seq<QuantizedMacroblock>,
    right: Seq<QuantizedMacroblock>,
    config: ConfigModel,
    scale: DecodeScale,
    rule: spec_fn(Kernel, Seq<i32>) -> Option<Seq<i32>>,
)
    requires
        all_same_but_first(left, right),
    ensures
        pipeline::full_resolution(left, config, rule) == pipeline::full_resolution(
            right,
            config,
            rule,
        ),
        pipeline::reconstructed(left, config, scale, rule) == pipeline::reconstructed(
            right,
            config,
            scale,
            rule,
        ),
{
    if pipeline::geometry_of(left.len() as int, config) is Ok {
        assert(config.block_columns * config.block_rows <= 16) by (nonlinear_arith)
            requires
                config.block_columns <= 4,
                config.block_rows <= 4,
        ;
        lemma_same_levels(left, right, left.len(), config, rule);
    }
}

/// What retained buffers held before never shows: two outcomes of a reconstruction, with whatever
/// workspaces, are the same plane or the same failure, even if the macroblocks differ in the first
/// high-pass coefficients of their blocks.
pub proof fn lemma_earlier_contents_never_show(
    left: Seq<QuantizedMacroblock>,
    right: Seq<QuantizedMacroblock>,
    config: ConfigModel,
    scale: DecodeScale,
    rule: spec_fn(Kernel, Seq<i32>) -> Option<Seq<i32>>,
    first: Result<PlanarSamples, ReconstructionError>,
    second: Result<PlanarSamples, ReconstructionError>,
)
    requires
        all_same_but_first(left, right),
        pipeline::yields(first, pipeline::reconstructed(left, config, scale, rule)),
        pipeline::yields(second, pipeline::reconstructed(right, config, scale, rule)),
    ensures
        match (first, second) {
            (Ok(first), Ok(second)) => first@ == second@,
            (Err(first), Err(second)) => first == second,
            _ => false,
        },
{
    lemma_first_coefficients_are_ignored(left, right, config, scale, rule);
}

/// The coefficient at a place of the first inverse transform: the DC coefficient times the DC step,
/// or a low-pass coefficient times the low-pass step where low-pass coefficients are coded.
pub open spec fn low_input(macroblock: QuantizedMacroblock, blocks: int, place: int) -> int {
    if place == 0 {
        macroblock.dc_low_pass@[0] * macroblock.quantizers.dc
    } else if place < blocks && macroblock.bands != BandPresence::DcOnly {
        macroblock.dc_low_pass@[place] * macroblock.quantizers.low_pass
    } else {
        0
    }
}

/// The coefficient at a place of a block before the second inverse transform, other than the first:
/// a high-pass coefficient times the high-pass step where high-pass coefficients are coded.
pub open spec fn high_input(macroblock: QuantizedMacroblock, block: int, place: int) -> int {
    if macroblock.bands == BandPresence::All || macroblock.bands == BandPresence::NoFlexbits {
        macroblock.high_pass@[16 * block + place] * macroblock.quantizers.high_pass
    } else {
        0
    }
}

/// The operator of the first inverse transform of so many blocks.
pub open spec fn first_operator(block_columns: int, block_rows: int) -> Kernel {
    if block_columns == 4 {
        Kernel::CoreTransform
    } else if block_rows == 4 {
        Kernel::ChromaTransform422
    } else {
        Kernel::ChromaTransform420
    }
}

/// The input of the first inverse transform of a macroblock.
pub open spec fn first_input(macroblock: QuantizedMacroblock, blocks: int) -> Seq<i32> {
    Seq::new(16, |place: int| low_input(macroblock, blocks, place) as i32)
}

/// What the first inverse transform of a macroblock gives for a block.
pub open spec fn block_mean(
    macroblock: QuantizedMacroblock,
    config: ConfigModel,
    block: int,
    rule: spec_fn(Kernel, Seq<i32>) -> Option<Seq<i32>>,
) -> int {
    let blocks = config.block_columns * config.block_rows;
    let output = rule(
        first_operator(config.block_columns as int, config.block_rows as int),
        first_input(macroblock, blocks),
    );
    if config.scale_after_first_transform {
        2 * output->0[block]
    } else {
        output->0[block] as int
    }
}

/// The input of the second inverse transform of a block, whose first coefficient is given.
pub open spec fn second_input(macroblock: QuantizedMacroblock, block: int, mean: i32) -> Seq<i32> {
    Seq::new(
        16,
        |place: int|
            if place == 0 {
                mean
            } else {
                high_input(macroblock, block, place) as i32
            },
    )
}

/// Each band is scaled by its own step: the DC coefficient by the DC step, low-pass coefficients by
/// the low-pass step, and high-pass coefficients by the high-pass step. Coefficients of bands that
/// are not coded do not matter, and coefficients that do not fit when scaled are refused.
pub proof fn lemma_steps_scale_their_bands(macroblock: QuantizedMacroblock, blocks: int)
    requires
        1 <= blocks <= 16,
    ensures
        dequant::low_scaled(macroblock, blocks) is Ok <==> {
            &&& macroblock.quantizers.dc != 0
            &&& macroblock.quantizers.low_pass != 0
            &&& forall|place: int|
                0 <= place < 16 ==> i32::MIN <= #[trigger] low_input(macroblock, blocks, place)
                    <= i32::MAX
        },
        dequant::low_scaled(macroblock, blocks) matches Ok(low) ==> low == first_input(
            macroblock,
            blocks,
        ),
        dequant::high_scaled(macroblock, blocks) is Ok <==> {
            &&& macroblock.quantizers.high_pass != 0
            &&& forall|block: int, place: int|
                0 <= block < blocks && 1 <= place < 16 ==> i32::MIN <= #[trigger] high_input(
                    macroblock,
                    block,
                    place,
                ) <= i32::MAX
        },
        dequant::high_scaled(macroblock, blocks) matches Ok(high) ==> high.len() == 256
            && forall|block: int, place: int|
            0 <= block < blocks && 1 <= place < 16 ==> high[16 * block + place]
                == #[trigger] high_input(macroblock, block, place),
{
    let input = macroblock.dc_low_pass@;
    let rest = input.subrange(1, blocks);
    let low_step = macroblock.quantizers.low_pass;
    let coded = macroblock.bands != BandPresence::DcOnly;
    if dequant::fits_scaled(input[0], macroblock.quantizers.dc) && (!coded || dequant::all_fit(
        rest,
        low_step,
    )) {
        assert forall|place: int| 0 <= place < 16 implies i32::MIN <= #[trigger] low_input(
            macroblock,
            blocks,
            place,
        ) <= i32::MAX by {
            if 0 < place < blocks && coded {
                assert(dequant::fits_scaled(rest[place - 1], low_step));
            }
        }
    } else if forall|place: int|
        0 <= place < 16 ==> i32::MIN <= #[trigger] low_input(macroblock, blocks, place)
            <= i32::MAX {
        assert(low_input(macroblock, blocks, 0) <= i32::MAX);
        assert forall|index: int| 0 <= index < rest.len() && coded implies dequant::fits_scaled(
            #[trigger] rest[index],
            low_step,
        ) by {
            assert(i32::MIN <= low_input(macroblock, blocks, index + 1) <= i32::MAX);
        }
    }
    if let Ok(low) = dequant::low_scaled(macroblock, blocks) {
        assert(low =~= first_input(macroblock, blocks));
    }
    lemma_high_step(macroblock, blocks);
}

proof fn lemma_high_step(macroblock: QuantizedMacroblock, blocks: int)
    requires
        1 <= blocks <= 16,
    ensures
        dequant::high_scaled(macroblock, blocks) is Ok <==> {
            &&& macroblock.quantizers.high_pass != 0
            &&& forall|block: int, place: int|
                0 <= block < blocks && 1 <= place < 16 ==> i32::MIN <= #[trigger] high_input(
                    macroblock,
                    block,
                    place,
                ) <= i32::MAX
        },
        dequant::high_scaled(macroblock, blocks) matches Ok(high) ==> high.len() == 256
            && forall|block: int, place: int|
            0 <= block < blocks && 1 <= place < 16 ==> high[16 * block + place]
                == #[trigger] high_input(macroblock, block, place),
{
    let step = macroblock.quantizers.high_pass;
    let coded = macroblock.bands == BandPresence::All || macroblock.bands
        == BandPresence::NoFlexbits;
    let input = dequant::without_first(macroblock.high_pass@, 16 * blocks);
    if coded && dequant::all_fit(input, step) {
        assert forall|block: int, place: int|
            0 <= block < blocks && 1 <= place < 16 implies i32::MIN <= #[trigger] high_input(
            macroblock,
            block,
            place,
        ) <= i32::MAX by {
            assert((16 * block + place) % 16 == place);
            assert(dequant::fits_scaled(input[16 * block + place], step));
        }
    }
    if coded && (forall|block: int, place: int|
        0 <= block < blocks && 1 <= place < 16 ==> i32::MIN <= #[trigger] high_input(
            macroblock,
            block,
            place,
        ) <= i32::MAX) {
        assert forall|index: int| 0 <= index < input.len() implies dequant::fits_scaled(
            #[trigger] input[index],
            step,
        ) by {
            if index % 16 != 0 {
                assert(i32::MIN <= high_input(macroblock, index / 16, index % 16) <= i32::MAX);
                assert(16 * (index / 16) + index % 16 == index);
            } else {
                assert(0 * step == 0) by (nonlinear_arith);
            }
        }
    }
    if let Ok(high) = dequant::high_scaled(macroblock, blocks) {
        assert forall|block: int, place: int| 0 <= block < blocks && 1 <= place < 16 implies high[16
            * block + place] == #[trigger] high_input(macroblock, block, place) by {
            assert((16 * block + place) % 16 == place);
            if coded {
                assert(dequant::fits_scaled(input[16 * block + place], step));
            }
        }
    }
}

/// Whether a macroblock and a block of it, by rows and columns, are ones of a component.
pub open spec fn is_block(config: ConfigModel, mx: int, my: int, bx: int, by: int) -> bool {
    &&& 0 <= mx < config.macroblocks_x
    &&& 0 <= my < config.macroblocks_y
    &&& 0 <= bx < config.block_columns
    &&& 0 <= by < config.block_rows
}

/// The place of a block in the plane of blocks, row by row.
pub open spec fn block_index(config: ConfigModel, mx: int, my: int, bx: int, by: int) -> int {
    (my * config.block_rows + by) * (config.macroblocks_x * config.block_columns) + (mx
        * config.block_columns + bx)
}

/// The place of a sample of a block in the plane, row by row.
pub open spec fn sample_index(
    config: ConfigModel,
    mx: int,
    my: int,
    bx: int,
    by: int,
    column: int,
    row: int,
) -> int {
    ((my * config.block_rows + by) * 4 + row) * (config.macroblocks_x * (config.block_columns * 4))
        + ((mx * config.block_columns + bx) * 4 + column)
}

/// The macroblock in a row and a column.
pub open spec fn macroblock_of(
    macroblocks: Seq<QuantizedMacroblock>,
    config: ConfigModel,
    mx: int,
    my: int,
) -> QuantizedMacroblock {
    macroblocks[my * config.macroblocks_x + mx]
}

/// The number of a block in its macroblock, row by row.
pub open spec fn block_number(config: ConfigModel, bx: int, by: int) -> int {
    by * config.block_columns + bx
}

/// Whether a plane holds for each block what the first inverse transform of its macroblock gives.
pub open spec fn holds_means(
    plane: Seq<i32>,
    macroblocks: Seq<QuantizedMacroblock>,
    config: ConfigModel,
    rule: spec_fn(Kernel, Seq<i32>) -> Option<Seq<i32>>,
) -> bool {
    forall|mx: int, my: int, bx: int, by: int|
        is_block(config, mx, my, bx, by) ==> plane[#[trigger] block_index(config, mx, my, bx, by)]
            == block_mean(
            macroblock_of(macroblocks, config, mx, my),
            config,
            block_number(config, bx, by),
            rule,
        )
}

/// Whether a plane holds the second inverse transform of each block, whose first coefficient is the
/// value of the block in a plane of blocks.
pub open spec fn holds_blocks(
    samples: Seq<i32>,
    low: Seq<i32>,
    macroblocks: Seq<QuantizedMacroblock>,
    config: ConfigModel,
    rule: spec_fn(Kernel, Seq<i32>) -> Option<Seq<i32>>,
) -> bool {
    forall|mx: int, my: int, bx: int, by: int, column: int, row: int|
        is_block(config, mx, my, bx, by) && 0 <= column < 4 && 0 <= row < 4
            ==> samples[#[trigger] sample_index(config, mx, my, bx, by, column, row)] == rule(
            Kernel::CoreTransform,
            second_input(
                macroblock_of(macroblocks, config, mx, my),
                block_number(config, bx, by),
                low[block_index(config, mx, my, bx, by)],
            ),
        )->0[4 * row + column]
}

/// Boundaries between macroblocks, in units of which a macroblock has so many.
pub open spec fn boundaries(edges: Seq<u32>, unit: int) -> Seq<usize> {
    Seq::new(edges.len(), |index: int| (edges[index] * unit) as usize)
}

/// Whether the plane of blocks is filtered where there are two overlap stages, and otherwise kept.
pub open spec fn first_filtered(
    means: Seq<i32>,
    low: Seq<i32>,
    config: ConfigModel,
    rule: spec_fn(Kernel, Seq<i32>) -> Option<Seq<i32>>,
) -> bool {
    let width = (config.macroblocks_x * config.block_columns) as usize;
    let height = (config.macroblocks_y * config.block_rows) as usize;
    let columns = boundaries(config.tiles.column_boundaries, config.block_columns as int);
    let rows = boundaries(config.tiles.row_boundaries, config.block_rows as int);
    let hard = config.tiles.hard_boundaries;
    match config.overlap {
        OverlapMode::Two => if config.block_columns == 4 {
            overlap::overlapped(means, width, height, columns, rows, hard, rule) == Ok::<
                Seq<i32>,
                ReconstructionError,
            >(low)
        } else {
            subsampled_overlap::overlapped(means, width, height, columns, rows, hard, rule) == Ok::<
                Seq<i32>,
                ReconstructionError,
            >(low)
        },
        _ => low == means,
    }
}

/// Whether the plane is filtered where there are overlap stages, and otherwise kept.
pub open spec fn second_filtered(
    raw: Seq<i32>,
    samples: Seq<i32>,
    config: ConfigModel,
    rule: spec_fn(Kernel, Seq<i32>) -> Option<Seq<i32>>,
) -> bool {
    match config.overlap {
        OverlapMode::Off => samples == raw,
        _ => overlap::overlapped(
            raw,
            (config.macroblocks_x * (config.block_columns * 4)) as usize,
            (config.macroblocks_y * (config.block_rows * 4)) as usize,
            boundaries(config.tiles.column_boundaries, config.block_columns * 4),
            boundaries(config.tiles.row_boundaries, config.block_rows * 4),
            config.tiles.hard_boundaries,
            rule,
        ) == Ok::<Seq<i32>, ReconstructionError>(samples),
    }
}

/// Whether samples are those of a component: each band scaled by its step, through the first
/// inverse transform, filtered block by block where there are two overlap stages, through the second
/// inverse transform, and filtered sample by sample where there are overlap stages.
pub open spec fn in_stages(
    samples: Seq<i32>,
    macroblocks: Seq<QuantizedMacroblock>,
    config: ConfigModel,
    rule: spec_fn(Kernel, Seq<i32>) -> Option<Seq<i32>>,
) -> bool {
    exists|means: Seq<i32>, low: Seq<i32>, raw: Seq<i32>|
        {
            &&& #[trigger] holds_means(means, macroblocks, config, rule)
            &&& first_filtered(means, low, config, rule)
            &&& #[trigger] holds_blocks(raw, low, macroblocks, config, rule)
            &&& second_filtered(raw, samples, config, rule)
        }
}

proof fn lemma_block_mean(
    macroblock: QuantizedMacroblock,
    config: ConfigModel,
    low: Seq<i32>,
    block: int,
    rule: spec_fn(Kernel, Seq<i32>) -> Option<Seq<i32>>,
)
    requires
        pipeline::low_level(macroblock, config, rule) == Ok::<Seq<i32>, ReconstructionError>(low),
        transform::first_transform(config.block_columns, config.block_rows) is Some,
        0 <= block < config.block_columns * config.block_rows,
    ensures
        low[block] == block_mean(macroblock, config, block, rule),
{
    let blocks = config.block_columns * config.block_rows;
    let columns = config.block_columns as int;
    let rows = config.block_rows as int;
    assert((columns == 4 && rows == 4 && blocks == 16) || (columns == 2 && rows == 4 && blocks == 8)
        || (columns == 2 && rows == 2 && blocks == 4)) by (nonlinear_arith)
        requires
            (columns == 4 && rows == 4) || (columns == 2 && rows == 4) || (columns == 2 && rows
                == 2),
            blocks == columns * rows,
    ;
    lemma_steps_scale_their_bands(macroblock, blocks);
    let scaled = dequant::low_scaled(macroblock, blocks)->Ok_0;
    assert(kernels::padded(scaled.take(blocks)) =~= first_input(macroblock, blocks));
    let (kernel, count, operation) = transform::first_transform(
        config.block_columns,
        config.block_rows,
    )->0;
    assert(count == blocks);
    let values = rule(kernel, first_input(macroblock, blocks))->0;
    let transformed = transform::with_first(scaled, values, count);
    if config.scale_after_first_transform {
        assert(transform::fits_doubled(transformed[block]));
    }
}

proof fn lemma_second_inverse_of_block(
    high: Seq<i32>,
    low: Seq<i32>,
    blocks: nat,
    block: int,
    place: int,
    rule: spec_fn(Kernel, Seq<i32>) -> Option<Seq<i32>>,
)
    requires
        0 <= block < blocks <= 16,
        0 <= place < 16,
        high.len() == 256,
        transform::second_inverse(high, low, blocks, rule) is Ok,
    ensures
        transform::second_inverse(high, low, blocks, rule)->Ok_0.len() == 256,
        transform::second_inverse(high, low, blocks, rule)->Ok_0[16 * block + place] == rule(
            Kernel::CoreTransform,
            transform::block_input(high, low, block),
        )->0[place],
    decreases blocks,
{
    if block < blocks - 1 {
        lemma_second_inverse_of_block(high, low, (blocks - 1) as nat, block, place, rule);
    }
}

proof fn lemma_grid(config: ConfigModel, mx: int, my: int, bx: int, by: int)
    requires
        is_block(config, mx, my, bx, by),
        1 <= config.block_columns <= 4,
        1 <= config.block_rows <= 4,
    ensures
        ({
            let shape = pipeline::config_shape(config);
            let macroblock = my * config.macroblocks_x + mx;
            let y = my * config.block_rows + by;
            let x = mx * config.block_columns + bx;
            &&& shape.wf()
            &&& 0 <= macroblock < config.macroblocks_y * config.macroblocks_x
            &&& 0 <= block_number(config, bx, by) < config.block_columns * config.block_rows <= 16
            &&& 0 <= y < shape.low_height() && 0 <= x < shape.low_width()
            &&& 0 <= block_index(config, mx, my, bx, by) < shape.low_height() * shape.low_width()
            &&& raster::block_place(shape, macroblock, block_number(config, bx, by))
                == block_index(config, mx, my, bx, by)
            &&& y / shape.block_rows == my && y % shape.block_rows == by
            &&& x / shape.block_columns == mx && x % shape.block_columns == bx
            &&& block_index(config, mx, my, bx, by) / shape.low_width() == y
            &&& block_index(config, mx, my, bx, by) % shape.low_width() == x
        }),
{
    let shape = pipeline::config_shape(config);
    let y = my * config.block_rows + by;
    let x = mx * config.block_columns + bx;
    raster::lemma_row_major(my, mx, shape.macroblocks_y, shape.macroblocks_x);
    raster::lemma_row_major(by, bx, shape.block_rows, shape.block_columns);
    raster::lemma_row_major(my, by, shape.macroblocks_y, shape.block_rows);
    raster::lemma_row_major(mx, bx, shape.macroblocks_x, shape.block_columns);
    raster::lemma_row_major(y, x, shape.low_height(), shape.low_width());
    raster::lemma_parts(my, mx, shape.macroblocks_x);
    raster::lemma_parts(by, bx, shape.block_columns);
    raster::lemma_parts(my, by, shape.block_rows);
    raster::lemma_parts(mx, bx, shape.block_columns);
    raster::lemma_parts(y, x, shape.low_width());
    assert(shape.block_columns * shape.block_rows == shape.block_rows * shape.block_columns
        && shape.block_columns * shape.block_rows <= 16) by (nonlinear_arith)
        requires
            1 <= shape.block_columns <= 4,
            1 <= shape.block_rows <= 4,
    ;
}

proof fn lemma_sample_grid(
    config: ConfigModel,
    mx: int,
    my: int,
    bx: int,
    by: int,
    column: int,
    row: int,
)
    requires
        is_block(config, mx, my, bx, by),
        0 <= column < 4,
        0 <= row < 4,
        1 <= config.block_columns <= 4,
        1 <= config.block_rows <= 4,
    ensures
        ({
            let shape = pipeline::config_shape(config);
            let y = (my * config.block_rows + by) * 4 + row;
            let x = (mx * config.block_columns + bx) * 4 + column;
            let index = sample_index(config, mx, my, bx, by, column, row);
            &&& 0 <= index < shape.height() * shape.width()
            &&& index / shape.width() == y && index % shape.width() == x
            &&& y / (4 * shape.block_rows) == my && (y % (4 * shape.block_rows)) / 4 == by && y % 4
                == row
            &&& x / (4 * shape.block_columns) == mx && (x % (4 * shape.block_columns)) / 4 == bx
                && x % 4 == column
        }),
{
    let shape = pipeline::config_shape(config);
    let y = (my * config.block_rows + by) * 4 + row;
    let x = (mx * config.block_columns + bx) * 4 + column;
    assert(y == my * (4 * shape.block_rows) + (4 * by + row)) by (nonlinear_arith)
        requires
            y == (my * shape.block_rows + by) * 4 + row,
    ;
    assert(x == mx * (4 * shape.block_columns) + (4 * bx + column)) by (nonlinear_arith)
        requires
            x == (mx * shape.block_columns + bx) * 4 + column,
    ;
    raster::lemma_parts(my, 4 * by + row, 4 * shape.block_rows);
    raster::lemma_parts(mx, 4 * bx + column, 4 * shape.block_columns);
    raster::lemma_row_major(my, 4 * by + row, shape.macroblocks_y, 4 * shape.block_rows);
    raster::lemma_row_major(mx, 4 * bx + column, shape.macroblocks_x, 4 * shape.block_columns);
    raster::lemma_row_major(y, x, shape.height(), shape.width());
    raster::lemma_parts(y, x, shape.width());
}

/// A component is reconstructed in stages, as its overlap mode says; its plane has the size of its
/// macroblocks, and lies where they lie.
#[verifier::rlimit(60)]
pub proof fn lemma_component_in_stages(
    macroblocks: Seq<QuantizedMacroblock>,
    config: ConfigModel,
    rule: spec_fn(Kernel, Seq<i32>) -> Option<Seq<i32>>,
)
    ensures
        pipeline::full_resolution(macroblocks, config, rule) matches Ok(plane) ==> {
            &&& macroblocks.len() == config.macroblocks_x * config.macroblocks_y
            &&& plane.width == 4 * (config.macroblocks_x * config.block_columns)
            &&& plane.height == 4 * (config.macroblocks_y * config.block_rows)
            &&& plane.origin_x == 4 * (config.macroblock_origin_x * config.block_columns)
            &&& plane.origin_y == 4 * (config.macroblock_origin_y * config.block_rows)
            &&& in_stages(plane.samples, macroblocks, config, rule)
        },
{
    if let Ok(plane) = pipeline::full_resolution(macroblocks, config, rule) {
        let shape = pipeline::config_shape(config);
        let levels = pipeline::first_levels(macroblocks, macroblocks.len(), config, rule)->Ok_0;
        let means = raster::combined(levels.low, shape);
        let low = pipeline::first_overlap(means, config, rule)->Ok_0;
        let parts = raster::divided(low, levels.low, shape);
        let blocks = shape.blocks();
        let second = pipeline::second_levels(
            levels.high,
            parts,
            macroblocks.len(),
            blocks as nat,
            rule,
        );
        let raw = raster::rastered(second->Ok_0, shape);
        assert(macroblocks.len() == config.macroblocks_y * config.macroblocks_x)
            by (nonlinear_arith)
            requires
                macroblocks.len() == config.macroblocks_x * config.macroblocks_y,
        ;
        lemma_first_levels(macroblocks, macroblocks.len(), config, rule, 0);
        lemma_second_levels(levels.high, parts, macroblocks.len(), blocks as nat, rule);
        assert(pipeline::scaled_boundaries(config.tiles.column_boundaries, shape.block_columns)
            =~= boundaries(config.tiles.column_boundaries, config.block_columns as int));
        assert(pipeline::scaled_boundaries(config.tiles.row_boundaries, shape.block_rows)
            =~= boundaries(config.tiles.row_boundaries, config.block_rows as int));
        assert(pipeline::scaled_boundaries(config.tiles.column_boundaries, shape.block_columns * 4)
            =~= boundaries(config.tiles.column_boundaries, config.block_columns * 4));
        assert(pipeline::scaled_boundaries(config.tiles.row_boundaries, shape.block_rows * 4)
            =~= boundaries(config.tiles.row_boundaries, config.block_rows * 4));
        assert forall|mx: int, my: int, bx: int, by: int|
            is_block(config, mx, my, bx, by) implies means[#[trigger] block_index(
            config,
            mx,
            my,
            bx,
            by,
        )] == block_mean(
            macroblock_of(macroblocks, config, mx, my),
            config,
            block_number(config, bx, by),
            rule,
        ) by {
            lemma_grid(config, mx, my, bx, by);
            let macroblock = my * config.macroblocks_x + mx;
            lemma_first_levels(macroblocks, macroblocks.len(), config, rule, macroblock);
            lemma_block_mean(
                macroblocks[macroblock],
                config,
                levels.low[macroblock],
                block_number(config, bx, by),
                rule,
            );
        }
        assert(holds_means(means, macroblocks, config, rule));
        assert forall|mx: int, my: int, bx: int, by: int, column: int, row: int|
            is_block(config, mx, my, bx, by) && 0 <= column < 4 && 0 <= row
                < 4 implies raw[#[trigger] sample_index(config, mx, my, bx, by, column, row)]
            == rule(
            Kernel::CoreTransform,
            second_input(
                macroblock_of(macroblocks, config, mx, my),
                block_number(config, bx, by),
                low[block_index(config, mx, my, bx, by)],
            ),
        )->0[4 * row + column] by {
            lemma_grid(config, mx, my, bx, by);
            lemma_sample_grid(config, mx, my, bx, by, column, row);
            let macroblock = my * config.macroblocks_x + mx;
            let block = block_number(config, bx, by);
            lemma_first_levels(macroblocks, macroblocks.len(), config, rule, macroblock);
            lemma_steps_scale_their_bands(macroblocks[macroblock], blocks);
            let high = levels.high[macroblock];
            assert(transform::second_inverse(high, parts[macroblock], blocks as nat, rule) == Ok::<
                Seq<i32>,
                ReconstructionError,
            >(second->Ok_0[macroblock]));
            lemma_second_inverse_of_block(
                high,
                parts[macroblock],
                blocks as nat,
                block,
                4 * row + column,
                rule,
            );
            let input = transform::block_input(high, parts[macroblock], block);
            let expected = second_input(
                macroblocks[macroblock],
                block,
                low[block_index(config, mx, my, bx, by)],
            );
            assert forall|place: int| 0 <= place < 16 implies #[trigger] input[place]
                == expected[place] by {
                if place > 0 {
                    assert(high[16 * block + place] == high_input(
                        macroblocks[macroblock],
                        block,
                        place,
                    ));
                }
            }
            assert(input =~= expected);
        }
        assert(holds_blocks(raw, low, macroblocks, config, rule));
        assert(config.macroblock_origin_x * (config.block_columns * 4) == 4 * (
        config.macroblock_origin_x * config.block_columns)) by (nonlinear_arith);
        assert(config.macroblock_origin_y * (config.block_rows * 4) == 4 * (
        config.macroblock_origin_y * config.block_rows)) by (nonlinear_arith);
        assert(config.macroblocks_x * (config.block_columns * 4) == 4 * (config.macroblocks_x
            * config.block_columns)) by (nonlinear_arith);
        assert(config.macroblocks_y * (config.block_rows * 4) == 4 * (config.macroblocks_y
            * config.block_rows)) by (nonlinear_arith);
    }
}

proof fn lemma_low_levels(
    macroblocks: Seq<QuantizedMacroblock>,
    count: nat,
    config: ConfigModel,
    rule: spec_fn(Kernel, Seq<i32>) -> Option<Seq<i32>>,
    index: int,
)
    requires
        pipeline::low_levels(macroblocks, count, config, rule) is Ok,
    ensures
        ({
            let levels = pipeline::low_levels(macroblocks, count, config, rule)->Ok_0;
            &&& levels.len() == count
            &&& 0 <= index < count ==> pipeline::low_level(macroblocks[index], config, rule)
                == Ok::<Seq<i32>, ReconstructionError>(levels[index])
        }),
    decreases count,
{
    if count > 0 {
        lemma_low_levels(macroblocks, (count - 1) as nat, config, rule, index);
    }
}

/// At a quarter of the resolution a component has one sample for each block: what the first inverse
/// transform of its macroblock gives for it.
pub proof fn lemma_quarter_holds_means(
    macroblocks: Seq<QuantizedMacroblock>,
    config: ConfigModel,
    rule: spec_fn(Kernel, Seq<i32>) -> Option<Seq<i32>>,
)
    ensures
        pipeline::reconstructed(macroblocks, config, DecodeScale::Quarter, rule) matches Ok(plane)
            ==> {
            &&& macroblocks.len() == config.macroblocks_x * config.macroblocks_y
            &&& plane.width == config.macroblocks_x * config.block_columns
            &&& plane.height == config.macroblocks_y * config.block_rows
            &&& plane.origin_x == config.macroblock_origin_x * config.block_columns
            &&& plane.origin_y == config.macroblock_origin_y * config.block_rows
            &&& holds_means(plane.samples, macroblocks, config, rule)
        },
{
    if let Ok(plane) = pipeline::quarter_resolution(macroblocks, config, rule) {
        let shape = pipeline::config_shape(config);
        let levels = pipeline::low_levels(macroblocks, macroblocks.len(), config, rule)->Ok_0;
        assert(macroblocks.len() == config.macroblocks_y * config.macroblocks_x)
            by (nonlinear_arith)
            requires
                macroblocks.len() == config.macroblocks_x * config.macroblocks_y,
        ;
        assert forall|mx: int, my: int, bx: int, by: int|
            is_block(config, mx, my, bx, by) implies plane.samples[#[trigger] block_index(
            config,
            mx,
            my,
            bx,
            by,
        )] == block_mean(
            macroblock_of(macroblocks, config, mx, my),
            config,
            block_number(config, bx, by),
            rule,
        ) by {
            lemma_grid(config, mx, my, bx, by);
            let macroblock = my * config.macroblocks_x + mx;
            lemma_low_levels(macroblocks, macroblocks.len(), config, rule, macroblock);
            lemma_block_mean(
                macroblocks[macroblock],
                config,
                levels[macroblock],
                block_number(config, bx, by),
                rule,
            );
        }
    }
}

proof fn lemma_dc_samples(
    macroblocks: Seq<QuantizedMacroblock>,
    count: nat,
    doubled: bool,
    index: int,
)
    requires
        pipeline::dc_samples(macroblocks, count, doubled) is Ok,
        0 <= index < count,
    ensures
        ({
            let samples = pipeline::dc_samples(macroblocks, count, doubled)->Ok_0;
            &&& samples.len() == count
            &&& pipeline::dc_sample(macroblocks[index], doubled) == Ok::<i32, ReconstructionError>(
                samples[index],
            )
        }),
    decreases count,
{
    if count == 1 {
        assert(pipeline::dc_samples(macroblocks, 0, doubled) == Ok::<
            Seq<i32>,
            ReconstructionError,
        >(Seq::empty()));
    } else if index < count - 1 {
        lemma_dc_samples(macroblocks, (count - 1) as nat, doubled, index);
    } else {
        lemma_dc_samples(macroblocks, (count - 1) as nat, doubled, 0);
    }
}

/// At a sixteenth of the resolution a component has one sample for each macroblock: its DC
/// coefficient times the DC step, doubled where the component asks for it, and divided by 16.
pub proof fn lemma_sixteenth_holds_dc(
    macroblocks: Seq<QuantizedMacroblock>,
    config: ConfigModel,
    rule: spec_fn(Kernel, Seq<i32>) -> Option<Seq<i32>>,
)
    ensures
        pipeline::reconstructed(macroblocks, config, DecodeScale::Sixteenth, rule) matches Ok(plane)
            ==> {
            &&& plane.width == config.macroblocks_x
            &&& plane.height == config.macroblocks_y
            &&& plane.origin_x == config.macroblock_origin_x
            &&& plane.origin_y == config.macroblock_origin_y
            &&& plane.samples.len() == config.macroblocks_x * config.macroblocks_y
            &&& forall|index: int|
                0 <= index < plane.samples.len() ==> #[trigger] plane.samples[index] == low_input(
                    macroblocks[index],
                    16,
                    0,
                ) * (if config.scale_after_first_transform {
                    2int
                } else {
                    1
                }) / 16
        },
{
    if let Ok(plane) = pipeline::sixteenth_resolution(macroblocks, config) {
        let doubled = config.scale_after_first_transform;
        let samples = pipeline::dc_samples(macroblocks, macroblocks.len(), doubled)->Ok_0;
        lemma_dc_sample_count(macroblocks, macroblocks.len(), doubled);
        assert forall|index: int| 0 <= index < samples.len() implies #[trigger] samples[index]
            == low_input(macroblocks[index], 16, 0) * (if doubled {
            2int
        } else {
            1
        }) / 16 by {
            lemma_dc_samples(macroblocks, macroblocks.len(), doubled, index);
        }
    }
}

proof fn lemma_dc_sample_count(macroblocks: Seq<QuantizedMacroblock>, count: nat, doubled: bool)
    requires
        pipeline::dc_samples(macroblocks, count, doubled) is Ok,
    ensures
        pipeline::dc_samples(macroblocks, count, doubled)->Ok_0.len() == count,
    decreases count,
{
    if count > 0 {
        lemma_dc_sample_count(macroblocks, (count - 1) as nat, doubled);
    }
}

} // verus!

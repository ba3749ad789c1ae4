//! Ordered scalar execution of the reconstruction stages.

use crate::cpu::CpuCapabilities;
use crate::reconstruct::contract::{
    ConfigModel, PlanarSamples, PlaneSamples, QuantizedMacroblock, ReconstructionConfig,
    ReconstructionError,
};
use crate::reconstruct::dequant;
use crate::reconstruct::dequant::{dequantize_dc, dequantize_high, dequantize_low};
use crate::reconstruct::kernels;
use crate::reconstruct::kernels::Kernel;
use crate::reconstruct::overlap;
use crate::reconstruct::overlap::apply_overlap;
use crate::reconstruct::raster;
use crate::reconstruct::raster::{
    combine_low_pass_into, raster_samples_into, scatter_low_pass, Shape,
};
use crate::reconstruct::subsampled_overlap;
use crate::reconstruct::subsampled_overlap::apply_subsampled_first_overlap;
use crate::reconstruct::transform;
use crate::reconstruct::transform::{inverse_first_level, transform_macroblock};
use crate::types::{DecodeScale, OverlapMode};
use vstd::prelude::*;

verus! {

/// Retained per-component transform buffers and recyclable output plane.
#[derive(Debug)]
pub struct ReconstructionPipelineWorkspace {
    dc_low_pass: Vec<[i32; 16]>,
    low_room: usize,
    high_pass: Vec<[i32; 256]>,
    high_room: usize,
    low_plane: Vec<i32>,
    block_room: usize,
    output_samples: Vec<i32>,
    output_room: usize,
    reuses: u64,
    output_reuses: u64,
}

/// How many elements a vector can hold without a new allocation, as `Vec::capacity` says: at least
/// as many as it holds.
#[verifier::external_body]
pub(crate) fn capacity_of<T>(values: &Vec<T>) -> (capacity: usize)
    ensures
        capacity >= values@.len(),
{
    values.capacity()
}

/// Whether a room is one that `capacity_of` may give for a vector.
pub closed spec fn measured<T>(values: Vec<T>, room: usize) -> bool {
    call_ensures(capacity_of::<T>, (&values,), room)
}

/// Whether a recorded room was raised to what a vector was found to have room for, if that is more.
pub open spec fn raised<T>(before: usize, values: Vec<T>, after: usize) -> bool {
    exists|room: usize| #[trigger]
        measured(values, room) && after == (if room > before {
            room
        } else {
            before
        })
}

/// Whether a recorded room stayed, or was raised to what some vector was found to have room for.
pub open spec fn room_grew<T>(before: usize, after: usize) -> bool {
    after == before || (after > before && exists|values: Vec<T>| #[trigger] measured(values, after))
}

/// Whether the recorded room of an output plane stayed, is gone with the plane, or is what some
/// vector was found to have room for.
pub open spec fn room_known(before: usize, after: usize) -> bool {
    after == before || after == 0 || exists|values: Vec<i32>| #[trigger] measured(values, after)
}

/// Returns the room that a vector has.
pub(crate) fn room_of<T>(values: &Vec<T>) -> (room: usize)
    ensures
        measured(*values, room),
        room >= values@.len(),
{
    capacity_of(values)
}

/// The room that a buffer has after it was filled: at least as much as before, as a vector gives no
/// room back by itself, and at least as much as it holds.
pub(crate) fn grown<T>(room: usize, values: &Vec<T>) -> (after: usize)
    ensures
        raised(room, *values, after),
        room_grew::<T>(room, after),
        after >= values@.len(),
{
    let capacity: usize = room_of(values);
    if capacity > room {
        capacity
    } else {
        room
    }
}

/// Whether a counter stayed or went up by one, as far as it goes.
pub open spec fn stepped(before: u64, after: u64) -> bool {
    after == before || (before < u64::MAX && after == before + 1)
}

/// A counter after an event that may have happened, as far as it goes.
pub open spec fn counted(before: u64, happened: bool) -> u64 {
    if happened && before < u64::MAX {
        (before + 1) as u64
    } else {
        before
    }
}

/// Whether a buffer that was taken back left at least as much room as there was before, and room
/// for all of its samples.
pub open spec fn keeps_room(before: usize, after: usize, samples: nat) -> bool {
    after >= before && after >= samples
}

pub(crate) fn saturating_product(left: usize, right: usize) -> (product: usize)
    ensures
        product == capped(left * right),
{
    match left.checked_mul(right) {
        Some(product) => product,
        None => usize::MAX,
    }
}

/// A sum of sizes, but no more than the largest size.
pub open spec fn capped(total: int) -> usize {
    if total > usize::MAX {
        usize::MAX
    } else {
        total as usize
    }
}

/// What the buffers of a workspace have room for, and how often they were large enough.
pub struct PipelineModel {
    /// Macroblocks whose low-pass values there is room for.
    pub low_room: usize,
    /// Macroblocks whose high-pass coefficients there is room for.
    pub high_room: usize,
    /// Values of the plane with one value for each block that there is room for.
    pub block_room: usize,
    /// Samples that the retained output plane has room for.
    pub plane_room: usize,
    /// Transform buffers that were large enough when they were needed again.
    pub buffer_reuses: u64,
    /// Output planes that were large enough when they were needed again.
    pub plane_reuses: u64,
}

impl PipelineModel {
    /// A workspace that holds nothing.
    pub open spec fn empty() -> PipelineModel {
        PipelineModel {
            low_room: 0,
            high_room: 0,
            block_room: 0,
            plane_room: 0,
            buffer_reuses: 0,
            plane_reuses: 0,
        }
    }

    /// Bytes that all buffers have room for.
    pub open spec fn bytes(self) -> int {
        64 * self.low_room + 1024 * self.high_room + 4 * self.block_room + 4 * self.plane_room
    }
}

impl View for ReconstructionPipelineWorkspace {
    type V = PipelineModel;

    closed spec fn view(&self) -> PipelineModel {
        PipelineModel {
            low_room: self.low_room,
            high_room: self.high_room,
            block_room: self.block_room,
            plane_room: self.output_room,
            buffer_reuses: self.reuses,
            plane_reuses: self.output_reuses,
        }
    }
}

impl ReconstructionPipelineWorkspace {
    /// Creates a workspace that holds nothing.
    pub fn new() -> (workspace: Self)
        ensures
            workspace@ == PipelineModel::empty(),
    {
        ReconstructionPipelineWorkspace {
            dc_low_pass: Vec::new(),
            low_room: 0,
            high_pass: Vec::new(),
            high_room: 0,
            low_plane: Vec::new(),
            block_room: 0,
            output_samples: Vec::new(),
            output_room: 0,
            reuses: 0,
            output_reuses: 0,
        }
    }

    /// Number of buffers and output planes that were large enough when they were needed again.
    pub fn reuses(&self) -> (count: u64)
        ensures
            count == (if self@.buffer_reuses + self@.plane_reuses > u64::MAX {
                u64::MAX
            } else {
                (self@.buffer_reuses + self@.plane_reuses) as u64
            }),
    {
        self.reuses.saturating_add(self.output_reuses)
    }

    /// Number of output planes that were large enough when they were needed again.
    pub fn output_reuses(&self) -> (count: u64)
        ensures
            count == self@.plane_reuses,
    {
        self.output_reuses
    }

    /// Bytes retained by the output plane.
    pub fn retained_output_bytes(&self) -> (bytes: usize)
        ensures
            bytes == capped(4 * self@.plane_room),
    {
        saturating_product(self.output_room, 4)
    }

    /// Bytes retained by all buffers.
    pub fn retained_bytes(&self) -> (bytes: usize)
        ensures
            bytes == capped(self@.bytes()),
    {
        saturating_product(self.low_room, 64).saturating_add(
            saturating_product(self.high_room, 1024),
        ).saturating_add(saturating_product(self.block_room, 4)).saturating_add(
            self.retained_output_bytes(),
        )
    }

    /// Takes back an output plane, if it has more room than the retained one. How much more room
    /// than its samples need depends on what the allocator gave.
    pub fn recycle_samples(&mut self, samples: Vec<i32>)
        ensures
            final(self)@ == (PipelineModel { plane_room: final(self)@.plane_room, ..old(self)@ }),
            keeps_room(old(self)@.plane_room, final(self)@.plane_room, samples@.len()),
            raised(old(self)@.plane_room, samples, final(self)@.plane_room),
    {
        let room: usize = room_of(&samples);
        let mut samples: Vec<i32> = samples;
        samples.clear();
        if room > self.output_room {
            self.output_samples = samples;
            self.output_room = room;
        }
    }
}

/// Whether boundaries rise from zero to an extent.
pub open spec fn is_partition(boundaries: Seq<u32>, extent: u32) -> bool {
    &&& boundaries.len() >= 2
    &&& boundaries.first() == 0
    &&& boundaries.last() == extent
    &&& forall|first: int, second: int|
        0 <= first < second < boundaries.len() ==> boundaries[first] < boundaries[second]
}

fn validate_partition(boundaries: &Vec<u32>, extent: u32, axis: &'static str) -> (result: Result<
    (),
    ReconstructionError,
>)
    ensures
        result == (if is_partition(boundaries@, extent) {
            Ok::<(), ReconstructionError>(())
        } else {
            Err(ReconstructionError::InvalidTilePartition(axis))
        }),
{
    let length: usize = boundaries.len();
    if length < 2 || boundaries[0] != 0 || boundaries[length - 1] != extent {
        return Err(ReconstructionError::InvalidTilePartition(axis));
    }
    for index in 1..length
        invariant
            length == boundaries@.len(),
            forall|first: int, second: int|
                0 <= first < second < index ==> boundaries@[first] < boundaries@[second],
    {
        if boundaries[index - 1] >= boundaries[index] {
            return Err(ReconstructionError::InvalidTilePartition(axis));
        }
        assert forall|first: int, second: int| 0 <= first < second < index + 1 implies
            boundaries@[first] < boundaries@[second] by {
            if second == index && first < index - 1 {
                assert(boundaries@[first] < boundaries@[index - 1]);
            }
        }
    }
    Ok(())
}

/// The shape of a component, if the number of macroblocks and the tile partition fit it.
pub open spec fn geometry_of(count: int, config: ConfigModel) -> Result<Shape, ReconstructionError> {
    let expected = config.macroblocks_x * config.macroblocks_y;
    if expected > usize::MAX {
        Err(ReconstructionError::ArithmeticOverflow("macroblock count"))
    } else if count != expected {
        Err(
            ReconstructionError::MacroblockCount {
                expected: expected as usize,
                actual: count as usize,
            },
        )
    } else if !is_partition(config.tiles.column_boundaries, config.macroblocks_x) {
        Err(ReconstructionError::InvalidTilePartition("column"))
    } else if !is_partition(config.tiles.row_boundaries, config.macroblocks_y) {
        Err(ReconstructionError::InvalidTilePartition("row"))
    } else if transform::first_transform(config.block_columns, config.block_rows) is None {
        Err(
            ReconstructionError::InvalidPlaneGeometry("unsupported component macroblock shape"),
        )
    } else {
        Ok(
            Shape {
                macroblocks_x: config.macroblocks_x as int,
                macroblocks_y: config.macroblocks_y as int,
                block_columns: config.block_columns as int,
                block_rows: config.block_rows as int,
            },
        )
    }
}

/// The shape that a component has if its geometry is accepted.
pub open spec fn config_shape(config: ConfigModel) -> Shape {
    Shape {
        macroblocks_x: config.macroblocks_x as int,
        macroblocks_y: config.macroblocks_y as int,
        block_columns: config.block_columns as int,
        block_rows: config.block_rows as int,
    }
}

fn validated_geometry(macroblocks: &[QuantizedMacroblock], config: &ReconstructionConfig) -> (result:
    Result<(usize, usize, usize, usize), ReconstructionError>)
    ensures
        match (result, geometry_of(macroblocks@.len() as int, config@)) {
            (Ok((macroblocks_x, macroblocks_y, block_columns, block_rows)), Ok(shape)) => shape
                == raster::shape_of(macroblocks_x, macroblocks_y, block_columns, block_rows)
                && shape == config_shape(config@) && shape.wf() && macroblocks@.len()
                == macroblocks_y * macroblocks_x,
            (Err(error), Err(expected)) => error == expected,
            _ => false,
        },
{
    let macroblocks_x: usize = config.macroblocks_x as usize;
    let macroblocks_y: usize = config.macroblocks_y as usize;
    let expected: usize = match macroblocks_x.checked_mul(macroblocks_y) {
        Some(expected) => expected,
        None => return Err(ReconstructionError::ArithmeticOverflow("macroblock count")),
    };
    if macroblocks.len() != expected {
        return Err(
            ReconstructionError::MacroblockCount { expected, actual: macroblocks.len() },
        );
    }
    validate_partition(&config.tiles.column_boundaries, config.macroblocks_x, "column")?;
    validate_partition(&config.tiles.row_boundaries, config.macroblocks_y, "row")?;
    let block_columns: usize = config.block_columns as usize;
    let block_rows: usize = config.block_rows as usize;
    if !(block_columns == 4 && block_rows == 4) && !(block_columns == 2 && block_rows == 4) && !(
    block_columns == 2 && block_rows == 2) {
        return Err(
            ReconstructionError::InvalidPlaneGeometry("unsupported component macroblock shape"),
        );
    }
    proof {
        let columns = config@.tiles.column_boundaries;
        let rows = config@.tiles.row_boundaries;
        assert(columns[0] < columns[columns.len() - 1]);
        assert(rows[0] < rows[rows.len() - 1]);
        assert(macroblocks_x * macroblocks_y == macroblocks_y * macroblocks_x) by (nonlinear_arith);
    }
    Ok((macroblocks_x, macroblocks_y, block_columns, block_rows))
}

/// Values of macroblocks after the first inverse transform.
pub struct Levels {
    /// Low-pass values of each macroblock.
    pub low: Seq<Seq<i32>>,
    /// High-pass coefficients of each macroblock.
    pub high: Seq<Seq<i32>>,
}

/// The low-pass values of a macroblock after scaling and the first inverse transform.
pub open spec fn low_level(
    macroblock: QuantizedMacroblock,
    config: ConfigModel,
    rule: spec_fn(Kernel, Seq<i32>) -> Option<Seq<i32>>,
) -> Result<Seq<i32>, ReconstructionError> {
    match dequant::low_scaled(macroblock, config.block_columns * config.block_rows) {
        Err(error) => Err(error),
        Ok(low) => transform::first_inverse(low, config, rule),
    }
}

/// The low-pass values of the first macroblocks after scaling and the first inverse transform.
pub open spec fn low_levels(
    macroblocks: Seq<QuantizedMacroblock>,
    count: nat,
    config: ConfigModel,
    rule: spec_fn(Kernel, Seq<i32>) -> Option<Seq<i32>>,
) -> Result<Seq<Seq<i32>>, ReconstructionError>
    decreases count,
{
    if count == 0 {
        Ok(Seq::empty())
    } else {
        match low_levels(macroblocks, (count - 1) as nat, config, rule) {
            Err(error) => Err(error),
            Ok(earlier) => match low_level(macroblocks[count - 1], config, rule) {
                Err(error) => Err(error),
                Ok(low) => Ok(earlier.push(low)),
            },
        }
    }
}

/// The values of the first macroblocks after scaling and the first inverse transform.
pub open spec fn first_levels(
    macroblocks: Seq<QuantizedMacroblock>,
    count: nat,
    config: ConfigModel,
    rule: spec_fn(Kernel, Seq<i32>) -> Option<Seq<i32>>,
) -> Result<Levels, ReconstructionError>
    decreases count,
{
    if count == 0 {
        Ok(Levels { low: Seq::empty(), high: Seq::empty() })
    } else {
        let macroblock = macroblocks[count - 1];
        let blocks = config.block_columns * config.block_rows;
        let earlier = first_levels(macroblocks, (count - 1) as nat, config, rule);
        let low = dequant::low_scaled(macroblock, blocks);
        let high = dequant::high_scaled(macroblock, blocks);
        let inverse = transform::first_inverse(low->Ok_0, config, rule);
        if earlier is Err {
            earlier
        } else if low is Err {
            Err(low->Err_0)
        } else if high is Err {
            Err(high->Err_0)
        } else if inverse is Err {
            Err(inverse->Err_0)
        } else {
            Ok(
                Levels {
                    low: earlier->Ok_0.low.push(inverse->Ok_0),
                    high: earlier->Ok_0.high.push(high->Ok_0),
                },
            )
        }
    }
}

/// The samples of the first macroblocks after the second inverse transform.
pub open spec fn second_levels(
    high: Seq<Seq<i32>>,
    low: Seq<Seq<i32>>,
    count: nat,
    blocks: nat,
    rule: spec_fn(Kernel, Seq<i32>) -> Option<Seq<i32>>,
) -> Result<Seq<Seq<i32>>, ReconstructionError>
    decreases count,
{
    if count == 0 {
        Ok(Seq::empty())
    } else {
        match second_levels(high, low, (count - 1) as nat, blocks, rule) {
            Err(error) => Err(error),
            Ok(earlier) => match transform::second_inverse(
                high[count - 1],
                low[count - 1],
                blocks,
                rule,
            ) {
                Err(error) => Err(error),
                Ok(samples) => Ok(earlier.push(samples)),
            },
        }
    }
}

/// Once a macroblock is refused, later ones do not matter.
proof fn lemma_low_levels_stop(
    macroblocks: Seq<QuantizedMacroblock>,
    some: nat,
    count: nat,
    config: ConfigModel,
    rule: spec_fn(Kernel, Seq<i32>) -> Option<Seq<i32>>,
)
    requires
        some <= count,
        low_levels(macroblocks, some, config, rule) is Err,
    ensures
        low_levels(macroblocks, count, config, rule) == low_levels(macroblocks, some, config, rule),
    decreases count,
{
    if some < count {
        lemma_low_levels_stop(macroblocks, some, (count - 1) as nat, config, rule);
    }
}

/// Once a macroblock is refused, later ones do not matter.
proof fn lemma_first_levels_stop(
    macroblocks: Seq<QuantizedMacroblock>,
    some: nat,
    count: nat,
    config: ConfigModel,
    rule: spec_fn(Kernel, Seq<i32>) -> Option<Seq<i32>>,
)
    requires
        some <= count,
        first_levels(macroblocks, some, config, rule) is Err,
    ensures
        first_levels(macroblocks, count, config, rule) == first_levels(
            macroblocks,
            some,
            config,
            rule,
        ),
    decreases count,
{
    if some < count {
        lemma_first_levels_stop(macroblocks, some, (count - 1) as nat, config, rule);
    }
}

/// Once a macroblock cannot be transformed, later ones do not matter.
proof fn lemma_second_levels_stop(
    high: Seq<Seq<i32>>,
    low: Seq<Seq<i32>>,
    some: nat,
    count: nat,
    blocks: nat,
    rule: spec_fn(Kernel, Seq<i32>) -> Option<Seq<i32>>,
)
    requires
        some <= count,
        second_levels(high, low, some, blocks, rule) is Err,
    ensures
        second_levels(high, low, count, blocks, rule) == second_levels(
            high,
            low,
            some,
            blocks,
            rule,
        ),
    decreases count,
{
    if some < count {
        lemma_second_levels_stop(high, low, some, (count - 1) as nat, blocks, rule);
    }
}

/// Whether an executable result is the one that is expected.
pub open spec fn settles(
    result: Result<(), ReconstructionError>,
    output: Seq<Seq<i32>>,
    expected: Result<Seq<Seq<i32>>, ReconstructionError>,
) -> bool {
    match (result, expected) {
        (Ok(_), Ok(expected)) => output == expected,
        (Err(error), Err(expected)) => error == expected,
        _ => false,
    }
}

fn reconstruct_low_levels<K: Fn(Kernel, [i32; 16]) -> Option<[i32; 16]>>(
    macroblocks: &[QuantizedMacroblock],
    config: &ReconstructionConfig,
    blocks: usize,
    low: &mut Vec<[i32; 16]>,
    kernels: &K,
) -> (result: Result<(), ReconstructionError>)
    requires
        kernels::callable(*kernels),
        1 <= blocks <= 16,
        blocks == config.block_columns * config.block_rows,
    ensures
        result is Ok ==> final(low)@.len() == macroblocks@.len(),
        forall|rule: spec_fn(Kernel, Seq<i32>) -> Option<Seq<i32>>| #[trigger]
            kernels::runs(*kernels, rule) ==> settles(
                result,
                raster::sequences(final(low)@),
                low_levels(macroblocks@, macroblocks@.len(), config@, rule),
            ),
{
    let count: usize = macroblocks.len();
    low.clear();
    low.reserve(count);
    assert(raster::sequences(low@) =~= Seq::<Seq<i32>>::empty());
    for index in 0..count
        invariant
            kernels::callable(*kernels),
            1 <= blocks <= 16,
            blocks == config.block_columns * config.block_rows,
            count == macroblocks@.len(),
            low@.len() == index,
            forall|rule: spec_fn(Kernel, Seq<i32>) -> Option<Seq<i32>>| #[trigger]
                kernels::runs(*kernels, rule) ==> low_levels(
                    macroblocks@,
                    index as nat,
                    config@,
                    rule,
                ) == Ok::<Seq<Seq<i32>>, ReconstructionError>(raster::sequences(low@)),
    {
        proof {
            assert forall|rule: spec_fn(Kernel, Seq<i32>) -> Option<Seq<i32>>| #[trigger]
                kernels::runs(*kernels, rule) && low_levels(
                    macroblocks@,
                    (index + 1) as nat,
                    config@,
                    rule,
                ) is Err implies low_levels(macroblocks@, macroblocks@.len(), config@, rule)
                == low_levels(macroblocks@, (index + 1) as nat, config@, rule) by {
                lemma_low_levels_stop(
                    macroblocks@,
                    (index + 1) as nat,
                    macroblocks@.len(),
                    config@,
                    rule,
                );
            }
        }
        let scaled: [i32; 16] = dequantize_low(&macroblocks[index], blocks)?;
        let values: [i32; 16] = inverse_first_level(scaled, config, kernels)?;
        let ghost before = raster::sequences(low@);
        low.push(values);
        assert(raster::sequences(low@) =~= before.push(values@));
    }
    Ok(())
}

fn reconstruct_first_levels<K: Fn(Kernel, [i32; 16]) -> Option<[i32; 16]>>(
    macroblocks: &[QuantizedMacroblock],
    config: &ReconstructionConfig,
    blocks: usize,
    cpu: Option<CpuCapabilities>,
    low: &mut Vec<[i32; 16]>,
    high: &mut Vec<[i32; 256]>,
    kernels: &K,
) -> (result: Result<(), ReconstructionError>)
    requires
        kernels::callable(*kernels),
        1 <= blocks <= 16,
        blocks == config.block_columns * config.block_rows,
    ensures
        result is Ok ==> final(low)@.len() == macroblocks@.len() && final(high)@.len()
            == macroblocks@.len(),
        forall|rule: spec_fn(Kernel, Seq<i32>) -> Option<Seq<i32>>| #[trigger]
            kernels::runs(*kernels, rule) ==> match (
                result,
                first_levels(macroblocks@, macroblocks@.len(), config@, rule),
            ) {
                (Ok(_), Ok(levels)) => raster::sequences(final(low)@) == levels.low
                    && raster::sequences(final(high)@) == levels.high,
                (Err(error), Err(expected)) => error == expected,
                _ => false,
            },
{
    let count: usize = macroblocks.len();
    low.clear();
    low.reserve(count);
    high.clear();
    high.reserve(count);
    assert(raster::sequences(low@) =~= Seq::<Seq<i32>>::empty());
    assert(raster::sequences(high@) =~= Seq::<Seq<i32>>::empty());
    for index in 0..count
        invariant
            kernels::callable(*kernels),
            1 <= blocks <= 16,
            blocks == config.block_columns * config.block_rows,
            count == macroblocks@.len(),
            low@.len() == index,
            high@.len() == index,
            forall|rule: spec_fn(Kernel, Seq<i32>) -> Option<Seq<i32>>| #[trigger]
                kernels::runs(*kernels, rule) ==> first_levels(
                    macroblocks@,
                    index as nat,
                    config@,
                    rule,
                ) == Ok::<Levels, ReconstructionError>(
                    Levels { low: raster::sequences(low@), high: raster::sequences(high@) },
                ),
    {
        proof {
            assert forall|rule: spec_fn(Kernel, Seq<i32>) -> Option<Seq<i32>>| #[trigger]
                kernels::runs(*kernels, rule) && first_levels(
                    macroblocks@,
                    (index + 1) as nat,
                    config@,
                    rule,
                ) is Err implies first_levels(macroblocks@, macroblocks@.len(), config@, rule)
                == first_levels(macroblocks@, (index + 1) as nat, config@, rule) by {
                lemma_first_levels_stop(
                    macroblocks@,
                    (index + 1) as nat,
                    macroblocks@.len(),
                    config@,
                    rule,
                );
            }
        }
        let scaled: [i32; 16] = dequantize_low(&macroblocks[index], blocks)?;
        let coefficients: [i32; 256] = dequantize_high(&macroblocks[index], blocks, cpu)?;
        let values: [i32; 16] = inverse_first_level(scaled, config, kernels)?;
        let ghost before = raster::sequences(low@);
        let ghost before_high = raster::sequences(high@);
        low.push(values);
        high.push(coefficients);
        assert(raster::sequences(low@) =~= before.push(values@));
        assert(raster::sequences(high@) =~= before_high.push(coefficients@));
    }
    Ok(())
}

fn transform_second_levels<K: Fn(Kernel, [i32; 16]) -> Option<[i32; 16]>>(
    low: &Vec<[i32; 16]>,
    high: &mut Vec<[i32; 256]>,
    blocks: usize,
    kernels: &K,
) -> (result: Result<(), ReconstructionError>)
    requires
        kernels::callable(*kernels),
        blocks <= 16,
        low@.len() == old(high)@.len(),
    ensures
        final(high)@.len() == old(high)@.len(),
        forall|rule: spec_fn(Kernel, Seq<i32>) -> Option<Seq<i32>>| #[trigger]
            kernels::runs(*kernels, rule) ==> settles(
                result,
                raster::sequences(final(high)@),
                second_levels(
                    raster::sequences(old(high)@),
                    raster::sequences(low@),
                    low@.len(),
                    blocks as nat,
                    rule,
                ),
            ),
{
    let count: usize = high.len();
    let ghost input = raster::sequences(high@);
    let ghost values = raster::sequences(low@);
    assert(raster::sequences(high@).take(0) =~= Seq::<Seq<i32>>::empty());
    for index in 0..count
        invariant
            kernels::callable(*kernels),
            blocks <= 16,
            count == low@.len(),
            count == high@.len(),
            input == raster::sequences(old(high)@),
            values == raster::sequences(low@),
            count == input.len(),
            forall|place: int|
                index <= place < count ==> #[trigger] raster::sequences(high@)[place]
                    == input[place],
            forall|rule: spec_fn(Kernel, Seq<i32>) -> Option<Seq<i32>>| #[trigger]
                kernels::runs(*kernels, rule) ==> second_levels(
                    input,
                    values,
                    index as nat,
                    blocks as nat,
                    rule,
                ) == Ok::<Seq<Seq<i32>>, ReconstructionError>(
                    raster::sequences(high@).take(index as int),
                ),
    {
        proof {
            assert forall|rule: spec_fn(Kernel, Seq<i32>) -> Option<Seq<i32>>| #[trigger]
                kernels::runs(*kernels, rule) && second_levels(
                    input,
                    values,
                    (index + 1) as nat,
                    blocks as nat,
                    rule,
                ) is Err implies second_levels(input, values, low@.len(), blocks as nat, rule)
                == second_levels(input, values, (index + 1) as nat, blocks as nat, rule) by {
                lemma_second_levels_stop(
                    input,
                    values,
                    (index + 1) as nat,
                    low@.len(),
                    blocks as nat,
                    rule,
                );
            }
            assert(raster::sequences(high@)[index as int] == input[index as int]);
        }
        let samples: [i32; 256] = transform_macroblock(high[index], &low[index], blocks, kernels)?;
        let ghost before = raster::sequences(high@);
        high.set(index, samples);
        proof {
            let after = raster::sequences(high@);
            assert(after.take(index as int + 1) =~= before.take(index as int).push(samples@));
            assert forall|place: int| index + 1 <= place < count implies #[trigger] after[place]
                == input[place] by {
                assert(before[place] == input[place]);
            }
        }
    }
    assert(raster::sequences(high@).take(count as int) =~= raster::sequences(high@));
    Ok(())
}

/// Boundaries in samples or blocks, from boundaries in macroblocks.
pub open spec fn scaled_boundaries(boundaries: Seq<u32>, scale: int) -> Seq<usize> {
    Seq::new(boundaries.len(), |index: int| (boundaries[index] * scale) as usize)
}

/// Scaled boundaries rise in whole units up to the scaled extent.
proof fn lemma_scaled_boundaries(boundaries: Seq<u32>, extent: u32, scale: usize, unit: int)
    requires
        is_partition(boundaries, extent),
        scale == unit || scale == 2 * unit || scale == 4 * unit,
        unit == 2 || unit == 4,
        extent * scale <= usize::MAX,
    ensures
        overlap::aligned_boundaries(
            scaled_boundaries(boundaries, scale as int),
            (extent * scale) as usize,
            unit,
        ),
        forall|index: int|
            0 <= index < boundaries.len() ==> 0 <= #[trigger] boundaries[index] * scale <= extent
                * scale,
{
    let result = scaled_boundaries(boundaries, scale as int);
    assert forall|index: int| 0 <= index < boundaries.len() implies 0 <= #[trigger]
        boundaries[index] * scale <= extent * scale by {
        if index < boundaries.len() - 1 {
            assert(boundaries[index] < boundaries[boundaries.len() - 1]);
        }
        let value = boundaries[index] as int;
        assert(0 <= value * scale <= extent * scale) by (nonlinear_arith)
            requires
                0 <= value <= extent,
                0 <= scale,
        ;
    }
    assert forall|index: int| 0 <= index < result.len() implies #[trigger] result[index] as int
        % unit == 0 by {
        let value = boundaries[index] as int;
        assert(0 <= boundaries[index] * scale <= extent * scale);
        if scale == unit {
            assert((value * unit) % unit == 0) by {
                raster::lemma_parts(value, 0, unit);
            }
        } else if scale == 2 * unit {
            assert(value * scale == (2 * value) * unit) by (nonlinear_arith)
                requires
                    scale == 2 * unit,
            ;
            raster::lemma_parts(2 * value, 0, unit);
        } else {
            assert(value * scale == (4 * value) * unit) by (nonlinear_arith)
                requires
                    scale == 4 * unit,
            ;
            raster::lemma_parts(4 * value, 0, unit);
        }
    }
    assert forall|first: int, second: int| 0 <= first < second < result.len() implies result[first]
        < result[second] by {
        let left = boundaries[first] as int;
        let right = boundaries[second] as int;
        assert(boundaries[first] < boundaries[second]);
        assert(0 <= boundaries[first] * scale <= extent * scale);
        assert(0 <= boundaries[second] * scale <= extent * scale);
        assert(left * scale < right * scale) by (nonlinear_arith)
            requires
                left < right,
                scale > 0,
        ;
    }
}

fn scale_boundaries(boundaries: &Vec<u32>, scale: usize) -> (scaled: Vec<usize>)
    requires
        forall|index: int|
            0 <= index < boundaries@.len() ==> 0 <= #[trigger] boundaries@[index] * scale
                <= usize::MAX,
    ensures
        scaled@ == scaled_boundaries(boundaries@, scale as int),
{
    let mut scaled: Vec<usize> = Vec::new();
    for index in 0..boundaries.len()
        invariant
            forall|index: int|
                0 <= index < boundaries@.len() ==> 0 <= #[trigger] boundaries@[index] * scale
                    <= usize::MAX,
            scaled@ == scaled_boundaries(boundaries@, scale as int).take(index as int),
    {
        assert(0 <= boundaries@[index as int] * scale <= usize::MAX);
        scaled.push(boundaries[index] as usize * scale);
        assert(scaled@ =~= scaled_boundaries(boundaries@, scale as int).take(index as int + 1));
    }
    assert(scaled@ =~= scaled_boundaries(boundaries@, scale as int));
    scaled
}

/// The samples of a plane after overlap filtering between the boundaries of a configuration.
pub open spec fn configured_overlap(
    samples: Seq<i32>,
    width: int,
    height: int,
    config: ConfigModel,
    horizontal_scale: int,
    vertical_scale: int,
    rule: spec_fn(Kernel, Seq<i32>) -> Option<Seq<i32>>,
) -> Result<Seq<i32>, ReconstructionError> {
    overlap::overlapped(
        samples,
        width as usize,
        height as usize,
        scaled_boundaries(config.tiles.column_boundaries, horizontal_scale),
        scaled_boundaries(config.tiles.row_boundaries, vertical_scale),
        config.tiles.hard_boundaries,
        rule,
    )
}

/// The plane with one value for each block after first-level overlap filtering, where there are
/// two overlap stages.
pub open spec fn first_overlap(
    plane: Seq<i32>,
    config: ConfigModel,
    rule: spec_fn(Kernel, Seq<i32>) -> Option<Seq<i32>>,
) -> Result<Seq<i32>, ReconstructionError> {
    let shape = config_shape(config);
    if config.overlap != OverlapMode::Two {
        Ok(plane)
    } else if config.block_columns == 4 {
        configured_overlap(
            plane,
            shape.low_width(),
            shape.low_height(),
            config,
            shape.block_columns,
            shape.block_rows,
            rule,
        )
    } else {
        subsampled_overlap::overlapped(
            plane,
            shape.low_width() as usize,
            shape.low_height() as usize,
            scaled_boundaries(config.tiles.column_boundaries, shape.block_columns),
            scaled_boundaries(config.tiles.row_boundaries, shape.block_rows),
            config.tiles.hard_boundaries,
            rule,
        )
    }
}

/// The samples of a plane after second-level overlap filtering, where there are overlap stages.
pub open spec fn second_overlap(
    samples: Seq<i32>,
    config: ConfigModel,
    rule: spec_fn(Kernel, Seq<i32>) -> Option<Seq<i32>>,
) -> Result<Seq<i32>, ReconstructionError> {
    let shape = config_shape(config);
    if config.overlap == OverlapMode::Off {
        Ok(samples)
    } else {
        configured_overlap(
            samples,
            shape.width(),
            shape.height(),
            config,
            shape.block_columns * 4,
            shape.block_rows * 4,
            rule,
        )
    }
}

/// The samples of a component at full resolution, or the first reason why there are none.
pub open spec fn full_resolution(
    macroblocks: Seq<QuantizedMacroblock>,
    config: ConfigModel,
    rule: spec_fn(Kernel, Seq<i32>) -> Option<Seq<i32>>,
) -> Result<PlaneSamples, ReconstructionError> {
    let geometry = geometry_of(macroblocks.len() as int, config);
    let shape = config_shape(config);
    let levels = first_levels(macroblocks, macroblocks.len(), config, rule);
    let plane = first_overlap(raster::combined(levels->Ok_0.low, shape), config, rule);
    let low = raster::divided(plane->Ok_0, levels->Ok_0.low, shape);
    let samples = second_levels(
        levels->Ok_0.high,
        low,
        macroblocks.len(),
        shape.blocks() as nat,
        rule,
    );
    let filtered = second_overlap(raster::rastered(samples->Ok_0, shape), config, rule);
    let origin_x = config.macroblock_origin_x * (config.block_columns * 4);
    let origin_y = config.macroblock_origin_y * (config.block_rows * 4);
    if geometry is Err {
        Err(geometry->Err_0)
    } else if shape.low_height() * shape.low_width() > usize::MAX {
        Err(ReconstructionError::ArithmeticOverflow("low-pass plane size"))
    } else if levels is Err {
        Err(levels->Err_0)
    } else if plane is Err {
        Err(plane->Err_0)
    } else if shape.width() > usize::MAX {
        Err(ReconstructionError::ArithmeticOverflow("reconstructed width"))
    } else if shape.height() > usize::MAX {
        Err(ReconstructionError::ArithmeticOverflow("reconstructed height"))
    } else if shape.height() * shape.width() > usize::MAX {
        Err(ReconstructionError::ArithmeticOverflow("reconstructed plane size"))
    } else if samples is Err {
        Err(samples->Err_0)
    } else if filtered is Err {
        Err(filtered->Err_0)
    } else if origin_x > u32::MAX {
        Err(ReconstructionError::ArithmeticOverflow("output x origin"))
    } else if origin_y > u32::MAX {
        Err(ReconstructionError::ArithmeticOverflow("output y origin"))
    } else if shape.width() > u32::MAX {
        Err(ReconstructionError::ArithmeticOverflow("output width conversion"))
    } else if shape.height() > u32::MAX {
        Err(ReconstructionError::ArithmeticOverflow("output height conversion"))
    } else {
        Ok(
            PlaneSamples {
                origin_x: origin_x as u32,
                origin_y: origin_y as u32,
                width: shape.width() as u32,
                height: shape.height() as u32,
                samples: filtered->Ok_0,
            },
        )
    }
}

/// Whether an executable plane is the one that is expected.
pub open spec fn yields(
    result: Result<PlanarSamples, ReconstructionError>,
    expected: Result<PlaneSamples, ReconstructionError>,
) -> bool {
    match (result, expected) {
        (Ok(plane), Ok(expected)) => plane@ == expected,
        (Err(error), Err(expected)) => error == expected,
        _ => false,
    }
}

fn apply_configured_overlap<K: Fn(Kernel, [i32; 16]) -> Option<[i32; 16]>>(
    samples: &mut Vec<i32>,
    width: usize,
    height: usize,
    config: &ReconstructionConfig,
    horizontal_scale: usize,
    vertical_scale: usize,
    kernels: &K,
) -> (result: Result<(), ReconstructionError>)
    requires
        kernels::callable(*kernels),
        is_partition(config@.tiles.column_boundaries, config.macroblocks_x),
        is_partition(config@.tiles.row_boundaries, config.macroblocks_y),
        width == config.macroblocks_x * horizontal_scale,
        height == config.macroblocks_y * vertical_scale,
        horizontal_scale == 4 || horizontal_scale == 8 || horizontal_scale == 16,
        vertical_scale == 4 || vertical_scale == 8 || vertical_scale == 16,
        height * width <= old(samples)@.len(),
    ensures
        final(samples)@.len() == old(samples)@.len(),
        forall|rule: spec_fn(Kernel, Seq<i32>) -> Option<Seq<i32>>| #[trigger]
            kernels::runs(*kernels, rule) ==> kernels::leaves(
                result,
                final(samples)@,
                configured_overlap(
                    old(samples)@,
                    width as int,
                    height as int,
                    config@,
                    horizontal_scale as int,
                    vertical_scale as int,
                    rule,
                ),
            ),
{
    let length: usize = samples.len();
    proof {
        let columns = config@.tiles.column_boundaries;
        let rows = config@.tiles.row_boundaries;
        lemma_scaled_boundaries(columns, config.macroblocks_x, horizontal_scale, 4);
        lemma_scaled_boundaries(rows, config.macroblocks_y, vertical_scale, 4);
        lemma_whole_units(columns, config.macroblocks_x, horizontal_scale, 4);
        lemma_whole_units(rows, config.macroblocks_y, vertical_scale, 4);
        assert(width * height == height * width) by (nonlinear_arith);
        overlap::lemma_blocks_are_filterable(
            length as int,
            width,
            height,
            scaled_boundaries(columns, horizontal_scale as int),
            scaled_boundaries(rows, vertical_scale as int),
            config.tiles.hard_boundaries,
        );
    }
    let columns: Vec<usize> = scale_boundaries(&config.tiles.column_boundaries, horizontal_scale);
    let rows: Vec<usize> = scale_boundaries(&config.tiles.row_boundaries, vertical_scale);
    apply_overlap(
        samples,
        width,
        height,
        columns.as_slice(),
        rows.as_slice(),
        config.tiles.hard_boundaries,
        kernels,
    )
}

/// The scaled extent of a partition is a positive number of whole units.
proof fn lemma_whole_units(boundaries: Seq<u32>, extent: u32, scale: usize, unit: int)
    requires
        is_partition(boundaries, extent),
        scale == unit || scale == 2 * unit || scale == 4 * unit,
        unit == 2 || unit == 4,
        extent * scale <= usize::MAX,
    ensures
        extent * scale >= unit,
        (extent * scale) % unit == 0,
{
    lemma_scaled_boundaries(boundaries, extent, scale, unit);
    let last = boundaries.len() - 1;
    assert(boundaries[0] < boundaries[last]);
    let scaled = scaled_boundaries(boundaries, scale as int);
    assert(0 <= boundaries[last] * scale <= extent * scale);
    assert(scaled[last] == extent * scale);
    assert(scaled[last] as int % unit == 0);
    assert(extent * scale >= scale) by (nonlinear_arith)
        requires
            extent >= 1,
            scale >= 0,
    ;
}

fn apply_configured_subsampled_overlap<K: Fn(Kernel, [i32; 16]) -> Option<[i32; 16]>>(
    samples: &mut Vec<i32>,
    width: usize,
    height: usize,
    config: &ReconstructionConfig,
    horizontal_scale: usize,
    vertical_scale: usize,
    kernels: &K,
) -> (result: Result<(), ReconstructionError>)
    requires
        kernels::callable(*kernels),
        is_partition(config@.tiles.column_boundaries, config.macroblocks_x),
        is_partition(config@.tiles.row_boundaries, config.macroblocks_y),
        width == config.macroblocks_x * horizontal_scale,
        height == config.macroblocks_y * vertical_scale,
        horizontal_scale == 2,
        vertical_scale == 2 || vertical_scale == 4,
        height * width <= old(samples)@.len(),
    ensures
        final(samples)@.len() == old(samples)@.len(),
        forall|rule: spec_fn(Kernel, Seq<i32>) -> Option<Seq<i32>>| #[trigger]
            kernels::runs(*kernels, rule) ==> kernels::leaves(
                result,
                final(samples)@,
                subsampled_overlap::overlapped(
                    old(samples)@,
                    width,
                    height,
                    scaled_boundaries(config@.tiles.column_boundaries, horizontal_scale as int),
                    scaled_boundaries(config@.tiles.row_boundaries, vertical_scale as int),
                    config.tiles.hard_boundaries,
                    rule,
                ),
            ),
{
    let length: usize = samples.len();
    proof {
        let columns = config@.tiles.column_boundaries;
        let rows = config@.tiles.row_boundaries;
        lemma_scaled_boundaries(columns, config.macroblocks_x, horizontal_scale, 2);
        lemma_scaled_boundaries(rows, config.macroblocks_y, vertical_scale, 2);
        lemma_whole_units(columns, config.macroblocks_x, horizontal_scale, 2);
        lemma_whole_units(rows, config.macroblocks_y, vertical_scale, 2);
        assert(width * height == height * width) by (nonlinear_arith);
        subsampled_overlap::lemma_blocks_are_filterable(
            length as int,
            width,
            height,
            scaled_boundaries(columns, horizontal_scale as int),
            scaled_boundaries(rows, vertical_scale as int),
            config.tiles.hard_boundaries,
        );
    }
    let columns: Vec<usize> = scale_boundaries(&config.tiles.column_boundaries, horizontal_scale);
    let rows: Vec<usize> = scale_boundaries(&config.tiles.row_boundaries, vertical_scale);
    apply_subsampled_first_overlap(
        samples,
        width,
        height,
        columns.as_slice(),
        rows.as_slice(),
        config.tiles.hard_boundaries,
        kernels,
    )
}

/// The plane with one value for each block, after first-level overlap filtering.
fn overlap_low_plane<K: Fn(Kernel, [i32; 16]) -> Option<[i32; 16]>>(
    plane: &mut Vec<i32>,
    config: &ReconstructionConfig,
    width: usize,
    height: usize,
    kernels: &K,
) -> (result: Result<(), ReconstructionError>)
    requires
        kernels::callable(*kernels),
        is_partition(config@.tiles.column_boundaries, config.macroblocks_x),
        is_partition(config@.tiles.row_boundaries, config.macroblocks_y),
        transform::first_transform(config.block_columns, config.block_rows) is Some,
        width == config_shape(config@).low_width(),
        height == config_shape(config@).low_height(),
        height * width == old(plane)@.len(),
    ensures
        final(plane)@.len() == old(plane)@.len(),
        forall|rule: spec_fn(Kernel, Seq<i32>) -> Option<Seq<i32>>| #[trigger]
            kernels::runs(*kernels, rule) ==> kernels::leaves(
                result,
                final(plane)@,
                first_overlap(old(plane)@, config@, rule),
            ),
{
    if config.overlap != OverlapMode::Two {
        return Ok(());
    }
    let block_columns: usize = config.block_columns as usize;
    let block_rows: usize = config.block_rows as usize;
    if block_columns == 4 {
        apply_configured_overlap(plane, width, height, config, block_columns, block_rows, kernels)
    } else {
        apply_configured_subsampled_overlap(
            plane,
            width,
            height,
            config,
            block_columns,
            block_rows,
            kernels,
        )
    }
}

/// The part of a full-resolution reconstruction that follows the first levels.
pub open spec fn finished(
    levels: Levels,
    count: nat,
    config: ConfigModel,
    rule: spec_fn(Kernel, Seq<i32>) -> Option<Seq<i32>>,
) -> Result<Seq<i32>, ReconstructionError> {
    let shape = config_shape(config);
    let samples = second_levels(levels.high, levels.low, count, shape.blocks() as nat, rule);
    if shape.width() > usize::MAX {
        Err(ReconstructionError::ArithmeticOverflow("reconstructed width"))
    } else if shape.height() > usize::MAX {
        Err(ReconstructionError::ArithmeticOverflow("reconstructed height"))
    } else if shape.height() * shape.width() > usize::MAX {
        Err(ReconstructionError::ArithmeticOverflow("reconstructed plane size"))
    } else if samples is Err {
        Err(samples->Err_0)
    } else {
        second_overlap(raster::rastered(samples->Ok_0, shape), config, rule)
    }
}

/// Transforms the blocks of a component and filters its plane. Returns the width and the height.
fn finish_component<K: Fn(Kernel, [i32; 16]) -> Option<[i32; 16]>>(
    low: &Vec<[i32; 16]>,
    high: &mut Vec<[i32; 256]>,
    config: &ReconstructionConfig,
    samples: &mut Vec<i32>,
    kernels: &K,
) -> (result: Result<(usize, usize), ReconstructionError>)
    requires
        kernels::callable(*kernels),
        is_partition(config@.tiles.column_boundaries, config.macroblocks_x),
        is_partition(config@.tiles.row_boundaries, config.macroblocks_y),
        transform::first_transform(config.block_columns, config.block_rows) is Some,
        config_shape(config@).wf(),
        low@.len() == old(high)@.len(),
        low@.len() == config.macroblocks_y * config.macroblocks_x,
    ensures
        result matches Ok((width, height)) ==> {
            &&& width == config_shape(config@).width()
            &&& height == config_shape(config@).height()
            &&& final(samples)@.len() == height * width
        },
        forall|rule: spec_fn(Kernel, Seq<i32>) -> Option<Seq<i32>>| #[trigger]
            kernels::runs(*kernels, rule) ==> match (
                result,
                finished(
                    Levels {
                        low: raster::sequences(low@),
                        high: raster::sequences(old(high)@),
                    },
                    low@.len(),
                    config@,
                    rule,
                ),
            ) {
                (Ok(_), Ok(expected)) => final(samples)@ == expected,
                (Err(error), Err(expected)) => error == expected,
                _ => false,
            },
{
    let macroblocks_x: usize = config.macroblocks_x as usize;
    let macroblocks_y: usize = config.macroblocks_y as usize;
    let block_columns: usize = config.block_columns as usize;
    let block_rows: usize = config.block_rows as usize;
    let ghost shape = config_shape(config@);
    proof {
        assert(shape == raster::shape_of(macroblocks_x, macroblocks_y, block_columns, block_rows));
    }
    let width: usize = match macroblocks_x.checked_mul(block_columns * 4) {
        Some(width) => width,
        None => return Err(ReconstructionError::ArithmeticOverflow("reconstructed width")),
    };
    let height: usize = match macroblocks_y.checked_mul(block_rows * 4) {
        Some(height) => height,
        None => return Err(ReconstructionError::ArithmeticOverflow("reconstructed height")),
    };
    if height.checked_mul(width).is_none() {
        return Err(ReconstructionError::ArithmeticOverflow("reconstructed plane size"));
    }
    proof {
        assert(block_columns * block_rows <= 16) by (nonlinear_arith)
            requires
                1 <= block_columns <= 4,
                1 <= block_rows <= 4,
        ;
    }
    transform_second_levels(low, high, block_columns * block_rows, kernels)?;
    raster_samples_into(high, macroblocks_x, macroblocks_y, block_columns, block_rows, samples);
    if config.overlap != OverlapMode::Off {
        apply_configured_overlap(
            samples,
            width,
            height,
            config,
            block_columns * 4,
            block_rows * 4,
            kernels,
        )?;
    }
    Ok((width, height))
}

/// Samples of a component at a resolution.
pub open spec fn sample_total(config: ConfigModel, scale: DecodeScale) -> int {
    let shape = config_shape(config);
    match scale {
        DecodeScale::Full => shape.height() * shape.width(),
        DecodeScale::Quarter => shape.low_height() * shape.low_width(),
        DecodeScale::Sixteenth => config.macroblocks_y * config.macroblocks_x,
    }
}

/// Whether the transform buffers that a resolution needs are large enough for a component.
pub open spec fn buffers_suffice(
    model: PipelineModel,
    config: ConfigModel,
    scale: DecodeScale,
) -> bool {
    let shape = config_shape(config);
    let count = config.macroblocks_y * config.macroblocks_x;
    match scale {
        DecodeScale::Full => model.low_room >= count && model.high_room >= count
            && model.block_room >= shape.low_height() * shape.low_width(),
        DecodeScale::Quarter => model.low_room >= count,
        DecodeScale::Sixteenth => true,
    }
}

/// Whether the recorded rooms are those from before, or what buffers were found to have room for;
/// transform buffers have given nothing back.
pub open spec fn rooms_known(before: PipelineModel, after: PipelineModel) -> bool {
    &&& room_grew::<[i32; 16]>(before.low_room, after.low_room)
    &&& room_grew::<[i32; 256]>(before.high_room, after.high_room)
    &&& room_grew::<i32>(before.block_room, after.block_room)
    &&& room_known(before.plane_room, after.plane_room)
}

/// Whether a workspace was used for a component: the counters went up where the buffers were large
/// enough before, and the transform buffers are large enough now and have given nothing back. A
/// sixteenth of the resolution needs no transform buffers, and counts none.
pub open spec fn used(
    before: PipelineModel,
    after: PipelineModel,
    config: ConfigModel,
    scale: DecodeScale,
) -> bool {
    &&& after.buffer_reuses == counted(
        before.buffer_reuses,
        scale != DecodeScale::Sixteenth && buffers_suffice(before, config, scale),
    )
    &&& after.plane_reuses == counted(
        before.plane_reuses,
        before.plane_room >= sample_total(config, scale),
    )
    &&& buffers_suffice(after, config, scale)
    &&& rooms_known(before, after)
}

/// Whether a workspace counts nothing new, and has given nothing back.
pub open spec fn spared(before: PipelineModel, after: PipelineModel) -> bool {
    &&& after.buffer_reuses == before.buffer_reuses
    &&& after.plane_reuses == before.plane_reuses
    &&& rooms_known(before, after)
    &&& room_grew::<i32>(before.plane_room, after.plane_room)
}

/// Whether a workspace was used for a component, and its output plane is gone.
pub open spec fn spent(
    before: PipelineModel,
    after: PipelineModel,
    config: ConfigModel,
    scale: DecodeScale,
) -> bool {
    used(before, after, config, scale) && after.plane_room == 0
}

/// Reconstruct one full-resolution component with retained buffers, on a processor that may be
/// known.
///
/// What comes out depends neither on the processor nor on what the buffers held.
pub fn reconstruct_luma_impl<K: Fn(Kernel, [i32; 16]) -> Option<[i32; 16]>>(
    macroblocks: &[QuantizedMacroblock],
    config: &ReconstructionConfig,
    cpu: Option<CpuCapabilities>,
    workspace: &mut ReconstructionPipelineWorkspace,
    kernels: &K,
) -> (result: Result<PlanarSamples, ReconstructionError>)
    requires
        kernels::callable(*kernels),
    ensures
        result is Ok ==> spent(old(workspace)@, final(workspace)@, config@, DecodeScale::Full),
        result is Err ==> spared(old(workspace)@, final(workspace)@),
        forall|rule: spec_fn(Kernel, Seq<i32>) -> Option<Seq<i32>>| #[trigger]
            kernels::runs(*kernels, rule) ==> yields(
                result,
                full_resolution(macroblocks@, config@, rule),
            ),
{
    let (macroblocks_x, macroblocks_y, block_columns, block_rows) = validated_geometry(
        macroblocks,
        config,
    )?;
    let expected: usize = macroblocks.len();
    let ghost shape = config_shape(config@);
    proof {
        assert(block_columns * block_rows >= 1 && block_columns * block_rows <= 16)
            by (nonlinear_arith)
            requires
                1 <= block_columns <= 4,
                1 <= block_rows <= 4,
        ;
        assert(macroblocks_x * block_columns >= 1 && macroblocks_y * block_rows >= 1)
            by (nonlinear_arith)
            requires
                macroblocks_x >= 1,
                macroblocks_y >= 1,
                block_columns >= 1,
                block_rows >= 1,
        ;
        raster::lemma_factors(shape.low_height(), shape.low_width());
    }
    let blocks: usize = block_columns * block_rows;
    let low_width: usize = match macroblocks_x.checked_mul(block_columns) {
        Some(width) => width,
        None => return Err(ReconstructionError::ArithmeticOverflow("low-pass plane size")),
    };
    let low_height: usize = match macroblocks_y.checked_mul(block_rows) {
        Some(height) => height,
        None => return Err(ReconstructionError::ArithmeticOverflow("low-pass plane size")),
    };
    let low_plane_length: usize = match low_height.checked_mul(low_width) {
        Some(length) => length,
        None => return Err(ReconstructionError::ArithmeticOverflow("low-pass plane size")),
    };
    let reused: bool = workspace.low_room >= expected && workspace.high_room >= expected
        && workspace.block_room >= low_plane_length;
    let levels: Result<(), ReconstructionError> = reconstruct_first_levels(
        macroblocks,
        config,
        blocks,
        cpu,
        &mut workspace.dc_low_pass,
        &mut workspace.high_pass,
        kernels,
    );
    workspace.low_room = grown(workspace.low_room, &workspace.dc_low_pass);
    workspace.high_room = grown(workspace.high_room, &workspace.high_pass);
    levels?;
    let ghost low = raster::sequences(workspace.dc_low_pass@);
    combine_low_pass_into(
        &workspace.dc_low_pass,
        macroblocks_x,
        macroblocks_y,
        block_columns,
        block_rows,
        &mut workspace.low_plane,
    );
    workspace.block_room = grown(workspace.block_room, &workspace.low_plane);
    overlap_low_plane(&mut workspace.low_plane, config, low_width, low_height, kernels)?;
    scatter_low_pass(
        &workspace.low_plane,
        &mut workspace.dc_low_pass,
        macroblocks_x,
        macroblocks_y,
        block_columns,
        block_rows,
    );
    let component: Result<(usize, usize), ReconstructionError> = finish_component(
        &workspace.dc_low_pass,
        &mut workspace.high_pass,
        config,
        &mut workspace.output_samples,
        kernels,
    );
    let room: usize = workspace.output_room;
    workspace.output_room = grown(room, &workspace.output_samples);
    let (width, height) = component?;
    let output_reused: bool = room >= workspace.output_samples.len();
    let origin_x: u32 = match config.macroblock_origin_x.checked_mul(
        config.block_columns as u32 * 4,
    ) {
        Some(origin) => origin,
        None => return Err(ReconstructionError::ArithmeticOverflow("output x origin")),
    };
    let origin_y: u32 = match config.macroblock_origin_y.checked_mul(config.block_rows as u32 * 4) {
        Some(origin) => origin,
        None => return Err(ReconstructionError::ArithmeticOverflow("output y origin")),
    };
    if width > u32::MAX as usize {
        return Err(ReconstructionError::ArithmeticOverflow("output width conversion"));
    }
    if height > u32::MAX as usize {
        return Err(ReconstructionError::ArithmeticOverflow("output height conversion"));
    }
    let mut samples: Vec<i32> = Vec::new();
    std::mem::swap(&mut samples, &mut workspace.output_samples);
    workspace.output_room = 0;
    if reused {
        workspace.reuses = workspace.reuses.saturating_add(1);
    }
    if output_reused {
        workspace.output_reuses = workspace.output_reuses.saturating_add(1);
    }
    Ok(
        PlanarSamples {
            origin_x,
            origin_y,
            width: width as u32,
            height: height as u32,
            samples,
        },
    )
}

/// The samples of a component at a quarter of the resolution: one for each block, after the first
/// inverse transform.
pub open spec fn quarter_resolution(
    macroblocks: Seq<QuantizedMacroblock>,
    config: ConfigModel,
    rule: spec_fn(Kernel, Seq<i32>) -> Option<Seq<i32>>,
) -> Result<PlaneSamples, ReconstructionError> {
    let geometry = geometry_of(macroblocks.len() as int, config);
    let shape = config_shape(config);
    let low = low_levels(macroblocks, macroblocks.len(), config, rule);
    let origin_x = config.macroblock_origin_x * config.block_columns;
    let origin_y = config.macroblock_origin_y * config.block_rows;
    if geometry is Err {
        Err(geometry->Err_0)
    } else if low is Err {
        Err(low->Err_0)
    } else if shape.low_width() > usize::MAX {
        Err(ReconstructionError::ArithmeticOverflow("quarter-resolution width"))
    } else if shape.low_height() > usize::MAX {
        Err(ReconstructionError::ArithmeticOverflow("quarter-resolution height"))
    } else if shape.low_height() * shape.low_width() > usize::MAX {
        Err(ReconstructionError::ArithmeticOverflow("low-pass plane size"))
    } else if origin_x > u32::MAX {
        Err(ReconstructionError::ArithmeticOverflow("quarter-resolution x origin"))
    } else if origin_y > u32::MAX {
        Err(ReconstructionError::ArithmeticOverflow("quarter-resolution y origin"))
    } else if shape.low_width() > u32::MAX {
        Err(ReconstructionError::ArithmeticOverflow("quarter-resolution width conversion"))
    } else if shape.low_height() > u32::MAX {
        Err(ReconstructionError::ArithmeticOverflow("quarter-resolution height conversion"))
    } else {
        Ok(
            PlaneSamples {
                origin_x: origin_x as u32,
                origin_y: origin_y as u32,
                width: shape.low_width() as u32,
                height: shape.low_height() as u32,
                samples: raster::combined(low->Ok_0, shape),
            },
        )
    }
}

/// Whether a reconstruction fails after its plane was filled: at a quarter of the resolution, the
/// place and the size of the plane are looked at only then.
pub open spec fn fails_late(
    macroblocks: Seq<QuantizedMacroblock>,
    config: ConfigModel,
    scale: DecodeScale,
    rule: spec_fn(Kernel, Seq<i32>) -> Option<Seq<i32>>,
) -> bool {
    let shape = config_shape(config);
    &&& scale == DecodeScale::Quarter
    &&& geometry_of(macroblocks.len() as int, config) is Ok
    &&& low_levels(macroblocks, macroblocks.len(), config, rule) is Ok
    &&& shape.low_width() <= usize::MAX
    &&& shape.low_height() <= usize::MAX
    &&& shape.low_height() * shape.low_width() <= usize::MAX
    &&& quarter_resolution(macroblocks, config, rule) is Err
}

fn reconstruct_quarter<K: Fn(Kernel, [i32; 16]) -> Option<[i32; 16]>>(
    macroblocks: &[QuantizedMacroblock],
    config: &ReconstructionConfig,
    workspace: &mut ReconstructionPipelineWorkspace,
    kernels: &K,
) -> (result: Result<PlanarSamples, ReconstructionError>)
    requires
        kernels::callable(*kernels),
    ensures
        result is Ok ==> spent(old(workspace)@, final(workspace)@, config@, DecodeScale::Quarter),
        result is Err ==> spared(old(workspace)@, final(workspace)@) || spent(
            old(workspace)@,
            final(workspace)@,
            config@,
            DecodeScale::Quarter,
        ),
        forall|rule: spec_fn(Kernel, Seq<i32>) -> Option<Seq<i32>>| #[trigger]
            kernels::runs(*kernels, rule) && result is Err ==> if fails_late(
                macroblocks@,
                config@,
                DecodeScale::Quarter,
                rule,
            ) {
                spent(old(workspace)@, final(workspace)@, config@, DecodeScale::Quarter)
            } else {
                spared(old(workspace)@, final(workspace)@)
            },
        forall|rule: spec_fn(Kernel, Seq<i32>) -> Option<Seq<i32>>| #[trigger]
            kernels::runs(*kernels, rule) ==> yields(
                result,
                quarter_resolution(macroblocks@, config@, rule),
            ),
{
    let (macroblocks_x, macroblocks_y, block_columns, block_rows) = validated_geometry(
        macroblocks,
        config,
    )?;
    let ghost shape = config_shape(config@);
    proof {
        assert(block_columns * block_rows >= 1 && block_columns * block_rows <= 16)
            by (nonlinear_arith)
            requires
                1 <= block_columns <= 4,
                1 <= block_rows <= 4,
        ;
    }
    let reused: bool = workspace.low_room >= macroblocks.len();
    let levels: Result<(), ReconstructionError> = reconstruct_low_levels(
        macroblocks,
        config,
        block_columns * block_rows,
        &mut workspace.dc_low_pass,
        kernels,
    );
    workspace.low_room = grown(workspace.low_room, &workspace.dc_low_pass);
    levels?;
    let width: usize = match macroblocks_x.checked_mul(block_columns) {
        Some(width) => width,
        None => return Err(ReconstructionError::ArithmeticOverflow("quarter-resolution width")),
    };
    let height: usize = match macroblocks_y.checked_mul(block_rows) {
        Some(height) => height,
        None => return Err(ReconstructionError::ArithmeticOverflow("quarter-resolution height")),
    };
    let length: usize = match height.checked_mul(width) {
        Some(length) => length,
        None => return Err(ReconstructionError::ArithmeticOverflow("low-pass plane size")),
    };
    let output_reused: bool = workspace.output_room >= length;
    combine_low_pass_into(
        &workspace.dc_low_pass,
        macroblocks_x,
        macroblocks_y,
        block_columns,
        block_rows,
        &mut workspace.output_samples,
    );
    let mut samples: Vec<i32> = Vec::new();
    std::mem::swap(&mut samples, &mut workspace.output_samples);
    workspace.output_room = 0;
    if reused {
        workspace.reuses = workspace.reuses.saturating_add(1);
    }
    if output_reused {
        workspace.output_reuses = workspace.output_reuses.saturating_add(1);
    }
    let origin_x: u32 = match config.macroblock_origin_x.checked_mul(config.block_columns as u32) {
        Some(origin) => origin,
        None => return Err(ReconstructionError::ArithmeticOverflow("quarter-resolution x origin")),
    };
    let origin_y: u32 = match config.macroblock_origin_y.checked_mul(config.block_rows as u32) {
        Some(origin) => origin,
        None => return Err(ReconstructionError::ArithmeticOverflow("quarter-resolution y origin")),
    };
    if width > u32::MAX as usize {
        return Err(ReconstructionError::ArithmeticOverflow("quarter-resolution width conversion"));
    }
    if height > u32::MAX as usize {
        return Err(
            ReconstructionError::ArithmeticOverflow("quarter-resolution height conversion"),
        );
    }
    Ok(
        PlanarSamples {
            origin_x,
            origin_y,
            width: width as u32,
            height: height as u32,
            samples,
        },
    )
}

/// The sample of a macroblock at a sixteenth of the resolution: its scaled DC coefficient, doubled
/// where the stream asks for it, through the gain of both transforms.
pub open spec fn dc_sample(macroblock: QuantizedMacroblock, doubled: bool) -> Result<
    i32,
    ReconstructionError,
> {
    match dequant::dc_scaled(macroblock) {
        Err(error) => Err(error),
        Ok(value) => if !doubled {
            Ok((value as int / 16) as i32)
        } else if transform::fits_doubled(value) {
            Ok((2 * value / 16) as i32)
        } else {
            Err(
                ReconstructionError::ArithmeticOverflow(
                    "sixteenth-resolution chroma normalization",
                ),
            )
        },
    }
}

/// The samples of the first macroblocks at a sixteenth of the resolution.
pub open spec fn dc_samples(
    macroblocks: Seq<QuantizedMacroblock>,
    count: nat,
    doubled: bool,
) -> Result<Seq<i32>, ReconstructionError>
    decreases count,
{
    if count == 0 {
        Ok(Seq::empty())
    } else {
        match dc_samples(macroblocks, (count - 1) as nat, doubled) {
            Err(error) => Err(error),
            Ok(earlier) => match dc_sample(macroblocks[count - 1], doubled) {
                Err(error) => Err(error),
                Ok(sample) => Ok(earlier.push(sample)),
            },
        }
    }
}

/// Once a macroblock is refused, later ones do not matter.
proof fn lemma_dc_samples_stop(
    macroblocks: Seq<QuantizedMacroblock>,
    some: nat,
    count: nat,
    doubled: bool,
)
    requires
        some <= count,
        dc_samples(macroblocks, some, doubled) is Err,
    ensures
        dc_samples(macroblocks, count, doubled) == dc_samples(macroblocks, some, doubled),
    decreases count,
{
    if some < count {
        lemma_dc_samples_stop(macroblocks, some, (count - 1) as nat, doubled);
    }
}

/// The samples of a component at a sixteenth of the resolution: one for each macroblock.
pub open spec fn sixteenth_resolution(
    macroblocks: Seq<QuantizedMacroblock>,
    config: ConfigModel,
) -> Result<PlaneSamples, ReconstructionError> {
    let geometry = geometry_of(macroblocks.len() as int, config);
    let samples = dc_samples(macroblocks, macroblocks.len(), config.scale_after_first_transform);
    if geometry is Err {
        Err(geometry->Err_0)
    } else if samples is Err {
        Err(samples->Err_0)
    } else {
        Ok(
            PlaneSamples {
                origin_x: config.macroblock_origin_x,
                origin_y: config.macroblock_origin_y,
                width: config.macroblocks_x,
                height: config.macroblocks_y,
                samples: samples->Ok_0,
            },
        )
    }
}

/// Fills a plane with one sample for each macroblock.
fn dc_samples_into(
    macroblocks: &[QuantizedMacroblock],
    doubled: bool,
    samples: &mut Vec<i32>,
) -> (result: Result<(), ReconstructionError>)
    ensures
        match (result, dc_samples(macroblocks@, macroblocks@.len(), doubled)) {
            (Ok(_), Ok(expected)) => final(samples)@ == expected && final(samples)@.len()
                == macroblocks@.len(),
            (Err(error), Err(expected)) => error == expected,
            _ => false,
        },
{
    let count: usize = macroblocks.len();
    samples.clear();
    for index in 0..count
        invariant
            count == macroblocks@.len(),
            samples@.len() == index,
            dc_samples(macroblocks@, index as nat, doubled) == Ok::<
                Seq<i32>,
                ReconstructionError,
            >(samples@),
    {
        proof {
            if dc_samples(macroblocks@, (index + 1) as nat, doubled) is Err {
                lemma_dc_samples_stop(
                    macroblocks@,
                    (index + 1) as nat,
                    macroblocks@.len(),
                    doubled,
                );
            }
        }
        let mut value: i32 = dequantize_dc(&macroblocks[index])?;
        if doubled {
            value = match value.checked_mul(2) {
                Some(value) => value,
                None => return Err(
                    ReconstructionError::ArithmeticOverflow(
                        "sixteenth-resolution chroma normalization",
                    ),
                ),
            };
        }
        assert(value >> 4u32 == value / 16) by (bit_vector);
        samples.push(value >> 4);
    }
    Ok(())
}

fn reconstruct_sixteenth(
    macroblocks: &[QuantizedMacroblock],
    config: &ReconstructionConfig,
    workspace: &mut ReconstructionPipelineWorkspace,
) -> (result: Result<PlanarSamples, ReconstructionError>)
    ensures
        result is Ok ==> spent(old(workspace)@, final(workspace)@, config@, DecodeScale::Sixteenth),
        result is Err ==> spared(old(workspace)@, final(workspace)@),
        yields(result, sixteenth_resolution(macroblocks@, config@)),
{
    validated_geometry(macroblocks, config)?;
    let output_reused: bool = workspace.output_room >= macroblocks.len();
    let filled: Result<(), ReconstructionError> = dc_samples_into(
        macroblocks,
        config.scale_after_first_transform,
        &mut workspace.output_samples,
    );
    workspace.output_room = grown(workspace.output_room, &workspace.output_samples);
    filled?;
    let mut samples: Vec<i32> = Vec::new();
    std::mem::swap(&mut samples, &mut workspace.output_samples);
    workspace.output_room = 0;
    if output_reused {
        workspace.output_reuses = workspace.output_reuses.saturating_add(1);
    }
    Ok(
        PlanarSamples {
            origin_x: config.macroblock_origin_x,
            origin_y: config.macroblock_origin_y,
            width: config.macroblocks_x,
            height: config.macroblocks_y,
            samples,
        },
    )
}

/// The samples of a component at a resolution.
pub open spec fn reconstructed(
    macroblocks: Seq<QuantizedMacroblock>,
    config: ConfigModel,
    scale: DecodeScale,
    rule: spec_fn(Kernel, Seq<i32>) -> Option<Seq<i32>>,
) -> Result<PlaneSamples, ReconstructionError> {
    match scale {
        DecodeScale::Full => full_resolution(macroblocks, config, rule),
        DecodeScale::Quarter => quarter_resolution(macroblocks, config, rule),
        DecodeScale::Sixteenth => sixteenth_resolution(macroblocks, config),
    }
}

fn reconstruct_luma_scaled_impl<K: Fn(Kernel, [i32; 16]) -> Option<[i32; 16]>>(
    macroblocks: &[QuantizedMacroblock],
    config: &ReconstructionConfig,
    scale: DecodeScale,
    cpu: Option<CpuCapabilities>,
    workspace: &mut ReconstructionPipelineWorkspace,
    kernels: &K,
) -> (result: Result<PlanarSamples, ReconstructionError>)
    requires
        kernels::callable(*kernels),
    ensures
        result is Ok ==> spent(old(workspace)@, final(workspace)@, config@, scale),
        result is Err ==> spared(old(workspace)@, final(workspace)@) || spent(
            old(workspace)@,
            final(workspace)@,
            config@,
            scale,
        ),
        forall|rule: spec_fn(Kernel, Seq<i32>) -> Option<Seq<i32>>| #[trigger]
            kernels::runs(*kernels, rule) && result is Err ==> if fails_late(
                macroblocks@,
                config@,
                scale,
                rule,
            ) {
                spent(old(workspace)@, final(workspace)@, config@, scale)
            } else {
                spared(old(workspace)@, final(workspace)@)
            },
        forall|rule: spec_fn(Kernel, Seq<i32>) -> Option<Seq<i32>>| #[trigger]
            kernels::runs(*kernels, rule) ==> yields(
                result,
                reconstructed(macroblocks@, config@, scale, rule),
            ),
{
    match scale {
        DecodeScale::Full => reconstruct_luma_impl(macroblocks, config, cpu, workspace, kernels),
        DecodeScale::Quarter => reconstruct_quarter(macroblocks, config, workspace, kernels),
        DecodeScale::Sixteenth => reconstruct_sixteenth(macroblocks, config, workspace),
    }
}

/// Reconstruct one full-resolution component from quantized coefficients.
///
/// The returned samples are signed transform-domain results. Output bias, post-scaling, and colour
/// conversion must be completed before packing.
pub fn reconstruct_luma<K: Fn(Kernel, [i32; 16]) -> Option<[i32; 16]>>(
    macroblocks: &[QuantizedMacroblock],
    config: &ReconstructionConfig,
    kernels: &K,
) -> (result: Result<PlanarSamples, ReconstructionError>)
    requires
        kernels::callable(*kernels),
    ensures
        forall|rule: spec_fn(Kernel, Seq<i32>) -> Option<Seq<i32>>| #[trigger]
            kernels::runs(*kernels, rule) ==> yields(
                result,
                full_resolution(macroblocks@, config@, rule),
            ),
{
    let mut workspace = ReconstructionPipelineWorkspace::new();
    reconstruct_luma_impl(macroblocks, config, None, &mut workspace, kernels)
}

/// Reconstruct one component at a resolution.
pub fn reconstruct_luma_scaled<K: Fn(Kernel, [i32; 16]) -> Option<[i32; 16]>>(
    macroblocks: &[QuantizedMacroblock],
    config: &ReconstructionConfig,
    scale: DecodeScale,
    kernels: &K,
) -> (result: Result<PlanarSamples, ReconstructionError>)
    requires
        kernels::callable(*kernels),
    ensures
        forall|rule: spec_fn(Kernel, Seq<i32>) -> Option<Seq<i32>>| #[trigger]
            kernels::runs(*kernels, rule) ==> yields(
                result,
                reconstructed(macroblocks@, config@, scale, rule),
            ),
{
    let mut workspace = ReconstructionPipelineWorkspace::new();
    reconstruct_luma_scaled_impl(macroblocks, config, scale, None, &mut workspace, kernels)
}

/// Reconstruct one component at a resolution, with retained buffers.
///
/// What comes out depends neither on the processor nor on what the buffers held.
pub fn reconstruct_luma_scaled_with_cpu<K: Fn(Kernel, [i32; 16]) -> Option<[i32; 16]>>(
    macroblocks: &[QuantizedMacroblock],
    config: &ReconstructionConfig,
    scale: DecodeScale,
    cpu: CpuCapabilities,
    workspace: &mut ReconstructionPipelineWorkspace,
    kernels: &K,
) -> (result: Result<PlanarSamples, ReconstructionError>)
    requires
        kernels::callable(*kernels),
    ensures
        result is Ok ==> spent(old(workspace)@, final(workspace)@, config@, scale),
        result is Err ==> spared(old(workspace)@, final(workspace)@) || spent(
            old(workspace)@,
            final(workspace)@,
            config@,
            scale,
        ),
        forall|rule: spec_fn(Kernel, Seq<i32>) -> Option<Seq<i32>>| #[trigger]
            kernels::runs(*kernels, rule) && result is Err ==> if fails_late(
                macroblocks@,
                config@,
                scale,
                rule,
            ) {
                spent(old(workspace)@, final(workspace)@, config@, scale)
            } else {
                spared(old(workspace)@, final(workspace)@)
            },
        forall|rule: spec_fn(Kernel, Seq<i32>) -> Option<Seq<i32>>| #[trigger]
            kernels::runs(*kernels, rule) ==> yields(
                result,
                reconstructed(macroblocks@, config@, scale, rule),
            ),
{
    reconstruct_luma_scaled_impl(macroblocks, config, scale, Some(cpu), workspace, kernels)
}

} // verus!

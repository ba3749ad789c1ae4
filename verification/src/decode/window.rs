//! The rectangle of macroblocks that is reconstructed, and its tile boundaries.

use crate::decode::arena::{ArenaModel, CoefficientArena, CoefficientPlane};
use crate::plan::{PlanModel, PreparedPlan};
use crate::reconstruct::contract::{PartitionModel, TilePartition};
use crate::reconstruct::pipeline;
use crate::types::{JxrError, JxrErrorKind};
use vstd::prelude::*;

verus! {

/// The sum of the first sizes.
pub open spec fn boundary(sizes: Seq<u32>, count: nat) -> int
    decreases count,
{
    if count == 0 {
        0
    } else {
        boundary(sizes, (count - 1) as nat) + sizes[count - 1]
    }
}

/// The boundaries behind the first sizes that lie between `start` and `end`, from `start` on.
pub open spec fn inner_boundaries(sizes: Seq<u32>, start: u32, end: u32, count: nat) -> Seq<u32>
    decreases count,
{
    if count == 0 {
        Seq::empty()
    } else {
        let earlier = inner_boundaries(sizes, start, end, (count - 1) as nat);
        let place = boundary(sizes, count);
        if start < place < end {
            earlier.push((place - start) as u32)
        } else {
            earlier
        }
    }
}

/// The boundaries from `start` to `end`, counted from `start`.
pub open spec fn clipped(
    sizes: Seq<u32>,
    expected: u32,
    start: u32,
    end: u32,
    operation: &'static str,
) -> Result<Seq<u32>, JxrError> {
    if boundary(sizes, sizes.len()) > u32::MAX {
        Err(JxrError::arithmetic(operation))
    } else if boundary(sizes, sizes.len()) != expected || start >= end || end > expected {
        Err(JxrError::new(JxrErrorKind::InternalInvariant, operation))
    } else {
        Ok(
            (seq![0u32] + inner_boundaries(sizes, start, end, sizes.len())).push(
                (end - start) as u32,
            ),
        )
    }
}

/// More sizes reach at least as far.
proof fn lemma_boundary_rises(sizes: Seq<u32>, some: nat, count: nat)
    requires
        some <= count,
    ensures
        0 <= boundary(sizes, some) <= boundary(sizes, count),
    decreases count,
{
    if count > 0 {
        if some < count {
            lemma_boundary_rises(sizes, some, (count - 1) as nat);
        } else {
            lemma_boundary_rises(sizes, (count - 1) as nat, (count - 1) as nat);
        }
    }
}

/// Returns the tile boundaries of part of a row or column of tiles, counted from its start.
pub fn clipped_boundaries(
    sizes: &Vec<u32>,
    expected: u32,
    start: u32,
    end: u32,
    operation: &'static str,
) -> (result: Result<Vec<u32>, JxrError>)
    ensures
        match (result, clipped(sizes@, expected, start, end, operation)) {
            (Ok(boundaries), Ok(expected)) => boundaries@ == expected,
            (Err(error), Err(expected)) => error == expected,
            _ => false,
        },
{
    let mut current: u32 = 0;
    for index in 0..sizes.len()
        invariant
            current == boundary(sizes@, index as nat),
    {
        proof {
            lemma_boundary_rises(sizes@, (index + 1) as nat, sizes@.len());
        }
        current = match current.checked_add(sizes[index]) {
            Some(sum) => sum,
            None => return Err(JxrError::arithmetic(operation)),
        };
    }
    if current != expected || start >= end || end > expected {
        return Err(JxrError::new(JxrErrorKind::InternalInvariant, operation));
    }
    let mut boundaries: Vec<u32> = Vec::new();
    boundaries.push(0);
    let mut place: u32 = 0;
    assert(boundaries@ =~= seq![0u32] + inner_boundaries(sizes@, start, end, 0));
    for index in 0..sizes.len()
        invariant
            start < end,
            boundary(sizes@, sizes@.len()) <= u32::MAX,
            place == boundary(sizes@, index as nat),
            boundaries@ == seq![0u32] + inner_boundaries(sizes@, start, end, index as nat),
    {
        proof {
            lemma_boundary_rises(sizes@, (index + 1) as nat, sizes@.len());
        }
        place = place + sizes[index];
        if place > start && place < end {
            boundaries.push(place - start);
        }
        assert(boundaries@ =~= seq![0u32] + inner_boundaries(
            sizes@,
            start,
            end,
            (index + 1) as nat,
        ));
    }
    boundaries.push(end - start);
    Ok(boundaries)
}

/// The boundaries that are kept rise and stay behind the last one.
proof fn lemma_inner_boundaries_rise(sizes: Seq<u32>, start: u32, end: u32, count: nat)
    requires
        count <= sizes.len(),
        start < end,
        forall|index: int| 0 <= index < sizes.len() ==> #[trigger] sizes[index] > 0,
        boundary(sizes, sizes.len()) <= u32::MAX,
    ensures
        forall|index: int|
            0 <= index < inner_boundaries(sizes, start, end, count).len()
                ==> 0 < #[trigger] inner_boundaries(sizes, start, end, count)[index] < end - start
                && inner_boundaries(sizes, start, end, count)[index] <= boundary(sizes, count)
                - start,
        forall|first: int, second: int|
            0 <= first < second < inner_boundaries(sizes, start, end, count).len()
                ==> #[trigger] inner_boundaries(sizes, start, end, count)[first]
                < #[trigger] inner_boundaries(sizes, start, end, count)[second],
    decreases count,
{
    if count > 0 {
        lemma_inner_boundaries_rise(sizes, start, end, (count - 1) as nat);
        lemma_boundary_rises(sizes, count, sizes.len());
        assert(sizes[count - 1] > 0);
        let earlier = inner_boundaries(sizes, start, end, (count - 1) as nat);
        let all = inner_boundaries(sizes, start, end, count);
        assert forall|index: int| 0 <= index < all.len() implies 0 < #[trigger] all[index] < end
            - start && all[index] <= boundary(sizes, count) - start by {
            if index < earlier.len() {
                assert(all[index] == earlier[index]);
            }
        }
        assert forall|first: int, second: int|
            0 <= first < second < all.len() implies #[trigger] all[first]
            < #[trigger] all[second] by {
            assert(all[first] == earlier[first]);
            if second < earlier.len() {
                assert(all[second] == earlier[second]);
            }
        }
    }
}

/// The tile boundaries of part of a plane are a partition of that part: where every tile has some
/// width, they rise from zero to the width of the part.
pub proof fn lemma_clipped_is_partition(
    sizes: Seq<u32>,
    expected: u32,
    start: u32,
    end: u32,
    operation: &'static str,
)
    requires
        clipped(sizes, expected, start, end, operation) is Ok,
        forall|index: int| 0 <= index < sizes.len() ==> #[trigger] sizes[index] > 0,
    ensures
        pipeline::is_partition(
            clipped(sizes, expected, start, end, operation)->Ok_0,
            (end - start) as u32,
        ),
{
    lemma_inner_boundaries_rise(sizes, start, end, sizes.len());
}

/// The tile boundaries of part of a plane.
pub open spec fn partition_of(plan: PlanModel, origin_x: u32, origin_y: u32, right: u32, bottom: u32) -> Result<
    PartitionModel,
    JxrError,
> {
    let columns = clipped(
        plan.info.tiles.column_widths,
        plan.primary.macroblocks_x,
        origin_x,
        right,
        "tile column boundaries",
    );
    let rows = clipped(
        plan.info.tiles.row_heights,
        plan.primary.macroblocks_y,
        origin_y,
        bottom,
        "tile row boundaries",
    );
    if columns is Err {
        Err(columns->Err_0)
    } else if rows is Err {
        Err(rows->Err_0)
    } else {
        Ok(
            PartitionModel {
                column_boundaries: columns->Ok_0,
                row_boundaries: rows->Ok_0,
                hard_boundaries: plan.info.tiles.hard_tiles,
            },
        )
    }
}

fn tile_partition(plan: &PreparedPlan, origin_x: u32, origin_y: u32, right: u32, bottom: u32) -> (
result: Result<TilePartition, JxrError>)
    ensures
        match (result, partition_of(plan@, origin_x, origin_y, right, bottom)) {
            (Ok(partition), Ok(expected)) => partition@ == expected,
            (Err(error), Err(expected)) => error == expected,
            _ => false,
        },
{
    let column_boundaries: Vec<u32> = clipped_boundaries(
        &plan.info.tiles.column_widths,
        plan.primary.macroblocks_x,
        origin_x,
        right,
        "tile column boundaries",
    )?;
    let row_boundaries: Vec<u32> = clipped_boundaries(
        &plan.info.tiles.row_heights,
        plan.primary.macroblocks_y,
        origin_y,
        bottom,
        "tile row boundaries",
    )?;
    Ok(
        TilePartition {
            column_boundaries,
            row_boundaries,
            hard_boundaries: plan.info.tiles.hard_tiles,
        },
    )
}

/// The smallest of the first numbers.
pub open spec fn smallest(values: Seq<u32>, count: nat) -> u32
    decreases count,
{
    if count <= 1 {
        values[0]
    } else if values[count - 1] < smallest(values, (count - 1) as nat) {
        values[count - 1]
    } else {
        smallest(values, (count - 1) as nat)
    }
}

/// The largest of the first numbers.
pub open spec fn largest(values: Seq<u32>, count: nat) -> u32
    decreases count,
{
    if count <= 1 {
        values[0]
    } else if values[count - 1] > largest(values, (count - 1) as nat) {
        values[count - 1]
    } else {
        largest(values, (count - 1) as nat)
    }
}

/// Each of the first numbers lies between the smallest and the largest one.
proof fn lemma_between(values: Seq<u32>, count: nat)
    requires
        count >= 1,
    ensures
        forall|index: int|
            0 <= index < count ==> smallest(values, count) <= #[trigger] values[index] <= largest(
                values,
                count,
            ),
    decreases count,
{
    if count > 1 {
        lemma_between(values, (count - 1) as nat);
    }
}

/// Returns the smallest and the largest number from a place on.
fn extremes(values: &Vec<u32>, offset: usize, count: usize) -> (extremes: (u32, u32))
    requires
        count >= 1,
        offset + count <= values@.len(),
    ensures
        extremes.0 == smallest(
            values@.subrange(offset as int, offset + count),
            count as nat,
        ),
        extremes.1 == largest(
            values@.subrange(offset as int, offset + count),
            count as nat,
        ),
{
    let ghost part = values@.subrange(offset as int, offset + count);
    let length: usize = values.len();
    let mut low: u32 = values[offset];
    let mut high: u32 = values[offset];
    for index in 1..count
        invariant
            offset + count <= length,
            length == values@.len(),
            part == values@.subrange(offset as int, offset + count),
            low == smallest(part, index as nat),
            high == largest(part, index as nat),
    {
        let value: u32 = values[offset + index];
        assert(value == part[index as int]);
        if value < low {
            low = value;
        }
        if value > high {
            high = value;
        }
    }
    (low, high)
}

/// Rectangle of macroblocks that is reconstructed.
#[derive(Debug)]
pub struct ReconstructionWindow {
    /// First macroblock column.
    pub origin_x: u32,
    /// First macroblock row.
    pub origin_y: u32,
    /// Macroblocks in a row.
    pub width: u32,
    /// Macroblocks in a column.
    pub height: u32,
    /// Column and row of each coded macroblock, counted from the origin.
    pub positions: Vec<(usize, usize)>,
    /// Tile boundaries.
    pub tiles: TilePartition,
}

/// Rectangle of macroblocks that is reconstructed.
pub struct WindowModel {
    /// First macroblock column.
    pub origin_x: u32,
    /// First macroblock row.
    pub origin_y: u32,
    /// Macroblocks in a row.
    pub width: u32,
    /// Macroblocks in a column.
    pub height: u32,
    /// Column and row of each coded macroblock, counted from the origin.
    pub positions: Seq<(usize, usize)>,
    /// Tile boundaries.
    pub tiles: PartitionModel,
}

impl View for ReconstructionWindow {
    type V = WindowModel;

    open spec fn view(&self) -> WindowModel {
        WindowModel {
            origin_x: self.origin_x,
            origin_y: self.origin_y,
            width: self.width,
            height: self.height,
            positions: self.positions@,
            tiles: self.tiles@,
        }
    }
}

/// The columns and rows of macroblocks, counted from an origin.
pub open spec fn relative(xs: Seq<u32>, ys: Seq<u32>, origin_x: u32, origin_y: u32) -> Seq<
    (usize, usize),
> {
    Seq::new(
        xs.len(),
        |index: int| ((xs[index] - origin_x) as usize, (ys[index] - origin_y) as usize),
    )
}

/// The rectangle of the macroblocks of a component, if they fill one.
pub open spec fn window_of(arena: ArenaModel, plane: CoefficientPlane, plan: PlanModel) -> Result<
    WindowModel,
    JxrError,
> {
    let offset = plane.macroblock_offset as int;
    let count = plane.macroblock_count as int;
    let end = offset + count;
    let xs = arena.macroblocks.coded_x.subrange(offset, end);
    let ys = arena.macroblocks.coded_y.subrange(offset, end);
    let left = smallest(xs, count as nat);
    let top = smallest(ys, count as nat);
    let right = largest(xs, count as nat) + 1;
    let bottom = largest(ys, count as nat) + 1;
    let area = (right - left) * (bottom - top);
    let tiles = partition_of(plan, left, top, right as u32, bottom as u32);
    if count == 0 {
        Err(JxrError::new(JxrErrorKind::InternalInvariant, "empty reconstruction window"))
    } else if end > usize::MAX {
        Err(JxrError::arithmetic("reconstruction metadata range"))
    } else if end > arena.macroblocks.coded_x.len() {
        Err(JxrError::new(JxrErrorKind::InternalInvariant, "coded x range"))
    } else if end > arena.macroblocks.coded_y.len() {
        Err(JxrError::new(JxrErrorKind::InternalInvariant, "coded y range"))
    } else if right > u32::MAX {
        Err(JxrError::arithmetic("coded x extent"))
    } else if bottom > u32::MAX {
        Err(JxrError::arithmetic("coded y extent"))
    } else if area > usize::MAX {
        Err(JxrError::arithmetic("reconstruction window size"))
    } else if area != count {
        Err(
            JxrError::new(
                JxrErrorKind::InternalInvariant,
                "non-rectangular reconstruction window",
            ),
        )
    } else if tiles is Err {
        Err(tiles->Err_0)
    } else {
        Ok(
            WindowModel {
                origin_x: left,
                origin_y: top,
                width: (right - left) as u32,
                height: (bottom - top) as u32,
                positions: relative(xs, ys, left, top),
                tiles: tiles->Ok_0,
            },
        )
    }
}

/// Returns the rectangle of the macroblocks of a component.
pub fn reconstruction_window(
    arena: &CoefficientArena,
    plane: &CoefficientPlane,
    plan: &PreparedPlan,
) -> (result: Result<ReconstructionWindow, JxrError>)
    ensures
        match (result, window_of(arena@, *plane, plan@)) {
            (Ok(window), Ok(expected)) => window@ == expected,
            (Err(error), Err(expected)) => error == expected,
            _ => false,
        },
{
    let offset: usize = plane.macroblock_offset;
    let count: usize = plane.macroblock_count;
    if count == 0 {
        return Err(
            JxrError::new(JxrErrorKind::InternalInvariant, "empty reconstruction window"),
        );
    }
    let end: usize = match offset.checked_add(count) {
        Some(end) => end,
        None => return Err(JxrError::arithmetic("reconstruction metadata range")),
    };
    let coded_x: &Vec<u32> = &arena.macroblocks.coded_x;
    let coded_y: &Vec<u32> = &arena.macroblocks.coded_y;
    if end > coded_x.len() {
        return Err(JxrError::new(JxrErrorKind::InternalInvariant, "coded x range"));
    }
    if end > coded_y.len() {
        return Err(JxrError::new(JxrErrorKind::InternalInvariant, "coded y range"));
    }
    let ghost xs = coded_x@.subrange(offset as int, end as int);
    let ghost ys = coded_y@.subrange(offset as int, end as int);
    proof {
        lemma_between(xs, count as nat);
        lemma_between(ys, count as nat);
        assert(smallest(xs, count as nat) <= xs[0] <= largest(xs, count as nat));
        assert(smallest(ys, count as nat) <= ys[0] <= largest(ys, count as nat));
    }
    let (left, last_x) = extremes(coded_x, offset, count);
    let (top, last_y) = extremes(coded_y, offset, count);
    let right: u32 = match last_x.checked_add(1) {
        Some(right) => right,
        None => return Err(JxrError::arithmetic("coded x extent")),
    };
    let bottom: u32 = match last_y.checked_add(1) {
        Some(bottom) => bottom,
        None => return Err(JxrError::arithmetic("coded y extent")),
    };
    let width: u32 = right - left;
    let height: u32 = bottom - top;
    let area: usize = match (width as usize).checked_mul(height as usize) {
        Some(area) => area,
        None => return Err(JxrError::arithmetic("reconstruction window size")),
    };
    if area != count {
        return Err(
            JxrError::new(
                JxrErrorKind::InternalInvariant,
                "non-rectangular reconstruction window",
            ),
        );
    }
    let mut positions: Vec<(usize, usize)> = Vec::with_capacity(count);
    for index in 0..count
        invariant
            offset + count == end,
            end <= coded_x@.len(),
            end <= coded_y@.len(),
            xs == coded_x@.subrange(offset as int, end as int),
            ys == coded_y@.subrange(offset as int, end as int),
            forall|index: int| 0 <= index < count ==> left <= #[trigger] xs[index],
            forall|index: int| 0 <= index < count ==> top <= #[trigger] ys[index],
            positions@ == relative(xs, ys, left, top).take(index as int),
    {
        assert(xs[index as int] == coded_x@[offset + index]);
        assert(ys[index as int] == coded_y@[offset + index]);
        positions.push(
            ((coded_x[offset + index] - left) as usize, (coded_y[offset + index] - top) as usize),
        );
        assert(positions@ =~= relative(xs, ys, left, top).take(index + 1));
    }
    assert(positions@ =~= relative(xs, ys, left, top));
    let tiles: TilePartition = tile_partition(plan, left, top, right, bottom)?;
    Ok(
        ReconstructionWindow {
            origin_x: left,
            origin_y: top,
            width,
            height,
            positions,
            tiles,
        },
    )
}

/// Every coded macroblock of a reconstruction window has its place inside the window, and the
/// window has as many places as there are macroblocks.
pub proof fn lemma_positions_lie_in_window(
    arena: ArenaModel,
    plane: CoefficientPlane,
    plan: PlanModel,
)
    requires
        window_of(arena, plane, plan) is Ok,
    ensures
        ({
            let window = window_of(arena, plane, plan)->Ok_0;
            &&& window.positions.len() == plane.macroblock_count
            &&& window.width * window.height == plane.macroblock_count
            &&& forall|index: int|
                0 <= index < window.positions.len() ==> (#[trigger] window.positions[index]).0
                    < window.width && window.positions[index].1 < window.height
        }),
{
    let offset = plane.macroblock_offset as int;
    let end = offset + plane.macroblock_count;
    let xs = arena.macroblocks.coded_x.subrange(offset, end);
    let ys = arena.macroblocks.coded_y.subrange(offset, end);
    lemma_between(xs, plane.macroblock_count as nat);
    lemma_between(ys, plane.macroblock_count as nat);
    let window = window_of(arena, plane, plan)->Ok_0;
    assert forall|index: int| 0 <= index < window.positions.len() implies (
    #[trigger] window.positions[index]).0 < window.width && window.positions[index].1
        < window.height by {
        assert(smallest(xs, plane.macroblock_count as nat) <= xs[index]);
        assert(smallest(ys, plane.macroblock_count as nat) <= ys[index]);
    }
    assert(smallest(xs, plane.macroblock_count as nat) <= xs[0]);
    assert(smallest(ys, plane.macroblock_count as nat) <= ys[0]);
}

/// The place of a macroblock in a reconstruction window, counted from the origin of the window, is
/// the one that it was coded for.
pub proof fn lemma_positions_are_coded(
    arena: ArenaModel,
    plane: CoefficientPlane,
    plan: PlanModel,
    index: int,
)
    requires
        window_of(arena, plane, plan) is Ok,
        0 <= index < plane.macroblock_count,
    ensures
        ({
            let window = window_of(arena, plane, plan)->Ok_0;
            let coded = plane.macroblock_offset + index;
            &&& window.origin_x + window.positions[index].0 == arena.macroblocks.coded_x[coded]
            &&& window.origin_y + window.positions[index].1 == arena.macroblocks.coded_y[coded]
            &&& window.tiles.hard_boundaries == plan.info.tiles.hard_tiles
        }),
{
    let offset = plane.macroblock_offset as int;
    let end = offset + plane.macroblock_count;
    let xs = arena.macroblocks.coded_x.subrange(offset, end);
    let ys = arena.macroblocks.coded_y.subrange(offset, end);
    lemma_between(xs, plane.macroblock_count as nat);
    lemma_between(ys, plane.macroblock_count as nat);
    assert(smallest(xs, plane.macroblock_count as nat) <= xs[index]);
    assert(smallest(ys, plane.macroblock_count as nat) <= ys[index]);
}

proof fn lemma_inner_boundaries_are_kept(
    sizes: Seq<u32>,
    start: u32,
    end: u32,
    count: nat,
    tile: nat,
)
    requires
        1 <= tile <= count,
        start < boundary(sizes, tile) < end,
    ensures
        inner_boundaries(sizes, start, end, count).contains(
            (boundary(sizes, tile) - start) as u32,
        ),
    decreases count,
{
    let kept = (boundary(sizes, tile) - start) as u32;
    let all = inner_boundaries(sizes, start, end, count);
    if tile < count {
        lemma_inner_boundaries_are_kept(sizes, start, end, (count - 1) as nat, tile);
        let earlier = inner_boundaries(sizes, start, end, (count - 1) as nat);
        let index = choose|index: int| 0 <= index < earlier.len() && earlier[index] == kept;
        assert(all[index] == kept);
    } else {
        assert(all.last() == kept);
    }
}

proof fn lemma_kept_boundaries_are_inner(
    sizes: Seq<u32>,
    start: u32,
    end: u32,
    count: nat,
    index: int,
) -> (tile: nat)
    requires
        0 <= index < inner_boundaries(sizes, start, end, count).len(),
    ensures
        1 <= tile <= count,
        start < boundary(sizes, tile) < end,
        inner_boundaries(sizes, start, end, count)[index] == boundary(sizes, tile) - start,
    decreases count,
{
    let earlier = inner_boundaries(sizes, start, end, (count - 1) as nat);
    if index < earlier.len() {
        lemma_kept_boundaries_are_inner(sizes, start, end, (count - 1) as nat, index)
    } else {
        count
    }
}

/// The boundaries of part of a row or column of tiles are its ends and all tile boundaries between
/// them, and no others.
pub proof fn lemma_clipped_boundaries_are_tile_boundaries(
    sizes: Seq<u32>,
    expected: u32,
    start: u32,
    end: u32,
    operation: &'static str,
)
    requires
        clipped(sizes, expected, start, end, operation) is Ok,
    ensures
        ({
            let boundaries = clipped(sizes, expected, start, end, operation)->Ok_0;
            &&& boundaries.first() == 0
            &&& boundaries.last() == end - start
            &&& forall|tile: nat|
                1 <= tile <= sizes.len() && start < #[trigger] boundary(sizes, tile) < end
                    ==> boundaries.contains((boundary(sizes, tile) - start) as u32)
            &&& forall|index: int|
                0 < index < boundaries.len() - 1 ==> exists|tile: nat|
                    1 <= tile <= sizes.len() && #[trigger] boundary(sizes, tile) - start
                        == #[trigger] boundaries[index]
        }),
{
    let boundaries = clipped(sizes, expected, start, end, operation)->Ok_0;
    let inner = inner_boundaries(sizes, start, end, sizes.len());
    assert forall|tile: nat|
        1 <= tile <= sizes.len() && start < #[trigger] boundary(sizes, tile)
            < end implies boundaries.contains((boundary(sizes, tile) - start) as u32) by {
        lemma_inner_boundaries_are_kept(sizes, start, end, sizes.len(), tile);
        let kept = (boundary(sizes, tile) - start) as u32;
        let index = choose|index: int| 0 <= index < inner.len() && inner[index] == kept;
        assert(boundaries[index + 1] == kept);
    }
    assert forall|index: int| 0 < index < boundaries.len() - 1 implies exists|tile: nat|
        1 <= tile <= sizes.len() && #[trigger] boundary(sizes, tile) - start
            == #[trigger] boundaries[index] by {
        let tile = lemma_kept_boundaries_are_inner(sizes, start, end, sizes.len(), index - 1);
        assert(boundaries[index] == inner[index - 1]);
        assert(boundary(sizes, tile) - start == boundaries[index]);
    }
}

} // verus!

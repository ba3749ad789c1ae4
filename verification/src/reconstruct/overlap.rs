//! Overlap filtering of a plane: full-resolution edge geometry.

use crate::reconstruct::contract::ReconstructionError;
use crate::reconstruct::kernels;
use crate::reconstruct::kernels::{apply_kernel, Kernel};
use vstd::prelude::*;

verus! {

/// What an operator is used for here.
pub const OVERLAP_FILTER: &'static str = "overlap postfilter";

/// The places of a 4-by-4 window, row by row.
pub open spec fn window(stride: int, x: int, y: int) -> Seq<usize> {
    Seq::new(16, |index: int| (x + index % 4 + (y + index / 4) * stride) as usize)
}

/// Four places below one another.
pub open spec fn column_of_four(stride: int, x: int, y: int) -> Seq<usize> {
    Seq::new(4, |index: int| (x + (y + index) * stride) as usize)
}

/// Four places next to one another.
pub open spec fn row_of_four(stride: int, x: int, y: int) -> Seq<usize> {
    Seq::new(4, |index: int| (x + y * stride + index) as usize)
}

/// The places of a 2-by-2 corner, row by row.
pub open spec fn corner(stride: int, x: int, y: int) -> Seq<usize> {
    Seq::new(4, |index: int| (x + index % 2 + (y + index / 2) * stride) as usize)
}

/// A rectangle of samples in a plane.
pub struct Region {
    /// Samples in a row of the plane.
    pub stride: int,
    /// First column.
    pub left: int,
    /// Column behind the last one.
    pub right: int,
    /// First row.
    pub top: int,
    /// Row behind the last one.
    pub bottom: int,
}

/// The rectangle between two columns and two rows.
pub open spec fn region_of(stride: usize, left: usize, right: usize, top: usize, bottom: usize) -> Region {
    Region {
        stride: stride as int,
        left: left as int,
        right: right as int,
        top: top as int,
        bottom: bottom as int,
    }
}

/// The samples after the windows of a region, from the one at (x, y) on: windows lie across the
/// corners of four blocks.
pub open spec fn windows_from(
    samples: Seq<i32>,
    region: Region,
    x: int,
    y: int,
    rule: spec_fn(Kernel, Seq<i32>) -> Option<Seq<i32>>,
) -> Result<Seq<i32>, ReconstructionError>
    decreases region.bottom - y + 4, region.right - x + 4,
{
    if y + 2 >= region.bottom {
        Ok(samples)
    } else if x + 2 >= region.right {
        windows_from(samples, region, region.left + 2, y + 4, rule)
    } else {
        match kernels::applied(
            samples,
            Kernel::Overlap4x4,
            window(region.stride, x, y),
            OVERLAP_FILTER,
            rule,
        ) {
            Err(error) => Err(error),
            Ok(next) => windows_from(next, region, x + 4, y, rule),
        }
    }
}

/// The columns next to the left and the right edge.
pub open spec fn edge_column(region: Region, index: int) -> int {
    if index < 2 {
        region.left + index
    } else {
        region.right - 4 + index
    }
}

/// The samples after the left and right edges of a region, from row `y` and edge column `index`
/// on.
pub open spec fn vertical_edges_from(
    samples: Seq<i32>,
    region: Region,
    y: int,
    index: int,
    rule: spec_fn(Kernel, Seq<i32>) -> Option<Seq<i32>>,
) -> Result<Seq<i32>, ReconstructionError>
    decreases region.bottom - y + 4, 4 - index,
{
    if y + 2 >= region.bottom {
        Ok(samples)
    } else if index >= 4 {
        vertical_edges_from(samples, region, y + 4, 0, rule)
    } else {
        match kernels::applied(
            samples,
            Kernel::Overlap4,
            column_of_four(region.stride, edge_column(region, index), y),
            OVERLAP_FILTER,
            rule,
        ) {
            Err(error) => Err(error),
            Ok(next) => vertical_edges_from(next, region, y, index + 1, rule),
        }
    }
}

/// The rows next to the top and the bottom edge.
pub open spec fn edge_row(region: Region, index: int) -> int {
    if index < 2 {
        region.top + index
    } else {
        region.bottom - 4 + index
    }
}

/// The samples after the top and bottom edges of a region, from column `x` and edge row `index`
/// on.
pub open spec fn horizontal_edges_from(
    samples: Seq<i32>,
    region: Region,
    x: int,
    index: int,
    rule: spec_fn(Kernel, Seq<i32>) -> Option<Seq<i32>>,
) -> Result<Seq<i32>, ReconstructionError>
    decreases region.right - x + 4, 4 - index,
{
    if x + 2 >= region.right {
        Ok(samples)
    } else if index >= 4 {
        horizontal_edges_from(samples, region, x + 4, 0, rule)
    } else {
        match kernels::applied(
            samples,
            Kernel::Overlap4,
            row_of_four(region.stride, x, edge_row(region, index)),
            OVERLAP_FILTER,
            rule,
        ) {
            Err(error) => Err(error),
            Ok(next) => horizontal_edges_from(next, region, x, index + 1, rule),
        }
    }
}

/// The samples after the corners of a region, from corner `index` on: top left, top right, bottom
/// left, bottom right.
pub open spec fn corners_from(
    samples: Seq<i32>,
    region: Region,
    index: int,
    rule: spec_fn(Kernel, Seq<i32>) -> Option<Seq<i32>>,
) -> Result<Seq<i32>, ReconstructionError>
    decreases 4 - index,
{
    if index >= 4 {
        Ok(samples)
    } else {
        let x = if index % 2 == 0 {
            region.left
        } else {
            region.right - 2
        };
        let y = if index < 2 {
            region.top
        } else {
            region.bottom - 2
        };
        match kernels::applied(
            samples,
            Kernel::Overlap4,
            corner(region.stride, x, y),
            OVERLAP_FILTER,
            rule,
        ) {
            Err(error) => Err(error),
            Ok(next) => corners_from(next, region, index + 1, rule),
        }
    }
}

/// The samples after the overlap filters of a region.
pub open spec fn filtered_region(
    samples: Seq<i32>,
    region: Region,
    rule: spec_fn(Kernel, Seq<i32>) -> Option<Seq<i32>>,
) -> Result<Seq<i32>, ReconstructionError> {
    let inner = windows_from(samples, region, region.left + 2, region.top + 2, rule);
    let sides = vertical_edges_from(inner->Ok_0, region, region.top + 2, 0, rule);
    let edges = horizontal_edges_from(sides->Ok_0, region, region.left + 2, 0, rule);
    if inner is Err {
        inner
    } else if sides is Err {
        sides
    } else if edges is Err {
        edges
    } else {
        corners_from(edges->Ok_0, region, 0, rule)
    }
}

/// The samples after the overlap filters of the regions between boundaries, from the one behind
/// row boundary `row` and column boundary `column` on.
pub open spec fn regions_from(
    samples: Seq<i32>,
    width: int,
    columns: Seq<usize>,
    rows: Seq<usize>,
    row: int,
    column: int,
    rule: spec_fn(Kernel, Seq<i32>) -> Option<Seq<i32>>,
) -> Result<Seq<i32>, ReconstructionError>
    decreases rows.len() - row, columns.len() - column,
{
    if row + 1 >= rows.len() {
        Ok(samples)
    } else if column + 1 >= columns.len() {
        regions_from(samples, width, columns, rows, row + 1, 0, rule)
    } else {
        match filtered_region(
            samples,
            Region {
                stride: width,
                left: columns[column] as int,
                right: columns[column + 1] as int,
                top: rows[row] as int,
                bottom: rows[row + 1] as int,
            },
            rule,
        ) {
            Err(error) => Err(error),
            Ok(next) => regions_from(next, width, columns, rows, row, column + 1, rule),
        }
    }
}

/// The boundaries that the filters stop at: the given ones if they are hard, and otherwise those
/// of the plane.
pub open spec fn filter_boundaries(boundaries: Seq<usize>, extent: usize, hard: bool) -> Seq<usize> {
    if hard {
        boundaries
    } else {
        seq![0usize, extent]
    }
}

/// The samples of a plane after overlap filtering.
pub open spec fn overlapped(
    samples: Seq<i32>,
    width: usize,
    height: usize,
    column_boundaries: Seq<usize>,
    row_boundaries: Seq<usize>,
    hard_boundaries: bool,
    rule: spec_fn(Kernel, Seq<i32>) -> Option<Seq<i32>>,
) -> Result<Seq<i32>, ReconstructionError> {
    regions_from(
        samples,
        width as int,
        filter_boundaries(column_boundaries, width, hard_boundaries),
        filter_boundaries(row_boundaries, height, hard_boundaries),
        0,
        0,
        rule,
    )
}

/// Whether boundaries rise within an extent in whole units.
pub open spec fn aligned_boundaries(boundaries: Seq<usize>, extent: usize, unit: int) -> bool {
    &&& forall|index: int|
        0 <= index < boundaries.len() ==> #[trigger] boundaries[index] <= extent
            && boundaries[index] as int % unit == 0
    &&& forall|first: int, second: int|
        0 <= first < second < boundaries.len() ==> boundaries[first] < boundaries[second]
}

/// The distance from a boundary to the next one.
pub open spec fn gap(boundaries: Seq<usize>, index: int) -> int {
    boundaries[index + 1] - boundaries[index]
}

/// Whether boundaries rise within an extent, with room for two samples between them.
pub open spec fn tiling(boundaries: Seq<usize>, extent: usize) -> bool {
    &&& forall|index: int|
        0 <= index < boundaries.len() ==> #[trigger] boundaries[index] <= extent
    &&& forall|first: int, second: int|
        0 <= first < second < boundaries.len() ==> boundaries[first] < boundaries[second]
    &&& forall|index: int|
        0 <= index < boundaries.len() - 1 ==> #[trigger] gap(boundaries, index) >= 2
}

/// Whether boundaries rise within an extent, and no run of four samples that starts between two of
/// them ends behind the second one.
pub open spec fn block_tiling(boundaries: Seq<usize>, extent: usize) -> bool {
    &&& tiling(boundaries, extent)
    &&& forall|index: int|
        0 <= index < boundaries.len() - 1 ==> #[trigger] gap(boundaries, index) % 4 != 1
}

/// Whether a rectangle lies in a plane, and the filters of the rectangle do not leave it.
pub open spec fn region_fits(region: Region, samples: int, height: int) -> bool {
    &&& 0 <= region.left <= region.right - 2
    &&& 0 <= region.top <= region.bottom - 2
    &&& region.right <= region.stride
    &&& region.bottom <= height
    &&& (region.right - region.left) % 4 != 1
    &&& (region.bottom - region.top) % 4 != 1
    &&& region.stride * height <= samples
}

/// Whether the filters between two boundaries touch a row or column: the two next to each boundary,
/// and runs of four that start two behind the first boundary and two before the second one at the
/// latest.
pub open spec fn touched(place: int, from: int, to: int) -> bool {
    ||| place == from
    ||| place == from + 1
    ||| place == to - 2
    ||| place == to - 1
    ||| (place >= from + 2 && place - (place - from - 2) % 4 + 2 < to)
}

/// Whether the samples that the filters of a rectangle touch are all there, and their rows and
/// columns can be counted.
pub open spec fn holds_region(samples: int, region: Region) -> bool {
    &&& 0 <= region.stride
    &&& 0 <= region.left <= usize::MAX - 2
    &&& 2 <= region.right <= usize::MAX - 2
    &&& 0 <= region.top <= usize::MAX - 2
    &&& 2 <= region.bottom <= usize::MAX - 2
    &&& forall|x: int, y: int| #[trigger]
        touched(x, region.left, region.right) && #[trigger] touched(y, region.top, region.bottom)
            ==> x + y * region.stride < samples
}

/// What the filters of a rectangle touch is there.
pub(crate) proof fn lemma_touched(samples: int, region: Region, x: int, y: int)
    requires
        holds_region(samples, region),
        touched(x, region.left, region.right),
        touched(y, region.top, region.bottom),
    ensures
        0 <= x,
        0 <= y,
        0 <= y * region.stride,
        x + y * region.stride < samples,
{
    assert(y * region.stride >= 0) by (nonlinear_arith)
        requires
            y >= 0,
            region.stride >= 0,
    ;
}

/// The samples that the filters of a rectangle touch are there if the rectangle lies in a plane and
/// the filters do not leave it.
proof fn lemma_region_is_held(samples: int, region: Region, height: int)
    requires
        region_fits(region, samples, height),
        region.right <= usize::MAX - 2,
        region.bottom <= usize::MAX - 2,
    ensures
        holds_region(samples, region),
{
    assert forall|x: int, y: int| #[trigger]
        touched(x, region.left, region.right) && #[trigger] touched(
            y,
            region.top,
            region.bottom,
        ) implies x + y * region.stride < samples by {
        assert(region.left <= x < region.right);
        assert(region.top <= y < region.bottom);
        kernels::lemma_in_plane(x, y, region.stride, height);
    }
}

fn filter_window_4x4<K: Fn(Kernel, [i32; 16]) -> Option<[i32; 16]>>(
    samples: &mut Vec<i32>,
    stride: usize,
    x: usize,
    y: usize,
    Ghost(region): Ghost<Region>,
    kernels: &K,
) -> (result: Result<(), ReconstructionError>)
    requires
        kernels::callable(*kernels),
        region.stride == stride,
        holds_region(old(samples)@.len() as int, region),
        region.left + 2 <= x < region.right - 2,
        (x - region.left) % 4 == 2,
        region.top + 2 <= y < region.bottom - 2,
        (y - region.top) % 4 == 2,
    ensures
        final(samples)@.len() == old(samples)@.len(),
        forall|rule: spec_fn(Kernel, Seq<i32>) -> Option<Seq<i32>>| #[trigger]
            kernels::runs(*kernels, rule) ==> kernels::leaves(
                result,
                final(samples)@,
                kernels::applied(
                    old(samples)@,
                    Kernel::Overlap4x4,
                    window(stride as int, x as int, y as int),
                    OVERLAP_FILTER,
                    rule,
                ),
            ),
{
    let length: usize = samples.len();
    let mut places: [usize; 16] = [0;16];
    for index in 0..16usize
        invariant
            region.stride == stride,
            holds_region(length as int, region),
            region.left + 2 <= x < region.right - 2,
            (x - region.left) % 4 == 2,
            region.top + 2 <= y < region.bottom - 2,
            (y - region.top) % 4 == 2,
            length == samples@.len(),
            forall|earlier: int|
                0 <= earlier < index ==> places@[earlier] == window(
                    stride as int,
                    x as int,
                    y as int,
                )[earlier] && places@[earlier] < length,
    {
        proof {
            lemma_touched(length as int, region, x + index % 4, y + index / 4);
        }
        places[index] = x + index % 4 + (y + index / 4) * stride;
    }
    assert(places@ =~= window(stride as int, x as int, y as int));
    apply_kernel(samples, Kernel::Overlap4x4, places.as_slice(), OVERLAP_FILTER, kernels)
}

fn filter_four<K: Fn(Kernel, [i32; 16]) -> Option<[i32; 16]>>(
    samples: &mut Vec<i32>,
    places: [usize; 4],
    kernels: &K,
) -> (result: Result<(), ReconstructionError>)
    requires
        kernels::callable(*kernels),
        forall|index: int| 0 <= index < 4 ==> places@[index] < old(samples)@.len(),
    ensures
        final(samples)@.len() == old(samples)@.len(),
        forall|rule: spec_fn(Kernel, Seq<i32>) -> Option<Seq<i32>>| #[trigger]
            kernels::runs(*kernels, rule) ==> kernels::leaves(
                result,
                final(samples)@,
                kernels::applied(
                    old(samples)@,
                    Kernel::Overlap4,
                    places@,
                    OVERLAP_FILTER,
                    rule,
                ),
            ),
{
    apply_kernel(samples, Kernel::Overlap4, places.as_slice(), OVERLAP_FILTER, kernels)
}

fn filter_windows<K: Fn(Kernel, [i32; 16]) -> Option<[i32; 16]>>(
    samples: &mut Vec<i32>,
    stride: usize,
    left: usize,
    right: usize,
    top: usize,
    bottom: usize,
    kernels: &K,
) -> (result: Result<(), ReconstructionError>)
    requires
        kernels::callable(*kernels),
        holds_region(
            old(samples)@.len() as int,
            region_of(stride, left, right, top, bottom),
        ),
    ensures
        final(samples)@.len() == old(samples)@.len(),
        forall|rule: spec_fn(Kernel, Seq<i32>) -> Option<Seq<i32>>| #[trigger]
            kernels::runs(*kernels, rule) ==> kernels::leaves(
                result,
                final(samples)@,
                windows_from(
                    old(samples)@,
                    region_of(stride, left, right, top, bottom),
                    left + 2,
                    top + 2,
                    rule,
                ),
            ),
{
    let ghost region = region_of(stride, left, right, top, bottom);
    let mut y: usize = top + 2;
    while y < bottom - 2
        invariant
            kernels::callable(*kernels),
            region == region_of(stride, left, right, top, bottom),
            holds_region(samples@.len() as int, region),
            samples@.len() == old(samples)@.len(),
            top + 2 <= y,
            (y - top) % 4 == 2,
            forall|rule: spec_fn(Kernel, Seq<i32>) -> Option<Seq<i32>>| #[trigger]
                kernels::runs(*kernels, rule) ==> windows_from(
                    old(samples)@,
                    region,
                    left + 2,
                    top + 2,
                    rule,
                ) == windows_from(samples@, region, left + 2, y as int, rule),
        decreases bottom - y + 2,
    {
        let mut x: usize = left + 2;
        while x < right - 2
            invariant
                kernels::callable(*kernels),
                region == region_of(stride, left, right, top, bottom),
                holds_region(samples@.len() as int, region),
                samples@.len() == old(samples)@.len(),
                top + 2 <= y < bottom - 2,
                (y - top) % 4 == 2,
                left + 2 <= x,
                (x - left) % 4 == 2,
                forall|rule: spec_fn(Kernel, Seq<i32>) -> Option<Seq<i32>>| #[trigger]
                    kernels::runs(*kernels, rule) ==> windows_from(
                        old(samples)@,
                        region,
                        left + 2,
                        top + 2,
                        rule,
                    ) == windows_from(samples@, region, x as int, y as int, rule),
            decreases right - x + 2,
        {
            filter_window_4x4(samples, stride, x, y, Ghost(region), kernels)?;
            x = x + 4;
        }
        y = y + 4;
    }
    Ok(())
}

fn filter_vertical_edges<K: Fn(Kernel, [i32; 16]) -> Option<[i32; 16]>>(
    samples: &mut Vec<i32>,
    stride: usize,
    left: usize,
    right: usize,
    top: usize,
    bottom: usize,
    kernels: &K,
) -> (result: Result<(), ReconstructionError>)
    requires
        kernels::callable(*kernels),
        holds_region(
            old(samples)@.len() as int,
            region_of(stride, left, right, top, bottom),
        ),
    ensures
        final(samples)@.len() == old(samples)@.len(),
        forall|rule: spec_fn(Kernel, Seq<i32>) -> Option<Seq<i32>>| #[trigger]
            kernels::runs(*kernels, rule) ==> kernels::leaves(
                result,
                final(samples)@,
                vertical_edges_from(
                    old(samples)@,
                    region_of(stride, left, right, top, bottom),
                    top + 2,
                    0,
                    rule,
                ),
            ),
{
    let ghost region = region_of(stride, left, right, top, bottom);
    let length: usize = samples.len();
    proof {
        lemma_touched(length as int, region, left + 1, top + 1);
    }
    let columns: [usize; 4] = [left, left + 1, right - 2, right - 1];
    let mut y: usize = top + 2;
    while y < bottom - 2
        invariant
            kernels::callable(*kernels),
            region == region_of(stride, left, right, top, bottom),
            holds_region(samples@.len() as int, region),
            samples@.len() == old(samples)@.len(),
            length == samples@.len(),
            columns@ == seq![left, (left + 1) as usize, (right - 2) as usize, (right - 1) as usize],
            top + 2 <= y,
            (y - top) % 4 == 2,
            forall|rule: spec_fn(Kernel, Seq<i32>) -> Option<Seq<i32>>| #[trigger]
                kernels::runs(*kernels, rule) ==> vertical_edges_from(
                    old(samples)@,
                    region,
                    top + 2,
                    0,
                    rule,
                ) == vertical_edges_from(samples@, region, y as int, 0, rule),
        decreases bottom - y + 2,
    {
        for index in 0..4usize
            invariant
                kernels::callable(*kernels),
                region == region_of(stride, left, right, top, bottom),
                holds_region(samples@.len() as int, region),
                samples@.len() == old(samples)@.len(),
                length == samples@.len(),
                columns@ == seq![
                    left,
                    (left + 1) as usize,
                    (right - 2) as usize,
                    (right - 1) as usize,
                ],
                top + 2 <= y < bottom - 2,
                (y - top) % 4 == 2,
                forall|rule: spec_fn(Kernel, Seq<i32>) -> Option<Seq<i32>>| #[trigger]
                    kernels::runs(*kernels, rule) ==> vertical_edges_from(
                        old(samples)@,
                        region,
                        top + 2,
                        0,
                        rule,
                    ) == vertical_edges_from(samples@, region, y as int, index as int, rule),
        {
            let x: usize = columns[index];
            proof {
                assert(x == edge_column(region, index as int));
                lemma_touched(length as int, region, x as int, y as int);
                lemma_touched(length as int, region, x as int, y + 1);
                lemma_touched(length as int, region, x as int, y + 2);
                lemma_touched(length as int, region, x as int, y + 3);
            }
            let places: [usize; 4] = [
                x + y * stride,
                x + (y + 1) * stride,
                x + (y + 2) * stride,
                x + (y + 3) * stride,
            ];
            assert(places@ =~= column_of_four(
                stride as int,
                edge_column(region, index as int),
                y as int,
            ));
            filter_four(samples, places, kernels)?;
        }
        y = y + 4;
    }
    Ok(())
}

fn filter_horizontal_edges<K: Fn(Kernel, [i32; 16]) -> Option<[i32; 16]>>(
    samples: &mut Vec<i32>,
    stride: usize,
    left: usize,
    right: usize,
    top: usize,
    bottom: usize,
    kernels: &K,
) -> (result: Result<(), ReconstructionError>)
    requires
        kernels::callable(*kernels),
        holds_region(
            old(samples)@.len() as int,
            region_of(stride, left, right, top, bottom),
        ),
    ensures
        final(samples)@.len() == old(samples)@.len(),
        forall|rule: spec_fn(Kernel, Seq<i32>) -> Option<Seq<i32>>| #[trigger]
            kernels::runs(*kernels, rule) ==> kernels::leaves(
                result,
                final(samples)@,
                horizontal_edges_from(
                    old(samples)@,
                    region_of(stride, left, right, top, bottom),
                    left + 2,
                    0,
                    rule,
                ),
            ),
{
    let ghost region = region_of(stride, left, right, top, bottom);
    let length: usize = samples.len();
    proof {
        lemma_touched(length as int, region, left + 1, top + 1);
    }
    let rows: [usize; 4] = [top, top + 1, bottom - 2, bottom - 1];
    let mut x: usize = left + 2;
    while x < right - 2
        invariant
            kernels::callable(*kernels),
            region == region_of(stride, left, right, top, bottom),
            holds_region(samples@.len() as int, region),
            samples@.len() == old(samples)@.len(),
            length == samples@.len(),
            rows@ == seq![top, (top + 1) as usize, (bottom - 2) as usize, (bottom - 1) as usize],
            left + 2 <= x,
            (x - left) % 4 == 2,
            forall|rule: spec_fn(Kernel, Seq<i32>) -> Option<Seq<i32>>| #[trigger]
                kernels::runs(*kernels, rule) ==> horizontal_edges_from(
                    old(samples)@,
                    region,
                    left + 2,
                    0,
                    rule,
                ) == horizontal_edges_from(samples@, region, x as int, 0, rule),
        decreases right - x + 2,
    {
        for index in 0..4usize
            invariant
                kernels::callable(*kernels),
                region == region_of(stride, left, right, top, bottom),
                holds_region(samples@.len() as int, region),
                samples@.len() == old(samples)@.len(),
                length == samples@.len(),
                rows@ == seq![
                    top,
                    (top + 1) as usize,
                    (bottom - 2) as usize,
                    (bottom - 1) as usize,
                ],
                left + 2 <= x < right - 2,
                (x - left) % 4 == 2,
                forall|rule: spec_fn(Kernel, Seq<i32>) -> Option<Seq<i32>>| #[trigger]
                    kernels::runs(*kernels, rule) ==> horizontal_edges_from(
                        old(samples)@,
                        region,
                        left + 2,
                        0,
                        rule,
                    ) == horizontal_edges_from(samples@, region, x as int, index as int, rule),
        {
            let y: usize = rows[index];
            proof {
                assert(y == edge_row(region, index as int));
                lemma_touched(length as int, region, x + 3, y as int);
            }
            let start: usize = x + y * stride;
            let places: [usize; 4] = [start, start + 1, start + 2, start + 3];
            assert(places@ =~= row_of_four(
                stride as int,
                x as int,
                edge_row(region, index as int),
            ));
            filter_four(samples, places, kernels)?;
        }
        x = x + 4;
    }
    Ok(())
}

fn filter_corner<K: Fn(Kernel, [i32; 16]) -> Option<[i32; 16]>>(
    samples: &mut Vec<i32>,
    stride: usize,
    x: usize,
    y: usize,
    Ghost(region): Ghost<Region>,
    kernels: &K,
) -> (result: Result<(), ReconstructionError>)
    requires
        kernels::callable(*kernels),
        region.stride == stride,
        holds_region(old(samples)@.len() as int, region),
        x == region.left || x == region.right - 2,
        y == region.top || y == region.bottom - 2,
    ensures
        final(samples)@.len() == old(samples)@.len(),
        forall|rule: spec_fn(Kernel, Seq<i32>) -> Option<Seq<i32>>| #[trigger]
            kernels::runs(*kernels, rule) ==> kernels::leaves(
                result,
                final(samples)@,
                kernels::applied(
                    old(samples)@,
                    Kernel::Overlap4,
                    corner(stride as int, x as int, y as int),
                    OVERLAP_FILTER,
                    rule,
                ),
            ),
{
    let length: usize = samples.len();
    proof {
        lemma_touched(length as int, region, x + 1, y as int);
        lemma_touched(length as int, region, x + 1, y + 1);
    }
    let places: [usize; 4] = [
        x + y * stride,
        x + 1 + y * stride,
        x + (y + 1) * stride,
        x + 1 + (y + 1) * stride,
    ];
    assert(places@ =~= corner(stride as int, x as int, y as int));
    filter_four(samples, places, kernels)
}

fn filter_region<K: Fn(Kernel, [i32; 16]) -> Option<[i32; 16]>>(
    samples: &mut Vec<i32>,
    stride: usize,
    left: usize,
    right: usize,
    top: usize,
    bottom: usize,
    kernels: &K,
) -> (result: Result<(), ReconstructionError>)
    requires
        kernels::callable(*kernels),
        holds_region(
            old(samples)@.len() as int,
            region_of(stride, left, right, top, bottom),
        ),
    ensures
        final(samples)@.len() == old(samples)@.len(),
        forall|rule: spec_fn(Kernel, Seq<i32>) -> Option<Seq<i32>>| #[trigger]
            kernels::runs(*kernels, rule) ==> kernels::leaves(
                result,
                final(samples)@,
                filtered_region(old(samples)@, region_of(stride, left, right, top, bottom), rule),
            ),
{
    let ghost region = region_of(stride, left, right, top, bottom);
    filter_windows(samples, stride, left, right, top, bottom, kernels)?;
    filter_vertical_edges(samples, stride, left, right, top, bottom, kernels)?;
    filter_horizontal_edges(samples, stride, left, right, top, bottom, kernels)?;
    proof {
        reveal_with_fuel(corners_from, 5);
    }
    filter_corner(samples, stride, left, top, Ghost(region), kernels)?;
    filter_corner(samples, stride, right - 2, top, Ghost(region), kernels)?;
    filter_corner(samples, stride, left, bottom - 2, Ghost(region), kernels)?;
    filter_corner(samples, stride, right - 2, bottom - 2, Ghost(region), kernels)
}

/// The rectangle of a tile.
pub open spec fn tile(
    width: int,
    columns: Seq<usize>,
    rows: Seq<usize>,
    row: int,
    column: int,
) -> Region {
    Region {
        stride: width,
        left: columns[column] as int,
        right: columns[column + 1] as int,
        top: rows[row] as int,
        bottom: rows[row + 1] as int,
    }
}

/// Whether the samples that the filters of all tiles touch are there.
pub open spec fn holds_tiles(
    samples: int,
    width: usize,
    columns: Seq<usize>,
    rows: Seq<usize>,
) -> bool {
    forall|row: int, column: int|
        0 <= row < rows.len() - 1 && 0 <= column < columns.len() - 1 ==> holds_region(
            samples,
            #[trigger] tile(width as int, columns, rows, row, column),
        )
}

/// Whether a plane can be filtered between boundaries: the samples that the filters touch are
/// there.
pub open spec fn filterable(
    samples: int,
    width: usize,
    height: usize,
    columns: Seq<usize>,
    rows: Seq<usize>,
    hard: bool,
) -> bool {
    holds_tiles(
        samples,
        width,
        filter_boundaries(columns, width, hard),
        filter_boundaries(rows, height, hard),
    )
}

/// A plane of whole 4-by-4 blocks can be filtered, between hard boundaries too if they lie between
/// blocks.
pub proof fn lemma_blocks_are_filterable(
    samples: int,
    width: usize,
    height: usize,
    columns: Seq<usize>,
    rows: Seq<usize>,
    hard: bool,
)
    requires
        width >= 4 && width as int % 4 == 0,
        height >= 4 && height as int % 4 == 0,
        width * height <= samples <= usize::MAX,
        hard ==> aligned_boundaries(columns, width, 4) && aligned_boundaries(rows, height, 4),
    ensures
        filterable(samples, width, height, columns, rows, hard),
{
    assert(2 * width <= width * height && 2 * height <= width * height) by (nonlinear_arith)
        requires
            width >= 2,
            height >= 2,
    ;
    let columns = filter_boundaries(columns, width, hard);
    let rows = filter_boundaries(rows, height, hard);
    assert forall|row: int, column: int|
        0 <= row < rows.len() - 1 && 0 <= column < columns.len() - 1 implies holds_region(
        samples,
        #[trigger] tile(width as int, columns, rows, row, column),
    ) by {
        assert(columns[column] < columns[column + 1]);
        assert(rows[row] < rows[row + 1]);
        lemma_region_is_held(
            samples,
            tile(width as int, columns, rows, row, column),
            height as int,
        );
    }
}

/// Applies the overlap filters of a plane.
pub fn apply_overlap<K: Fn(Kernel, [i32; 16]) -> Option<[i32; 16]>>(
    samples: &mut Vec<i32>,
    width: usize,
    height: usize,
    column_boundaries: &[usize],
    row_boundaries: &[usize],
    hard_boundaries: bool,
    kernels: &K,
) -> (result: Result<(), ReconstructionError>)
    requires
        kernels::callable(*kernels),
        filterable(
            old(samples)@.len() as int,
            width,
            height,
            column_boundaries@,
            row_boundaries@,
            hard_boundaries,
        ),
    ensures
        final(samples)@.len() == old(samples)@.len(),
        forall|rule: spec_fn(Kernel, Seq<i32>) -> Option<Seq<i32>>| #[trigger]
            kernels::runs(*kernels, rule) ==> kernels::leaves(
                result,
                final(samples)@,
                overlapped(
                    old(samples)@,
                    width,
                    height,
                    column_boundaries@,
                    row_boundaries@,
                    hard_boundaries,
                    rule,
                ),
            ),
{
    let full_columns: [usize; 2] = [0, width];
    let full_rows: [usize; 2] = [0, height];
    assert(full_columns@ =~= seq![0usize, width]);
    assert(full_rows@ =~= seq![0usize, height]);
    let columns: &[usize] = if hard_boundaries {
        column_boundaries
    } else {
        full_columns.as_slice()
    };
    let rows: &[usize] = if hard_boundaries {
        row_boundaries
    } else {
        full_rows.as_slice()
    };
    let mut row: usize = 0;
    while rows.len() > 1 && row < rows.len() - 1
        invariant
            kernels::callable(*kernels),
            holds_tiles(samples@.len() as int, width, columns@, rows@),
            samples@.len() == old(samples)@.len(),
            forall|rule: spec_fn(Kernel, Seq<i32>) -> Option<Seq<i32>>| #[trigger]
                kernels::runs(*kernels, rule) ==> overlapped(
                    old(samples)@,
                    width,
                    height,
                    column_boundaries@,
                    row_boundaries@,
                    hard_boundaries,
                    rule,
                ) == regions_from(samples@, width as int, columns@, rows@, row as int, 0, rule),
        decreases rows@.len() - row,
    {
        let mut column: usize = 0;
        while columns.len() > 1 && column < columns.len() - 1
            invariant
                kernels::callable(*kernels),
                holds_tiles(samples@.len() as int, width, columns@, rows@),
                row + 1 < rows@.len(),
                samples@.len() == old(samples)@.len(),
                forall|rule: spec_fn(Kernel, Seq<i32>) -> Option<Seq<i32>>| #[trigger]
                    kernels::runs(*kernels, rule) ==> overlapped(
                        old(samples)@,
                        width,
                        height,
                        column_boundaries@,
                        row_boundaries@,
                        hard_boundaries,
                        rule,
                    ) == regions_from(
                        samples@,
                        width as int,
                        columns@,
                        rows@,
                        row as int,
                        column as int,
                        rule,
                    ),
            decreases columns@.len() - column,
        {
            let left: usize = columns[column];
            let right: usize = columns[column + 1];
            let top: usize = rows[row];
            let bottom: usize = rows[row + 1];
            assert(tile(width as int, columns@, rows@, row as int, column as int) == region_of(
                width,
                left,
                right,
                top,
                bottom,
            ));
            filter_region(samples, width, left, right, top, bottom, kernels)?;
            column = column + 1;
        }
        row = row + 1;
    }
    Ok(())
}

} // verus!

//! First-level overlap geometry for YUV420 and YUV422 chroma planes.

use crate::reconstruct::contract::ReconstructionError;
use crate::reconstruct::kernels;
use crate::reconstruct::kernels::{apply_kernel, Kernel};
use crate::reconstruct::overlap;
use crate::reconstruct::overlap::Region;
use vstd::prelude::*;

verus! {

/// What an operator is used for here.
pub const SUBSAMPLED_FILTER: &'static str = "subsampled overlap postfilter";

/// The samples after one of them is raised or lowered by another one.
pub open spec fn adjusted(samples: Seq<i32>, target: int, source: int, raise: bool) -> Result<
    Seq<i32>,
    ReconstructionError,
> {
    let value = if raise {
        samples[target] + samples[source]
    } else {
        samples[target] - samples[source]
    };
    if i32::MIN <= value <= i32::MAX {
        Ok(samples.update(target, value as i32))
    } else {
        Err(ReconstructionError::ArithmeticOverflow("subsampled corner residual"))
    }
}

/// The samples after the corners of a region, from corner `index` on, are raised or lowered by
/// their neighbours: top left, top right, bottom left, bottom right.
pub open spec fn corners_adjusted_from(
    samples: Seq<i32>,
    region: Region,
    index: int,
    raise: bool,
) -> Result<Seq<i32>, ReconstructionError>
    decreases 4 - index,
{
    if index >= 4 {
        Ok(samples)
    } else {
        let row = if index < 2 {
            region.top * region.stride
        } else {
            (region.bottom - 1) * region.stride
        };
        let (target, source) = if index % 2 == 0 {
            (region.left + row, region.left + 1 + row)
        } else {
            (region.right - 1 + row, region.right - 2 + row)
        };
        match adjusted(samples, target, source, raise) {
            Err(error) => Err(error),
            Ok(next) => corners_adjusted_from(next, region, index + 1, raise),
        }
    }
}

/// The places of the 2-by-2 window whose last place is (x, y), row by row.
pub open spec fn square(stride: int, x: int, y: int) -> Seq<usize> {
    Seq::new(4, |index: int| (x - 1 + index % 2 + (y - 1 + index / 2) * stride) as usize)
}

/// The place (x, y) and the one above it, upper one first.
pub open spec fn vertical_pair(stride: int, x: int, y: int) -> Seq<usize> {
    seq![(x + (y - 1) * stride) as usize, (x + y * stride) as usize]
}

/// The place (x, y) and the one before it, left one first.
pub open spec fn horizontal_pair(stride: int, x: int, y: int) -> Seq<usize> {
    seq![(x - 1 + y * stride) as usize, (x + y * stride) as usize]
}

/// The samples after the 2-by-2 windows of a region, from the one at (x, y) on.
pub open spec fn squares_from(
    samples: Seq<i32>,
    region: Region,
    x: int,
    y: int,
    rule: spec_fn(Kernel, Seq<i32>) -> Option<Seq<i32>>,
) -> Result<Seq<i32>, ReconstructionError>
    decreases region.bottom - y + 2, region.right - x + 2,
{
    if y >= region.bottom {
        Ok(samples)
    } else if x >= region.right {
        squares_from(samples, region, region.left + 2, y + 2, rule)
    } else {
        match kernels::applied(
            samples,
            Kernel::Overlap2x2,
            square(region.stride, x, y),
            SUBSAMPLED_FILTER,
            rule,
        ) {
            Err(error) => Err(error),
            Ok(next) => squares_from(next, region, x + 2, y, rule),
        }
    }
}

/// The samples after the pairs at the left and right edge of a region, from row `y` and from the
/// left (`index` 0) or the right edge on.
pub open spec fn side_pairs_from(
    samples: Seq<i32>,
    region: Region,
    y: int,
    index: int,
    rule: spec_fn(Kernel, Seq<i32>) -> Option<Seq<i32>>,
) -> Result<Seq<i32>, ReconstructionError>
    decreases region.bottom - y + 2, 2 - index,
{
    if y >= region.bottom {
        Ok(samples)
    } else if index >= 2 {
        side_pairs_from(samples, region, y + 2, 0, rule)
    } else {
        let x = if index == 0 {
            region.left
        } else {
            region.right - 1
        };
        match kernels::applied(
            samples,
            Kernel::Overlap2,
            vertical_pair(region.stride, x, y),
            SUBSAMPLED_FILTER,
            rule,
        ) {
            Err(error) => Err(error),
            Ok(next) => side_pairs_from(next, region, y, index + 1, rule),
        }
    }
}

/// The samples after the pairs at the top and bottom edge of a region, from column `x` and from
/// the top (`index` 0) or the bottom edge on.
pub open spec fn end_pairs_from(
    samples: Seq<i32>,
    region: Region,
    x: int,
    index: int,
    rule: spec_fn(Kernel, Seq<i32>) -> Option<Seq<i32>>,
) -> Result<Seq<i32>, ReconstructionError>
    decreases region.right - x + 2, 2 - index,
{
    if x >= region.right {
        Ok(samples)
    } else if index >= 2 {
        end_pairs_from(samples, region, x + 2, 0, rule)
    } else {
        let y = if index == 0 {
            region.top
        } else {
            region.bottom - 1
        };
        match kernels::applied(
            samples,
            Kernel::Overlap2,
            horizontal_pair(region.stride, x, y),
            SUBSAMPLED_FILTER,
            rule,
        ) {
            Err(error) => Err(error),
            Ok(next) => end_pairs_from(next, region, x, index + 1, rule),
        }
    }
}

/// The samples after the overlap filters of a region.
pub open spec fn filtered_region(
    samples: Seq<i32>,
    region: Region,
    rule: spec_fn(Kernel, Seq<i32>) -> Option<Seq<i32>>,
) -> Result<Seq<i32>, ReconstructionError> {
    let lowered = corners_adjusted_from(samples, region, 0, false);
    let inner = squares_from(lowered->Ok_0, region, region.left + 2, region.top + 2, rule);
    let sides = side_pairs_from(inner->Ok_0, region, region.top + 2, 0, rule);
    let ends = end_pairs_from(sides->Ok_0, region, region.left + 2, 0, rule);
    if lowered is Err {
        lowered
    } else if inner is Err {
        inner
    } else if sides is Err {
        sides
    } else if ends is Err {
        ends
    } else {
        corners_adjusted_from(ends->Ok_0, region, 0, true)
    }
}

/// The samples after the overlap filters of the regions between boundaries, from the one behind
/// row boundary `row` and column boundary `column` on.
pub open spec fn regions_from(
    samples: Seq<i32>,
    width: int,
    columns: Seq<usize>,
    rows: Seq<usize>,
    row: int,
    column: int,
    rule: spec_fn(Kernel, Seq<i32>) -> Option<Seq<i32>>,
) -> Result<Seq<i32>, ReconstructionError>
    decreases rows.len() - row, columns.len() - column,
{
    if row + 1 >= rows.len() {
        Ok(samples)
    } else if column + 1 >= columns.len() {
        regions_from(samples, width, columns, rows, row + 1, 0, rule)
    } else {
        match filtered_region(
            samples,
            Region {
                stride: width,
                left: columns[column] as int,
                right: columns[column + 1] as int,
                top: rows[row] as int,
                bottom: rows[row + 1] as int,
            },
            rule,
        ) {
            Err(error) => Err(error),
            Ok(next) => regions_from(next, width, columns, rows, row, column + 1, rule),
        }
    }
}

/// The samples of a subsampled plane after overlap filtering.
pub open spec fn overlapped(
    samples: Seq<i32>,
    width: usize,
    height: usize,
    column_boundaries: Seq<usize>,
    row_boundaries: Seq<usize>,
    hard_boundaries: bool,
    rule: spec_fn(Kernel, Seq<i32>) -> Option<Seq<i32>>,
) -> Result<Seq<i32>, ReconstructionError> {
    regions_from(
        samples,
        width as int,
        overlap::filter_boundaries(column_boundaries, width, hard_boundaries),
        overlap::filter_boundaries(row_boundaries, height, hard_boundaries),
        0,
        0,
        rule,
    )
}

/// Whether a rectangle of at least two rows and columns lies in a plane.
pub open spec fn region_fits(region: Region, samples: int, height: int) -> bool {
    &&& 0 <= region.left <= region.right - 2
    &&& 0 <= region.top <= region.bottom - 2
    &&& region.right <= region.stride
    &&& region.bottom <= height
    &&& region.stride * height <= samples
}

/// Whether the filters between two boundaries touch a row or column: the first and the last one,
/// and pairs of which the second one lies an even distance behind the first boundary.
pub open spec fn touched(place: int, from: int, to: int) -> bool {
    ||| place == from
    ||| place == to - 1
    ||| (place >= from + 1 && place + (place - from) % 2 < to)
}

/// Whether the samples that the filters of a rectangle touch are all there, and their rows and
/// columns can be counted.
pub open spec fn holds_region(samples: int, region: Region) -> bool {
    &&& 0 <= region.stride
    &&& 0 <= region.left <= usize::MAX - 2
    &&& 2 <= region.right <= usize::MAX - 2
    &&& 0 <= region.top <= usize::MAX - 2
    &&& 1 <= region.bottom <= usize::MAX - 2
    &&& forall|x: int, y: int| #[trigger]
        touched(x, region.left, region.right) && #[trigger] touched(y, region.top, region.bottom)
            ==> x + y * region.stride < samples
    &&& region.left + 1 + region.top * region.stride < samples
    &&& region.left + 1 + (region.bottom - 1) * region.stride < samples
    &&& region.right - 2 + region.top * region.stride < samples
    &&& region.right - 2 + (region.bottom - 1) * region.stride < samples
}

/// What the filters of a rectangle touch is there.
pub(crate) proof fn lemma_touched(samples: int, region: Region, x: int, y: int)
    requires
        holds_region(samples, region),
        touched(x, region.left, region.right),
        touched(y, region.top, region.bottom),
    ensures
        0 <= x,
        0 <= y,
        0 <= y * region.stride,
        x + y * region.stride < samples,
{
    assert(y * region.stride >= 0) by (nonlinear_arith)
        requires
            y >= 0,
            region.stride >= 0,
    ;
}

/// The samples that the filters of a rectangle touch are there if the rectangle lies in a plane.
proof fn lemma_region_is_held(samples: int, region: Region, height: int)
    requires
        region_fits(region, samples, height),
        region.right <= usize::MAX - 2,
        region.bottom <= usize::MAX - 2,
    ensures
        holds_region(samples, region),
{
    assert forall|x: int, y: int| #[trigger]
        touched(x, region.left, region.right) && #[trigger] touched(
            y,
            region.top,
            region.bottom,
        ) implies x + y * region.stride < samples by {
        assert(region.left <= x < region.right);
        assert(region.top <= y < region.bottom);
        kernels::lemma_in_plane(x, y, region.stride, height);
    }
    kernels::lemma_in_plane(region.left + 1, region.top, region.stride, height);
    kernels::lemma_in_plane(region.left + 1, region.bottom - 1, region.stride, height);
    kernels::lemma_in_plane(region.right - 2, region.top, region.stride, height);
    kernels::lemma_in_plane(region.right - 2, region.bottom - 1, region.stride, height);
}

fn update_corner(samples: &mut Vec<i32>, target: usize, source: usize, raise: bool) -> (result:
    Result<(), ReconstructionError>)
    requires
        target < old(samples)@.len(),
        source < old(samples)@.len(),
    ensures
        final(samples)@.len() == old(samples)@.len(),
        kernels::leaves(
            result,
            final(samples)@,
            adjusted(old(samples)@, target as int, source as int, raise),
        ),
{
    let value: i64 = if raise {
        samples[target] as i64 + samples[source] as i64
    } else {
        samples[target] as i64 - samples[source] as i64
    };
    if value < i32::MIN as i64 || value > i32::MAX as i64 {
        return Err(ReconstructionError::ArithmeticOverflow("subsampled corner residual"));
    }
    samples.set(target, value as i32);
    Ok(())
}

fn update_corners(
    samples: &mut Vec<i32>,
    stride: usize,
    left: usize,
    right: usize,
    top: usize,
    bottom: usize,
    raise: bool,
) -> (result: Result<(), ReconstructionError>)
    requires
        holds_region(
            old(samples)@.len() as int,
            overlap::region_of(stride, left, right, top, bottom),
        ),
    ensures
        final(samples)@.len() == old(samples)@.len(),
        kernels::leaves(
            result,
            final(samples)@,
            corners_adjusted_from(
                old(samples)@,
                overlap::region_of(stride, left, right, top, bottom),
                0,
                raise,
            ),
        ),
{
    let length: usize = samples.len();
    proof {
        reveal_with_fuel(corners_adjusted_from, 5);
        let region = overlap::region_of(stride, left, right, top, bottom);
        lemma_touched(length as int, region, left as int, top as int);
        lemma_touched(length as int, region, right - 1, top as int);
        lemma_touched(length as int, region, left as int, bottom - 1);
        lemma_touched(length as int, region, right - 1, bottom - 1);
    }
    let first: usize = top * stride;
    let last: usize = (bottom - 1) * stride;
    update_corner(samples, left + first, left + 1 + first, raise)?;
    update_corner(samples, right - 1 + first, right - 2 + first, raise)?;
    update_corner(samples, left + last, left + 1 + last, raise)?;
    update_corner(samples, right - 1 + last, right - 2 + last, raise)
}

fn filter_squares<K: Fn(Kernel, [i32; 16]) -> Option<[i32; 16]>>(
    samples: &mut Vec<i32>,
    stride: usize,
    left: usize,
    right: usize,
    top: usize,
    bottom: usize,
    kernels: &K,
) -> (result: Result<(), ReconstructionError>)
    requires
        kernels::callable(*kernels),
        holds_region(
            old(samples)@.len() as int,
            overlap::region_of(stride, left, right, top, bottom),
        ),
    ensures
        final(samples)@.len() == old(samples)@.len(),
        forall|rule: spec_fn(Kernel, Seq<i32>) -> Option<Seq<i32>>| #[trigger]
            kernels::runs(*kernels, rule) ==> kernels::leaves(
                result,
                final(samples)@,
                squares_from(
                    old(samples)@,
                    overlap::region_of(stride, left, right, top, bottom),
                    left + 2,
                    top + 2,
                    rule,
                ),
            ),
{
    let ghost region = overlap::region_of(stride, left, right, top, bottom);
    let length: usize = samples.len();
    let mut y: usize = top + 2;
    while y < bottom
        invariant
            kernels::callable(*kernels),
            region == overlap::region_of(stride, left, right, top, bottom),
            holds_region(samples@.len() as int, region),
            samples@.len() == old(samples)@.len(),
            length == samples@.len(),
            top + 2 <= y,
            (y - top) % 2 == 0,
            forall|rule: spec_fn(Kernel, Seq<i32>) -> Option<Seq<i32>>| #[trigger]
                kernels::runs(*kernels, rule) ==> squares_from(
                    old(samples)@,
                    region,
                    left + 2,
                    top + 2,
                    rule,
                ) == squares_from(samples@, region, left + 2, y as int, rule),
        decreases bottom - y + 2,
    {
        let mut x: usize = left + 2;
        while x < right
            invariant
                kernels::callable(*kernels),
                region == overlap::region_of(stride, left, right, top, bottom),
                holds_region(samples@.len() as int, region),
                samples@.len() == old(samples)@.len(),
                length == samples@.len(),
                top + 2 <= y < bottom,
                (y - top) % 2 == 0,
                left + 2 <= x,
                (x - left) % 2 == 0,
                forall|rule: spec_fn(Kernel, Seq<i32>) -> Option<Seq<i32>>| #[trigger]
                    kernels::runs(*kernels, rule) ==> squares_from(
                        old(samples)@,
                        region,
                        left + 2,
                        top + 2,
                        rule,
                    ) == squares_from(samples@, region, x as int, y as int, rule),
            decreases right - x + 2,
        {
            proof {
                lemma_touched(length as int, region, x as int, y - 1);
                lemma_touched(length as int, region, x as int, y as int);
            }
            let places: [usize; 4] = [
                x - 1 + (y - 1) * stride,
                x + (y - 1) * stride,
                x - 1 + y * stride,
                x + y * stride,
            ];
            assert(places@ =~= square(stride as int, x as int, y as int));
            apply_kernel(
                samples,
                Kernel::Overlap2x2,
                places.as_slice(),
                SUBSAMPLED_FILTER,
                kernels,
            )?;
            x = x + 2;
        }
        y = y + 2;
    }
    Ok(())
}

fn filter_side_pairs<K: Fn(Kernel, [i32; 16]) -> Option<[i32; 16]>>(
    samples: &mut Vec<i32>,
    stride: usize,
    left: usize,
    right: usize,
    top: usize,
    bottom: usize,
    kernels: &K,
) -> (result: Result<(), ReconstructionError>)
    requires
        kernels::callable(*kernels),
        holds_region(
            old(samples)@.len() as int,
            overlap::region_of(stride, left, right, top, bottom),
        ),
    ensures
        final(samples)@.len() == old(samples)@.len(),
        forall|rule: spec_fn(Kernel, Seq<i32>) -> Option<Seq<i32>>| #[trigger]
            kernels::runs(*kernels, rule) ==> kernels::leaves(
                result,
                final(samples)@,
                side_pairs_from(
                    old(samples)@,
                    overlap::region_of(stride, left, right, top, bottom),
                    top + 2,
                    0,
                    rule,
                ),
            ),
{
    let ghost region = overlap::region_of(stride, left, right, top, bottom);
    let length: usize = samples.len();
    let mut y: usize = top + 2;
    while y < bottom
        invariant
            kernels::callable(*kernels),
            region == overlap::region_of(stride, left, right, top, bottom),
            holds_region(samples@.len() as int, region),
            samples@.len() == old(samples)@.len(),
            length == samples@.len(),
            top + 2 <= y,
            (y - top) % 2 == 0,
            forall|rule: spec_fn(Kernel, Seq<i32>) -> Option<Seq<i32>>| #[trigger]
                kernels::runs(*kernels, rule) ==> side_pairs_from(
                    old(samples)@,
                    region,
                    top + 2,
                    0,
                    rule,
                ) == side_pairs_from(samples@, region, y as int, 0, rule),
        decreases bottom - y + 2,
    {
        proof {
            reveal_with_fuel(side_pairs_from, 4);
            lemma_touched(length as int, region, left as int, y - 1);
            lemma_touched(length as int, region, left as int, y as int);
            lemma_touched(length as int, region, right - 1, y - 1);
            lemma_touched(length as int, region, right - 1, y as int);
        }
        let first: [usize; 2] = [left + (y - 1) * stride, left + y * stride];
        assert(first@ =~= vertical_pair(stride as int, left as int, y as int));
        apply_kernel(samples, Kernel::Overlap2, first.as_slice(), SUBSAMPLED_FILTER, kernels)?;
        let last: [usize; 2] = [right - 1 + (y - 1) * stride, right - 1 + y * stride];
        assert(last@ =~= vertical_pair(stride as int, right - 1, y as int));
        apply_kernel(samples, Kernel::Overlap2, last.as_slice(), SUBSAMPLED_FILTER, kernels)?;
        y = y + 2;
    }
    Ok(())
}

fn filter_end_pairs<K: Fn(Kernel, [i32; 16]) -> Option<[i32; 16]>>(
    samples: &mut Vec<i32>,
    stride: usize,
    left: usize,
    right: usize,
    top: usize,
    bottom: usize,
    kernels: &K,
) -> (result: Result<(), ReconstructionError>)
    requires
        kernels::callable(*kernels),
        holds_region(
            old(samples)@.len() as int,
            overlap::region_of(stride, left, right, top, bottom),
        ),
    ensures
        final(samples)@.len() == old(samples)@.len(),
        forall|rule: spec_fn(Kernel, Seq<i32>) -> Option<Seq<i32>>| #[trigger]
            kernels::runs(*kernels, rule) ==> kernels::leaves(
                result,
                final(samples)@,
                end_pairs_from(
                    old(samples)@,
                    overlap::region_of(stride, left, right, top, bottom),
                    left + 2,
                    0,
                    rule,
                ),
            ),
{
    let ghost region = overlap::region_of(stride, left, right, top, bottom);
    let length: usize = samples.len();
    let mut x: usize = left + 2;
    while x < right
        invariant
            kernels::callable(*kernels),
            region == overlap::region_of(stride, left, right, top, bottom),
            holds_region(samples@.len() as int, region),
            samples@.len() == old(samples)@.len(),
            length == samples@.len(),
            left + 2 <= x,
            (x - left) % 2 == 0,
            forall|rule: spec_fn(Kernel, Seq<i32>) -> Option<Seq<i32>>| #[trigger]
                kernels::runs(*kernels, rule) ==> end_pairs_from(
                    old(samples)@,
                    region,
                    left + 2,
                    0,
                    rule,
                ) == end_pairs_from(samples@, region, x as int, 0, rule),
        decreases right - x + 2,
    {
        proof {
            reveal_with_fuel(end_pairs_from, 4);
            lemma_touched(length as int, region, x as int, top as int);
            lemma_touched(length as int, region, x as int, bottom - 1);
        }
        let first: [usize; 2] = [x - 1 + top * stride, x + top * stride];
        assert(first@ =~= horizontal_pair(stride as int, x as int, top as int));
        apply_kernel(samples, Kernel::Overlap2, first.as_slice(), SUBSAMPLED_FILTER, kernels)?;
        let last: [usize; 2] = [x - 1 + (bottom - 1) * stride, x + (bottom - 1) * stride];
        assert(last@ =~= horizontal_pair(stride as int, x as int, bottom - 1));
        apply_kernel(samples, Kernel::Overlap2, last.as_slice(), SUBSAMPLED_FILTER, kernels)?;
        x = x + 2;
    }
    Ok(())
}

fn filter_region<K: Fn(Kernel, [i32; 16]) -> Option<[i32; 16]>>(
    samples: &mut Vec<i32>,
    stride: usize,
    left: usize,
    right: usize,
    top: usize,
    bottom: usize,
    kernels: &K,
) -> (result: Result<(), ReconstructionError>)
    requires
        kernels::callable(*kernels),
        holds_region(
            old(samples)@.len() as int,
            overlap::region_of(stride, left, right, top, bottom),
        ),
    ensures
        final(samples)@.len() == old(samples)@.len(),
        forall|rule: spec_fn(Kernel, Seq<i32>) -> Option<Seq<i32>>| #[trigger]
            kernels::runs(*kernels, rule) ==> kernels::leaves(
                result,
                final(samples)@,
                filtered_region(
                    old(samples)@,
                    overlap::region_of(stride, left, right, top, bottom),
                    rule,
                ),
            ),
{
    update_corners(samples, stride, left, right, top, bottom, false)?;
    filter_squares(samples, stride, left, right, top, bottom, kernels)?;
    filter_side_pairs(samples, stride, left, right, top, bottom, kernels)?;
    filter_end_pairs(samples, stride, left, right, top, bottom, kernels)?;
    update_corners(samples, stride, left, right, top, bottom, true)
}

/// Whether the samples that the filters of all tiles touch are there.
pub open spec fn holds_tiles(
    samples: int,
    width: usize,
    columns: Seq<usize>,
    rows: Seq<usize>,
) -> bool {
    forall|row: int, column: int|
        0 <= row < rows.len() - 1 && 0 <= column < columns.len() - 1 ==> holds_region(
            samples,
            #[trigger] overlap::tile(width as int, columns, rows, row, column),
        )
}

/// Whether a plane can be filtered between boundaries: the samples that the filters touch are
/// there.
pub open spec fn filterable(
    samples: int,
    width: usize,
    height: usize,
    columns: Seq<usize>,
    rows: Seq<usize>,
    hard: bool,
) -> bool {
    holds_tiles(
        samples,
        width,
        overlap::filter_boundaries(columns, width, hard),
        overlap::filter_boundaries(rows, height, hard),
    )
}

/// A plane of whole 2-by-2 blocks can be filtered, between hard boundaries too if they lie between
/// blocks.
pub proof fn lemma_blocks_are_filterable(
    samples: int,
    width: usize,
    height: usize,
    columns: Seq<usize>,
    rows: Seq<usize>,
    hard: bool,
)
    requires
        width >= 2 && width as int % 2 == 0,
        height >= 2 && height as int % 2 == 0,
        width * height <= samples <= usize::MAX,
        hard ==> overlap::aligned_boundaries(columns, width, 2) && overlap::aligned_boundaries(
            rows,
            height,
            2,
        ),
    ensures
        filterable(samples, width, height, columns, rows, hard),
{
    assert(2 * width <= width * height && 2 * height <= width * height) by (nonlinear_arith)
        requires
            width >= 2,
            height >= 2,
    ;
    let columns = overlap::filter_boundaries(columns, width, hard);
    let rows = overlap::filter_boundaries(rows, height, hard);
    assert forall|row: int, column: int|
        0 <= row < rows.len() - 1 && 0 <= column < columns.len() - 1 implies holds_region(
        samples,
        #[trigger] overlap::tile(width as int, columns, rows, row, column),
    ) by {
        assert(columns[column] < columns[column + 1]);
        assert(rows[row] < rows[row + 1]);
        lemma_region_is_held(
            samples,
            overlap::tile(width as int, columns, rows, row, column),
            height as int,
        );
    }
}

/// Applies the first-level overlap filters of a subsampled plane.
pub fn apply_subsampled_first_overlap<K: Fn(Kernel, [i32; 16]) -> Option<[i32; 16]>>(
    samples: &mut Vec<i32>,
    width: usize,
    height: usize,
    column_boundaries: &[usize],
    row_boundaries: &[usize],
    hard_boundaries: bool,
    kernels: &K,
) -> (result: Result<(), ReconstructionError>)
    requires
        kernels::callable(*kernels),
        filterable(
            old(samples)@.len() as int,
            width,
            height,
            column_boundaries@,
            row_boundaries@,
            hard_boundaries,
        ),
    ensures
        final(samples)@.len() == old(samples)@.len(),
        forall|rule: spec_fn(Kernel, Seq<i32>) -> Option<Seq<i32>>| #[trigger]
            kernels::runs(*kernels, rule) ==> kernels::leaves(
                result,
                final(samples)@,
                overlapped(
                    old(samples)@,
                    width,
                    height,
                    column_boundaries@,
                    row_boundaries@,
                    hard_boundaries,
                    rule,
                ),
            ),
{
    let full_columns: [usize; 2] = [0, width];
    let full_rows: [usize; 2] = [0, height];
    assert(full_columns@ =~= seq![0usize, width]);
    assert(full_rows@ =~= seq![0usize, height]);
    let columns: &[usize] = if hard_boundaries {
        column_boundaries
    } else {
        full_columns.as_slice()
    };
    let rows: &[usize] = if hard_boundaries {
        row_boundaries
    } else {
        full_rows.as_slice()
    };
    let mut row: usize = 0;
    while rows.len() > 1 && row < rows.len() - 1
        invariant
            kernels::callable(*kernels),
            holds_tiles(samples@.len() as int, width, columns@, rows@),
            samples@.len() == old(samples)@.len(),
            forall|rule: spec_fn(Kernel, Seq<i32>) -> Option<Seq<i32>>| #[trigger]
                kernels::runs(*kernels, rule) ==> overlapped(
                    old(samples)@,
                    width,
                    height,
                    column_boundaries@,
                    row_boundaries@,
                    hard_boundaries,
                    rule,
                ) == regions_from(samples@, width as int, columns@, rows@, row as int, 0, rule),
        decreases rows@.len() - row,
    {
        let mut column: usize = 0;
        while columns.len() > 1 && column < columns.len() - 1
            invariant
                kernels::callable(*kernels),
                holds_tiles(samples@.len() as int, width, columns@, rows@),
                row + 1 < rows@.len(),
                samples@.len() == old(samples)@.len(),
                forall|rule: spec_fn(Kernel, Seq<i32>) -> Option<Seq<i32>>| #[trigger]
                    kernels::runs(*kernels, rule) ==> overlapped(
                        old(samples)@,
                        width,
                        height,
                        column_boundaries@,
                        row_boundaries@,
                        hard_boundaries,
                        rule,
                    ) == regions_from(
                        samples@,
                        width as int,
                        columns@,
                        rows@,
                        row as int,
                        column as int,
                        rule,
                    ),
            decreases columns@.len() - column,
        {
            let left: usize = columns[column];
            let right: usize = columns[column + 1];
            let top: usize = rows[row];
            let bottom: usize = rows[row + 1];
            assert(overlap::tile(width as int, columns@, rows@, row as int, column as int)
                == overlap::region_of(width, left, right, top, bottom));
            filter_region(samples, width, left, right, top, bottom, kernels)?;
            column = column + 1;
        }
        row = row + 1;
    }
    Ok(())
}

} // verus!

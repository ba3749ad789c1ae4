//! Laws of overlap filtering.

use crate::reconstruct::contract::ReconstructionError;
use crate::reconstruct::kernels::{self, Kernel};
use crate::reconstruct::overlap::{self, Region};
use crate::reconstruct::subsampled_overlap;
use vstd::arithmetic::div_mod::*;
use vstd::prelude::*;

verus! {

/// Whether every sample is zero.
pub open spec fn zero(samples: Seq<i32>) -> bool {
    forall|place: int| 0 <= place < samples.len() ==> samples[place] == 0
}

/// Whether the overlap filters turn zeros into zeros.
pub open spec fn keeps_zero(rule: spec_fn(Kernel, Seq<i32>) -> Option<Seq<i32>>) -> bool {
    forall|kernel: Kernel, values: Seq<i32>|
        (kernel == Kernel::Overlap4 || kernel == Kernel::Overlap4x4 || kernel == Kernel::Overlap2
            || kernel == Kernel::Overlap2x2) && values.len() == 16 && zero(values)
            ==> #[trigger] rule(kernel, values) is Some && zero(rule(kernel, values)->0) && rule(
            kernel,
            values,
        )->0.len() == 16
}

/// Whether a place lies in a region.
pub open spec fn inside(region: Region, place: int) -> bool {
    &&& region.left <= place % region.stride < region.right
    &&& region.top <= place / region.stride < region.bottom
}

/// Whether two planes have the same samples in a region.
pub open spec fn agree(first: Seq<i32>, second: Seq<i32>, region: Region) -> bool {
    &&& first.len() == second.len()
    &&& forall|place: int|
        0 <= place < first.len() && inside(region, place) ==> #[trigger] first[place]
            == second[place]
}

/// Whether a plane still has the samples outside a region that it had before.
pub open spec fn kept(before: Seq<i32>, after: Seq<i32>, region: Region) -> bool {
    &&& before.len() == after.len()
    &&& forall|place: int|
        0 <= place < before.len() && !inside(region, place) ==> #[trigger] after[place]
            == before[place]
}

/// Whether filtering did the same in a region of two planes, and nothing outside it.
pub open spec fn together(
    before: Seq<i32>,
    first: Result<Seq<i32>, ReconstructionError>,
    second: Result<Seq<i32>, ReconstructionError>,
    region: Region,
) -> bool {
    match (first, second) {
        (Ok(first), Ok(second)) => agree(first, second, region) && kept(before, first, region),
        (Err(first), Err(second)) => first == second,
        _ => false,
    }
}

/// Whether filtering zeros gave zeros.
pub open spec fn stays_zero(before: Seq<i32>, after: Result<Seq<i32>, ReconstructionError>) -> bool {
    zero(before) ==> match after {
        Ok(after) => zero(after) && after.len() == before.len(),
        Err(_) => false,
    }
}

/// Whether all places lie in a plane, and in a region of it.
pub open spec fn places_inside(region: Region, places: Seq<usize>, samples: int) -> bool {
    forall|index: int|
        0 <= index < places.len() ==> (#[trigger] places[index]) < samples && inside(
            region,
            places[index] as int,
        )
}

/// Whether a rectangle lies in a plane.
pub open spec fn lies_in(region: Region, samples: int, height: int) -> bool {
    &&& 0 <= region.left < region.right <= region.stride
    &&& 0 <= region.top < region.bottom <= height
    &&& region.stride * height <= samples
    &&& samples <= usize::MAX
}

proof fn lemma_place(region: Region, x: int, y: int, samples: int, height: int)
    requires
        lies_in(region, samples, height),
        region.left <= x < region.right,
        region.top <= y < region.bottom,
    ensures
        0 <= x + y * region.stride < samples,
        inside(region, x + y * region.stride),
        (x + y * region.stride) as usize == x + y * region.stride,
{
    kernels::lemma_in_plane(x, y, region.stride, height);
    lemma_fundamental_div_mod_converse(x + y * region.stride, region.stride, y, x);
}

proof fn lemma_scattered(
    first: Seq<i32>,
    second: Seq<i32>,
    places: Seq<usize>,
    values: Seq<i32>,
    region: Region,
)
    requires
        agree(first, second, region),
        places_inside(region, places, first.len() as int),
    ensures
        agree(
            kernels::scattered(first, places, values),
            kernels::scattered(second, places, values),
            region,
        ),
        kept(first, kernels::scattered(first, places, values), region),
        zero(first) && zero(values) && places.len() <= values.len() ==> zero(
            kernels::scattered(first, places, values),
        ),
    decreases places.len(),
{
    if places.len() > 0 {
        assert forall|index: int| 0 <= index < places.drop_last().len() implies (
        #[trigger] places.drop_last()[index]) < first.len() && inside(
            region,
            places.drop_last()[index] as int,
        ) by {
            assert(places[index] < first.len());
        }
        lemma_scattered(first, second, places.drop_last(), values, region);
        assert(places[places.len() - 1] < first.len());
    }
}

proof fn lemma_applied(
    first: Seq<i32>,
    second: Seq<i32>,
    kernel: Kernel,
    places: Seq<usize>,
    operation: &'static str,
    region: Region,
    rule: spec_fn(Kernel, Seq<i32>) -> Option<Seq<i32>>,
)
    requires
        agree(first, second, region),
        places_inside(region, places, first.len() as int),
        places.len() <= 16,
    ensures
        together(
            first,
            kernels::applied(first, kernel, places, operation, rule),
            kernels::applied(second, kernel, places, operation, rule),
            region,
        ),
        keeps_zero(rule) && (kernel == Kernel::Overlap4 || kernel == Kernel::Overlap4x4 || kernel
            == Kernel::Overlap2 || kernel == Kernel::Overlap2x2) ==> stays_zero(
            first,
            kernels::applied(first, kernel, places, operation, rule),
        ),
{
    assert forall|index: int| 0 <= index < places.len() implies first[places[index] as int]
        == second[places[index] as int] by {
        assert(places[index] < first.len());
    }
    assert(kernels::gathered(first, places) =~= kernels::gathered(second, places));
    let values = kernels::padded(kernels::gathered(first, places));
    if let Some(output) = rule(kernel, values) {
        lemma_scattered(first, second, places, output, region);
    }
    if zero(first) {
        assert forall|index: int| 0 <= index < values.len() implies values[index] == 0 by {
            if index < places.len() {
                assert(places[index] < first.len());
            }
        }
        if let Some(output) = rule(kernel, values) {
            lemma_scattered(first, first, places, output, region);
        }
    }
}

proof fn lemma_windows(
    first: Seq<i32>,
    second: Seq<i32>,
    region: Region,
    x: int,
    y: int,
    height: int,
    rule: spec_fn(Kernel, Seq<i32>) -> Option<Seq<i32>>,
)
    requires
        agree(first, second, region),
        overlap::region_fits(region, first.len() as int, height),
        first.len() <= usize::MAX,
        region.left + 2 <= x,
        (x - region.left - 2) % 4 == 0,
        region.top + 2 <= y,
        (y - region.top - 2) % 4 == 0,
    ensures
        together(
            first,
            overlap::windows_from(first, region, x, y, rule),
            overlap::windows_from(second, region, x, y, rule),
            region,
        ),
    decreases region.bottom - y + 4, region.right - x + 4,
{
    if y + 2 >= region.bottom {
    } else if x + 2 >= region.right {
        lemma_windows(first, second, region, region.left + 2, y + 4, height, rule);
    } else {
        let places = overlap::window(region.stride, x, y);
        assert(places_inside(region, places, first.len() as int)) by {
            assert forall|index: int| 0 <= index < places.len() implies (#[trigger] places[index])
                < first.len() && inside(region, places[index] as int) by {
                lemma_place(region, x + index % 4, y + index / 4, first.len() as int, height);
            }
        }
        lemma_applied(
            first,
            second,
            Kernel::Overlap4x4,
            places,
            overlap::OVERLAP_FILTER,
            region,
            rule,
        );
        let next = kernels::applied(
            first,
            Kernel::Overlap4x4,
            places,
            overlap::OVERLAP_FILTER,
            rule,
        );
        let other = kernels::applied(
            second,
            Kernel::Overlap4x4,
            places,
            overlap::OVERLAP_FILTER,
            rule,
        );
        if next is Ok {
            lemma_windows(next->Ok_0, other->Ok_0, region, x + 4, y, height, rule);
        }
    }
}

proof fn lemma_vertical_edges(
    first: Seq<i32>,
    second: Seq<i32>,
    region: Region,
    y: int,
    edge: int,
    height: int,
    rule: spec_fn(Kernel, Seq<i32>) -> Option<Seq<i32>>,
)
    requires
        agree(first, second, region),
        overlap::region_fits(region, first.len() as int, height),
        first.len() <= usize::MAX,
        region.top + 2 <= y,
        (y - region.top - 2) % 4 == 0,
        0 <= edge,
    ensures
        together(
            first,
            overlap::vertical_edges_from(first, region, y, edge, rule),
            overlap::vertical_edges_from(second, region, y, edge, rule),
            region,
        ),
    decreases region.bottom - y + 4, 4 - edge,
{
    if y + 2 >= region.bottom {
    } else if edge >= 4 {
        lemma_vertical_edges(first, second, region, y + 4, 0, height, rule);
    } else {
        let places = overlap::column_of_four(region.stride, overlap::edge_column(region, edge), y);
        assert(places_inside(region, places, first.len() as int)) by {
            assert forall|index: int| 0 <= index < places.len() implies (#[trigger] places[index])
                < first.len() && inside(region, places[index] as int) by {
                lemma_place(
                    region,
                    overlap::edge_column(region, edge),
                    y + index,
                    first.len() as int,
                    height,
                );
            }
        }
        lemma_applied(
            first,
            second,
            Kernel::Overlap4,
            places,
            overlap::OVERLAP_FILTER,
            region,
            rule,
        );
        let next = kernels::applied(first, Kernel::Overlap4, places, overlap::OVERLAP_FILTER, rule);
        let other = kernels::applied(
            second,
            Kernel::Overlap4,
            places,
            overlap::OVERLAP_FILTER,
            rule,
        );
        if next is Ok {
            lemma_vertical_edges(next->Ok_0, other->Ok_0, region, y, edge + 1, height, rule);
        }
    }
}

proof fn lemma_horizontal_edges(
    first: Seq<i32>,
    second: Seq<i32>,
    region: Region,
    x: int,
    edge: int,
    height: int,
    rule: spec_fn(Kernel, Seq<i32>) -> Option<Seq<i32>>,
)
    requires
        agree(first, second, region),
        overlap::region_fits(region, first.len() as int, height),
        first.len() <= usize::MAX,
        region.left + 2 <= x,
        (x - region.left - 2) % 4 == 0,
        0 <= edge,
    ensures
        together(
            first,
            overlap::horizontal_edges_from(first, region, x, edge, rule),
            overlap::horizontal_edges_from(second, region, x, edge, rule),
            region,
        ),
    decreases region.right - x + 4, 4 - edge,
{
    if x + 2 >= region.right {
    } else if edge >= 4 {
        lemma_horizontal_edges(first, second, region, x + 4, 0, height, rule);
    } else {
        let places = overlap::row_of_four(region.stride, x, overlap::edge_row(region, edge));
        assert(places_inside(region, places, first.len() as int)) by {
            assert forall|index: int| 0 <= index < places.len() implies (#[trigger] places[index])
                < first.len() && inside(region, places[index] as int) by {
                lemma_place(
                    region,
                    x + index,
                    overlap::edge_row(region, edge),
                    first.len() as int,
                    height,
                );
            }
        }
        lemma_applied(
            first,
            second,
            Kernel::Overlap4,
            places,
            overlap::OVERLAP_FILTER,
            region,
            rule,
        );
        let next = kernels::applied(first, Kernel::Overlap4, places, overlap::OVERLAP_FILTER, rule);
        let other = kernels::applied(
            second,
            Kernel::Overlap4,
            places,
            overlap::OVERLAP_FILTER,
            rule,
        );
        if next is Ok {
            lemma_horizontal_edges(next->Ok_0, other->Ok_0, region, x, edge + 1, height, rule);
        }
    }
}

proof fn lemma_corners(
    first: Seq<i32>,
    second: Seq<i32>,
    region: Region,
    number: int,
    height: int,
    rule: spec_fn(Kernel, Seq<i32>) -> Option<Seq<i32>>,
)
    requires
        agree(first, second, region),
        overlap::region_fits(region, first.len() as int, height),
        first.len() <= usize::MAX,
        0 <= number,
    ensures
        together(
            first,
            overlap::corners_from(first, region, number, rule),
            overlap::corners_from(second, region, number, rule),
            region,
        ),
    decreases 4 - number,
{
    if number < 4 {
        let x = if number % 2 == 0 {
            region.left
        } else {
            region.right - 2
        };
        let y = if number < 2 {
            region.top
        } else {
            region.bottom - 2
        };
        let places = overlap::corner(region.stride, x, y);
        assert(places_inside(region, places, first.len() as int)) by {
            assert forall|index: int| 0 <= index < places.len() implies (#[trigger] places[index])
                < first.len() && inside(region, places[index] as int) by {
                lemma_place(region, x + index % 2, y + index / 2, first.len() as int, height);
            }
        }
        lemma_applied(
            first,
            second,
            Kernel::Overlap4,
            places,
            overlap::OVERLAP_FILTER,
            region,
            rule,
        );
        let next = kernels::applied(first, Kernel::Overlap4, places, overlap::OVERLAP_FILTER, rule);
        let other = kernels::applied(
            second,
            Kernel::Overlap4,
            places,
            overlap::OVERLAP_FILTER,
            rule,
        );
        if next is Ok {
            lemma_corners(next->Ok_0, other->Ok_0, region, number + 1, height, rule);
        }
    }
}

proof fn lemma_region(
    first: Seq<i32>,
    second: Seq<i32>,
    region: Region,
    height: int,
    rule: spec_fn(Kernel, Seq<i32>) -> Option<Seq<i32>>,
)
    requires
        agree(first, second, region),
        overlap::region_fits(region, first.len() as int, height),
        first.len() <= usize::MAX,
    ensures
        together(
            first,
            overlap::filtered_region(first, region, rule),
            overlap::filtered_region(second, region, rule),
            region,
        ),
{
    let left = region.left + 2;
    let top = region.top + 2;
    lemma_windows(first, second, region, left, top, height, rule);
    let inner = overlap::windows_from(first, region, left, top, rule);
    let other_inner = overlap::windows_from(second, region, left, top, rule);
    if inner is Ok {
        lemma_vertical_edges(inner->Ok_0, other_inner->Ok_0, region, top, 0, height, rule);
        let sides = overlap::vertical_edges_from(inner->Ok_0, region, top, 0, rule);
        let other_sides = overlap::vertical_edges_from(other_inner->Ok_0, region, top, 0, rule);
        if sides is Ok {
            lemma_horizontal_edges(
                sides->Ok_0,
                other_sides->Ok_0,
                region,
                left,
                0,
                height,
                rule,
            );
            let edges = overlap::horizontal_edges_from(sides->Ok_0, region, left, 0, rule);
            let other_edges = overlap::horizontal_edges_from(
                other_sides->Ok_0,
                region,
                left,
                0,
                rule,
            );
            if edges is Ok {
                lemma_corners(edges->Ok_0, other_edges->Ok_0, region, 0, height, rule);
            }
        }
    }
}

/// Filtering a region changes no sample outside it.
pub proof fn lemma_filter_stays_in_region(
    samples: Seq<i32>,
    region: Region,
    height: int,
    rule: spec_fn(Kernel, Seq<i32>) -> Option<Seq<i32>>,
)
    requires
        overlap::region_fits(region, samples.len() as int, height),
        samples.len() <= usize::MAX,
    ensures
        overlap::filtered_region(samples, region, rule) matches Ok(after) ==> kept(
            samples,
            after,
            region,
        ),
{
    lemma_region(samples, samples, region, height, rule);
}

/// What filtering makes of a region depends on no sample outside it: two planes with the same
/// samples in the region have the same samples in it afterwards, or the same error.
pub proof fn lemma_regions_are_independent(
    first: Seq<i32>,
    second: Seq<i32>,
    region: Region,
    height: int,
    rule: spec_fn(Kernel, Seq<i32>) -> Option<Seq<i32>>,
)
    requires
        agree(first, second, region),
        overlap::region_fits(region, first.len() as int, height),
        first.len() <= usize::MAX,
    ensures
        match (
            overlap::filtered_region(first, region, rule),
            overlap::filtered_region(second, region, rule),
        ) {
            (Ok(one), Ok(other)) => agree(one, other, region),
            (Err(one), Err(other)) => one == other,
            _ => false,
        },
{
    lemma_region(first, second, region, height, rule);
}

/// A plane as one row.
spec fn whole(samples: int) -> Region {
    Region { stride: samples, left: 0, right: samples, top: 0, bottom: 1 }
}

/// A filter of some places that turns zeros into zeros leaves a plane of zeros as it was.
proof fn lemma_zero_applied(
    samples: Seq<i32>,
    kernel: Kernel,
    places: Seq<usize>,
    operation: &'static str,
    rule: spec_fn(Kernel, Seq<i32>) -> Option<Seq<i32>>,
)
    requires
        keeps_zero(rule),
        zero(samples),
        kernel == Kernel::Overlap4 || kernel == Kernel::Overlap4x4 || kernel == Kernel::Overlap2
            || kernel == Kernel::Overlap2x2,
        places.len() <= 16,
        forall|index: int|
            0 <= index < places.len() ==> (#[trigger] places[index]) < samples.len(),
    ensures
        kernels::applied(samples, kernel, places, operation, rule) == Ok::<
            Seq<i32>,
            ReconstructionError,
        >(samples),
{
    let region = whole(samples.len() as int);
    assert forall|index: int| 0 <= index < places.len() implies (#[trigger] places[index])
        < samples.len() && inside(region, places[index] as int) by {
        lemma_fundamental_div_mod_converse(
            places[index] as int,
            region.stride,
            0,
            places[index] as int,
        );
    }
    lemma_applied(samples, samples, kernel, places, operation, region, rule);
    assert(kernels::applied(samples, kernel, places, operation, rule)->Ok_0 =~= samples);
}

proof fn lemma_zero_windows(
    samples: Seq<i32>,
    region: Region,
    x: int,
    y: int,
    rule: spec_fn(Kernel, Seq<i32>) -> Option<Seq<i32>>,
)
    requires
        keeps_zero(rule),
        zero(samples),
        samples.len() <= usize::MAX,
        overlap::holds_region(samples.len() as int, region),
        region.left + 2 <= x,
        (x - region.left - 2) % 4 == 0,
        region.top + 2 <= y,
        (y - region.top - 2) % 4 == 0,
    ensures
        overlap::windows_from(samples, region, x, y, rule) == Ok::<Seq<i32>, ReconstructionError>(
            samples,
        ),
    decreases region.bottom - y + 4, region.right - x + 4,
{
    if y + 2 >= region.bottom {
    } else if x + 2 >= region.right {
        lemma_zero_windows(samples, region, region.left + 2, y + 4, rule);
    } else {
        let places = overlap::window(region.stride, x, y);
        assert forall|index: int| 0 <= index < places.len() implies (#[trigger] places[index])
            < samples.len() by {
            overlap::lemma_touched(samples.len() as int, region, x + index % 4, y + index / 4);
        }
        lemma_zero_applied(samples, Kernel::Overlap4x4, places, overlap::OVERLAP_FILTER, rule);
        lemma_zero_windows(samples, region, x + 4, y, rule);
    }
}

proof fn lemma_zero_vertical_edges(
    samples: Seq<i32>,
    region: Region,
    y: int,
    edge: int,
    rule: spec_fn(Kernel, Seq<i32>) -> Option<Seq<i32>>,
)
    requires
        keeps_zero(rule),
        zero(samples),
        samples.len() <= usize::MAX,
        overlap::holds_region(samples.len() as int, region),
        region.top + 2 <= y,
        (y - region.top - 2) % 4 == 0,
        0 <= edge,
    ensures
        overlap::vertical_edges_from(samples, region, y, edge, rule) == Ok::<
            Seq<i32>,
            ReconstructionError,
        >(samples),
    decreases region.bottom - y + 4, 4 - edge,
{
    if y + 2 >= region.bottom {
    } else if edge >= 4 {
        lemma_zero_vertical_edges(samples, region, y + 4, 0, rule);
    } else {
        let x = overlap::edge_column(region, edge);
        let places = overlap::column_of_four(region.stride, x, y);
        assert forall|index: int| 0 <= index < places.len() implies (#[trigger] places[index])
            < samples.len() by {
            overlap::lemma_touched(samples.len() as int, region, x, y + index);
        }
        lemma_zero_applied(samples, Kernel::Overlap4, places, overlap::OVERLAP_FILTER, rule);
        lemma_zero_vertical_edges(samples, region, y, edge + 1, rule);
    }
}

proof fn lemma_zero_horizontal_edges(
    samples: Seq<i32>,
    region: Region,
    x: int,
    edge: int,
    rule: spec_fn(Kernel, Seq<i32>) -> Option<Seq<i32>>,
)
    requires
        keeps_zero(rule),
        zero(samples),
        samples.len() <= usize::MAX,
        overlap::holds_region(samples.len() as int, region),
        region.left + 2 <= x,
        (x - region.left - 2) % 4 == 0,
        0 <= edge,
    ensures
        overlap::horizontal_edges_from(samples, region, x, edge, rule) == Ok::<
            Seq<i32>,
            ReconstructionError,
        >(samples),
    decreases region.right - x + 4, 4 - edge,
{
    if x + 2 >= region.right {
    } else if edge >= 4 {
        lemma_zero_horizontal_edges(samples, region, x + 4, 0, rule);
    } else {
        let y = overlap::edge_row(region, edge);
        let places = overlap::row_of_four(region.stride, x, y);
        assert forall|index: int| 0 <= index < places.len() implies (#[trigger] places[index])
            < samples.len() by {
            overlap::lemma_touched(samples.len() as int, region, x + index, y);
        }
        lemma_zero_applied(samples, Kernel::Overlap4, places, overlap::OVERLAP_FILTER, rule);
        lemma_zero_horizontal_edges(samples, region, x, edge + 1, rule);
    }
}

proof fn lemma_zero_corners(
    samples: Seq<i32>,
    region: Region,
    number: int,
    rule: spec_fn(Kernel, Seq<i32>) -> Option<Seq<i32>>,
)
    requires
        keeps_zero(rule),
        zero(samples),
        samples.len() <= usize::MAX,
        overlap::holds_region(samples.len() as int, region),
        0 <= number,
    ensures
        overlap::corners_from(samples, region, number, rule) == Ok::<
            Seq<i32>,
            ReconstructionError,
        >(samples),
    decreases 4 - number,
{
    if number < 4 {
        let x = if number % 2 == 0 {
            region.left
        } else {
            region.right - 2
        };
        let y = if number < 2 {
            region.top
        } else {
            region.bottom - 2
        };
        let places = overlap::corner(region.stride, x, y);
        assert forall|index: int| 0 <= index < places.len() implies (#[trigger] places[index])
            < samples.len() by {
            overlap::lemma_touched(samples.len() as int, region, x + index % 2, y + index / 2);
        }
        lemma_zero_applied(samples, Kernel::Overlap4, places, overlap::OVERLAP_FILTER, rule);
        lemma_zero_corners(samples, region, number + 1, rule);
    }
}

proof fn lemma_zero_regions(
    samples: Seq<i32>,
    width: usize,
    columns: Seq<usize>,
    rows: Seq<usize>,
    row: int,
    column: int,
    rule: spec_fn(Kernel, Seq<i32>) -> Option<Seq<i32>>,
)
    requires
        keeps_zero(rule),
        zero(samples),
        samples.len() <= usize::MAX,
        overlap::holds_tiles(samples.len() as int, width, columns, rows),
        0 <= row,
        0 <= column,
    ensures
        overlap::regions_from(samples, width as int, columns, rows, row, column, rule) == Ok::<
            Seq<i32>,
            ReconstructionError,
        >(samples),
    decreases rows.len() - row, columns.len() - column,
{
    if row + 1 >= rows.len() {
    } else if column + 1 >= columns.len() {
        lemma_zero_regions(samples, width, columns, rows, row + 1, 0, rule);
    } else {
        let region = overlap::tile(width as int, columns, rows, row, column);
        lemma_zero_windows(samples, region, region.left + 2, region.top + 2, rule);
        lemma_zero_vertical_edges(samples, region, region.top + 2, 0, rule);
        lemma_zero_horizontal_edges(samples, region, region.left + 2, 0, rule);
        lemma_zero_corners(samples, region, 0, rule);
        lemma_zero_regions(samples, width, columns, rows, row, column + 1, rule);
    }
}

/// A plane of zeros is what it was after filters that turn zeros into zeros.
pub proof fn lemma_zero_plane_is_stable(
    samples: Seq<i32>,
    width: usize,
    height: usize,
    columns: Seq<usize>,
    rows: Seq<usize>,
    hard: bool,
    rule: spec_fn(Kernel, Seq<i32>) -> Option<Seq<i32>>,
)
    requires
        keeps_zero(rule),
        zero(samples),
        samples.len() <= usize::MAX,
        overlap::filterable(samples.len() as int, width, height, columns, rows, hard),
    ensures
        overlap::overlapped(samples, width, height, columns, rows, hard, rule) == Ok::<
            Seq<i32>,
            ReconstructionError,
        >(samples),
{
    lemma_zero_regions(
        samples,
        width,
        overlap::filter_boundaries(columns, width, hard),
        overlap::filter_boundaries(rows, height, hard),
        0,
        0,
        rule,
    );
}

proof fn lemma_adjusted(
    first: Seq<i32>,
    second: Seq<i32>,
    target: int,
    source: int,
    raise: bool,
    region: Region,
)
    requires
        agree(first, second, region),
        0 <= target < first.len(),
        0 <= source < first.len(),
        inside(region, target),
        inside(region, source),
    ensures
        together(
            first,
            subsampled_overlap::adjusted(first, target, source, raise),
            subsampled_overlap::adjusted(second, target, source, raise),
            region,
        ),
{
}

proof fn lemma_adjusted_corners(
    first: Seq<i32>,
    second: Seq<i32>,
    region: Region,
    number: int,
    raise: bool,
    height: int,
)
    requires
        agree(first, second, region),
        subsampled_overlap::region_fits(region, first.len() as int, height),
        first.len() <= usize::MAX,
        0 <= number,
    ensures
        together(
            first,
            subsampled_overlap::corners_adjusted_from(first, region, number, raise),
            subsampled_overlap::corners_adjusted_from(second, region, number, raise),
            region,
        ),
    decreases 4 - number,
{
    if number < 4 {
        let y = if number < 2 {
            region.top
        } else {
            region.bottom - 1
        };
        let (x, neighbour) = if number % 2 == 0 {
            (region.left, region.left + 1)
        } else {
            (region.right - 1, region.right - 2)
        };
        lemma_place(region, x, y, first.len() as int, height);
        lemma_place(region, neighbour, y, first.len() as int, height);
        let target = x + y * region.stride;
        let source = neighbour + y * region.stride;
        lemma_adjusted(first, second, target, source, raise, region);
        let next = subsampled_overlap::adjusted(first, target, source, raise);
        let other = subsampled_overlap::adjusted(second, target, source, raise);
        if next is Ok {
            lemma_adjusted_corners(next->Ok_0, other->Ok_0, region, number + 1, raise, height);
        }
    }
}

proof fn lemma_squares(
    first: Seq<i32>,
    second: Seq<i32>,
    region: Region,
    x: int,
    y: int,
    height: int,
    rule: spec_fn(Kernel, Seq<i32>) -> Option<Seq<i32>>,
)
    requires
        agree(first, second, region),
        subsampled_overlap::region_fits(region, first.len() as int, height),
        first.len() <= usize::MAX,
        region.left + 2 <= x,
        (x - region.left) % 2 == 0,
        region.top + 2 <= y,
        (y - region.top) % 2 == 0,
    ensures
        together(
            first,
            subsampled_overlap::squares_from(first, region, x, y, rule),
            subsampled_overlap::squares_from(second, region, x, y, rule),
            region,
        ),
    decreases region.bottom - y + 2, region.right - x + 2,
{
    if y >= region.bottom {
    } else if x >= region.right {
        lemma_squares(first, second, region, region.left + 2, y + 2, height, rule);
    } else {
        let places = subsampled_overlap::square(region.stride, x, y);
        assert(places_inside(region, places, first.len() as int)) by {
            assert forall|index: int| 0 <= index < places.len() implies (#[trigger] places[index])
                < first.len() && inside(region, places[index] as int) by {
                lemma_place(
                    region,
                    x - 1 + index % 2,
                    y - 1 + index / 2,
                    first.len() as int,
                    height,
                );
            }
        }
        lemma_applied(
            first,
            second,
            Kernel::Overlap2x2,
            places,
            subsampled_overlap::SUBSAMPLED_FILTER,
            region,
            rule,
        );
        let next = kernels::applied(
            first,
            Kernel::Overlap2x2,
            places,
            subsampled_overlap::SUBSAMPLED_FILTER,
            rule,
        );
        let other = kernels::applied(
            second,
            Kernel::Overlap2x2,
            places,
            subsampled_overlap::SUBSAMPLED_FILTER,
            rule,
        );
        if next is Ok {
            lemma_squares(next->Ok_0, other->Ok_0, region, x + 2, y, height, rule);
        }
    }
}

proof fn lemma_side_pairs(
    first: Seq<i32>,
    second: Seq<i32>,
    region: Region,
    y: int,
    side: int,
    height: int,
    rule: spec_fn(Kernel, Seq<i32>) -> Option<Seq<i32>>,
)
    requires
        agree(first, second, region),
        subsampled_overlap::region_fits(region, first.len() as int, height),
        first.len() <= usize::MAX,
        region.top + 2 <= y,
        (y - region.top) % 2 == 0,
        0 <= side,
    ensures
        together(
            first,
            subsampled_overlap::side_pairs_from(first, region, y, side, rule),
            subsampled_overlap::side_pairs_from(second, region, y, side, rule),
            region,
        ),
    decreases region.bottom - y + 2, 2 - side,
{
    if y >= region.bottom {
    } else if side >= 2 {
        lemma_side_pairs(first, second, region, y + 2, 0, height, rule);
    } else {
        let x = if side == 0 {
            region.left
        } else {
            region.right - 1
        };
        let places = subsampled_overlap::vertical_pair(region.stride, x, y);
        assert(places_inside(region, places, first.len() as int)) by {
            lemma_place(region, x, y - 1, first.len() as int, height);
            lemma_place(region, x, y, first.len() as int, height);
        }
        lemma_applied(
            first,
            second,
            Kernel::Overlap2,
            places,
            subsampled_overlap::SUBSAMPLED_FILTER,
            region,
            rule,
        );
        let next = kernels::applied(
            first,
            Kernel::Overlap2,
            places,
            subsampled_overlap::SUBSAMPLED_FILTER,
            rule,
        );
        let other = kernels::applied(
            second,
            Kernel::Overlap2,
            places,
            subsampled_overlap::SUBSAMPLED_FILTER,
            rule,
        );
        if next is Ok {
            lemma_side_pairs(next->Ok_0, other->Ok_0, region, y, side + 1, height, rule);
        }
    }
}

proof fn lemma_end_pairs(
    first: Seq<i32>,
    second: Seq<i32>,
    region: Region,
    x: int,
    side: int,
    height: int,
    rule: spec_fn(Kernel, Seq<i32>) -> Option<Seq<i32>>,
)
    requires
        agree(first, second, region),
        subsampled_overlap::region_fits(region, first.len() as int, height),
        first.len() <= usize::MAX,
        region.left + 2 <= x,
        (x - region.left) % 2 == 0,
        0 <= side,
    ensures
        together(
            first,
            subsampled_overlap::end_pairs_from(first, region, x, side, rule),
            subsampled_overlap::end_pairs_from(second, region, x, side, rule),
            region,
        ),
    decreases region.right - x + 2, 2 - side,
{
    if x >= region.right {
    } else if side >= 2 {
        lemma_end_pairs(first, second, region, x + 2, 0, height, rule);
    } else {
        let y = if side == 0 {
            region.top
        } else {
            region.bottom - 1
        };
        let places = subsampled_overlap::horizontal_pair(region.stride, x, y);
        assert(places_inside(region, places, first.len() as int)) by {
            lemma_place(region, x - 1, y, first.len() as int, height);
            lemma_place(region, x, y, first.len() as int, height);
        }
        lemma_applied(
            first,
            second,
            Kernel::Overlap2,
            places,
            subsampled_overlap::SUBSAMPLED_FILTER,
            region,
            rule,
        );
        let next = kernels::applied(
            first,
            Kernel::Overlap2,
            places,
            subsampled_overlap::SUBSAMPLED_FILTER,
            rule,
        );
        let other = kernels::applied(
            second,
            Kernel::Overlap2,
            places,
            subsampled_overlap::SUBSAMPLED_FILTER,
            rule,
        );
        if next is Ok {
            lemma_end_pairs(next->Ok_0, other->Ok_0, region, x, side + 1, height, rule);
        }
    }
}

proof fn lemma_subsampled_region(
    first: Seq<i32>,
    second: Seq<i32>,
    region: Region,
    height: int,
    rule: spec_fn(Kernel, Seq<i32>) -> Option<Seq<i32>>,
)
    requires
        agree(first, second, region),
        subsampled_overlap::region_fits(region, first.len() as int, height),
        first.len() <= usize::MAX,
    ensures
        together(
            first,
            subsampled_overlap::filtered_region(first, region, rule),
            subsampled_overlap::filtered_region(second, region, rule),
            region,
        ),
{
    let left = region.left + 2;
    let top = region.top + 2;
    lemma_adjusted_corners(first, second, region, 0, false, height);
    let lowered = subsampled_overlap::corners_adjusted_from(first, region, 0, false);
    let other_lowered = subsampled_overlap::corners_adjusted_from(second, region, 0, false);
    if lowered is Ok {
        let (one, two) = (lowered->Ok_0, other_lowered->Ok_0);
        lemma_squares(one, two, region, left, top, height, rule);
        let inner = subsampled_overlap::squares_from(one, region, left, top, rule);
        let other_inner = subsampled_overlap::squares_from(two, region, left, top, rule);
        if inner is Ok {
            let (one, two) = (inner->Ok_0, other_inner->Ok_0);
            lemma_side_pairs(one, two, region, top, 0, height, rule);
            let sides = subsampled_overlap::side_pairs_from(one, region, top, 0, rule);
            let other_sides = subsampled_overlap::side_pairs_from(two, region, top, 0, rule);
            if sides is Ok {
                let (one, two) = (sides->Ok_0, other_sides->Ok_0);
                lemma_end_pairs(one, two, region, left, 0, height, rule);
                let ends = subsampled_overlap::end_pairs_from(one, region, left, 0, rule);
                let other_ends = subsampled_overlap::end_pairs_from(two, region, left, 0, rule);
                if ends is Ok {
                    lemma_adjusted_corners(
                        ends->Ok_0,
                        other_ends->Ok_0,
                        region,
                        0,
                        true,
                        height,
                    );
                }
            }
        }
    }
}

/// Filtering a region of a subsampled plane changes no sample outside it.
pub proof fn lemma_subsampled_filter_stays_in_region(
    samples: Seq<i32>,
    region: Region,
    height: int,
    rule: spec_fn(Kernel, Seq<i32>) -> Option<Seq<i32>>,
)
    requires
        subsampled_overlap::region_fits(region, samples.len() as int, height),
        samples.len() <= usize::MAX,
    ensures
        subsampled_overlap::filtered_region(samples, region, rule) matches Ok(after) ==> kept(
            samples,
            after,
            region,
        ),
{
    lemma_subsampled_region(samples, samples, region, height, rule);
}

/// What filtering makes of a region of a subsampled plane depends on no sample outside it.
pub proof fn lemma_subsampled_regions_are_independent(
    first: Seq<i32>,
    second: Seq<i32>,
    region: Region,
    height: int,
    rule: spec_fn(Kernel, Seq<i32>) -> Option<Seq<i32>>,
)
    requires
        agree(first, second, region),
        subsampled_overlap::region_fits(region, first.len() as int, height),
        first.len() <= usize::MAX,
    ensures
        match (
            subsampled_overlap::filtered_region(first, region, rule),
            subsampled_overlap::filtered_region(second, region, rule),
        ) {
            (Ok(one), Ok(other)) => agree(one, other, region),
            (Err(one), Err(other)) => one == other,
            _ => false,
        },
{
    lemma_subsampled_region(first, second, region, height, rule);
}

proof fn lemma_zero_adjusted_corners(
    samples: Seq<i32>,
    region: Region,
    number: int,
    raise: bool,
)
    requires
        zero(samples),
        subsampled_overlap::holds_region(samples.len() as int, region),
        0 <= number,
    ensures
        subsampled_overlap::corners_adjusted_from(samples, region, number, raise) == Ok::<
            Seq<i32>,
            ReconstructionError,
        >(samples),
    decreases 4 - number,
{
    if number < 4 {
        let y = if number < 2 {
            region.top
        } else {
            region.bottom - 1
        };
        let (x, neighbour) = if number % 2 == 0 {
            (region.left, region.left + 1)
        } else {
            (region.right - 1, region.right - 2)
        };
        subsampled_overlap::lemma_touched(samples.len() as int, region, x, y);
        let target = x + y * region.stride;
        let source = neighbour + y * region.stride;
        assert(0 <= source < samples.len());
        assert(samples.update(target, 0) =~= samples);
        lemma_zero_adjusted_corners(samples, region, number + 1, raise);
    }
}

proof fn lemma_zero_squares(
    samples: Seq<i32>,
    region: Region,
    x: int,
    y: int,
    rule: spec_fn(Kernel, Seq<i32>) -> Option<Seq<i32>>,
)
    requires
        keeps_zero(rule),
        zero(samples),
        samples.len() <= usize::MAX,
        subsampled_overlap::holds_region(samples.len() as int, region),
        region.left + 2 <= x,
        (x - region.left) % 2 == 0,
        region.top + 2 <= y,
        (y - region.top) % 2 == 0,
    ensures
        subsampled_overlap::squares_from(samples, region, x, y, rule) == Ok::<
            Seq<i32>,
            ReconstructionError,
        >(samples),
    decreases region.bottom - y + 2, region.right - x + 2,
{
    if y >= region.bottom {
    } else if x >= region.right {
        lemma_zero_squares(samples, region, region.left + 2, y + 2, rule);
    } else {
        let places = subsampled_overlap::square(region.stride, x, y);
        assert forall|index: int| 0 <= index < places.len() implies (#[trigger] places[index])
            < samples.len() by {
            subsampled_overlap::lemma_touched(
                samples.len() as int,
                region,
                x - 1 + index % 2,
                y - 1 + index / 2,
            );
        }
        lemma_zero_applied(
            samples,
            Kernel::Overlap2x2,
            places,
            subsampled_overlap::SUBSAMPLED_FILTER,
            rule,
        );
        lemma_zero_squares(samples, region, x + 2, y, rule);
    }
}

proof fn lemma_zero_side_pairs(
    samples: Seq<i32>,
    region: Region,
    y: int,
    side: int,
    rule: spec_fn(Kernel, Seq<i32>) -> Option<Seq<i32>>,
)
    requires
        keeps_zero(rule),
        zero(samples),
        samples.len() <= usize::MAX,
        subsampled_overlap::holds_region(samples.len() as int, region),
        region.top + 2 <= y,
        (y - region.top) % 2 == 0,
        0 <= side,
    ensures
        subsampled_overlap::side_pairs_from(samples, region, y, side, rule) == Ok::<
            Seq<i32>,
            ReconstructionError,
        >(samples),
    decreases region.bottom - y + 2, 2 - side,
{
    if y >= region.bottom {
    } else if side >= 2 {
        lemma_zero_side_pairs(samples, region, y + 2, 0, rule);
    } else {
        let x = if side == 0 {
            region.left
        } else {
            region.right - 1
        };
        subsampled_overlap::lemma_touched(samples.len() as int, region, x, y - 1);
        subsampled_overlap::lemma_touched(samples.len() as int, region, x, y);
        lemma_zero_applied(
            samples,
            Kernel::Overlap2,
            subsampled_overlap::vertical_pair(region.stride, x, y),
            subsampled_overlap::SUBSAMPLED_FILTER,
            rule,
        );
        lemma_zero_side_pairs(samples, region, y, side + 1, rule);
    }
}

proof fn lemma_zero_end_pairs(
    samples: Seq<i32>,
    region: Region,
    x: int,
    side: int,
    rule: spec_fn(Kernel, Seq<i32>) -> Option<Seq<i32>>,
)
    requires
        keeps_zero(rule),
        zero(samples),
        samples.len() <= usize::MAX,
        subsampled_overlap::holds_region(samples.len() as int, region),
        region.left + 2 <= x,
        (x - region.left) % 2 == 0,
        0 <= side,
    ensures
        subsampled_overlap::end_pairs_from(samples, region, x, side, rule) == Ok::<
            Seq<i32>,
            ReconstructionError,
        >(samples),
    decreases region.right - x + 2, 2 - side,
{
    if x >= region.right {
    } else if side >= 2 {
        lemma_zero_end_pairs(samples, region, x + 2, 0, rule);
    } else {
        let y = if side == 0 {
            region.top
        } else {
            region.bottom - 1
        };
        subsampled_overlap::lemma_touched(samples.len() as int, region, x - 1, y);
        subsampled_overlap::lemma_touched(samples.len() as int, region, x, y);
        lemma_zero_applied(
            samples,
            Kernel::Overlap2,
            subsampled_overlap::horizontal_pair(region.stride, x, y),
            subsampled_overlap::SUBSAMPLED_FILTER,
            rule,
        );
        lemma_zero_end_pairs(samples, region, x, side + 1, rule);
    }
}

proof fn lemma_zero_subsampled_regions(
    samples: Seq<i32>,
    width: usize,
    columns: Seq<usize>,
    rows: Seq<usize>,
    row: int,
    column: int,
    rule: spec_fn(Kernel, Seq<i32>) -> Option<Seq<i32>>,
)
    requires
        keeps_zero(rule),
        zero(samples),
        samples.len() <= usize::MAX,
        subsampled_overlap::holds_tiles(samples.len() as int, width, columns, rows),
        0 <= row,
        0 <= column,
    ensures
        subsampled_overlap::regions_from(samples, width as int, columns, rows, row, column, rule)
            == Ok::<Seq<i32>, ReconstructionError>(samples),
    decreases rows.len() - row, columns.len() - column,
{
    if row + 1 >= rows.len() {
    } else if column + 1 >= columns.len() {
        lemma_zero_subsampled_regions(samples, width, columns, rows, row + 1, 0, rule);
    } else {
        let region = overlap::tile(width as int, columns, rows, row, column);
        lemma_zero_adjusted_corners(samples, region, 0, false);
        lemma_zero_squares(samples, region, region.left + 2, region.top + 2, rule);
        lemma_zero_side_pairs(samples, region, region.top + 2, 0, rule);
        lemma_zero_end_pairs(samples, region, region.left + 2, 0, rule);
        lemma_zero_adjusted_corners(samples, region, 0, true);
        lemma_zero_subsampled_regions(samples, width, columns, rows, row, column + 1, rule);
    }
}

/// A subsampled plane of zeros is what it was after filters that turn zeros into zeros.
pub proof fn lemma_zero_subsampled_plane_is_stable(
    samples: Seq<i32>,
    width: usize,
    height: usize,
    columns: Seq<usize>,
    rows: Seq<usize>,
    hard: bool,
    rule: spec_fn(Kernel, Seq<i32>) -> Option<Seq<i32>>,
)
    requires
        keeps_zero(rule),
        zero(samples),
        samples.len() <= usize::MAX,
        subsampled_overlap::filterable(samples.len() as int, width, height, columns, rows, hard),
    ensures
        subsampled_overlap::overlapped(samples, width, height, columns, rows, hard, rule) == Ok::<
            Seq<i32>,
            ReconstructionError,
        >(samples),
{
    lemma_zero_subsampled_regions(
        samples,
        width,
        overlap::filter_boundaries(columns, width, hard),
        overlap::filter_boundaries(rows, height, hard),
        0,
        0,
        rule,
    );
}

/// Tiles do not share samples.
proof fn lemma_tiles_are_disjoint(
    width: usize,
    height: usize,
    columns: Seq<usize>,
    rows: Seq<usize>,
    row: int,
    column: int,
    other_row: int,
    other_column: int,
    place: int,
)
    requires
        overlap::tiling(columns, width),
        overlap::tiling(rows, height),
        0 <= row < rows.len() - 1,
        0 <= column < columns.len() - 1,
        0 <= other_row < rows.len() - 1,
        0 <= other_column < columns.len() - 1,
        row != other_row || column != other_column,
        inside(overlap::tile(width as int, columns, rows, row, column), place),
    ensures
        !inside(overlap::tile(width as int, columns, rows, other_row, other_column), place),
{
    if column < other_column && column + 1 < other_column {
        assert(columns[column + 1] < columns[other_column]);
    }
    if other_column < column && other_column + 1 < column {
        assert(columns[other_column + 1] < columns[column]);
    }
    if row < other_row && row + 1 < other_row {
        assert(rows[row + 1] < rows[other_row]);
    }
    if other_row < row && other_row + 1 < row {
        assert(rows[other_row + 1] < rows[row]);
    }
}

/// Where only one tile changed, another one has the samples that it had.
proof fn lemma_other_tile_is_kept(
    before: Seq<i32>,
    after: Seq<i32>,
    width: usize,
    height: usize,
    columns: Seq<usize>,
    rows: Seq<usize>,
    row: int,
    column: int,
    other_row: int,
    other_column: int,
)
    requires
        overlap::tiling(columns, width),
        overlap::tiling(rows, height),
        0 <= row < rows.len() - 1,
        0 <= column < columns.len() - 1,
        0 <= other_row < rows.len() - 1,
        0 <= other_column < columns.len() - 1,
        row != other_row || column != other_column,
        kept(before, after, overlap::tile(width as int, columns, rows, row, column)),
    ensures
        agree(after, before, overlap::tile(width as int, columns, rows, other_row, other_column)),
{
    let region = overlap::tile(width as int, columns, rows, other_row, other_column);
    assert forall|place: int| 0 <= place < after.len() && inside(region, place) implies
        #[trigger] after[place] == before[place] by {
        lemma_tiles_are_disjoint(
            width,
            height,
            columns,
            rows,
            other_row,
            other_column,
            row,
            column,
            place,
        );
    }
}

#[verifier::rlimit(60)]
proof fn lemma_tile_after(
    samples: Seq<i32>,
    width: usize,
    height: usize,
    columns: Seq<usize>,
    rows: Seq<usize>,
    row: int,
    column: int,
    tile_row: int,
    tile_column: int,
    rule: spec_fn(Kernel, Seq<i32>) -> Option<Seq<i32>>,
)
    requires
        samples.len() <= usize::MAX,
        width * height <= samples.len(),
        overlap::block_tiling(columns, width),
        overlap::block_tiling(rows, height),
        0 <= row,
        0 <= column,
        0 <= tile_row < rows.len() - 1,
        0 <= tile_column < columns.len() - 1,
    ensures
        overlap::regions_from(
            samples,
            width as int,
            columns,
            rows,
            row,
            column,
            rule,
        ) matches Ok(after) ==> {
            let region = overlap::tile(width as int, columns, rows, tile_row, tile_column);
            &&& after.len() == samples.len()
            &&& tile_row < row || (tile_row == row && tile_column < column) ==> agree(
                after,
                samples,
                region,
            )
            &&& tile_row > row || (tile_row == row && tile_column >= column)
                ==> overlap::filtered_region(samples, region, rule) is Ok && agree(
                after,
                overlap::filtered_region(samples, region, rule)->Ok_0,
                region,
            )
        },
    decreases rows.len() - row, columns.len() - column,
{
    if row + 1 >= rows.len() {
    } else if column + 1 >= columns.len() {
        lemma_tile_after(
            samples,
            width,
            height,
            columns,
            rows,
            row + 1,
            0,
            tile_row,
            tile_column,
            rule,
        );
    } else {
        let current = overlap::tile(width as int, columns, rows, row, column);
        let region = overlap::tile(width as int, columns, rows, tile_row, tile_column);
        assert(overlap::gap(columns, column) >= 2 && overlap::gap(rows, row) >= 2);
        assert(overlap::gap(columns, tile_column) >= 2 && overlap::gap(rows, tile_row) >= 2);
        lemma_region(samples, samples, current, height as int, rule);
        if let Ok(next) = overlap::filtered_region(samples, current, rule) {
            lemma_tile_after(
                next,
                width,
                height,
                columns,
                rows,
                row,
                column + 1,
                tile_row,
                tile_column,
                rule,
            );
            if tile_row != row || tile_column != column {
                lemma_other_tile_is_kept(
                    samples,
                    next,
                    width,
                    height,
                    columns,
                    rows,
                    row,
                    column,
                    tile_row,
                    tile_column,
                );
                lemma_region(next, samples, region, height as int, rule);
            }
        }
    }
}

/// With hard boundaries each tile comes out as if it had been filtered alone: its samples are those
/// that filtering the tile in the plane as it was gives.
pub proof fn lemma_hard_tiles_are_filtered_alone(
    samples: Seq<i32>,
    width: usize,
    height: usize,
    columns: Seq<usize>,
    rows: Seq<usize>,
    row: int,
    column: int,
    rule: spec_fn(Kernel, Seq<i32>) -> Option<Seq<i32>>,
)
    requires
        samples.len() <= usize::MAX,
        width * height <= samples.len(),
        overlap::block_tiling(columns, width),
        overlap::block_tiling(rows, height),
        0 <= row < rows.len() - 1,
        0 <= column < columns.len() - 1,
    ensures
        overlap::overlapped(
            samples,
            width,
            height,
            columns,
            rows,
            true,
            rule,
        ) matches Ok(after) ==> {
            let region = overlap::tile(width as int, columns, rows, row, column);
            &&& overlap::filtered_region(samples, region, rule) is Ok
            &&& agree(
                after,
                overlap::filtered_region(samples, region, rule)->Ok_0,
                region,
            )
        },
{
    lemma_tile_after(samples, width, height, columns, rows, 0, 0, row, column, rule);
}

#[verifier::rlimit(60)]
proof fn lemma_subsampled_tile_after(
    samples: Seq<i32>,
    width: usize,
    height: usize,
    columns: Seq<usize>,
    rows: Seq<usize>,
    row: int,
    column: int,
    tile_row: int,
    tile_column: int,
    rule: spec_fn(Kernel, Seq<i32>) -> Option<Seq<i32>>,
)
    requires
        samples.len() <= usize::MAX,
        width * height <= samples.len(),
        overlap::tiling(columns, width),
        overlap::tiling(rows, height),
        0 <= row,
        0 <= column,
        0 <= tile_row < rows.len() - 1,
        0 <= tile_column < columns.len() - 1,
    ensures
        subsampled_overlap::regions_from(
            samples,
            width as int,
            columns,
            rows,
            row,
            column,
            rule,
        ) matches Ok(after) ==> {
            let region = overlap::tile(width as int, columns, rows, tile_row, tile_column);
            &&& after.len() == samples.len()
            &&& tile_row < row || (tile_row == row && tile_column < column) ==> agree(
                after,
                samples,
                region,
            )
            &&& tile_row > row || (tile_row == row && tile_column >= column)
                ==> subsampled_overlap::filtered_region(samples, region, rule) is Ok && agree(
                after,
                subsampled_overlap::filtered_region(samples, region, rule)->Ok_0,
                region,
            )
        },
    decreases rows.len() - row, columns.len() - column,
{
    if row + 1 >= rows.len() {
    } else if column + 1 >= columns.len() {
        lemma_subsampled_tile_after(
            samples,
            width,
            height,
            columns,
            rows,
            row + 1,
            0,
            tile_row,
            tile_column,
            rule,
        );
    } else {
        let current = overlap::tile(width as int, columns, rows, row, column);
        let region = overlap::tile(width as int, columns, rows, tile_row, tile_column);
        assert(overlap::gap(columns, column) >= 2 && overlap::gap(rows, row) >= 2);
        assert(overlap::gap(columns, tile_column) >= 2 && overlap::gap(rows, tile_row) >= 2);
        lemma_subsampled_region(samples, samples, current, height as int, rule);
        if let Ok(next) = subsampled_overlap::filtered_region(samples, current, rule) {
            lemma_subsampled_tile_after(
                next,
                width,
                height,
                columns,
                rows,
                row,
                column + 1,
                tile_row,
                tile_column,
                rule,
            );
            if tile_row != row || tile_column != column {
                lemma_other_tile_is_kept(
                    samples,
                    next,
                    width,
                    height,
                    columns,
                    rows,
                    row,
                    column,
                    tile_row,
                    tile_column,
                );
                lemma_subsampled_region(next, samples, region, height as int, rule);
            }
        }
    }
}

/// With hard boundaries each tile of a subsampled plane comes out as if it had been filtered alone.
pub proof fn lemma_hard_subsampled_tiles_are_filtered_alone(
    samples: Seq<i32>,
    width: usize,
    height: usize,
    columns: Seq<usize>,
    rows: Seq<usize>,
    row: int,
    column: int,
    rule: spec_fn(Kernel, Seq<i32>) -> Option<Seq<i32>>,
)
    requires
        samples.len() <= usize::MAX,
        width * height <= samples.len(),
        overlap::tiling(columns, width),
        overlap::tiling(rows, height),
        0 <= row < rows.len() - 1,
        0 <= column < columns.len() - 1,
    ensures
        subsampled_overlap::overlapped(
            samples,
            width,
            height,
            columns,
            rows,
            true,
            rule,
        ) matches Ok(after) ==> {
            let region = overlap::tile(width as int, columns, rows, row, column);
            &&& subsampled_overlap::filtered_region(samples, region, rule) is Ok
            &&& agree(
                after,
                subsampled_overlap::filtered_region(samples, region, rule)->Ok_0,
                region,
            )
        },
{
    lemma_subsampled_tile_after(samples, width, height, columns, rows, 0, 0, row, column, rule);
}

} // verus!

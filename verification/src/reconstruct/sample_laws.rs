//! Laws of overlap filtering and of cutting out windows, sample by sample.

use crate::reconstruct::contract::PlaneSamples;
use crate::reconstruct::kernels::{self, Kernel};
use crate::reconstruct::overlap::{self, Region};
use crate::reconstruct::packing;
use crate::reconstruct::subsampled_overlap;
use crate::types::CropWindow;
use vstd::arithmetic::div_mod::*;
use vstd::prelude::*;

verus! {

/// The sample in a column and a row.
pub open spec fn at(samples: Seq<i32>, stride: int, x: int, y: int) -> i32 {
    samples[x + y * stride]
}

/// Whether a column and a row lie in a rectangle.
pub open spec fn within(region: Region, x: int, y: int) -> bool {
    region.left <= x < region.right && region.top <= y < region.bottom
}

/// Whether a rectangle of at least two rows and columns lies in a plane that can be addressed.
pub open spec fn lies_in(region: Region, samples: int, height: int) -> bool {
    &&& 0 <= region.left <= region.right - 2
    &&& 0 <= region.top <= region.bottom - 2
    &&& region.right <= region.stride
    &&& region.bottom <= height
    &&& region.stride * height <= samples <= usize::MAX
}

/// Whether a rectangle is made of whole 4-by-4 blocks of a plane.
pub open spec fn whole_blocks(region: Region, samples: int, height: int) -> bool {
    &&& lies_in(region, samples, height)
    &&& (region.right - region.left) % 4 == 0
    &&& (region.bottom - region.top) % 4 == 0
}

/// Whether a row or column is not one of the two next to either end.
pub open spec fn inner(place: int, from: int, to: int) -> bool {
    from + 2 <= place < to - 2
}

/// The first of the four rows or columns across a block boundary that one of them belongs to: four
/// each, from the third one on.
pub open spec fn first_of_four(place: int, from: int) -> int {
    place - (place - from - 2) % 4
}

/// The first of the two rows or columns next to an end.
pub open spec fn first_of_end(place: int, from: int, to: int) -> int {
    if place < from + 2 {
        from
    } else {
        to - 2
    }
}

/// Sixteen samples of four columns and four rows, row by row.
pub open spec fn four_by_four(samples: Seq<i32>, stride: int, x: int, y: int) -> Seq<i32> {
    Seq::new(16, |index: int| at(samples, stride, x + index % 4, y + index / 4))
}

/// Four samples below one another, and zeros.
pub open spec fn four_down(samples: Seq<i32>, stride: int, x: int, y: int) -> Seq<i32> {
    Seq::new(
        16,
        |index: int|
            if index < 4 {
                at(samples, stride, x, y + index)
            } else {
                0
            },
    )
}

/// Four samples next to one another, and zeros.
pub open spec fn four_across(samples: Seq<i32>, stride: int, x: int, y: int) -> Seq<i32> {
    Seq::new(
        16,
        |index: int|
            if index < 4 {
                at(samples, stride, x + index, y)
            } else {
                0
            },
    )
}

/// Four samples of two columns and two rows, row by row, and zeros.
pub open spec fn two_by_two(samples: Seq<i32>, stride: int, x: int, y: int) -> Seq<i32> {
    Seq::new(
        16,
        |index: int|
            if index < 4 {
                at(samples, stride, x + index % 2, y + index / 2)
            } else {
                0
            },
    )
}

/// The sample that filtering leaves in a column and a row: that of the operator on the samples
/// around it that belong together. Those are four by four across the corner of four blocks, four
/// across a block boundary next to an edge, and two by two in a corner.
pub open spec fn filtered_sample(
    samples: Seq<i32>,
    region: Region,
    x: int,
    y: int,
    rule: spec_fn(Kernel, Seq<i32>) -> Option<Seq<i32>>,
) -> i32 {
    let left = first_of_four(x, region.left);
    let top = first_of_four(y, region.top);
    if inner(x, region.left, region.right) && inner(y, region.top, region.bottom) {
        rule(Kernel::Overlap4x4, four_by_four(samples, region.stride, left, top))->0[x - left + 4
            * (y - top)]
    } else if inner(y, region.top, region.bottom) {
        rule(Kernel::Overlap4, four_down(samples, region.stride, x, top))->0[y - top]
    } else if inner(x, region.left, region.right) {
        rule(Kernel::Overlap4, four_across(samples, region.stride, left, y))->0[x - left]
    } else {
        let left = first_of_end(x, region.left, region.right);
        let top = first_of_end(y, region.top, region.bottom);
        rule(Kernel::Overlap4, two_by_two(samples, region.stride, left, top))->0[x - left + 2 * (y
            - top)]
    }
}

proof fn lemma_place(region: Region, samples: int, height: int, x: int, y: int)
    requires
        lies_in(region, samples, height),
        within(region, x, y),
    ensures
        0 <= x + y * region.stride < samples,
        (x + y * region.stride) % region.stride == x,
        (x + y * region.stride) / region.stride == y,
{
    kernels::lemma_in_plane(x, y, region.stride, height);
    lemma_fundamental_div_mod_converse(x + y * region.stride, region.stride, y, x);
}

proof fn lemma_scattered_places(samples: Seq<i32>, places: Seq<usize>, values: Seq<i32>)
    requires
        forall|index: int| 0 <= index < places.len() ==> places[index] < samples.len(),
        forall|left: int, right: int|
            0 <= left < right < places.len() ==> places[left] != places[right],
    ensures
        kernels::scattered(samples, places, values).len() == samples.len(),
        forall|index: int|
            0 <= index < places.len() ==> kernels::scattered(samples, places, values)[
            #[trigger] places[index] as int] == values[index],
        forall|place: int|
            0 <= place < samples.len() && (forall|index: int|
                0 <= index < places.len() ==> #[trigger] places[index] != place)
                ==> #[trigger] kernels::scattered(samples, places, values)[place] == samples[place],
    decreases places.len(),
{
    if places.len() > 0 {
        let earlier = places.drop_last();
        assert forall|index: int| 0 <= index < earlier.len() implies earlier[index]
            < samples.len() by {
            assert(places[index] < samples.len());
        }
        lemma_scattered_places(samples, earlier, values);
        let after = kernels::scattered(samples, places, values);
        assert(places[places.len() - 1] < samples.len());
        assert forall|index: int| 0 <= index < places.len() implies after[
            #[trigger] places[index] as int] == values[index] by {
            if index < earlier.len() {
                assert(earlier[index] == places[index]);
            }
        }
        assert forall|place: int|
            0 <= place < samples.len() && (forall|index: int|
                0 <= index < places.len() ==> #[trigger] places[index] != place) implies
            #[trigger] after[place] == samples[place] by {
            assert forall|index: int| 0 <= index < earlier.len() implies #[trigger] earlier[index]
                != place by {
                assert(places[index] != place);
            }
            assert(places[places.len() - 1] != place);
        }
    }
}

/// Whether places are those of columns and rows of a rectangle, all of them different.
pub open spec fn names(
    places: Seq<usize>,
    region: Region,
    columns: Seq<int>,
    rows: Seq<int>,
) -> bool {
    &&& places.len() == columns.len() == rows.len()
    &&& places.len() <= 16
    &&& forall|index: int|
        0 <= index < places.len() ==> {
            &&& within(region, columns[index], rows[index])
            &&& #[trigger] places[index] == (columns[index] + rows[index] * region.stride) as usize
        }
    &&& forall|first: int, second: int|
        0 <= first < second < places.len() ==> columns[first] != columns[second] || rows[first]
            != rows[second]
}

proof fn lemma_step(
    samples: Seq<i32>,
    region: Region,
    height: int,
    kernel: Kernel,
    operation: &'static str,
    places: Seq<usize>,
    columns: Seq<int>,
    rows: Seq<int>,
    inputs: Seq<i32>,
    rule: spec_fn(Kernel, Seq<i32>) -> Option<Seq<i32>>,
)
    requires
        lies_in(region, samples.len() as int, height),
        names(places, region, columns, rows),
        inputs.len() == 16,
        forall|index: int|
            0 <= index < 16 ==> #[trigger] inputs[index] == if index < places.len() {
                at(samples, region.stride, columns[index], rows[index])
            } else {
                0
            },
    ensures
        match kernels::applied(samples, kernel, places, operation, rule) {
            Err(_) => rule(kernel, inputs) is None,
            Ok(next) => {
                &&& rule(kernel, inputs) is Some
                &&& next.len() == samples.len()
                &&& forall|index: int|
                    0 <= index < places.len() ==> at(
                        next,
                        region.stride,
                        #[trigger] columns[index],
                        rows[index],
                    ) == rule(kernel, inputs)->0[index]
                &&& forall|x: int, y: int|
                    within(region, x, y) && (forall|index: int|
                        0 <= index < places.len() ==> #[trigger] columns[index] != x || rows[index]
                            != y) ==> #[trigger] at(next, region.stride, x, y) == at(
                        samples,
                        region.stride,
                        x,
                        y,
                    )
            },
        },
{
    let size = samples.len() as int;
    assert forall|index: int| 0 <= index < places.len() implies {
        &&& (#[trigger] places[index]) < size
        &&& places[index] == columns[index] + rows[index] * region.stride
        &&& places[index] as int % region.stride == columns[index]
        &&& places[index] as int / region.stride == rows[index]
    } by {
        assert(places[index] == (columns[index] + rows[index] * region.stride) as usize);
        lemma_place(region, size, height, columns[index], rows[index]);
    }
    assert forall|first: int, second: int| 0 <= first < second < places.len() implies places[first]
        != places[second] by {
        assert(places[first] < size && places[second] < size);
    }
    assert(kernels::padded(kernels::gathered(samples, places)) =~= inputs) by {
        assert forall|index: int| 0 <= index < 16 implies kernels::padded(
            kernels::gathered(samples, places),
        )[index] == inputs[index] by {
            if index < places.len() {
                assert(places[index] < size);
            }
        }
    }
    if let Some(values) = rule(kernel, inputs) {
        lemma_scattered_places(samples, places, values);
        let next = kernels::scattered(samples, places, values);
        assert forall|index: int| 0 <= index < places.len() implies at(
            next,
            region.stride,
            #[trigger] columns[index],
            rows[index],
        ) == values[index] by {
            assert(places[index] < size);
        }
        assert forall|x: int, y: int|
            within(region, x, y) && (forall|index: int|
                0 <= index < places.len() ==> #[trigger] columns[index] != x || rows[index]
                    != y) implies #[trigger] at(next, region.stride, x, y) == at(
            samples,
            region.stride,
            x,
            y,
        ) by {
            lemma_place(region, size, height, x, y);
            let place = x + y * region.stride;
            assert forall|index: int| 0 <= index < places.len() implies #[trigger] places[index]
                != place by {
                assert(places[index] < size);
                assert(columns[index] != x || rows[index] != y);
            }
        }
    }
}

proof fn lemma_windows_at(
    samples: Seq<i32>,
    region: Region,
    height: int,
    x: int,
    y: int,
    rule: spec_fn(Kernel, Seq<i32>) -> Option<Seq<i32>>,
    column: int,
    row: int,
)
    requires
        whole_blocks(region, samples.len() as int, height),
        region.left + 2 <= x <= region.right - 2,
        (x - region.left - 2) % 4 == 0,
        region.top + 2 <= y <= region.bottom - 2,
        (y - region.top - 2) % 4 == 0,
        within(region, column, row),
        overlap::windows_from(samples, region, x, y, rule) is Ok,
    ensures
        ({
            let after = overlap::windows_from(samples, region, x, y, rule)->Ok_0;
            let left = first_of_four(column, region.left);
            let top = first_of_four(row, region.top);
            &&& after.len() == samples.len()
            &&& at(after, region.stride, column, row) == if inner(column, region.left, region.right)
                && inner(row, region.top, region.bottom) && (top > y || (top == y && left >= x)) {
                rule(Kernel::Overlap4x4, four_by_four(samples, region.stride, left, top))->0[column
                    - left + 4 * (row - top)]
            } else {
                at(samples, region.stride, column, row)
            }
        }),
    decreases region.bottom - y + 4, region.right - x + 4,
{
    let left = first_of_four(column, region.left);
    let top = first_of_four(row, region.top);
    if y + 2 >= region.bottom {
    } else if x + 2 >= region.right {
        lemma_windows_at(samples, region, height, region.left + 2, y + 4, rule, column, row);
    } else {
        let places = overlap::window(region.stride, x, y);
        let columns = Seq::new(16, |index: int| x + index % 4);
        let rows = Seq::new(16, |index: int| y + index / 4);
        let inputs = four_by_four(samples, region.stride, x, y);
        lemma_step(
            samples,
            region,
            height,
            Kernel::Overlap4x4,
            overlap::OVERLAP_FILTER,
            places,
            columns,
            rows,
            inputs,
            rule,
        );
        let next = kernels::applied(
            samples,
            Kernel::Overlap4x4,
            places,
            overlap::OVERLAP_FILTER,
            rule,
        )->Ok_0;
        lemma_windows_at(next, region, height, x + 4, y, rule, column, row);
        if inner(column, region.left, region.right) && inner(row, region.top, region.bottom) {
            if top == y && left == x {
                let index = column - left + 4 * (row - top);
                assert(columns[index] == column && rows[index] == row);
            } else {
                assert(four_by_four(next, region.stride, left, top) =~= four_by_four(
                    samples,
                    region.stride,
                    left,
                    top,
                )) by {
                    assert forall|index: int| 0 <= index < 16 implies #[trigger] at(
                        next,
                        region.stride,
                        left + index % 4,
                        top + index / 4,
                    ) == at(samples, region.stride, left + index % 4, top + index / 4) by {
                        assert(within(region, left + index % 4, top + index / 4));
                    }
                }
                assert(at(next, region.stride, column, row) == at(
                    samples,
                    region.stride,
                    column,
                    row,
                ));
            }
        } else {
            assert(at(next, region.stride, column, row) == at(samples, region.stride, column, row));
        }
    }
}

/// The number of a row or column next to an end: two at the start, then two at the end.
spec fn end_number(place: int, from: int, to: int) -> int {
    if place < from + 2 {
        place - from
    } else {
        place - to + 4
    }
}

proof fn lemma_vertical_edges_at(
    samples: Seq<i32>,
    region: Region,
    height: int,
    y: int,
    number: int,
    rule: spec_fn(Kernel, Seq<i32>) -> Option<Seq<i32>>,
    column: int,
    row: int,
)
    requires
        whole_blocks(region, samples.len() as int, height),
        region.top + 2 <= y <= region.bottom - 2,
        (y - region.top - 2) % 4 == 0,
        0 <= number <= 4,
        within(region, column, row),
        overlap::vertical_edges_from(samples, region, y, number, rule) is Ok,
    ensures
        ({
            let after = overlap::vertical_edges_from(samples, region, y, number, rule)->Ok_0;
            let first = first_of_four(row, region.top);
            let edge = end_number(column, region.left, region.right);
            &&& after.len() == samples.len()
            &&& at(after, region.stride, column, row) == if !inner(column, region.left, region.right)
                && inner(row, region.top, region.bottom) && (first > y || (first == y && edge
                >= number)) {
                rule(Kernel::Overlap4, four_down(samples, region.stride, column, first))->0[row
                    - first]
            } else {
                at(samples, region.stride, column, row)
            }
        }),
    decreases region.bottom - y + 4, 4 - number,
{
    let first = first_of_four(row, region.top);
    let edge = end_number(column, region.left, region.right);
    if y + 2 >= region.bottom {
    } else if number >= 4 {
        lemma_vertical_edges_at(samples, region, height, y + 4, 0, rule, column, row);
    } else {
        let line = overlap::edge_column(region, number);
        let places = overlap::column_of_four(region.stride, line, y);
        let columns = Seq::new(4, |index: int| line);
        let rows = Seq::new(4, |index: int| y + index);
        let inputs = four_down(samples, region.stride, line, y);
        lemma_step(
            samples,
            region,
            height,
            Kernel::Overlap4,
            overlap::OVERLAP_FILTER,
            places,
            columns,
            rows,
            inputs,
            rule,
        );
        let next = kernels::applied(
            samples,
            Kernel::Overlap4,
            places,
            overlap::OVERLAP_FILTER,
            rule,
        )->Ok_0;
        lemma_vertical_edges_at(next, region, height, y, number + 1, rule, column, row);
        if !inner(column, region.left, region.right) && inner(row, region.top, region.bottom) {
            if first == y && edge == number {
                let index = row - first;
                assert(columns[index] == column && rows[index] == row);
            } else {
                assert(four_down(next, region.stride, column, first) =~= four_down(
                    samples,
                    region.stride,
                    column,
                    first,
                )) by {
                    assert forall|index: int| 0 <= index < 4 implies #[trigger] at(
                        next,
                        region.stride,
                        column,
                        first + index,
                    ) == at(samples, region.stride, column, first + index) by {
                        assert(within(region, column, first + index));
                    }
                }
                assert(at(next, region.stride, column, row) == at(
                    samples,
                    region.stride,
                    column,
                    row,
                ));
            }
        } else {
            assert(at(next, region.stride, column, row) == at(samples, region.stride, column, row));
        }
    }
}

proof fn lemma_horizontal_edges_at(
    samples: Seq<i32>,
    region: Region,
    height: int,
    x: int,
    number: int,
    rule: spec_fn(Kernel, Seq<i32>) -> Option<Seq<i32>>,
    column: int,
    row: int,
)
    requires
        whole_blocks(region, samples.len() as int, height),
        region.left + 2 <= x <= region.right - 2,
        (x - region.left - 2) % 4 == 0,
        0 <= number <= 4,
        within(region, column, row),
        overlap::horizontal_edges_from(samples, region, x, number, rule) is Ok,
    ensures
        ({
            let after = overlap::horizontal_edges_from(samples, region, x, number, rule)->Ok_0;
            let first = first_of_four(column, region.left);
            let edge = end_number(row, region.top, region.bottom);
            &&& after.len() == samples.len()
            &&& at(after, region.stride, column, row) == if inner(column, region.left, region.right)
                && !inner(row, region.top, region.bottom) && (first > x || (first == x && edge
                >= number)) {
                rule(Kernel::Overlap4, four_across(samples, region.stride, first, row))->0[column
                    - first]
            } else {
                at(samples, region.stride, column, row)
            }
        }),
    decreases region.right - x + 4, 4 - number,
{
    let first = first_of_four(column, region.left);
    let edge = end_number(row, region.top, region.bottom);
    if x + 2 >= region.right {
    } else if number >= 4 {
        lemma_horizontal_edges_at(samples, region, height, x + 4, 0, rule, column, row);
    } else {
        let line = overlap::edge_row(region, number);
        let places = overlap::row_of_four(region.stride, x, line);
        let columns = Seq::new(4, |index: int| x + index);
        let rows = Seq::new(4, |index: int| line);
        let inputs = four_across(samples, region.stride, x, line);
        lemma_step(
            samples,
            region,
            height,
            Kernel::Overlap4,
            overlap::OVERLAP_FILTER,
            places,
            columns,
            rows,
            inputs,
            rule,
        );
        let next = kernels::applied(
            samples,
            Kernel::Overlap4,
            places,
            overlap::OVERLAP_FILTER,
            rule,
        )->Ok_0;
        lemma_horizontal_edges_at(next, region, height, x, number + 1, rule, column, row);
        if inner(column, region.left, region.right) && !inner(row, region.top, region.bottom) {
            if first == x && edge == number {
                let index = column - first;
                assert(columns[index] == column && rows[index] == row);
            } else {
                assert(four_across(next, region.stride, first, row) =~= four_across(
                    samples,
                    region.stride,
                    first,
                    row,
                )) by {
                    assert forall|index: int| 0 <= index < 4 implies #[trigger] at(
                        next,
                        region.stride,
                        first + index,
                        row,
                    ) == at(samples, region.stride, first + index, row) by {
                        assert(within(region, first + index, row));
                    }
                }
                assert(at(next, region.stride, column, row) == at(
                    samples,
                    region.stride,
                    column,
                    row,
                ));
            }
        } else {
            assert(at(next, region.stride, column, row) == at(samples, region.stride, column, row));
        }
    }
}

proof fn lemma_corners_at(
    samples: Seq<i32>,
    region: Region,
    height: int,
    number: int,
    rule: spec_fn(Kernel, Seq<i32>) -> Option<Seq<i32>>,
    column: int,
    row: int,
)
    requires
        whole_blocks(region, samples.len() as int, height),
        0 <= number <= 4,
        within(region, column, row),
        overlap::corners_from(samples, region, number, rule) is Ok,
    ensures
        ({
            let after = overlap::corners_from(samples, region, number, rule)->Ok_0;
            let left = first_of_end(column, region.left, region.right);
            let top = first_of_end(row, region.top, region.bottom);
            &&& after.len() == samples.len()
            &&& at(after, region.stride, column, row) == if !inner(
                column,
                region.left,
                region.right,
            ) && !inner(row, region.top, region.bottom) && corner_number(region, left, top)
                >= number {
                rule(Kernel::Overlap4, two_by_two(samples, region.stride, left, top))->0[column
                    - left + 2 * (row - top)]
            } else {
                at(samples, region.stride, column, row)
            }
        }),
    decreases 4 - number,
{
    let left = first_of_end(column, region.left, region.right);
    let top = first_of_end(row, region.top, region.bottom);
    if number < 4 {
        let x = if number % 2 == 0 {
            region.left
        } else {
            region.right - 2
        };
        let y = if number < 2 {
            region.top
        } else {
            region.bottom - 2
        };
        let places = overlap::corner(region.stride, x, y);
        let columns = Seq::new(4, |index: int| x + index % 2);
        let rows = Seq::new(4, |index: int| y + index / 2);
        let inputs = two_by_two(samples, region.stride, x, y);
        lemma_step(
            samples,
            region,
            height,
            Kernel::Overlap4,
            overlap::OVERLAP_FILTER,
            places,
            columns,
            rows,
            inputs,
            rule,
        );
        let next = kernels::applied(
            samples,
            Kernel::Overlap4,
            places,
            overlap::OVERLAP_FILTER,
            rule,
        )->Ok_0;
        lemma_corners_at(next, region, height, number + 1, rule, column, row);
        if !inner(column, region.left, region.right) && !inner(row, region.top, region.bottom) {
            if left == x && top == y {
                let index = column - left + 2 * (row - top);
                assert(columns[index] == column && rows[index] == row);
            } else {
                assert(two_by_two(next, region.stride, left, top) =~= two_by_two(
                    samples,
                    region.stride,
                    left,
                    top,
                )) by {
                    assert forall|index: int| 0 <= index < 4 implies #[trigger] at(
                        next,
                        region.stride,
                        left + index % 2,
                        top + index / 2,
                    ) == at(samples, region.stride, left + index % 2, top + index / 2) by {
                        assert(within(region, left + index % 2, top + index / 2));
                    }
                }
                assert(at(next, region.stride, column, row) == at(
                    samples,
                    region.stride,
                    column,
                    row,
                ));
            }
        } else {
            assert(at(next, region.stride, column, row) == at(samples, region.stride, column, row));
        }
    }
}

/// The number of a corner: top left, top right, bottom left, bottom right.
spec fn corner_number(region: Region, left: int, top: int) -> int {
    (if left == region.left {
        0int
    } else {
        1
    }) + (if top == region.top {
        0int
    } else {
        2
    })
}

/// Filtering a rectangle of whole blocks filters every sample once, with the samples that belong to
/// it as they were before.
pub proof fn lemma_every_sample_is_filtered(
    samples: Seq<i32>,
    region: Region,
    height: int,
    rule: spec_fn(Kernel, Seq<i32>) -> Option<Seq<i32>>,
    x: int,
    y: int,
)
    requires
        whole_blocks(region, samples.len() as int, height),
        within(region, x, y),
        overlap::filtered_region(samples, region, rule) is Ok,
    ensures
        at(overlap::filtered_region(samples, region, rule)->Ok_0, region.stride, x, y)
            == filtered_sample(samples, region, x, y, rule),
{
    let windows = overlap::windows_from(samples, region, region.left + 2, region.top + 2, rule)->Ok_0;
    let sides = overlap::vertical_edges_from(windows, region, region.top + 2, 0, rule)->Ok_0;
    let edges = overlap::horizontal_edges_from(sides, region, region.left + 2, 0, rule)->Ok_0;
    lemma_windows_at(samples, region, height, region.left + 2, region.top + 2, rule, x, y);
    lemma_vertical_edges_at(windows, region, height, region.top + 2, 0, rule, x, y);
    lemma_horizontal_edges_at(sides, region, height, region.left + 2, 0, rule, x, y);
    lemma_corners_at(edges, region, height, 0, rule, x, y);
    let left = first_of_four(x, region.left);
    let top = first_of_four(y, region.top);
    if inner(x, region.left, region.right) && inner(y, region.top, region.bottom) {
    } else if inner(y, region.top, region.bottom) {
        assert forall|index: int| 0 <= index < 4 implies #[trigger] at(
            windows,
            region.stride,
            x,
            top + index,
        ) == at(samples, region.stride, x, top + index) by {
            lemma_windows_at(
                samples,
                region,
                height,
                region.left + 2,
                region.top + 2,
                rule,
                x,
                top + index,
            );
        }
        assert(four_down(windows, region.stride, x, top) =~= four_down(
            samples,
            region.stride,
            x,
            top,
        ));
    } else if inner(x, region.left, region.right) {
        assert forall|index: int| 0 <= index < 4 implies #[trigger] at(
            sides,
            region.stride,
            left + index,
            y,
        ) == at(samples, region.stride, left + index, y) by {
            lemma_kept_before_edges(samples, region, height, rule, left + index, y);
        }
        assert(four_across(sides, region.stride, left, y) =~= four_across(
            samples,
            region.stride,
            left,
            y,
        ));
    } else {
        let left = first_of_end(x, region.left, region.right);
        let top = first_of_end(y, region.top, region.bottom);
        assert forall|index: int| 0 <= index < 4 implies #[trigger] at(
            edges,
            region.stride,
            left + index % 2,
            top + index / 2,
        ) == at(samples, region.stride, left + index % 2, top + index / 2) by {
            lemma_kept_before_edges(samples, region, height, rule, left + index % 2, top + index / 2);
            lemma_horizontal_edges_at(
                sides,
                region,
                height,
                region.left + 2,
                0,
                rule,
                left + index % 2,
                top + index / 2,
            );
        }
        assert(two_by_two(edges, region.stride, left, top) =~= two_by_two(
            samples,
            region.stride,
            left,
            top,
        ));
    }
}

proof fn lemma_kept_before_edges(
    samples: Seq<i32>,
    region: Region,
    height: int,
    rule: spec_fn(Kernel, Seq<i32>) -> Option<Seq<i32>>,
    x: int,
    y: int,
)
    requires
        whole_blocks(region, samples.len() as int, height),
        within(region, x, y),
        !inner(y, region.top, region.bottom),
        overlap::filtered_region(samples, region, rule) is Ok,
    ensures
        ({
            let windows = overlap::windows_from(
                samples,
                region,
                region.left + 2,
                region.top + 2,
                rule,
            )->Ok_0;
            let sides = overlap::vertical_edges_from(windows, region, region.top + 2, 0, rule)->Ok_0;
            at(sides, region.stride, x, y) == at(samples, region.stride, x, y)
        }),
{
    let windows = overlap::windows_from(samples, region, region.left + 2, region.top + 2, rule)->Ok_0;
    lemma_windows_at(samples, region, height, region.left + 2, region.top + 2, rule, x, y);
    lemma_vertical_edges_at(windows, region, height, region.top + 2, 0, rule, x, y);
}

/// Filtering a plane of whole blocks without hard boundaries filters every sample once, as a sample
/// of the whole plane.
pub proof fn lemma_every_sample_of_plane_is_filtered(
    samples: Seq<i32>,
    width: usize,
    height: usize,
    columns: Seq<usize>,
    rows: Seq<usize>,
    rule: spec_fn(Kernel, Seq<i32>) -> Option<Seq<i32>>,
    x: int,
    y: int,
)
    requires
        width % 4 == 0,
        height % 4 == 0,
        samples.len() == width * height,
        samples.len() <= usize::MAX,
        0 <= x < width,
        0 <= y < height,
        overlap::overlapped(samples, width, height, columns, rows, false, rule) is Ok,
    ensures
        at(
            overlap::overlapped(samples, width, height, columns, rows, false, rule)->Ok_0,
            width as int,
            x,
            y,
        ) == filtered_sample(
            samples,
            Region {
                stride: width as int,
                left: 0,
                right: width as int,
                top: 0,
                bottom: height as int,
            },
            x,
            y,
            rule,
        ),
{
    reveal_with_fuel(overlap::regions_from, 4);
    let region = Region {
        stride: width as int,
        left: 0,
        right: width as int,
        top: 0,
        bottom: height as int,
    };
    lemma_every_sample_is_filtered(samples, region, height as int, rule, x, y);
}

/// Whether a rectangle of at least four columns is made of whole pairs of columns and rows of a
/// plane.
pub open spec fn whole_pairs(region: Region, samples: int, height: int) -> bool {
    &&& lies_in(region, samples, height)
    &&& region.right - region.left >= 4
    &&& (region.right - region.left) % 2 == 0
    &&& (region.bottom - region.top) % 2 == 0
}

/// Whether a row or column is the first or the last one.
pub open spec fn at_end(place: int, from: int, to: int) -> bool {
    place == from || place == to - 1
}

/// The first of the two rows or columns across a boundary that one of them belongs to: two each,
/// from the second one on.
pub open spec fn first_of_two(place: int, from: int) -> int {
    place - (place - from - 1) % 2
}

/// Two samples below one another, and zeros.
pub open spec fn two_down(samples: Seq<i32>, stride: int, x: int, y: int) -> Seq<i32> {
    Seq::new(
        16,
        |index: int|
            if index < 2 {
                at(samples, stride, x, y + index)
            } else {
                0
            },
    )
}

/// Two samples next to one another, and zeros.
pub open spec fn two_across(samples: Seq<i32>, stride: int, x: int, y: int) -> Seq<i32> {
    Seq::new(
        16,
        |index: int|
            if index < 2 {
                at(samples, stride, x + index, y)
            } else {
                0
            },
    )
}

/// The column next to the first or the last one.
pub open spec fn next_to_end(x: int, region: Region) -> int {
    if x == region.left {
        region.left + 1
    } else {
        region.right - 2
    }
}

/// The sample that filtering a subsampled rectangle leaves in a column and a row: that of the
/// operator on the samples around it that belong together, which are two by two across the corner
/// of four pairs and two across a boundary at an edge. A corner keeps its distance from the sample
/// next to it.
pub open spec fn filtered_subsampled(
    samples: Seq<i32>,
    region: Region,
    x: int,
    y: int,
    rule: spec_fn(Kernel, Seq<i32>) -> Option<Seq<i32>>,
) -> int {
    let left = first_of_two(x, region.left);
    let top = first_of_two(y, region.top);
    if !at_end(x, region.left, region.right) && !at_end(y, region.top, region.bottom) {
        rule(Kernel::Overlap2x2, two_by_two(samples, region.stride, left, top))->0[x - left + 2 * (y
            - top)] as int
    } else if !at_end(y, region.top, region.bottom) {
        rule(Kernel::Overlap2, two_down(samples, region.stride, x, top))->0[y - top] as int
    } else if !at_end(x, region.left, region.right) {
        rule(Kernel::Overlap2, two_across(samples, region.stride, left, y))->0[x - left] as int
    } else {
        let next = next_to_end(x, region);
        let first = first_of_two(next, region.left);
        at(samples, region.stride, x, y) - at(samples, region.stride, next, y) + rule(
            Kernel::Overlap2,
            two_across(samples, region.stride, first, y),
        )->0[next - first]
    }
}

proof fn lemma_squares_at(
    samples: Seq<i32>,
    region: Region,
    height: int,
    x: int,
    y: int,
    rule: spec_fn(Kernel, Seq<i32>) -> Option<Seq<i32>>,
    column: int,
    row: int,
)
    requires
        whole_pairs(region, samples.len() as int, height),
        region.left + 2 <= x <= region.right,
        (x - region.left) % 2 == 0,
        region.top + 2 <= y <= region.bottom,
        (y - region.top) % 2 == 0,
        within(region, column, row),
        subsampled_overlap::squares_from(samples, region, x, y, rule) is Ok,
    ensures
        ({
            let after = subsampled_overlap::squares_from(samples, region, x, y, rule)->Ok_0;
            let left = first_of_two(column, region.left);
            let top = first_of_two(row, region.top);
            &&& after.len() == samples.len()
            &&& at(after, region.stride, column, row) == if !at_end(
                column,
                region.left,
                region.right,
            ) && !at_end(row, region.top, region.bottom) && (top + 1 > y || (top + 1 == y && left
                + 1 >= x)) {
                rule(Kernel::Overlap2x2, two_by_two(samples, region.stride, left, top))->0[column
                    - left + 2 * (row - top)]
            } else {
                at(samples, region.stride, column, row)
            }
        }),
    decreases region.bottom - y + 2, region.right - x + 2,
{
    let left = first_of_two(column, region.left);
    let top = first_of_two(row, region.top);
    if y >= region.bottom {
    } else if x >= region.right {
        lemma_squares_at(samples, region, height, region.left + 2, y + 2, rule, column, row);
    } else {
        let places = subsampled_overlap::square(region.stride, x, y);
        let columns = Seq::new(4, |index: int| x - 1 + index % 2);
        let rows = Seq::new(4, |index: int| y - 1 + index / 2);
        let inputs = two_by_two(samples, region.stride, x - 1, y - 1);
        lemma_step(
            samples,
            region,
            height,
            Kernel::Overlap2x2,
            subsampled_overlap::SUBSAMPLED_FILTER,
            places,
            columns,
            rows,
            inputs,
            rule,
        );
        let next = kernels::applied(
            samples,
            Kernel::Overlap2x2,
            places,
            subsampled_overlap::SUBSAMPLED_FILTER,
            rule,
        )->Ok_0;
        lemma_squares_at(next, region, height, x + 2, y, rule, column, row);
        if !at_end(column, region.left, region.right) && !at_end(row, region.top, region.bottom) {
            if top + 1 == y && left + 1 == x {
                let index = column - left + 2 * (row - top);
                assert(columns[index] == column && rows[index] == row);
            } else {
                assert(two_by_two(next, region.stride, left, top) =~= two_by_two(
                    samples,
                    region.stride,
                    left,
                    top,
                )) by {
                    assert forall|index: int| 0 <= index < 4 implies #[trigger] at(
                        next,
                        region.stride,
                        left + index % 2,
                        top + index / 2,
                    ) == at(samples, region.stride, left + index % 2, top + index / 2) by {
                        assert(within(region, left + index % 2, top + index / 2));
                    }
                }
                assert(at(next, region.stride, column, row) == at(
                    samples,
                    region.stride,
                    column,
                    row,
                ));
            }
        } else {
            assert(at(next, region.stride, column, row) == at(samples, region.stride, column, row));
        }
    }
}

proof fn lemma_side_pairs_at(
    samples: Seq<i32>,
    region: Region,
    height: int,
    y: int,
    number: int,
    rule: spec_fn(Kernel, Seq<i32>) -> Option<Seq<i32>>,
    column: int,
    row: int,
)
    requires
        whole_pairs(region, samples.len() as int, height),
        region.top + 2 <= y <= region.bottom,
        (y - region.top) % 2 == 0,
        0 <= number <= 2,
        within(region, column, row),
        subsampled_overlap::side_pairs_from(samples, region, y, number, rule) is Ok,
    ensures
        ({
            let after = subsampled_overlap::side_pairs_from(samples, region, y, number, rule)->Ok_0;
            let first = first_of_two(row, region.top);
            let edge: int = if column == region.left {
                0
            } else {
                1
            };
            &&& after.len() == samples.len()
            &&& at(after, region.stride, column, row) == if at_end(column, region.left, region.right)
                && !at_end(row, region.top, region.bottom) && (first + 1 > y || (first
                + 1 == y && edge >= number)) {
                rule(Kernel::Overlap2, two_down(samples, region.stride, column, first))->0[row
                    - first]
            } else {
                at(samples, region.stride, column, row)
            }
        }),
    decreases region.bottom - y + 2, 2 - number,
{
    let first = first_of_two(row, region.top);
    let edge: int = if column == region.left {
        0
    } else {
        1
    };
    if y >= region.bottom {
    } else if number >= 2 {
        lemma_side_pairs_at(samples, region, height, y + 2, 0, rule, column, row);
    } else {
        let line = if number == 0 {
            region.left
        } else {
            region.right - 1
        };
        let places = subsampled_overlap::vertical_pair(region.stride, line, y);
        let columns = Seq::new(2, |index: int| line);
        let rows = Seq::new(2, |index: int| y - 1 + index);
        let inputs = two_down(samples, region.stride, line, y - 1);
        lemma_step(
            samples,
            region,
            height,
            Kernel::Overlap2,
            subsampled_overlap::SUBSAMPLED_FILTER,
            places,
            columns,
            rows,
            inputs,
            rule,
        );
        let next = kernels::applied(
            samples,
            Kernel::Overlap2,
            places,
            subsampled_overlap::SUBSAMPLED_FILTER,
            rule,
        )->Ok_0;
        lemma_side_pairs_at(next, region, height, y, number + 1, rule, column, row);
        if at_end(column, region.left, region.right)
                && !at_end(row, region.top, region.bottom) {
            if first + 1 == y && edge == number {
                let index = row - first;
                assert(columns[index] == column && rows[index] == row);
            } else {
                assert(two_down(next, region.stride, column, first) =~= two_down(
                    samples,
                    region.stride,
                    column,
                    first,
                )) by {
                    assert forall|index: int| 0 <= index < 2 implies #[trigger] at(
                        next,
                        region.stride,
                        column,
                        first + index,
                    ) == at(samples, region.stride, column, first + index) by {
                        assert(within(region, column, first + index));
                    }
                }
                assert(at(next, region.stride, column, row) == at(
                    samples,
                    region.stride,
                    column,
                    row,
                ));
            }
        } else {
            assert(at(next, region.stride, column, row) == at(samples, region.stride, column, row));
        }
    }
}

proof fn lemma_end_pairs_at(
    samples: Seq<i32>,
    region: Region,
    height: int,
    x: int,
    number: int,
    rule: spec_fn(Kernel, Seq<i32>) -> Option<Seq<i32>>,
    column: int,
    row: int,
)
    requires
        whole_pairs(region, samples.len() as int, height),
        region.left + 2 <= x <= region.right,
        (x - region.left) % 2 == 0,
        0 <= number <= 2,
        within(region, column, row),
        subsampled_overlap::end_pairs_from(samples, region, x, number, rule) is Ok,
    ensures
        ({
            let after = subsampled_overlap::end_pairs_from(samples, region, x, number, rule)->Ok_0;
            let first = first_of_two(column, region.left);
            let edge: int = if row == region.top {
                0
            } else {
                1
            };
            &&& after.len() == samples.len()
            &&& at(after, region.stride, column, row) == if !at_end(column, region.left, region.right)
                && at_end(row, region.top, region.bottom) && (first + 1 > x || (first
                + 1 == x && edge >= number)) {
                rule(Kernel::Overlap2, two_across(samples, region.stride, first, row))->0[column
                    - first]
            } else {
                at(samples, region.stride, column, row)
            }
        }),
    decreases region.right - x + 2, 2 - number,
{
    let first = first_of_two(column, region.left);
    let edge: int = if row == region.top {
        0
    } else {
        1
    };
    if x >= region.right {
    } else if number >= 2 {
        lemma_end_pairs_at(samples, region, height, x + 2, 0, rule, column, row);
    } else {
        let line = if number == 0 {
            region.top
        } else {
            region.bottom - 1
        };
        let places = subsampled_overlap::horizontal_pair(region.stride, x, line);
        let columns = Seq::new(2, |index: int| x - 1 + index);
        let rows = Seq::new(2, |index: int| line);
        let inputs = two_across(samples, region.stride, x - 1, line);
        lemma_step(
            samples,
            region,
            height,
            Kernel::Overlap2,
            subsampled_overlap::SUBSAMPLED_FILTER,
            places,
            columns,
            rows,
            inputs,
            rule,
        );
        let next = kernels::applied(
            samples,
            Kernel::Overlap2,
            places,
            subsampled_overlap::SUBSAMPLED_FILTER,
            rule,
        )->Ok_0;
        lemma_end_pairs_at(next, region, height, x, number + 1, rule, column, row);
        if !at_end(column, region.left, region.right)
                && at_end(row, region.top, region.bottom) {
            if first + 1 == x && edge == number {
                let index = column - first;
                assert(columns[index] == column && rows[index] == row);
            } else {
                assert(two_across(next, region.stride, first, row) =~= two_across(
                    samples,
                    region.stride,
                    first,
                    row,
                )) by {
                    assert forall|index: int| 0 <= index < 2 implies #[trigger] at(
                        next,
                        region.stride,
                        first + index,
                        row,
                    ) == at(samples, region.stride, first + index, row) by {
                        assert(within(region, first + index, row));
                    }
                }
                assert(at(next, region.stride, column, row) == at(
                    samples,
                    region.stride,
                    column,
                    row,
                ));
            }
        } else {
            assert(at(next, region.stride, column, row) == at(samples, region.stride, column, row));
        }
    }
}

proof fn lemma_adjusted_at(
    samples: Seq<i32>,
    region: Region,
    height: int,
    number: int,
    raise: bool,
    column: int,
    row: int,
)
    requires
        whole_pairs(region, samples.len() as int, height),
        0 <= number <= 4,
        within(region, column, row),
        subsampled_overlap::corners_adjusted_from(samples, region, number, raise) is Ok,
    ensures
        ({
            let after = subsampled_overlap::corners_adjusted_from(
                samples,
                region,
                number,
                raise,
            )->Ok_0;
            let beside = at(samples, region.stride, next_to_end(column, region), row);
            &&& after.len() == samples.len()
            &&& at(after, region.stride, column, row) == at(samples, region.stride, column, row) + (
            if at_end(column, region.left, region.right) && at_end(row, region.top, region.bottom)
                && (if column == region.left {
                0int
            } else {
                1
            }) + (if row == region.top {
                0int
            } else {
                2
            }) >= number {
                if raise {
                    beside as int
                } else {
                    -beside
                }
            } else {
                0int
            })
        }),
    decreases 4 - number,
{
    if number < 4 {
        let size = samples.len() as int;
        let y = if number < 2 {
            region.top
        } else {
            region.bottom - 1
        };
        let x = if number % 2 == 0 {
            region.left
        } else {
            region.right - 1
        };
        let target = x + y * region.stride;
        let source = next_to_end(x, region) + y * region.stride;
        lemma_place(region, size, height, x, y);
        lemma_place(region, size, height, next_to_end(x, region), y);
        lemma_place(region, size, height, column, row);
        lemma_place(region, size, height, next_to_end(column, region), row);
        let next = subsampled_overlap::adjusted(samples, target, source, raise)->Ok_0;
        assert(subsampled_overlap::adjusted(samples, target, source, raise) is Ok);
        lemma_adjusted_at(next, region, height, number + 1, raise, column, row);
    }
}

proof fn lemma_kept_before_pairs(
    samples: Seq<i32>,
    region: Region,
    height: int,
    rule: spec_fn(Kernel, Seq<i32>) -> Option<Seq<i32>>,
    x: int,
    y: int,
)
    requires
        whole_pairs(region, samples.len() as int, height),
        within(region, x, y),
        at_end(y, region.top, region.bottom),
        subsampled_overlap::filtered_region(samples, region, rule) is Ok,
    ensures
        ({
            let lowered = subsampled_overlap::corners_adjusted_from(samples, region, 0, false)->Ok_0;
            let inner = subsampled_overlap::squares_from(
                lowered,
                region,
                region.left + 2,
                region.top + 2,
                rule,
            )->Ok_0;
            let sides = subsampled_overlap::side_pairs_from(
                inner,
                region,
                region.top + 2,
                0,
                rule,
            )->Ok_0;
            at(sides, region.stride, x, y) == at(samples, region.stride, x, y) - (if at_end(
                x,
                region.left,
                region.right,
            ) {
                at(samples, region.stride, next_to_end(x, region), y) as int
            } else {
                0
            })
        }),
{
    let lowered = subsampled_overlap::corners_adjusted_from(samples, region, 0, false)->Ok_0;
    let inner = subsampled_overlap::squares_from(
        lowered,
        region,
        region.left + 2,
        region.top + 2,
        rule,
    )->Ok_0;
    lemma_adjusted_at(samples, region, height, 0, false, x, y);
    lemma_squares_at(lowered, region, height, region.left + 2, region.top + 2, rule, x, y);
    lemma_side_pairs_at(inner, region, height, region.top + 2, 0, rule, x, y);
}

/// Filtering a subsampled rectangle of whole pairs filters every sample once, with the samples that
/// belong to it as they were before.
pub proof fn lemma_every_subsampled_sample_is_filtered(
    samples: Seq<i32>,
    region: Region,
    height: int,
    rule: spec_fn(Kernel, Seq<i32>) -> Option<Seq<i32>>,
    x: int,
    y: int,
)
    requires
        whole_pairs(region, samples.len() as int, height),
        within(region, x, y),
        subsampled_overlap::filtered_region(samples, region, rule) is Ok,
    ensures
        at(subsampled_overlap::filtered_region(samples, region, rule)->Ok_0, region.stride, x, y)
            == filtered_subsampled(samples, region, x, y, rule),
{
    let lowered = subsampled_overlap::corners_adjusted_from(samples, region, 0, false)->Ok_0;
    let inner = subsampled_overlap::squares_from(
        lowered,
        region,
        region.left + 2,
        region.top + 2,
        rule,
    )->Ok_0;
    let sides = subsampled_overlap::side_pairs_from(inner, region, region.top + 2, 0, rule)->Ok_0;
    let ends = subsampled_overlap::end_pairs_from(sides, region, region.left + 2, 0, rule)->Ok_0;
    let left = first_of_two(x, region.left);
    let top = first_of_two(y, region.top);
    lemma_adjusted_at(samples, region, height, 0, false, x, y);
    lemma_squares_at(lowered, region, height, region.left + 2, region.top + 2, rule, x, y);
    lemma_side_pairs_at(inner, region, height, region.top + 2, 0, rule, x, y);
    lemma_end_pairs_at(sides, region, height, region.left + 2, 0, rule, x, y);
    lemma_adjusted_at(ends, region, height, 0, true, x, y);
    if !at_end(x, region.left, region.right) && !at_end(y, region.top, region.bottom) {
        assert forall|index: int| 0 <= index < 4 implies #[trigger] at(
            lowered,
            region.stride,
            left + index % 2,
            top + index / 2,
        ) == at(samples, region.stride, left + index % 2, top + index / 2) by {
            lemma_adjusted_at(
                samples,
                region,
                height,
                0,
                false,
                left + index % 2,
                top + index / 2,
            );
        }
        assert(two_by_two(lowered, region.stride, left, top) =~= two_by_two(
            samples,
            region.stride,
            left,
            top,
        ));
    } else if !at_end(y, region.top, region.bottom) {
        assert forall|index: int| 0 <= index < 2 implies #[trigger] at(
            inner,
            region.stride,
            x,
            top + index,
        ) == at(samples, region.stride, x, top + index) by {
            lemma_adjusted_at(samples, region, height, 0, false, x, top + index);
            lemma_squares_at(
                lowered,
                region,
                height,
                region.left + 2,
                region.top + 2,
                rule,
                x,
                top + index,
            );
        }
        assert(two_down(inner, region.stride, x, top) =~= two_down(samples, region.stride, x, top));
    } else {
        let next = if at_end(x, region.left, region.right) {
            next_to_end(x, region)
        } else {
            x
        };
        let first = first_of_two(next, region.left);
        lemma_kept_before_pairs(samples, region, height, rule, x, y);
        lemma_end_pairs_at(sides, region, height, region.left + 2, 0, rule, next, y);
        assert forall|index: int| 0 <= index < 2 implies #[trigger] at(
            sides,
            region.stride,
            first + index,
            y,
        ) == at(samples, region.stride, first + index, y) by {
            lemma_kept_before_pairs(samples, region, height, rule, first + index, y);
        }
        assert(two_across(sides, region.stride, first, y) =~= two_across(
            samples,
            region.stride,
            first,
            y,
        ));
    }
}

/// Filtering a subsampled plane of whole pairs without hard boundaries filters every sample once,
/// as a sample of the whole plane.
pub proof fn lemma_every_sample_of_subsampled_plane_is_filtered(
    samples: Seq<i32>,
    width: usize,
    height: usize,
    columns: Seq<usize>,
    rows: Seq<usize>,
    rule: spec_fn(Kernel, Seq<i32>) -> Option<Seq<i32>>,
    x: int,
    y: int,
)
    requires
        width >= 4,
        width % 2 == 0,
        height % 2 == 0,
        samples.len() == width * height,
        samples.len() <= usize::MAX,
        0 <= x < width,
        0 <= y < height,
        subsampled_overlap::overlapped(samples, width, height, columns, rows, false, rule) is Ok,
    ensures
        at(
            subsampled_overlap::overlapped(samples, width, height, columns, rows, false, rule)->Ok_0,
            width as int,
            x,
            y,
        ) == filtered_subsampled(
            samples,
            Region {
                stride: width as int,
                left: 0,
                right: width as int,
                top: 0,
                bottom: height as int,
            },
            x,
            y,
            rule,
        ),
{
    reveal_with_fuel(subsampled_overlap::regions_from, 4);
    let region = Region {
        stride: width as int,
        left: 0,
        right: width as int,
        top: 0,
        bottom: height as int,
    };
    lemma_every_subsampled_sample_is_filtered(samples, region, height as int, rule, x, y);
}

/// A window that is cut out of a plane has the samples of its columns and rows, row by row, each
/// moved to the nearest byte or word; and a window is cut out only where it lies in the plane.
pub proof fn lemma_window_is_cut_out(plane: PlaneSamples, crop: CropWindow, x: int, y: int)
    requires
        packing::crop_error(plane, crop) is None,
        0 <= x < crop.width,
        0 <= y < crop.height,
    ensures
        ({
            let sample = at(plane.samples, plane.width as int, crop.x + x, crop.y + y);
            let bytes = packing::clipped_bytes(packing::cropped(plane, crop));
            let words = packing::clipped_words(packing::cropped(plane, crop));
            let place = y * crop.width + x;
            &&& crop.x + crop.width <= plane.width
            &&& crop.y + crop.height <= plane.height
            &&& 0 <= place < bytes.len()
            &&& bytes.len() == words.len()
            &&& bytes.len() == crop.width * crop.height
            &&& 0 <= sample <= 255 ==> bytes[place] == sample
            &&& sample < 0 ==> bytes[place] == 0 && words[place] == 0
            &&& sample > 255 ==> bytes[place] == 255
            &&& 0 <= sample <= 0xFFFF ==> words[place] == sample
            &&& sample > 0xFFFF ==> words[place] == 0xFFFF
        }),
{
    let width = crop.width as int;
    let height = crop.height as int;
    let place = y * width + x;
    kernels::lemma_in_plane(x, y, width, height);
    assert(height * width == width * height) by (nonlinear_arith);
    lemma_fundamental_div_mod_converse(place, width, y, x);
}

} // verus!

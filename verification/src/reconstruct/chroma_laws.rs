//! Laws of chroma interpolation.

use crate::reconstruct::chroma;
use crate::reconstruct::chroma::ChromaReconstructionConfig;
use crate::reconstruct::contract::PlaneSamples;
use crate::reconstruct::kernels;
use crate::reconstruct::kernels::Kernel;
use crate::reconstruct::raster;
use crate::types::ChromaSampling;
use vstd::prelude::*;

verus! {

/// The nearest place from zero on and before a limit.
pub open spec fn within(place: int, limit: int) -> int {
    if place < 0 {
        0
    } else if place >= limit {
        limit - 1
    } else {
        place
    }
}

/// Three values, followed by zeros.
pub open spec fn three(first: i32, second: i32, third: i32) -> Seq<i32> {
    Seq::new(
        16,
        |index: int|
            if index == 0 {
                first
            } else if index == 1 {
                second
            } else if index == 2 {
                third
            } else {
                0
            },
    )
}

/// Whether a plane has two samples for each sample of another one, side by side: what the operator
/// makes of the sample and its neighbours in the row, of which the ends of the row have one only.
pub open spec fn doubled_across(
    narrow: PlaneSamples,
    wide: PlaneSamples,
    centering: u8,
    rule: spec_fn(Kernel, Seq<i32>) -> Option<Seq<i32>>,
) -> bool {
    &&& wide.width == 2 * narrow.width
    &&& wide.height == narrow.height
    &&& wide.origin_x == 2 * narrow.origin_x
    &&& wide.origin_y == narrow.origin_y
    &&& wide.samples.len() == wide.width * wide.height
    &&& forall|row: int, column: int, side: int|
        0 <= row < narrow.height && 0 <= column < narrow.width && 0 <= side < 2
            ==> #[trigger] wide.samples[row * wide.width + (2 * column + side)] == rule(
            Kernel::UpsampleChroma(centering),
            three(
                narrow.samples[row * narrow.width + within(column - 1, narrow.width as int)],
                narrow.samples[row * narrow.width + column],
                narrow.samples[row * narrow.width + within(column + 1, narrow.width as int)],
            ),
        )->0[side]
}

/// Whether a plane has two samples for each sample of another one, below one another: what the
/// operator makes of the sample and its neighbours in the column, of which the ends of the column
/// have one only.
pub open spec fn doubled_down(
    low: PlaneSamples,
    tall: PlaneSamples,
    centering: u8,
    rule: spec_fn(Kernel, Seq<i32>) -> Option<Seq<i32>>,
) -> bool {
    &&& tall.width == low.width
    &&& tall.height == 2 * low.height
    &&& tall.origin_x == low.origin_x
    &&& tall.origin_y == 2 * low.origin_y
    &&& tall.samples.len() == tall.width * tall.height
    &&& forall|row: int, column: int, side: int|
        0 <= row < low.height && 0 <= column < low.width && 0 <= side < 2
            ==> #[trigger] tall.samples[(2 * row + side) * tall.width + column] == rule(
            Kernel::UpsampleChroma(centering),
            three(
                low.samples[within(row - 1, low.height as int) * low.width + column],
                low.samples[row * low.width + column],
                low.samples[within(row + 1, low.height as int) * low.width + column],
            ),
        )->0[side]
}

proof fn lemma_three(first: i32, second: i32, third: i32)
    ensures
        kernels::padded(seq![first, second, third]) == three(first, second, third),
{
    assert(kernels::padded(seq![first, second, third]) =~= three(first, second, third));
}

proof fn lemma_widened(
    input: PlaneSamples,
    centering: u8,
    rule: spec_fn(Kernel, Seq<i32>) -> Option<Seq<i32>>,
)
    ensures
        chroma::widened(input, centering, rule) matches Ok(wide) ==> doubled_across(
            input,
            wide,
            centering,
            rule,
        ),
{
    if let Ok(wide) = chroma::widened(input, centering, rule) {
        let width = input.width as int;
        let height = input.height as int;
        assert(height * (2 * width) >= 0 && height * (2 * width) == (2 * width) * height)
            by (nonlinear_arith)
            requires
                height >= 0,
                width >= 0,
        ;
        assert forall|row: int, column: int, side: int|
            0 <= row < height && 0 <= column < width && 0 <= side
                < 2 implies #[trigger] wide.samples[row * wide.width + (2 * column + side)] == rule(
            Kernel::UpsampleChroma(centering),
            three(
                input.samples[row * width + within(column - 1, width)],
                input.samples[row * width + column],
                input.samples[row * width + within(column + 1, width)],
            ),
        )->0[side] by {
            raster::lemma_row_major(row, 2 * column + side, height, 2 * width);
            raster::lemma_parts(row, 2 * column + side, 2 * width);
            lemma_three(
                input.samples[row * width + within(column - 1, width)],
                input.samples[row * width + column],
                input.samples[row * width + within(column + 1, width)],
            );
        }
    }
}

proof fn lemma_heightened(
    input: PlaneSamples,
    centering: u8,
    rule: spec_fn(Kernel, Seq<i32>) -> Option<Seq<i32>>,
)
    ensures
        chroma::heightened(input, centering, rule) matches Ok(tall) ==> doubled_down(
            input,
            tall,
            centering,
            rule,
        ),
{
    if let Ok(tall) = chroma::heightened(input, centering, rule) {
        let width = input.width as int;
        let height = input.height as int;
        assert((2 * height) * width >= 0 && (2 * height) * width == width * (2 * height))
            by (nonlinear_arith)
            requires
                height >= 0,
                width >= 0,
        ;
        assert forall|row: int, column: int, side: int|
            0 <= row < height && 0 <= column < width && 0 <= side
                < 2 implies #[trigger] tall.samples[(2 * row + side) * tall.width + column] == rule(
            Kernel::UpsampleChroma(centering),
            three(
                input.samples[within(row - 1, height) * width + column],
                input.samples[row * width + column],
                input.samples[within(row + 1, height) * width + column],
            ),
        )->0[side] by {
            raster::lemma_row_major(2 * row + side, column, 2 * height, width);
            raster::lemma_parts(2 * row + side, column, width);
            lemma_three(
                input.samples[within(row - 1, height) * width + column],
                input.samples[row * width + column],
                input.samples[within(row + 1, height) * width + column],
            );
        }
    }
}

/// Chroma is interpolated to the size of luma: 4:2:2 chroma across, and 4:2:0 chroma first down and
/// then across, each with its own centering.
pub proof fn lemma_chroma_is_interpolated(
    input: PlaneSamples,
    config: ChromaReconstructionConfig,
    rule: spec_fn(Kernel, Seq<i32>) -> Option<Seq<i32>>,
)
    ensures
        chroma::full_plane(input, config, rule) matches Ok(plane) ==> {
            &&& plane.width == config.full_width
            &&& plane.height == config.full_height
            &&& config.sampling == ChromaSampling::Cs422 ==> doubled_across(
                input,
                plane,
                config.centering_x,
                rule,
            )
            &&& config.sampling == ChromaSampling::Cs420 ==> exists|tall: PlaneSamples| #[trigger]
                doubled_down(input, tall, config.centering_y, rule) && doubled_across(
                    tall,
                    plane,
                    config.centering_x,
                    rule,
                )
        },
{
    if let Ok(plane) = chroma::full_plane(input, config, rule) {
        if config.sampling == ChromaSampling::Cs420 {
            let tall = chroma::heightened(input, config.centering_y, rule)->Ok_0;
            lemma_heightened(input, config.centering_y, rule);
            lemma_widened(tall, config.centering_x, rule);
            assert(doubled_down(input, tall, config.centering_y, rule));
        } else {
            lemma_widened(input, config.centering_x, rule);
        }
    }
}

} // verus!

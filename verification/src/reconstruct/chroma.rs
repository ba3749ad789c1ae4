//! Full-resolution chroma reconstruction for 4:2:0 and 4:2:2 planes.

use crate::header::types::PlaneModel;
use crate::header::ImagePlaneHeader;
use crate::reconstruct::contract::{PlanarSamples, PlaneSamples, ReconstructionError};
use crate::reconstruct::kernels;
use crate::reconstruct::kernels::Kernel;
use crate::reconstruct::pipeline;
use crate::reconstruct::raster;
use crate::types::ChromaSampling;
use vstd::prelude::*;

verus! {

/// Geometry and parsed chroma-grid positioning for one reconstruction.
#[derive(Clone, Copy, Debug, PartialEq, Eq, Structural)]
pub struct ChromaReconstructionConfig {
    /// Coded chroma subsampling mode.
    pub sampling: ChromaSampling,
    /// Full-resolution luma width in samples, including coded margins.
    pub full_width: u32,
    /// Full-resolution luma height in samples, including coded margins.
    pub full_height: u32,
    /// Horizontal quarter-sample chroma-grid offset.
    pub centering_x: u8,
    /// Vertical quarter-sample chroma-grid offset.
    pub centering_y: u8,
}

/// The reconstruction geometry of a plane header.
pub open spec fn config_of(header: PlaneModel, full_width: u32, full_height: u32) -> Result<
    ChromaReconstructionConfig,
    ReconstructionError,
> {
    if header.internal_color_format != 1 && header.internal_color_format != 2 {
        Err(
            ReconstructionError::Unsupported("chroma reconstruction requires YUV420 or YUV422"),
        )
    } else {
        Ok(
            ChromaReconstructionConfig {
                sampling: if header.internal_color_format == 1 {
                    ChromaSampling::Cs420
                } else {
                    ChromaSampling::Cs422
                },
                full_width,
                full_height,
                centering_x: header.chroma_centering_x,
                centering_y: header.chroma_centering_y,
            },
        )
    }
}

impl ChromaReconstructionConfig {
    /// Build reconstruction geometry directly from a parsed image-plane header.
    pub fn from_header(header: &ImagePlaneHeader, full_width: u32, full_height: u32) -> (result:
        Result<Self, ReconstructionError>)
        ensures
            result == config_of(header@, full_width, full_height),
    {
        let sampling: ChromaSampling = match header.internal_color_format {
            1 => ChromaSampling::Cs420,
            2 => ChromaSampling::Cs422,
            _ => return Err(
                ReconstructionError::Unsupported("chroma reconstruction requires YUV420 or YUV422"),
            ),
        };
        Ok(
            ChromaReconstructionConfig {
                sampling,
                full_width,
                full_height,
                centering_x: header.chroma_centering_x,
                centering_y: header.chroma_centering_y,
            },
        )
    }
}

/// Why a plane cannot be used, if it cannot.
pub open spec fn plane_error(plane: PlaneSamples) -> Option<ReconstructionError> {
    let expected = plane.width * plane.height;
    if plane.width == 0 || plane.height == 0 {
        Some(ReconstructionError::InvalidPlaneGeometry("chroma plane is empty"))
    } else if expected > usize::MAX {
        Some(ReconstructionError::ArithmeticOverflow("chroma plane extent"))
    } else if plane.samples.len() < expected {
        Some(
            ReconstructionError::BufferTooSmall {
                required: expected as usize,
                available: plane.samples.len() as usize,
            },
        )
    } else if plane.samples.len() > expected {
        Some(ReconstructionError::InvalidPlaneGeometry("chroma plane has trailing samples"))
    } else {
        None
    }
}

fn validate_plane(plane: &PlanarSamples) -> (result: Result<(), ReconstructionError>)
    ensures
        result == (match plane_error(plane@) {
            Some(error) => Err::<(), ReconstructionError>(error),
            None => Ok(()),
        }),
{
    if plane.width == 0 || plane.height == 0 {
        return Err(ReconstructionError::InvalidPlaneGeometry("chroma plane is empty"));
    }
    let expected: usize = match (plane.width as usize).checked_mul(plane.height as usize) {
        Some(expected) => expected,
        None => return Err(ReconstructionError::ArithmeticOverflow("chroma plane extent")),
    };
    if plane.samples.len() < expected {
        return Err(
            ReconstructionError::BufferTooSmall {
                required: expected,
                available: plane.samples.len(),
            },
        );
    }
    if plane.samples.len() > expected {
        return Err(ReconstructionError::InvalidPlaneGeometry("chroma plane has trailing samples"));
    }
    Ok(())
}

/// Why a plane does not have the size that a full resolution asks for, if it does not.
pub open spec fn size_error(
    input: PlaneSamples,
    full_width: u32,
    full_height: u32,
    double_height: bool,
) -> Option<ReconstructionError> {
    let width = 2 * input.width;
    let height = if double_height {
        2 * input.height
    } else {
        input.height as int
    };
    if width > u32::MAX {
        Some(ReconstructionError::ArithmeticOverflow("full chroma width"))
    } else if height > u32::MAX {
        Some(ReconstructionError::ArithmeticOverflow("full chroma height"))
    } else if width != full_width || height != full_height {
        Some(
            ReconstructionError::InvalidPlaneGeometry(
                "subsampled chroma dimensions do not match luma geometry",
            ),
        )
    } else {
        None
    }
}

fn validate_geometry(
    input: &PlanarSamples,
    full_width: u32,
    full_height: u32,
    double_height: bool,
) -> (result: Result<(), ReconstructionError>)
    ensures
        result == (match size_error(input@, full_width, full_height, double_height) {
            Some(error) => Err::<(), ReconstructionError>(error),
            None => Ok(()),
        }),
{
    let expected_width: u32 = match input.width.checked_mul(2) {
        Some(width) => width,
        None => return Err(ReconstructionError::ArithmeticOverflow("full chroma width")),
    };
    let expected_height: u32 = if double_height {
        match input.height.checked_mul(2) {
            Some(height) => height,
            None => return Err(ReconstructionError::ArithmeticOverflow("full chroma height")),
        }
    } else {
        input.height
    };
    if expected_width != full_width || expected_height != full_height {
        return Err(
            ReconstructionError::InvalidPlaneGeometry(
                "subsampled chroma dimensions do not match luma geometry",
            ),
        );
    }
    Ok(())
}

/// The two samples for the sample in a row and a column, from its neighbours in the row; the first
/// and the last sample of a row are their own neighbours.
pub open spec fn row_pair(
    samples: Seq<i32>,
    width: int,
    row: int,
    column: int,
    centering: u8,
    rule: spec_fn(Kernel, Seq<i32>) -> Option<Seq<i32>>,
) -> Option<Seq<i32>> {
    let before = if column > 0 {
        column - 1
    } else {
        0
    };
    let behind = if column + 1 < width {
        column + 1
    } else {
        width - 1
    };
    rule(
        Kernel::UpsampleChroma(centering),
        kernels::padded(
            seq![
                samples[row * width + before],
                samples[row * width + column],
                samples[row * width + behind],
            ],
        ),
    )
}

/// The two samples for the sample in a row and a column, from its neighbours in the column; the
/// first and the last sample of a column are their own neighbours.
pub open spec fn column_pair(
    samples: Seq<i32>,
    width: int,
    height: int,
    row: int,
    column: int,
    centering: u8,
    rule: spec_fn(Kernel, Seq<i32>) -> Option<Seq<i32>>,
) -> Option<Seq<i32>> {
    let above = if row > 0 {
        row - 1
    } else {
        0
    };
    let below = if row + 1 < height {
        row + 1
    } else {
        height - 1
    };
    rule(
        Kernel::UpsampleChroma(centering),
        kernels::padded(
            seq![
                samples[above * width + column],
                samples[row * width + column],
                samples[below * width + column],
            ],
        ),
    )
}

/// Samples with twice as many columns.
pub open spec fn widened_samples(
    samples: Seq<i32>,
    width: int,
    height: int,
    centering: u8,
    rule: spec_fn(Kernel, Seq<i32>) -> Option<Seq<i32>>,
) -> Seq<i32> {
    Seq::new(
        (height * (2 * width)) as nat,
        |index: int|
            {
                let row = index / (2 * width);
                let place = index % (2 * width);
                row_pair(samples, width, row, place / 2, centering, rule)->0[place % 2]
            },
    )
}

/// Samples with twice as many rows.
pub open spec fn heightened_samples(
    samples: Seq<i32>,
    width: int,
    height: int,
    centering: u8,
    rule: spec_fn(Kernel, Seq<i32>) -> Option<Seq<i32>>,
) -> Seq<i32> {
    Seq::new(
        ((2 * height) * width) as nat,
        |index: int|
            {
                let row = index / width;
                column_pair(samples, width, height, row / 2, index % width, centering, rule)->0[row
                    % 2]
            },
    )
}

/// A plane with twice as many columns.
pub open spec fn widened(
    input: PlaneSamples,
    centering: u8,
    rule: spec_fn(Kernel, Seq<i32>) -> Option<Seq<i32>>,
) -> Result<PlaneSamples, ReconstructionError> {
    let width = input.width as int;
    let height = input.height as int;
    if 2 * width > usize::MAX {
        Err(ReconstructionError::ArithmeticOverflow("upsampled chroma width"))
    } else if height * (2 * width) > usize::MAX {
        Err(ReconstructionError::ArithmeticOverflow("horizontal chroma allocation"))
    } else if exists|row: int, column: int|
        0 <= row < height && 0 <= column < width && (#[trigger] row_pair(
            input.samples,
            width,
            row,
            column,
            centering,
            rule,
        )) is None {
        Err(ReconstructionError::ArithmeticOverflow("horizontal chroma interpolation"))
    } else if 2 * input.origin_x > u32::MAX {
        Err(ReconstructionError::ArithmeticOverflow("upsampled x origin"))
    } else if 2 * width > u32::MAX {
        Err(ReconstructionError::ArithmeticOverflow("upsampled width conversion"))
    } else {
        Ok(
            PlaneSamples {
                origin_x: (2 * input.origin_x) as u32,
                origin_y: input.origin_y,
                width: (2 * width) as u32,
                height: input.height,
                samples: widened_samples(input.samples, width, height, centering, rule),
            },
        )
    }
}

/// A plane with twice as many rows.
pub open spec fn heightened(
    input: PlaneSamples,
    centering: u8,
    rule: spec_fn(Kernel, Seq<i32>) -> Option<Seq<i32>>,
) -> Result<PlaneSamples, ReconstructionError> {
    let width = input.width as int;
    let height = input.height as int;
    if 2 * height > usize::MAX {
        Err(ReconstructionError::ArithmeticOverflow("upsampled chroma height"))
    } else if (2 * height) * width > usize::MAX {
        Err(ReconstructionError::ArithmeticOverflow("vertical chroma allocation"))
    } else if exists|row: int, column: int|
        0 <= row < height && 0 <= column < width && (#[trigger] column_pair(
            input.samples,
            width,
            height,
            row,
            column,
            centering,
            rule,
        )) is None {
        Err(ReconstructionError::ArithmeticOverflow("vertical chroma interpolation"))
    } else if 2 * input.origin_y > u32::MAX {
        Err(ReconstructionError::ArithmeticOverflow("upsampled y origin"))
    } else if 2 * height > u32::MAX {
        Err(ReconstructionError::ArithmeticOverflow("upsampled height conversion"))
    } else {
        Ok(
            PlaneSamples {
                origin_x: input.origin_x,
                origin_y: (2 * input.origin_y) as u32,
                width: input.width,
                height: (2 * height) as u32,
                samples: heightened_samples(input.samples, width, height, centering, rule),
            },
        )
    }
}

fn upsample_pair<K: Fn(Kernel, [i32; 16]) -> Option<[i32; 16]>>(
    previous: i32,
    current: i32,
    next: i32,
    centering: u8,
    kernels: &K,
) -> (output: Option<[i32; 16]>)
    requires
        kernels::callable(*kernels),
    ensures
        forall|rule: spec_fn(Kernel, Seq<i32>) -> Option<Seq<i32>>| #[trigger]
            kernels::runs(*kernels, rule) ==> match (
                output,
                rule(
                    Kernel::UpsampleChroma(centering),
                    kernels::padded(seq![previous, current, next]),
                ),
            ) {
                (Some(output), Some(expected)) => output@ == expected,
                (None, None) => true,
                _ => false,
            },
{
    let values: [i32; 16] = [previous, current, next, 0, 0, 0, 0, 0, 0, 0, 0, 0, 0, 0, 0, 0];
    assert(values@ =~= kernels::padded(seq![previous, current, next]));
    kernels(Kernel::UpsampleChroma(centering), values)
}

fn upsample_horizontal<K: Fn(Kernel, [i32; 16]) -> Option<[i32; 16]>>(
    input: &PlanarSamples,
    centering: u8,
    kernels: &K,
) -> (result: Result<PlanarSamples, ReconstructionError>)
    requires
        kernels::callable(*kernels),
        plane_error(input@) is None,
    ensures
        forall|rule: spec_fn(Kernel, Seq<i32>) -> Option<Seq<i32>>| #[trigger]
            kernels::runs(*kernels, rule) ==> pipeline::yields(
                result,
                widened(input@, centering, rule),
            ),
{
    let width: usize = input.width as usize;
    let height: usize = input.height as usize;
    let length: usize = input.samples.len();
    let output_width: usize = match width.checked_mul(2) {
        Some(width) => width,
        None => return Err(ReconstructionError::ArithmeticOverflow("upsampled chroma width")),
    };
    let capacity: usize = match height.checked_mul(output_width) {
        Some(capacity) => capacity,
        None => {
            return Err(ReconstructionError::ArithmeticOverflow("horizontal chroma allocation"));
        },
    };
    let mut samples: Vec<i32> = Vec::new();
    proof {
        assert(width * height == height * width) by (nonlinear_arith);
        assert(0 * output_width == 0) by (nonlinear_arith);
        assert(height * output_width >= 0) by (nonlinear_arith);
        assert forall|rule: spec_fn(Kernel, Seq<i32>) -> Option<Seq<i32>>| #[trigger]
            kernels::runs(*kernels, rule) implies samples@ == widened_samples(
            input.samples@,
            width as int,
            height as int,
            centering,
            rule,
        ).take(0) by {
            let whole = widened_samples(
                input.samples@,
                width as int,
                height as int,
                centering,
                rule,
            );
            assert(samples@ =~= whole.take(0));
        }
    }
    for row in 0..height
        invariant
            kernels::callable(*kernels),
            width == input.width,
            height == input.height,
            width >= 1,
            length == input.samples@.len(),
            length == height * width,
            output_width == 2 * width,
            capacity == height * output_width,
            samples@.len() == row * output_width,
            forall|rule: spec_fn(Kernel, Seq<i32>) -> Option<Seq<i32>>,
                earlier: int,
                column: int|
                kernels::runs(*kernels, rule) && 0 <= earlier < row && 0 <= column < width ==> (
                #[trigger] row_pair(
                    input.samples@,
                    width as int,
                    earlier,
                    column,
                    centering,
                    rule,
                )) is Some,
            forall|rule: spec_fn(Kernel, Seq<i32>) -> Option<Seq<i32>>| #[trigger]
                kernels::runs(*kernels, rule) ==> samples@ == widened_samples(
                    input.samples@,
                    width as int,
                    height as int,
                    centering,
                    rule,
                ).take(row * output_width),
    {
        proof {
            raster::lemma_row_major(
                row as int,
                output_width - 1,
                height as int,
                output_width as int,
            );
            raster::lemma_row_major(row as int, 0, height as int, width as int);
            raster::lemma_row_major(row as int, width - 1, height as int, width as int);
            assert((row + 1) * output_width == row * output_width + output_width)
                by (nonlinear_arith);
        }
        for column in 0..width
            invariant
                kernels::callable(*kernels),
                width == input.width,
                height == input.height,
                width >= 1,
                row < height,
                length == input.samples@.len(),
                length == height * width,
                output_width == 2 * width,
                capacity == height * output_width,
                0 <= row * width <= row * width + width <= length,
                0 <= row * output_width <= row * output_width + output_width <= capacity,
                samples@.len() == row * output_width + 2 * column,
                forall|rule: spec_fn(Kernel, Seq<i32>) -> Option<Seq<i32>>,
                    earlier: int,
                    place: int|
                    kernels::runs(*kernels, rule) && 0 <= earlier <= row && 0 <= place < (
                    if earlier < row {
                        width as int
                    } else {
                        column as int
                    }) ==> (#[trigger] row_pair(
                        input.samples@,
                        width as int,
                        earlier,
                        place,
                        centering,
                        rule,
                    )) is Some,
                forall|rule: spec_fn(Kernel, Seq<i32>) -> Option<Seq<i32>>| #[trigger]
                    kernels::runs(*kernels, rule) ==> samples@ == widened_samples(
                        input.samples@,
                        width as int,
                        height as int,
                        centering,
                        rule,
                    ).take(row * output_width + 2 * column),
        {
            let start: usize = row * width;
            let before: usize = if column > 0 {
                column - 1
            } else {
                0
            };
            let behind: usize = if column + 1 < width {
                column + 1
            } else {
                width - 1
            };
            let pair: Option<[i32; 16]> = upsample_pair(
                input.samples[start + before],
                input.samples[start + column],
                input.samples[start + behind],
                centering,
                kernels,
            );
            let pair: [i32; 16] = match pair {
                Some(pair) => pair,
                None => {
                    proof {
                        assert forall|rule: spec_fn(Kernel, Seq<i32>) -> Option<Seq<i32>>|
                            #[trigger] kernels::runs(*kernels, rule) implies row_pair(
                            input.samples@,
                            width as int,
                            row as int,
                            column as int,
                            centering,
                            rule,
                        ) is None by {}
                    }
                    return Err(
                        ReconstructionError::ArithmeticOverflow("horizontal chroma interpolation"),
                    );
                },
            };
            samples.push(pair[0]);
            samples.push(pair[1]);
            proof {
                assert forall|rule: spec_fn(Kernel, Seq<i32>) -> Option<Seq<i32>>| #[trigger]
                    kernels::runs(*kernels, rule) implies samples@ == widened_samples(
                    input.samples@,
                    width as int,
                    height as int,
                    centering,
                    rule,
                ).take(row * output_width + 2 * (column + 1)) by {
                    let whole = widened_samples(
                        input.samples@,
                        width as int,
                        height as int,
                        centering,
                        rule,
                    );
                    let first = row * output_width + 2 * column;
                    raster::lemma_parts(row as int, 2 * column as int, output_width as int);
                    raster::lemma_parts(row as int, 2 * column + 1, output_width as int);
                    assert(row_pair(
                        input.samples@,
                        width as int,
                        row as int,
                        column as int,
                        centering,
                        rule,
                    ) == Some(pair@));
                    assert(whole[first] == pair@[0]);
                    assert(whole[first + 1] == pair@[1]);
                    assert(samples@ =~= whole.take(first + 2));
                }
            }
        }
    }
    proof {
        assert forall|rule: spec_fn(Kernel, Seq<i32>) -> Option<Seq<i32>>| #[trigger]
            kernels::runs(*kernels, rule) implies samples@ == widened_samples(
            input.samples@,
            width as int,
            height as int,
            centering,
            rule,
        ) by {
            let whole = widened_samples(
                input.samples@,
                width as int,
                height as int,
                centering,
                rule,
            );
            assert(samples@ =~= whole);
        }
    }
    let origin_x: u32 = match input.origin_x.checked_mul(2) {
        Some(origin) => origin,
        None => return Err(ReconstructionError::ArithmeticOverflow("upsampled x origin")),
    };
    if output_width > u32::MAX as usize {
        return Err(ReconstructionError::ArithmeticOverflow("upsampled width conversion"));
    }
    Ok(
        PlanarSamples {
            origin_x,
            origin_y: input.origin_y,
            width: output_width as u32,
            height: input.height,
            samples,
        },
    )
}

fn upsample_vertical<K: Fn(Kernel, [i32; 16]) -> Option<[i32; 16]>>(
    input: &PlanarSamples,
    centering: u8,
    kernels: &K,
) -> (result: Result<PlanarSamples, ReconstructionError>)
    requires
        kernels::callable(*kernels),
        plane_error(input@) is None,
    ensures
        result matches Ok(plane) ==> plane_error(plane@) is None,
        forall|rule: spec_fn(Kernel, Seq<i32>) -> Option<Seq<i32>>| #[trigger]
            kernels::runs(*kernels, rule) ==> pipeline::yields(
                result,
                heightened(input@, centering, rule),
            ),
{
    let width: usize = input.width as usize;
    let height: usize = input.height as usize;
    let length: usize = input.samples.len();
    let output_height: usize = match height.checked_mul(2) {
        Some(height) => height,
        None => return Err(ReconstructionError::ArithmeticOverflow("upsampled chroma height")),
    };
    let capacity: usize = match output_height.checked_mul(width) {
        Some(capacity) => capacity,
        None => return Err(ReconstructionError::ArithmeticOverflow("vertical chroma allocation")),
    };
    let mut samples: Vec<i32> = Vec::new();
    proof {
        assert(width * height == height * width) by (nonlinear_arith);
        assert((2 * 0) * width == 0) by (nonlinear_arith);
        assert((2 * height) * width >= 0) by (nonlinear_arith);
        assert forall|rule: spec_fn(Kernel, Seq<i32>) -> Option<Seq<i32>>| #[trigger]
            kernels::runs(*kernels, rule) implies samples@ == heightened_samples(
            input.samples@,
            width as int,
            height as int,
            centering,
            rule,
        ).take(0) by {
            let whole = heightened_samples(
                input.samples@,
                width as int,
                height as int,
                centering,
                rule,
            );
            assert(samples@ =~= whole.take(0));
        }
    }
    for row in 0..height
        invariant
            kernels::callable(*kernels),
            width == input.width,
            height == input.height,
            width >= 1,
            length == input.samples@.len(),
            length == height * width,
            output_height == 2 * height,
            capacity == output_height * width,
            samples@.len() == (2 * row) * width,
            forall|rule: spec_fn(Kernel, Seq<i32>) -> Option<Seq<i32>>,
                earlier: int,
                column: int|
                kernels::runs(*kernels, rule) && 0 <= earlier < row && 0 <= column < width ==> (
                #[trigger] column_pair(
                    input.samples@,
                    width as int,
                    height as int,
                    earlier,
                    column,
                    centering,
                    rule,
                )) is Some,
            forall|rule: spec_fn(Kernel, Seq<i32>) -> Option<Seq<i32>>| #[trigger]
                kernels::runs(*kernels, rule) ==> samples@ == heightened_samples(
                    input.samples@,
                    width as int,
                    height as int,
                    centering,
                    rule,
                ).take((2 * row) * width),
    {
        let above: usize = if row > 0 {
            row - 1
        } else {
            0
        };
        let below: usize = if row + 1 < height {
            row + 1
        } else {
            height - 1
        };
        proof {
            raster::lemma_row_major(2 * row + 1, width - 1, output_height as int, width as int);
            raster::lemma_row_major(above as int, width - 1, height as int, width as int);
            raster::lemma_row_major(row as int, width - 1, height as int, width as int);
            raster::lemma_row_major(below as int, width - 1, height as int, width as int);
            assert((2 * row + 1) * width == (2 * row) * width + width) by (nonlinear_arith);
            assert((2 * (row + 1)) * width == (2 * row) * width + 2 * width) by (nonlinear_arith);
        }
        let mut upper: Vec<i32> = Vec::new();
        let mut lower: Vec<i32> = Vec::new();
        for column in 0..width
            invariant
                kernels::callable(*kernels),
                width == input.width,
                height == input.height,
                width >= 1,
                row < height,
                above == (if row > 0 {
                    row - 1
                } else {
                    0
                }),
                below == (if row + 1 < height {
                    row + 1
                } else {
                    height - 1
                }),
                length == input.samples@.len(),
                length == height * width,
                output_height == 2 * height,
                capacity == output_height * width,
                0 <= above * width <= above * width + width <= length,
                0 <= row * width <= row * width + width <= length,
                0 <= below * width <= below * width + width <= length,
                upper@.len() == column,
                lower@.len() == column,
                forall|rule: spec_fn(Kernel, Seq<i32>) -> Option<Seq<i32>>,
                    earlier: int,
                    place: int|
                    kernels::runs(*kernels, rule) && 0 <= earlier <= row && 0 <= place < (
                    if earlier < row {
                        width as int
                    } else {
                        column as int
                    }) ==> (#[trigger] column_pair(
                        input.samples@,
                        width as int,
                        height as int,
                        earlier,
                        place,
                        centering,
                        rule,
                    )) is Some,
                forall|rule: spec_fn(Kernel, Seq<i32>) -> Option<Seq<i32>>, place: int|
                    kernels::runs(*kernels, rule) && 0 <= place < column ==> upper@[place] == (
                    #[trigger] column_pair(
                        input.samples@,
                        width as int,
                        height as int,
                        row as int,
                        place,
                        centering,
                        rule,
                    ))->0[0] && lower@[place] == column_pair(
                        input.samples@,
                        width as int,
                        height as int,
                        row as int,
                        place,
                        centering,
                        rule,
                    )->0[1],
        {
            let pair: Option<[i32; 16]> = upsample_pair(
                input.samples[above * width + column],
                input.samples[row * width + column],
                input.samples[below * width + column],
                centering,
                kernels,
            );
            let pair: [i32; 16] = match pair {
                Some(pair) => pair,
                None => {
                    proof {
                        assert forall|rule: spec_fn(Kernel, Seq<i32>) -> Option<Seq<i32>>|
                            #[trigger] kernels::runs(*kernels, rule) implies column_pair(
                            input.samples@,
                            width as int,
                            height as int,
                            row as int,
                            column as int,
                            centering,
                            rule,
                        ) is None by {}
                    }
                    return Err(
                        ReconstructionError::ArithmeticOverflow("vertical chroma interpolation"),
                    );
                },
            };
            proof {
                assert forall|rule: spec_fn(Kernel, Seq<i32>) -> Option<Seq<i32>>| #[trigger]
                    kernels::runs(*kernels, rule) implies column_pair(
                    input.samples@,
                    width as int,
                    height as int,
                    row as int,
                    column as int,
                    centering,
                    rule,
                ) == Some(pair@) by {}
            }
            upper.push(pair[0]);
            lower.push(pair[1]);
        }
        let ghost before = samples@;
        let ghost first = upper@;
        let ghost second = lower@;
        samples.append(&mut upper);
        samples.append(&mut lower);
        proof {
            assert forall|rule: spec_fn(Kernel, Seq<i32>) -> Option<Seq<i32>>| #[trigger]
                kernels::runs(*kernels, rule) implies samples@ == heightened_samples(
                input.samples@,
                width as int,
                height as int,
                centering,
                rule,
            ).take((2 * (row + 1)) * width) by {
                let whole = heightened_samples(
                    input.samples@,
                    width as int,
                    height as int,
                    centering,
                    rule,
                );
                let start = (2 * row) * width;
                assert forall|place: int| 0 <= place < 2 * width implies #[trigger] whole[start
                    + place] == (first + second)[place] by {
                    if place < width {
                        raster::lemma_parts(2 * row as int, place, width as int);
                    } else {
                        raster::lemma_parts(2 * row + 1, place - width, width as int);
                    }
                    assert(column_pair(
                        input.samples@,
                        width as int,
                        height as int,
                        row as int,
                        if place < width {
                            place
                        } else {
                            place - width
                        },
                        centering,
                        rule,
                    ) is Some);
                }
                assert forall|index: int| 0 <= index < start + 2 * width implies samples@[index]
                    == whole[index] by {
                    if index >= start {
                        assert(whole[start + (index - start)] == (first + second)[index - start]);
                    } else {
                        assert(before[index] == whole.take(start)[index]);
                    }
                }
                assert(samples@ =~= whole.take(start + 2 * width));
            }
        }
    }
    proof {
        assert forall|rule: spec_fn(Kernel, Seq<i32>) -> Option<Seq<i32>>| #[trigger]
            kernels::runs(*kernels, rule) implies samples@ == heightened_samples(
            input.samples@,
            width as int,
            height as int,
            centering,
            rule,
        ) by {
            let whole = heightened_samples(
                input.samples@,
                width as int,
                height as int,
                centering,
                rule,
            );
            assert(samples@ =~= whole);
        }
    }
    let origin_y: u32 = match input.origin_y.checked_mul(2) {
        Some(origin) => origin,
        None => return Err(ReconstructionError::ArithmeticOverflow("upsampled y origin")),
    };
    if output_height > u32::MAX as usize {
        return Err(ReconstructionError::ArithmeticOverflow("upsampled height conversion"));
    }
    assert(width * output_height == output_height * width) by (nonlinear_arith);
    Ok(
        PlanarSamples {
            origin_x: input.origin_x,
            origin_y,
            width: input.width,
            height: output_height as u32,
            samples,
        },
    )
}

/// Sixteen zeros.
pub open spec fn zeros() -> Seq<i32> {
    Seq::new(16, |index: int| 0i32)
}

/// Whether a chroma-grid offset is known.
pub open spec fn known_centering(
    value: u8,
    rule: spec_fn(Kernel, Seq<i32>) -> Option<Seq<i32>>,
) -> bool {
    rule(Kernel::KnownCentering(value), zeros()) is Some
}

fn centering<K: Fn(Kernel, [i32; 16]) -> Option<[i32; 16]>>(
    value: u8,
    operation: &'static str,
    kernels: &K,
) -> (result: Result<u8, ReconstructionError>)
    requires
        kernels::callable(*kernels),
    ensures
        forall|rule: spec_fn(Kernel, Seq<i32>) -> Option<Seq<i32>>| #[trigger]
            kernels::runs(*kernels, rule) ==> result == (if known_centering(value, rule) {
                Ok::<u8, ReconstructionError>(value)
            } else {
                Err(ReconstructionError::Unsupported(operation))
            }),
{
    let values: [i32; 16] = [0;16];
    assert(values@ =~= zeros());
    match kernels(Kernel::KnownCentering(value), values) {
        Some(_) => Ok(value),
        None => Err(ReconstructionError::Unsupported(operation)),
    }
}

/// A chroma plane at full resolution, or the first reason why there is none.
pub open spec fn full_plane(
    input: PlaneSamples,
    config: ChromaReconstructionConfig,
    rule: spec_fn(Kernel, Seq<i32>) -> Option<Seq<i32>>,
) -> Result<PlaneSamples, ReconstructionError> {
    let double_height = config.sampling == ChromaSampling::Cs420;
    let size = size_error(input, config.full_width, config.full_height, double_height);
    let tall = heightened(input, config.centering_y, rule);
    if plane_error(input) is Some {
        Err(plane_error(input)->0)
    } else if !known_centering(config.centering_x, rule) {
        Err(ReconstructionError::Unsupported("horizontal chroma centering"))
    } else if config.sampling == ChromaSampling::Cs444 {
        Err(ReconstructionError::Unsupported("YUV444 chroma does not require upsampling"))
    } else if size is Some {
        Err(size->0)
    } else if !double_height {
        widened(input, config.centering_x, rule)
    } else if !known_centering(config.centering_y, rule) {
        Err(ReconstructionError::Unsupported("vertical chroma centering"))
    } else if tall is Err {
        tall
    } else {
        widened(tall->Ok_0, config.centering_x, rule)
    }
}

fn reconstruct_plane<K: Fn(Kernel, [i32; 16]) -> Option<[i32; 16]>>(
    input: &PlanarSamples,
    config: ChromaReconstructionConfig,
    kernels: &K,
) -> (result: Result<PlanarSamples, ReconstructionError>)
    requires
        kernels::callable(*kernels),
    ensures
        forall|rule: spec_fn(Kernel, Seq<i32>) -> Option<Seq<i32>>| #[trigger]
            kernels::runs(*kernels, rule) ==> pipeline::yields(
                result,
                full_plane(input@, config, rule),
            ),
{
    validate_plane(input)?;
    let centering_x: u8 = centering(config.centering_x, "horizontal chroma centering", kernels)?;
    match config.sampling {
        ChromaSampling::Cs422 => {
            validate_geometry(input, config.full_width, config.full_height, false)?;
            upsample_horizontal(input, centering_x, kernels)
        },
        ChromaSampling::Cs420 => {
            validate_geometry(input, config.full_width, config.full_height, true)?;
            let centering_y: u8 = centering(
                config.centering_y,
                "vertical chroma centering",
                kernels,
            )?;
            let vertical: PlanarSamples = upsample_vertical(input, centering_y, kernels)?;
            upsample_horizontal(&vertical, centering_x, kernels)
        },
        ChromaSampling::Cs444 => Err(
            ReconstructionError::Unsupported("YUV444 chroma does not require upsampling"),
        ),
    }
}

/// Both chroma planes at full resolution, or the first reason why they are not there.
pub open spec fn full_chroma(
    u: PlaneSamples,
    v: PlaneSamples,
    config: ChromaReconstructionConfig,
    rule: spec_fn(Kernel, Seq<i32>) -> Option<Seq<i32>>,
) -> Result<(PlaneSamples, PlaneSamples), ReconstructionError> {
    let first = full_plane(u, config, rule);
    let second = full_plane(v, config, rule);
    if u.width != v.width || u.height != v.height || u.origin_x != v.origin_x || u.origin_y
        != v.origin_y {
        Err(ReconstructionError::InvalidPlaneGeometry("U and V dimensions differ"))
    } else if first is Err {
        Err(first->Err_0)
    } else if second is Err {
        Err(second->Err_0)
    } else {
        Ok((first->Ok_0, second->Ok_0))
    }
}

/// Reconstruct U and V to full resolution.
///
/// The returned planes are YUV444 geometry and can be passed directly to the output formatter
/// together with a full-resolution luma plane.
pub fn reconstruct_chroma_444<K: Fn(Kernel, [i32; 16]) -> Option<[i32; 16]>>(
    u: &PlanarSamples,
    v: &PlanarSamples,
    config: ChromaReconstructionConfig,
    kernels: &K,
) -> (result: Result<[PlanarSamples; 2], ReconstructionError>)
    requires
        kernels::callable(*kernels),
    ensures
        forall|rule: spec_fn(Kernel, Seq<i32>) -> Option<Seq<i32>>| #[trigger]
            kernels::runs(*kernels, rule) ==> match (result, full_chroma(u@, v@, config, rule)) {
                (Ok(planes), Ok(expected)) => (planes[0]@, planes[1]@) == expected,
                (Err(error), Err(expected)) => error == expected,
                _ => false,
            },
{
    if u.width != v.width || u.height != v.height || u.origin_x != v.origin_x || u.origin_y
        != v.origin_y {
        return Err(ReconstructionError::InvalidPlaneGeometry("U and V dimensions differ"));
    }
    let first: PlanarSamples = reconstruct_plane(u, config, kernels)?;
    let second: PlanarSamples = reconstruct_plane(v, config, kernels)?;
    Ok([first, second])
}

} // verus!

//! Crop, clipping, and luma packing.

use crate::reconstruct::contract::{PlanarSamples, PlaneSamples, ReconstructionError};
use crate::reconstruct::raster;
use crate::types::CropWindow;
use vstd::prelude::*;

verus! {

/// A sample, moved to the nearest number from `low` to `high`.
#[verifier::allow_in_spec]
pub fn clamp_sample(sample: i32, low: i32, high: i32) -> i32
    returns
        (if sample < low {
            low
        } else if sample > high {
            high
        } else {
            sample
        }),
{
    if sample < low {
        low
    } else if sample > high {
        high
    } else {
        sample
    }
}

/// Why a window cannot be cut out of a plane, if it cannot.
pub open spec fn crop_error(plane: PlaneSamples, crop: CropWindow) -> Option<ReconstructionError> {
    if crop.x + crop.width > plane.width || crop.y + crop.height > plane.height {
        Some(ReconstructionError::CropOutsidePlane)
    } else if plane.width * plane.height > usize::MAX {
        Some(ReconstructionError::ArithmeticOverflow("plane sample count"))
    } else if plane.samples.len() < plane.width * plane.height {
        Some(
            ReconstructionError::BufferTooSmall {
                required: (plane.width * plane.height) as usize,
                available: plane.samples.len() as usize,
            },
        )
    } else {
        None
    }
}

/// The samples of a window of a plane, row by row.
pub open spec fn cropped(plane: PlaneSamples, crop: CropWindow) -> Seq<i32> {
    Seq::new(
        (crop.height * crop.width) as nat,
        |index: int|
            plane.samples[(crop.y + index / crop.width as int) * plane.width + (crop.x + index
                % crop.width as int)],
    )
}

fn checked_crop(plane: &PlanarSamples, crop: CropWindow) -> (result: Result<
    (),
    ReconstructionError,
>)
    ensures
        result == (match crop_error(plane@, crop) {
            Some(error) => Err::<(), ReconstructionError>(error),
            None => Ok(()),
        }),
        result is Ok ==> plane.width * plane.height <= plane.samples@.len(),
{
    let right: u32 = match crop.x.checked_add(crop.width) {
        Some(right) => right,
        None => return Err(ReconstructionError::CropOutsidePlane),
    };
    let bottom: u32 = match crop.y.checked_add(crop.height) {
        Some(bottom) => bottom,
        None => return Err(ReconstructionError::CropOutsidePlane),
    };
    if right > plane.width || bottom > plane.height {
        return Err(ReconstructionError::CropOutsidePlane);
    }
    let required: usize = match (plane.width as usize).checked_mul(plane.height as usize) {
        Some(required) => required,
        None => return Err(ReconstructionError::ArithmeticOverflow("plane sample count")),
    };
    if plane.samples.len() < required {
        return Err(
            ReconstructionError::BufferTooSmall { required, available: plane.samples.len() },
        );
    }
    Ok(())
}

/// The sample in a row and a column of a window is one of the plane.
proof fn lemma_cropped_place(plane: PlaneSamples, crop: CropWindow, row: int, column: int)
    requires
        crop_error(plane, crop) is None,
        0 <= row < crop.height,
        0 <= column < crop.width,
    ensures
        0 <= (crop.y + row) * plane.width,
        0 <= (crop.y + row) * plane.width + (crop.x + column) < plane.samples.len(),
        0 <= row * crop.width + column < cropped(plane, crop).len(),
        cropped(plane, crop)[row * crop.width + column] == plane.samples[(crop.y + row)
            * plane.width + (crop.x + column)],
{
    raster::lemma_row_major(
        crop.y + row,
        crop.x + column,
        plane.height as int,
        plane.width as int,
    );
    assert(plane.width * plane.height == plane.height * plane.width) by (nonlinear_arith);
    raster::lemma_row_major(row, column, crop.height as int, crop.width as int);
    raster::lemma_parts(row, column, crop.width as int);
}

/// Rows that were finished.
proof fn lemma_rows(plane: PlaneSamples, crop: CropWindow, row: int)
    requires
        0 <= row < crop.height,
    ensures
        (row + 1) * crop.width == row * crop.width + crop.width,
        0 <= row * crop.width <= row * crop.width + crop.width <= cropped(plane, crop).len(),
{
    assert((row + 1) * crop.width == row * crop.width + crop.width) by (nonlinear_arith);
    assert(0 <= row * crop.width && row * crop.width + crop.width <= crop.height * crop.width)
        by (nonlinear_arith)
        requires
            0 <= row,
            row + 1 <= crop.height,
            0 <= crop.width,
    ;
}

/// Bytes of samples, each moved to the nearest byte.
pub open spec fn clipped_bytes(samples: Seq<i32>) -> Seq<u8> {
    Seq::new(samples.len(), |index: int| clamp_sample(samples[index], 0, 255) as u8)
}

/// Words of samples, each moved to the nearest word.
pub open spec fn clipped_words(samples: Seq<i32>) -> Seq<u16> {
    Seq::new(samples.len(), |index: int| clamp_sample(samples[index], 0, 65_535) as u16)
}

/// Crop and clip already biased/post-scaled luma samples to unsigned 8-bit values.
///
/// This function deliberately does not apply bias or post-scaling: its input contract begins after
/// those output-formatting stages.
pub fn pack_luma_u8(plane: &PlanarSamples, crop: CropWindow) -> (result: Result<
    Vec<u8>,
    ReconstructionError,
>)
    ensures
        match (result, crop_error(plane@, crop)) {
            (Ok(bytes), None) => bytes@ == clipped_bytes(cropped(plane@, crop)),
            (Err(error), Some(expected)) => error == expected,
            _ => false,
        },
{
    checked_crop(plane, crop)?;
    let length: usize = plane.samples.len();
    let stride: usize = plane.width as usize;
    let ghost expected = clipped_bytes(cropped(plane@, crop));
    let mut output: Vec<u8> = Vec::new();
    proof {
        assert(0 * crop.width == 0) by (nonlinear_arith);
        assert(output@ =~= expected.take(0));
    }
    for row in 0..crop.height
        invariant
            crop_error(plane@, crop) is None,
            expected == clipped_bytes(cropped(plane@, crop)),
            length == plane.samples@.len(),
            stride == plane.width,
            output@ == expected.take(row * crop.width),
    {
        proof {
            lemma_rows(plane@, crop, row as int);
        }
        for column in 0..crop.width
            invariant
                crop_error(plane@, crop) is None,
                expected == clipped_bytes(cropped(plane@, crop)),
                length == plane.samples@.len(),
                stride == plane.width,
                row < crop.height,
                output@ == expected.take(row * crop.width + column),
        {
            proof {
                lemma_cropped_place(plane@, crop, row as int, column as int);
            }
            let place: usize = (crop.y as usize + row as usize) * stride + (crop.x as usize
                + column as usize);
            output.push(clamp_sample(plane.samples[place], 0, 255) as u8);
            assert(output@ =~= expected.take(row * crop.width + column + 1));
        }
    }
    assert(output@ =~= expected);
    Ok(output)
}

/// Crop and clip already biased/post-scaled luma samples to unsigned 16-bit values.
///
/// This function deliberately does not apply bias or post-scaling: its input contract begins after
/// those output-formatting stages.
pub fn pack_luma_u16(plane: &PlanarSamples, crop: CropWindow) -> (result: Result<
    Vec<u16>,
    ReconstructionError,
>)
    ensures
        match (result, crop_error(plane@, crop)) {
            (Ok(words), None) => words@ == clipped_words(cropped(plane@, crop)),
            (Err(error), Some(expected)) => error == expected,
            _ => false,
        },
{
    checked_crop(plane, crop)?;
    let length: usize = plane.samples.len();
    let stride: usize = plane.width as usize;
    let ghost expected = clipped_words(cropped(plane@, crop));
    let mut output: Vec<u16> = Vec::new();
    proof {
        assert(0 * crop.width == 0) by (nonlinear_arith);
        assert(output@ =~= expected.take(0));
    }
    for row in 0..crop.height
        invariant
            crop_error(plane@, crop) is None,
            expected == clipped_words(cropped(plane@, crop)),
            length == plane.samples@.len(),
            stride == plane.width,
            output@ == expected.take(row * crop.width),
    {
        proof {
            lemma_rows(plane@, crop, row as int);
        }
        for column in 0..crop.width
            invariant
                crop_error(plane@, crop) is None,
                expected == clipped_words(cropped(plane@, crop)),
                length == plane.samples@.len(),
                stride == plane.width,
                row < crop.height,
                output@ == expected.take(row * crop.width + column),
        {
            proof {
                lemma_cropped_place(plane@, crop, row as int, column as int);
            }
            let place: usize = (crop.y as usize + row as usize) * stride + (crop.x as usize
                + column as usize);
            output.push(clamp_sample(plane.samples[place], 0, 65_535) as u16);
            assert(output@ =~= expected.take(row * crop.width + column + 1));
        }
    }
    assert(output@ =~= expected);
    Ok(output)
}

} // verus!

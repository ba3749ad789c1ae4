//! Common unsigned planar packing.

use crate::cpu::CpuCapabilities;
use crate::output_format::error::OutputFormatError;
use crate::reconstruct::packing::clamp_sample;
use crate::reconstruct::raster;
use vstd::prelude::*;

verus! {

/// Number of samples from which vector units are used.
pub const MIN_VECTOR_SAMPLES: usize = 64;

/// What is added to a sample before it is clipped: the bias, and for scaled streams the rounding.
#[verifier::allow_in_spec]
pub fn byte_addition(scaled: bool) -> i32
    returns
        (if scaled {
            1_027i32
        } else {
            128i32
        }),
{
    if scaled {
        1_027
    } else {
        128
    }
}

/// The byte of a sample.
pub open spec fn byte_of(sample: i32, scaled: bool) -> u8 {
    let divided = if scaled {
        (sample + 1_027) / 8
    } else {
        sample + 128
    };
    clamp_sample(divided as i32, 0, 255) as u8
}

/// The place of the first sample of a row of a window.
pub open spec fn row_place(stride: int, start: Seq<usize>, row: int) -> int {
    (start[1] + row) * stride + start[0]
}

/// Whether all samples of a row can be raised.
pub open spec fn row_can_be_raised(input: Seq<i32>, place: int, width: int, scaled: bool) -> bool {
    forall|index: int|
        place <= index < place + width ==> #[trigger] input[index] <= i32::MAX - byte_addition(
            scaled,
        )
}

/// Why the first rows of a window cannot be packed, if they cannot.
pub open spec fn rows_error(
    input: Seq<i32>,
    stride: int,
    start: Seq<usize>,
    width: int,
    rows: nat,
    scaled: bool,
) -> Option<OutputFormatError>
    decreases rows,
{
    if rows == 0 {
        None
    } else {
        let earlier = rows_error(input, stride, start, width, (rows - 1) as nat, scaled);
        let place = row_place(stride, start, rows - 1);
        if earlier is Some {
            earlier
        } else if place > usize::MAX {
            Some(OutputFormatError::arithmetic("calculating SIMD input row"))
        } else if place + width > input.len() {
            Some(
                OutputFormatError::InvalidPlane {
                    component: None,
                    reason: "SIMD input row exceeds component plane",
                },
            )
        } else if !row_can_be_raised(input, place, width, scaled) {
            Some(OutputFormatError::arithmetic("adding output bias"))
        } else {
            None
        }
    }
}

/// Once a row is refused, later rows do not matter; and no refused row means that each row can be
/// packed.
pub(crate) proof fn lemma_rows_error(
    input: Seq<i32>,
    stride: int,
    start: Seq<usize>,
    width: int,
    some: nat,
    rows: nat,
    scaled: bool,
)
    requires
        some <= rows,
    ensures
        rows_error(input, stride, start, width, some, scaled) is Some ==> rows_error(
            input,
            stride,
            start,
            width,
            rows,
            scaled,
        ) == rows_error(input, stride, start, width, some, scaled),
        rows_error(input, stride, start, width, rows, scaled) is None ==> forall|row: int|
            0 <= row < rows ==> (#[trigger] row_place(stride, start, row)) + width <= input.len()
                && row_place(stride, start, row) <= usize::MAX && row_can_be_raised(
                input,
                row_place(stride, start, row),
                width,
                scaled,
            ),
    decreases rows,
{
    if rows > 0 {
        if some < rows {
            lemma_rows_error(input, stride, start, width, some, (rows - 1) as nat, scaled);
        } else {
            lemma_rows_error(
                input,
                stride,
                start,
                width,
                (rows - 1) as nat,
                (rows - 1) as nat,
                scaled,
            );
        }
    }
}

/// The bytes of a window, row by row.
pub open spec fn window_bytes(
    input: Seq<i32>,
    stride: int,
    start: Seq<usize>,
    width: int,
    height: int,
    scaled: bool,
) -> Seq<u8> {
    Seq::new(
        (height * width) as nat,
        |index: int|
            byte_of(input[row_place(stride, start, index / width) + index % width], scaled),
    )
}

/// Why a window cannot be packed into so many bytes, if it cannot.
pub open spec fn packing_error(
    input: Seq<i32>,
    stride: int,
    start: Seq<usize>,
    width: int,
    height: int,
    scaled: bool,
    available: int,
) -> Option<OutputFormatError> {
    if height * width > usize::MAX {
        Some(OutputFormatError::arithmetic("calculating SIMD output length"))
    } else if available != height * width {
        Some(
            OutputFormatError::unsupported(
                "SIMD U8 destination length differs from the output contract",
            ),
        )
    } else {
        rows_error(input, stride, start, width, height as nat, scaled)
    }
}

fn check_rows(
    input: &[i32],
    stride: usize,
    start: [usize; 2],
    width: usize,
    height: usize,
    scaled: bool,
) -> (result: Result<(), OutputFormatError>)
    requires
        start[1] + height <= usize::MAX,
    ensures
        result == (match rows_error(
            input@,
            stride as int,
            start@,
            width as int,
            height as nat,
            scaled,
        ) {
            Some(error) => Err::<(), OutputFormatError>(error),
            None => Ok(()),
        }),
{
    let limit: i32 = i32::MAX - byte_addition(scaled);
    let length: usize = input.len();
    for row in 0..height
        invariant
            start[1] + height <= usize::MAX,
            limit == i32::MAX - byte_addition(scaled),
            length == input@.len(),
            rows_error(input@, stride as int, start@, width as int, row as nat, scaled) is None,
    {
        proof {
            lemma_rows_error(
                input@,
                stride as int,
                start@,
                width as int,
                (row + 1) as nat,
                height as nat,
                scaled,
            );
        }
        let place: usize = match (start[1] + row).checked_mul(stride) {
            Some(place) => match place.checked_add(start[0]) {
                Some(place) => place,
                None => return Err(OutputFormatError::arithmetic("calculating SIMD input row")),
            },
            None => return Err(OutputFormatError::arithmetic("calculating SIMD input row")),
        };
        assert(place == row_place(stride as int, start@, row as int));
        if place > length || length - place < width {
            return Err(
                OutputFormatError::InvalidPlane {
                    component: None,
                    reason: "SIMD input row exceeds component plane",
                },
            );
        }
        for column in 0..width
            invariant
                length == input@.len(),
                place + width <= length,
                limit == i32::MAX - byte_addition(scaled),
                place == row_place(stride as int, start@, row as int),
                row < height,
                rows_error(input@, stride as int, start@, width as int, row as nat, scaled) is None,
                rows_error(
                    input@,
                    stride as int,
                    start@,
                    width as int,
                    (row + 1) as nat,
                    scaled,
                ) is Some ==> rows_error(
                    input@,
                    stride as int,
                    start@,
                    width as int,
                    height as nat,
                    scaled,
                ) == rows_error(
                    input@,
                    stride as int,
                    start@,
                    width as int,
                    (row + 1) as nat,
                    scaled,
                ),
                forall|index: int| place <= index < place + column ==> #[trigger] input@[index]
                    <= limit,
        {
            if input[place + column] > limit {
                assert(!row_can_be_raised(input@, place as int, width as int, scaled));
                return Err(OutputFormatError::arithmetic("adding output bias"));
            }
        }
        assert(row_can_be_raised(input@, place as int, width as int, scaled));
    }
    Ok(())
}

fn pack_byte(sample: i32, scaled: bool) -> (byte: u8)
    requires
        sample <= i32::MAX - byte_addition(scaled),
    ensures
        byte == byte_of(sample, scaled),
{
    let raised: i32 = sample + byte_addition(scaled);
    assert(raised >> 3u32 == raised / 8) by (bit_vector);
    let divided: i32 = if scaled {
        raised >> 3
    } else {
        raised
    };
    clamp_sample(divided, 0, 255) as u8
}

/// Bytes, some of which are replaced.
pub open spec fn with_bytes(bytes: Seq<u8>, offset: int, replacement: Seq<u8>) -> Seq<u8> {
    Seq::new(
        bytes.len(),
        |index: int|
            if offset <= index < offset + replacement.len() {
                replacement[index - offset]
            } else {
                bytes[index]
            },
    )
}

fn pack_rows(
    input: &[i32],
    stride: usize,
    start: [usize; 2],
    width: usize,
    height: usize,
    scaled: bool,
    output: &mut Vec<u8>,
    offset: usize,
)
    requires
        start[1] + height <= usize::MAX,
        rows_error(input@, stride as int, start@, width as int, height as nat, scaled) is None,
        offset + height * width <= old(output)@.len(),
    ensures
        final(output)@ == with_bytes(
            old(output)@,
            offset as int,
            window_bytes(input@, stride as int, start@, width as int, height as int, scaled),
        ),
{
    let ghost bytes = window_bytes(
        input@,
        stride as int,
        start@,
        width as int,
        height as int,
        scaled,
    );
    let total: usize = output.len();
    let length: usize = input.len();
    proof {
        lemma_rows_error(
            input@,
            stride as int,
            start@,
            width as int,
            height as nat,
            height as nat,
            scaled,
        );
        assert(0 * width == 0) by (nonlinear_arith);
        assert(height * width >= 0) by (nonlinear_arith);
        assert(output@ =~= with_bytes(old(output)@, offset as int, bytes.take(0)));
    }
    for row in 0..height
        invariant
            start[1] + height <= usize::MAX,
            length == input@.len(),
            total == output@.len(),
            total == old(output)@.len(),
            offset + height * width <= total,
            bytes == window_bytes(
                input@,
                stride as int,
                start@,
                width as int,
                height as int,
                scaled,
            ),
            forall|row: int|
                0 <= row < height ==> (#[trigger] row_place(stride as int, start@, row)) + width
                    <= input@.len() && row_can_be_raised(
                    input@,
                    row_place(stride as int, start@, row),
                    width as int,
                    scaled,
                ),
            output@ == with_bytes(old(output)@, offset as int, bytes.take(row * width)),
    {
        proof {
            assert((start[1] + row) * stride >= 0) by (nonlinear_arith)
                requires
                    start[1] + row >= 0,
                    stride >= 0,
            ;
            assert((row + 1) * width == row * width + width) by (nonlinear_arith);
            assert(0 <= row * width && row * width + width <= height * width) by (nonlinear_arith)
                requires
                    row + 1 <= height,
                    0 <= row,
                    0 <= width,
            ;
        }
        assert(row_place(stride as int, start@, row as int) + width <= input@.len());
        assert(row_place(stride as int, start@, row as int) == (start[1] + row) * stride + start[0]);
        let place: usize = (start[1] + row) * stride + start[0];
        let target: usize = offset + row * width;
        for column in 0..width
            invariant
                length == input@.len(),
                total == output@.len(),
                total == old(output)@.len(),
                row < height,
                place == row_place(stride as int, start@, row as int),
                place + width <= length,
                row_can_be_raised(input@, place as int, width as int, scaled),
                target == offset + row * width,
                0 <= row * width <= row * width + width <= height * width,
                offset + height * width <= total,
                bytes == window_bytes(
                    input@,
                    stride as int,
                    start@,
                    width as int,
                    height as int,
                    scaled,
                ),
                output@ == with_bytes(old(output)@, offset as int, bytes.take(row * width + column)),
        {
            assert(input@[place + column] <= i32::MAX - byte_addition(scaled));
            output.set(target + column, pack_byte(input[place + column], scaled));
            proof {
                raster::lemma_parts(row as int, column as int, width as int);
                assert(bytes[row * width + column] == byte_of(input@[place + column], scaled));
                assert(output@ =~= with_bytes(
                    old(output)@,
                    offset as int,
                    bytes.take(row * width + column + 1),
                ));
            }
        }
    }
    assert(bytes.take(height * width) =~= bytes);
}

/// Packs a window into bytes, and returns whether vector units are used for so many samples.
///
/// Vector units change how fast the samples are packed, never what comes out.
pub fn pack_u8_into(
    cpu: CpuCapabilities,
    input: &[i32],
    stride: usize,
    start: [usize; 2],
    dimensions: [usize; 2],
    scaled: bool,
    output: &mut Vec<u8>,
) -> (result: Result<bool, OutputFormatError>)
    requires
        start[1] + dimensions[1] <= usize::MAX,
    ensures
        match packing_error(
            input@,
            stride as int,
            start@,
            dimensions[0] as int,
            dimensions[1] as int,
            scaled,
            old(output)@.len() as int,
        ) {
            Some(error) => result == Err::<bool, OutputFormatError>(error) && final(output)@ == old(
                output,
            )@,
            None => result == Ok::<bool, OutputFormatError>(
                dimensions[1] * dimensions[0] >= MIN_VECTOR_SAMPLES && cpu.vectorizes(),
            ) && final(output)@ == window_bytes(
                input@,
                stride as int,
                start@,
                dimensions[0] as int,
                dimensions[1] as int,
                scaled,
            ),
        },
{
    let width: usize = dimensions[0];
    let height: usize = dimensions[1];
    let count: usize = match height.checked_mul(width) {
        Some(count) => count,
        None => return Err(OutputFormatError::arithmetic("calculating SIMD output length")),
    };
    if output.len() != count {
        return Err(
            OutputFormatError::unsupported(
                "SIMD U8 destination length differs from the output contract",
            ),
        );
    }
    check_rows(input, stride, start, width, height, scaled)?;
    pack_rows(input, stride, start, width, height, scaled, output, 0);
    assert(output@ =~= window_bytes(
        input@,
        stride as int,
        start@,
        width as int,
        height as int,
        scaled,
    ));
    Ok(count >= MIN_VECTOR_SAMPLES && cpu.accelerates_i32())
}

/// Appends a window to bytes, and returns whether vector units are used for so many samples.
pub fn append_u8(
    cpu: CpuCapabilities,
    input: &[i32],
    stride: usize,
    start: [usize; 2],
    dimensions: [usize; 2],
    scaled: bool,
    output: &mut Vec<u8>,
) -> (result: Result<bool, OutputFormatError>)
    requires
        start[1] + dimensions[1] <= usize::MAX,
    ensures
        result == (if dimensions[1] * dimensions[0] > usize::MAX {
            Err::<bool, OutputFormatError>(
                OutputFormatError::arithmetic("calculating SIMD output length"),
            )
        } else if old(output)@.len() + dimensions[1] * dimensions[0] > usize::MAX {
            Err(OutputFormatError::arithmetic("growing SIMD output"))
        } else {
            match rows_error(
                input@,
                stride as int,
                start@,
                dimensions[0] as int,
                dimensions[1] as nat,
                scaled,
            ) {
                Some(error) => Err(error),
                None => Ok(
                    dimensions[1] * dimensions[0] >= MIN_VECTOR_SAMPLES && cpu.vectorizes(),
                ),
            }
        }),
        result is Ok ==> final(output)@ == old(output)@ + window_bytes(
            input@,
            stride as int,
            start@,
            dimensions[0] as int,
            dimensions[1] as int,
            scaled,
        ),
{
    let width: usize = dimensions[0];
    let height: usize = dimensions[1];
    let count: usize = match height.checked_mul(width) {
        Some(count) => count,
        None => return Err(OutputFormatError::arithmetic("calculating SIMD output length")),
    };
    let output_start: usize = output.len();
    if output_start.checked_add(count).is_none() {
        return Err(OutputFormatError::arithmetic("growing SIMD output"));
    }
    check_rows(input, stride, start, width, height, scaled)?;
    for index in 0..count
        invariant
            output@.len() == output_start + index,
            forall|earlier: int|
                0 <= earlier < output_start ==> output@[earlier] == old(output)@[earlier],
            output_start == old(output)@.len(),
    {
        output.push(0);
    }
    pack_rows(input, stride, start, width, height, scaled, output, output_start);
    assert(output@ =~= old(output)@ + window_bytes(
        input@,
        stride as int,
        start@,
        width as int,
        height as int,
        scaled,
    ));
    Ok(count >= MIN_VECTOR_SAMPLES && cpu.accelerates_i32())
}

} // verus!

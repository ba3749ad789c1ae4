//! Samples of one bit, packed from the highest bit of each byte on.

use crate::output_format::error::OutputFormatError;
use crate::output_format::pixels;
use crate::output_format::pixels::color_components;
use crate::output_format::request::{
    ComponentPlane, OutputBitDepth, OutputFormatRequest, PlaneView,
};
use crate::output_format::samples;
use crate::output_format::scaling;
use crate::output_format::scaling::scale_integer_component;
use crate::output_format::validate;
use crate::reconstruct::packing::clamp_sample;
use crate::reconstruct::raster;
use crate::types::ColorFormat;
use vstd::prelude::*;

verus! {

/// The bytes of a row of samples of one bit.
#[verifier::allow_in_spec]
pub fn row_bytes(width: u32) -> u32
    returns
        (if width % 8 == 0 {
            width / 8
        } else {
            (width / 8 + 1) as u32
        }),
{
    if width % 8 == 0 {
        width / 8
    } else {
        width / 8 + 1
    }
}

/// The bit of the pixel at a place of the crop.
pub open spec fn bit_of(
    planes: Seq<PlaneView>,
    request: OutputFormatRequest,
    x: int,
    y: int,
) -> Result<int, OutputFormatError> {
    match pixels::color_at(planes, request, x, y) {
        Err(error) => Err(error),
        Ok(colors) => match scaling::scaled_component(
            colors[0],
            0,
            ColorFormat::Luma,
            request.bit_depth,
            request.scaled,
        ) {
            Err(error) => Err(error),
            Ok(value) => if request.bit_depth == OutputBitDepth::Bit1Black {
                Ok(1 - clamp_sample(value, 0, 1))
            } else {
                Ok(clamp_sample(value, 0, 1) as int)
            },
        },
    }
}

/// The bits of the first pixels of the crop, row by row.
pub open spec fn image_bits(planes: Seq<PlaneView>, request: OutputFormatRequest, count: nat) -> Result<
    Seq<int>,
    OutputFormatError,
>
    decreases count,
{
    if count == 0 {
        Ok(Seq::empty())
    } else {
        let width = request.crop.width as int;
        match image_bits(planes, request, (count - 1) as nat) {
            Err(error) => Err(error),
            Ok(earlier) => match bit_of(planes, request, (count - 1) % width, (count - 1) / width) {
                Err(error) => Err(error),
                Ok(bit) => Ok(earlier.push(bit)),
            },
        }
    }
}

/// What a bit of a byte counts; the first bit counts most.
#[verifier::allow_in_spec]
pub fn weight(place: u32) -> u8
    returns
        (if place == 0 {
            128u8
        } else if place == 1 {
            64
        } else if place == 2 {
            32
        } else if place == 3 {
            16
        } else if place == 4 {
            8
        } else if place == 5 {
            4
        } else if place == 6 {
            2
        } else {
            1
        }),
{
    match place {
        0 => 128,
        1 => 64,
        2 => 32,
        3 => 16,
        4 => 8,
        5 => 4,
        6 => 2,
        _ => 1,
    }
}

/// The byte of some bits, with zero bits behind them.
pub open spec fn byte_of_bits(bits: Seq<int>, start: int, count: nat) -> int
    decreases count,
{
    if count == 0 {
        0
    } else {
        byte_of_bits(bits, start, (count - 1) as nat) + bits[start + count - 1] * weight(
            (count - 1) as u32,
        )
    }
}

/// The bits that a byte of a row holds.
pub open spec fn bits_in_byte(width: int, column: int) -> nat {
    if width - 8 * column < 8 {
        (width - 8 * column) as nat
    } else {
        8
    }
}

/// The bytes of rows of bits. Each row begins with a new byte.
pub open spec fn packed_bits(bits: Seq<int>, width: u32, height: u32) -> Seq<int> {
    let columns = row_bytes(width) as int;
    Seq::new(
        (height * columns) as nat,
        |index: int|
            byte_of_bits(
                bits,
                (index / columns) * width + 8 * (index % columns),
                bits_in_byte(width as int, index % columns),
            ),
    )
}

/// A byte depends on its own bits only.
proof fn lemma_byte_of_bits(bits: Seq<int>, others: Seq<int>, start: int, count: nat)
    requires
        forall|index: int| start <= index < start + count ==> #[trigger] bits[index]
            == others[index],
    ensures
        byte_of_bits(bits, start, count) == byte_of_bits(others, start, count),
    decreases count,
{
    if count > 0 {
        lemma_byte_of_bits(bits, others, start, (count - 1) as nat);
        assert(bits[start + count - 1] == others[start + count - 1]);
    }
}

/// There are as many bits as pixels, and once a pixel is refused, later ones do not matter.
pub(crate) proof fn lemma_image_bits(
    planes: Seq<PlaneView>,
    request: OutputFormatRequest,
    some: nat,
    count: nat,
)
    requires
        some <= count,
    ensures
        image_bits(planes, request, some) is Err ==> image_bits(planes, request, count)
            == image_bits(planes, request, some),
        image_bits(planes, request, count) is Ok ==> image_bits(planes, request, count)->Ok_0.len()
            == count,
        image_bits(planes, request, count) is Ok ==> image_bits(planes, request, some) is Ok
            && image_bits(planes, request, count)->Ok_0.take(some as int) == image_bits(
            planes,
            request,
            some,
        )->Ok_0,
    decreases count,
{
    if some < count {
        lemma_image_bits(planes, request, some, (count - 1) as nat);
        if image_bits(planes, request, count) is Ok {
            assert(image_bits(planes, request, count)->Ok_0.take(some as int) =~= image_bits(
                planes,
                request,
                (count - 1) as nat,
            )->Ok_0.take(some as int));
        }
    } else {
        if count > 0 {
            lemma_image_bits(planes, request, (count - 1) as nat, (count - 1) as nat);
        }
        if image_bits(planes, request, count) is Ok {
            assert(image_bits(planes, request, count)->Ok_0.take(some as int) =~= image_bits(
                planes,
                request,
                count,
            )->Ok_0);
        }
    }
}

fn pixel_bit(
    planes: &[ComponentPlane<'_>],
    request: OutputFormatRequest,
    x: usize,
    y: usize,
    Ghost(alpha): Ghost<Option<PlaneView>>,
) -> (result: Result<u8, OutputFormatError>)
    requires
        pixels::accepted(validate::plane_views(planes@), alpha, request),
        x < request.crop.width,
        y < request.crop.height,
    ensures
        match (
            result,
            bit_of(validate::plane_views(planes@), request, x as int, y as int),
        ) {
            (Ok(bit), Ok(expected)) => bit == expected && bit <= 1,
            (Err(error), Err(expected)) => error == expected,
            _ => false,
        },
{
    let colors: [i32; 4] = color_components(planes, request, x, y, Ghost(alpha))?;
    let scaled: i32 = scale_integer_component(
        colors[0],
        0,
        ColorFormat::Luma,
        request.bit_depth,
        request.scaled,
    )?;
    let clipped: i32 = clamp_sample(scaled, 0, 1);
    if request.bit_depth == OutputBitDepth::Bit1Black {
        Ok((1 - clipped) as u8)
    } else {
        Ok(clipped as u8)
    }
}

/// What the bits of a byte from a place on count, and one more.
spec fn room(place: u32) -> int {
    if place >= 8 {
        1
    } else {
        2 * weight(place)
    }
}

/// Puts a bit at a place of a byte that has none there.
fn with_bit(byte: u8, bit: u8, place: u32) -> (result: u8)
    requires
        bit <= 1,
        place < 8,
        byte + room(place) <= 256,
    ensures
        result == byte + bit * weight(place),
        result + room((place + 1) as u32) <= 256,
{
    if bit == 1 {
        byte + weight(place)
    } else {
        byte
    }
}

/// Gives one byte of a row.
fn row_byte(
    planes: &[ComponentPlane<'_>],
    request: OutputFormatRequest,
    column: usize,
    y: usize,
    Ghost(alpha): Ghost<Option<PlaneView>>,
) -> (result: Result<u8, OutputFormatError>)
    requires
        pixels::accepted(validate::plane_views(planes@), alpha, request),
        8 * column < request.crop.width,
        y < request.crop.height,
        image_bits(
            validate::plane_views(planes@),
            request,
            (y * request.crop.width + 8 * column) as nat,
        ) is Ok,
    ensures
        match (
            result,
            image_bits(
                validate::plane_views(planes@),
                request,
                (y * request.crop.width + 8 * column + bits_in_byte(
                    request.crop.width as int,
                    column as int,
                )) as nat,
            ),
        ) {
            (Ok(byte), Ok(bits)) => byte == byte_of_bits(
                bits,
                y * request.crop.width + 8 * column,
                bits_in_byte(request.crop.width as int, column as int),
            ),
            (Err(error), Err(expected)) => error == expected,
            _ => false,
        },
{
    let ghost views = validate::plane_views(planes@);
    let width: usize = request.crop.width as usize;
    let count: usize = if width - 8 * column < 8 {
        width - 8 * column
    } else {
        8
    };
    let ghost start = y * width + 8 * column;
    let mut byte: u8 = 0;
    proof {
        assert(y * width >= 0) by (nonlinear_arith);
    }
    for place in 0..count
        invariant
            views == validate::plane_views(planes@),
            pixels::accepted(views, alpha, request),
            width == request.crop.width,
            y < request.crop.height,
            count <= 8,
            count == bits_in_byte(width as int, column as int),
            8 * column + count <= width,
            start == y * width + 8 * column,
            start >= 0,
            image_bits(views, request, (start + place) as nat) is Ok,
            byte == byte_of_bits(
                image_bits(views, request, (start + place) as nat)->Ok_0,
                start,
                place as nat,
            ),
            byte + room(place as u32) <= 256,
    {
        proof {
            raster::lemma_parts(y as int, 8 * column + place, width as int);
            lemma_image_bits(
                views,
                request,
                (start + place + 1) as nat,
                (start + count) as nat,
            );
            lemma_image_bits(views, request, (start + place) as nat, (start + place + 1) as nat);
        }
        let bit: u8 = pixel_bit(planes, request, 8 * column + place, y, Ghost(alpha))?;
        proof {
            let earlier = image_bits(views, request, (start + place) as nat)->Ok_0;
            let later = image_bits(views, request, (start + place + 1) as nat)->Ok_0;
            assert forall|index: int| start <= index < start + place implies #[trigger]
                earlier[index] == later[index] by {
                assert(later.take(start + place)[index] == earlier[index]);
            }
            lemma_byte_of_bits(earlier, later, start, place as nat);
            assert(later[start + place] == bit);
        }
        byte = with_bit(byte, bit, place as u32);
    }
    Ok(byte)
}

/// Packs the bits of all pixels of the crop into a buffer of their size.
pub(crate) fn fill_bits(
    planes: &[ComponentPlane<'_>],
    request: OutputFormatRequest,
    output: &mut Vec<u8>,
    Ghost(alpha): Ghost<Option<PlaneView>>,
) -> (result: Result<(), OutputFormatError>)
    requires
        pixels::accepted(validate::plane_views(planes@), alpha, request),
        old(output)@.len() == request.crop.height * row_bytes(request.crop.width),
    ensures
        final(output)@.len() == old(output)@.len(),
        match (
            result,
            image_bits(
                validate::plane_views(planes@),
                request,
                (request.crop.height * request.crop.width) as nat,
            ),
        ) {
            (Ok(_), Ok(bits)) => samples::numbers(final(output)@) == packed_bits(
                bits,
                request.crop.width,
                request.crop.height,
            ),
            (Err(error), Err(expected)) => error == expected,
            _ => false,
        },
{
    let ghost views = validate::plane_views(planes@);
    let width: usize = request.crop.width as usize;
    let height: usize = request.crop.height as usize;
    let columns: usize = row_bytes(request.crop.width) as usize;
    let total: usize = output.len();
    let ghost pixels = height * width;
    let mut index: usize = 0;
    assert(0 * width == 0) by (nonlinear_arith);
    assert(0 * columns == 0) by (nonlinear_arith);
    for y in 0..height
        invariant
            views == validate::plane_views(planes@),
            pixels::accepted(views, alpha, request),
            width == request.crop.width,
            height == request.crop.height,
            columns == row_bytes(request.crop.width),
            pixels == height * width,
            total == height * columns,
            total == output@.len(),
            total == old(output)@.len(),
            index == y * columns,
            image_bits(views, request, (y * width) as nat) is Ok,
            forall|place: int|
                0 <= place < index ==> #[trigger] output@[place] == packed_bits(
                    image_bits(views, request, (y * width) as nat)->Ok_0,
                    request.crop.width,
                    request.crop.height,
                )[place],
    {
        proof {
            assert((y + 1) * width == y * width + width) by (nonlinear_arith);
            assert((y + 1) * columns == y * columns + columns) by (nonlinear_arith);
            assert(0 <= y * width && y * width + width <= height * width) by (nonlinear_arith)
                requires
                    y + 1 <= height,
                    0 <= y,
                    0 <= width,
            ;
            assert(0 <= y * columns && y * columns + columns <= height * columns)
                by (nonlinear_arith)
                requires
                    y + 1 <= height,
                    0 <= y,
                    0 <= columns,
            ;
        }
        let ghost mut gathered = y * width;
        for column in 0..columns
            invariant
                views == validate::plane_views(planes@),
                pixels::accepted(views, alpha, request),
                width == request.crop.width,
                height == request.crop.height,
                columns == row_bytes(request.crop.width),
                pixels == height * width,
                y < height,
                0 <= y * width <= y * width + width <= pixels,
                0 <= y * columns <= y * columns + columns <= total,
                total == height * columns,
                total == output@.len(),
                total == old(output)@.len(),
                index == y * columns + column,
                gathered == y * width + (if column == columns {
                    width as int
                } else {
                    8 * column
                }),
                image_bits(views, request, gathered as nat) is Ok,
                forall|place: int|
                    0 <= place < index ==> #[trigger] output@[place] == packed_bits(
                        image_bits(views, request, gathered as nat)->Ok_0,
                        request.crop.width,
                        request.crop.height,
                    )[place],
        {
            let ghost next = gathered + bits_in_byte(width as int, column as int);
            let ghost earlier = image_bits(views, request, gathered as nat);
            let ghost later = image_bits(views, request, next as nat);
            proof {
                lemma_image_bits(views, request, next as nat, pixels as nat);
                lemma_image_bits(views, request, gathered as nat, next as nat);
                raster::lemma_parts(y as int, column as int, columns as int);
            }
            let byte: u8 = row_byte(planes, request, column, y, Ghost(alpha))?;
            proof {
                assert forall|place: int| 0 <= place < index implies #[trigger] packed_bits(
                    earlier->Ok_0,
                    request.crop.width,
                    request.crop.height,
                )[place] == packed_bits(later->Ok_0, request.crop.width, request.crop.height)[place] by {
                    lemma_earlier_byte(
                        earlier->Ok_0,
                        later->Ok_0,
                        request.crop.width,
                        place,
                        y as int,
                        column as int,
                        columns as int,
                    );
                }
            }
            let ghost before = output@;
            output.set(index, byte);
            proof {
                gathered = next;
                assert forall|place: int| 0 <= place < index + 1 implies #[trigger] output@[place]
                    == packed_bits(later->Ok_0, request.crop.width, request.crop.height)[place] by {
                    if place < index {
                        assert(output@[place] == before[place]);
                        assert(packed_bits(earlier->Ok_0, request.crop.width, request.crop.height)[place]
                            == packed_bits(later->Ok_0, request.crop.width, request.crop.height)[place]);
                    }
                }
            }
            index = index + 1;
        }
    }
    proof {
        lemma_image_bits(views, request, pixels as nat, pixels as nat);
        assert(samples::numbers(output@) =~= packed_bits(
            image_bits(views, request, pixels as nat)->Ok_0,
            request.crop.width,
            request.crop.height,
        ));
    }
    Ok(())
}

/// A byte before a place does not depend on the bits from that place on.
proof fn lemma_earlier_byte(
    earlier: Seq<int>,
    later: Seq<int>,
    width: u32,
    place: int,
    y: int,
    column: int,
    columns: int,
)
    requires
        columns == row_bytes(width),
        0 <= y,
        0 <= column < columns,
        0 <= place < y * columns + column,
        earlier.len() == y * width + 8 * column,
        earlier.len() <= later.len(),
        later.take(earlier.len() as int) == earlier,
    ensures
        byte_of_bits(
            earlier,
            (place / columns) * width + 8 * (place % columns),
            bits_in_byte(width as int, place % columns),
        ) == byte_of_bits(
            later,
            (place / columns) * width + 8 * (place % columns),
            bits_in_byte(width as int, place % columns),
        ),
{
    let row = place / columns;
    let byte = place % columns;
    let start = row * width + 8 * byte;
    let count = bits_in_byte(width as int, byte);
    vstd::arithmetic::div_mod::lemma_fundamental_div_mod(place, columns);
    assert(columns * row == row * columns) by (nonlinear_arith);
    assert(row <= y) by (nonlinear_arith)
        requires
            row * columns <= place,
            place < y * columns + columns,
            columns > 0,
    ;
    assert(row >= 0) by (nonlinear_arith)
        requires
            place == row * columns + byte,
            place >= 0,
            byte < columns,
            columns > 0,
    ;
    assert(row * width >= 0) by (nonlinear_arith)
        requires
            row >= 0,
            width >= 0,
    ;
    if row < y {
        assert(row * width + width <= y * width) by (nonlinear_arith)
            requires
                row + 1 <= y,
                width >= 0,
        ;
    }
    assert forall|index: int| start <= index < start + count implies #[trigger] earlier[index]
        == later[index] by {
        assert(later.take(earlier.len() as int)[index] == later[index]);
    }
    lemma_byte_of_bits(earlier, later, start, count);
}

} // verus!

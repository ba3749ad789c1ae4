//! Which bits of the input each header field is made of.
//!
//! The fields are described by their places in the input, counted in bits from its start.

use super::types::{HeaderFlags, HeadersModel, ImageModel, PlaneModel};
use crate::bit_reader::HeaderCursor;
use crate::bits;
use crate::error::NativeError;
use crate::header;
use vstd::arithmetic::power2::{lemma2_to64, lemma_pow2_strictly_increases, pow2};
use vstd::prelude::*;

verus! {

/// The number that `width` bits write, from a place on.
pub open spec fn field(bytes: Seq<u8>, place: int, width: nat) -> int {
    bits::bits_value(bytes, place, width) as int
}

/// Whether the bit at a place is set.
pub open spec fn set(bytes: Seq<u8>, place: int) -> bool {
    field(bytes, place, 1) == 1
}

/// Whether the input has all bits before a place.
pub open spec fn reaches(bytes: Seq<u8>, place: int) -> bool {
    place <= 8 * bytes.len() && place <= usize::MAX
}

/// Eight bits from a byte boundary on write the byte that begins there.
pub proof fn lemma_bytes_are_fields(bytes: Seq<u8>, index: int)
    requires
        0 <= index < bytes.len(),
    ensures
        field(bytes, 8 * index, 8) == bytes[index],
{
    reveal_with_fuel(bits::bits_value, 9);
    let byte = bytes[index];
    assert forall|offset: int| 0 <= offset < 8 implies #[trigger] bits::bit_at(
        bytes,
        8 * index + offset,
    ) == ((byte >> ((7 - offset) as u8)) & 1u8) by {
        assert((8 * index + offset) / 8 == index);
    }
    assert(bits::bit_at(bytes, 8 * index) == bits::bit_at(bytes, 8 * index + 0));
    assert(byte == 128 * ((byte >> 7u8) & 1u8) + 64 * ((byte >> 6u8) & 1u8) + 32 * ((byte >> 5u8)
        & 1u8) + 16 * ((byte >> 4u8) & 1u8) + 8 * ((byte >> 3u8) & 1u8) + 4 * ((byte >> 2u8) & 1u8)
        + 2 * ((byte >> 1u8) & 1u8) + ((byte >> 0u8) & 1u8)) by (bit_vector);
}

/// Reading a field gives its number and moves over it, if and only if the input has its bits.
proof fn lemma_read(cursor: HeaderCursor, count: u8)
    requires
        cursor.error is None,
        count <= 32,
    ensures
        ({
            let (value, next) = cursor.read(count);
            let end = cursor.position + count;
            &&& next.error is None <==> reaches(cursor.bytes, end)
            &&& next.error is None ==> next.position == end && next.bytes == cursor.bytes && value
                == field(cursor.bytes, cursor.position as int, count as nat)
        }),
        0 <= field(cursor.bytes, cursor.position as int, count as nat) < pow2(count as nat),
        pow2(count as nat) <= 0x1_0000_0000,
{
    bits::lemma_bits_value_bound(cursor.bytes, cursor.position as int, count as nat);
    lemma2_to64();
    if count < 32 {
        lemma_pow2_strictly_increases(count as nat, 32);
    }
}

proof fn lemma_read_flag(cursor: HeaderCursor)
    requires
        cursor.error is None,
    ensures
        ({
            let (value, next) = cursor.read_flag();
            let end = cursor.position + 1;
            &&& next.error is None <==> reaches(cursor.bytes, end)
            &&& next.error is None ==> next.position == end && next.bytes == cursor.bytes && value
                == set(cursor.bytes, cursor.position as int)
        }),
{
    lemma_read(cursor, 1);
    lemma2_to64();
}

proof fn lemma_read_u8(cursor: HeaderCursor, count: u8)
    requires
        cursor.error is None,
        count <= 8,
    ensures
        ({
            let (value, next) = cursor.read_u8(count);
            let end = cursor.position + count;
            &&& next.error is None <==> reaches(cursor.bytes, end)
            &&& next.error is None ==> next.position == end && next.bytes == cursor.bytes && value
                == field(cursor.bytes, cursor.position as int, count as nat)
        }),
        0 <= field(cursor.bytes, cursor.position as int, count as nat) < 256,
        count == 2 ==> field(cursor.bytes, cursor.position as int, count as nat) < 4,
        count == 3 ==> field(cursor.bytes, cursor.position as int, count as nat) < 8,
        count == 4 ==> field(cursor.bytes, cursor.position as int, count as nat) < 16,
{
    lemma_read(cursor, count);
    lemma2_to64();
    if count < 8 {
        lemma_pow2_strictly_increases(count as nat, 8);
    }
}

proof fn lemma_read_u16(cursor: HeaderCursor, count: u8)
    requires
        cursor.error is None,
        count <= 16,
    ensures
        ({
            let (value, next) = cursor.read_u16(count);
            let end = cursor.position + count;
            &&& next.error is None <==> reaches(cursor.bytes, end)
            &&& next.error is None ==> next.position == end && next.bytes == cursor.bytes && value
                == field(cursor.bytes, cursor.position as int, count as nat)
        }),
        0 <= field(cursor.bytes, cursor.position as int, count as nat) < 65536,
        count == 4 ==> field(cursor.bytes, cursor.position as int, count as nat) < 16,
        count == 12 ==> field(cursor.bytes, cursor.position as int, count as nat) < 4096,
{
    lemma_read(cursor, count);
    lemma2_to64();
    if count < 16 {
        lemma_pow2_strictly_increases(count as nat, 16);
    }
}

/// The bits that the quantizers of a band take: the bit that says whether there are any, for more
/// than one component two bits of mode, and eight bits for each number.
pub open spec fn quantizer_width(bytes: Seq<u8>, place: int, components: int) -> int {
    if !set(bytes, place) {
        1
    } else if components == 1 {
        9
    } else if field(bytes, place + 1, 2) == 0 {
        11
    } else if field(bytes, place + 1, 2) == 1 {
        19
    } else {
        3 + 8 * components
    }
}

/// Whether the quantizers at a place have a mode that is not reserved.
pub open spec fn quantizers_allowed(bytes: Seq<u8>, place: int, components: int) -> bool {
    set(bytes, place) && components != 1 ==> field(bytes, place + 1, 2) != 3
}

/// The quantizer of a component, by the bits at a place: the number for all components, the number
/// of the first one or of the others, or its own number.
pub open spec fn quantizer_bits(bytes: Seq<u8>, place: int, components: int, component: int) -> int {
    if components == 1 {
        field(bytes, place + 1, 8)
    } else if field(bytes, place + 1, 2) == 0 {
        field(bytes, place + 3, 8)
    } else if field(bytes, place + 1, 2) == 1 {
        if component == 0 {
            field(bytes, place + 3, 8)
        } else {
            field(bytes, place + 11, 8)
        }
    } else {
        field(bytes, place + 3 + 8 * component, 8)
    }
}

/// Whether quantizers are those that the bits at a place say.
pub open spec fn quantizers_written(
    bytes: Seq<u8>,
    place: int,
    components: int,
    quantizers: Option<Seq<u8>>,
) -> bool {
    &&& quantizers is Some <==> set(bytes, place)
    &&& quantizers matches Some(values) ==> values.len() == components && forall|component: int|
        0 <= component < components ==> #[trigger] values[component] == quantizer_bits(
            bytes,
            place,
            components,
            component,
        )
}

proof fn lemma_octets(cursor: HeaderCursor, count: nat)
    requires
        cursor.error is None,
        reaches(cursor.bytes, cursor.position as int),
    ensures
        ({
            let (values, next) = cursor.octets(count);
            let end = cursor.position + 8 * count;
            &&& values.len() == count
            &&& next.error is None <==> reaches(cursor.bytes, end)
            &&& next.error is None ==> next.position == end && next.bytes == cursor.bytes
                && forall|index: int|
                0 <= index < count ==> #[trigger] values[index] == field(
                    cursor.bytes,
                    cursor.position + 8 * index,
                    8,
                )
        }),
    decreases count,
{
    if count > 0 {
        let earlier = (count - 1) as nat;
        lemma_octets(cursor, earlier);
        let (values, next) = cursor.octets(earlier);
        if next.error is None {
            lemma_read_u8(next, 8);
        }
    }
}

/// The quantizers of a band are those that their bits say, and they can be read if and only if the
/// input has their bits and their mode is not reserved.
pub proof fn lemma_quantizer_bits(cursor: HeaderCursor, components: u16)
    requires
        cursor.error is None,
        components >= 1,
        reaches(cursor.bytes, cursor.position as int),
    ensures
        ({
            let (quantizers, next) = cursor.optional_quantizers(components);
            let place = cursor.position as int;
            let end = place + quantizer_width(cursor.bytes, place, components as int);
            &&& next.error is None <==> reaches(cursor.bytes, end) && quantizers_allowed(
                cursor.bytes,
                place,
                components as int,
            )
            &&& next.error is None ==> next.position == end && next.bytes == cursor.bytes
                && quantizers_written(cursor.bytes, place, components as int, quantizers)
        }),
{
    let bytes = cursor.bytes;
    let place = cursor.position as int;
    lemma_read_flag(cursor);
    let (present, c1) = cursor.read_flag();
    if c1.error is None && present {
        if components == 1 {
            lemma_read_u8(c1, 8);
        } else {
            lemma_read_u8(c1, 2);
            let (mode, c2) = c1.read_u8(2);
            if c2.error is None {
                lemma_read_u8(c2, 8);
                let c3 = c2.read_u8(8).1;
                if c3.error is None {
                    lemma_read_u8(c3, 8);
                }
                lemma_octets(c2, components as nat);
            } else {
                assert(c2.octets(components as nat).1.error is Some) by {
                    lemma_octets_failed(c2, components as nat);
                }
            }
        }
    } else if c1.error is Some {
        lemma_octets_failed(c1, components as nat);
    }
}

proof fn lemma_octets_failed(cursor: HeaderCursor, count: nat)
    requires
        cursor.error is Some,
    ensures
        cursor.octets(count).1 == cursor,
    decreases count,
{
    if count > 0 {
        lemma_octets_failed(cursor, (count - 1) as nat);
    }
}

/// Whether the DC, low-pass and high-pass quantizers are those that the bits at a place say, one
/// band behind the other, with a reserved bit before each band above DC that is present.
pub open spec fn bands_written(
    bytes: Seq<u8>,
    place: int,
    components: int,
    bands: int,
    dc: Option<Seq<u8>>,
    low_pass: Option<Seq<u8>>,
    high_pass: Option<Seq<u8>>,
) -> bool {
    let low_place = place + quantizer_width(bytes, place, components) + 1;
    let high_place = low_place + quantizer_width(bytes, low_place, components) + 1;
    &&& quantizers_written(bytes, place, components, dc)
    &&& if bands <= 2 {
        quantizers_written(bytes, low_place, components, low_pass)
    } else {
        low_pass is None
    }
    &&& if bands <= 1 {
        quantizers_written(bytes, high_place, components, high_pass)
    } else {
        high_pass is None
    }
}

/// The place behind the quantizers of all bands.
pub open spec fn bands_end(bytes: Seq<u8>, place: int, components: int, bands: int) -> int {
    let low_place = place + quantizer_width(bytes, place, components) + 1;
    let high_place = low_place + quantizer_width(bytes, low_place, components) + 1;
    if bands >= 3 {
        low_place - 1
    } else if bands == 2 {
        high_place - 1
    } else {
        high_place + quantizer_width(bytes, high_place, components)
    }
}

/// Whether no quantizers have a reserved mode.
pub open spec fn bands_allowed(bytes: Seq<u8>, place: int, components: int, bands: int) -> bool {
    let low_place = place + quantizer_width(bytes, place, components) + 1;
    let high_place = low_place + quantizer_width(bytes, low_place, components) + 1;
    &&& quantizers_allowed(bytes, place, components)
    &&& bands <= 2 ==> quantizers_allowed(bytes, low_place, components)
    &&& bands <= 1 ==> quantizers_allowed(bytes, high_place, components)
}

/// The quantizers behind those of DC are the low-pass ones, and the quantizers behind these are the
/// high-pass ones, each where the bands that are present include it.
pub proof fn lemma_band_quantizer_bits(cursor: HeaderCursor, components: u16, bands: u8)
    requires
        cursor.error is None,
        components >= 1,
        bands <= 3,
        reaches(cursor.bytes, cursor.position as int),
    ensures
        ({
            let place = cursor.position as int;
            let (dc, c) = cursor.optional_quantizers(components);
            let ((low_pass, high_pass), next) = c.high_band_quantizers(components, bands);
            let end = bands_end(cursor.bytes, place, components as int, bands as int);
            &&& next.error is None <==> reaches(cursor.bytes, end) && bands_allowed(
                cursor.bytes,
                place,
                components as int,
                bands as int,
            )
            &&& next.error is None ==> next.position == end && next.bytes == cursor.bytes
                && bands_written(
                cursor.bytes,
                place,
                components as int,
                bands as int,
                dc,
                low_pass,
                high_pass,
            )
        }),
{
    lemma_quantizer_bits(cursor, components);
    let c1 = cursor.optional_quantizers(components).1;
    if c1.error is Some {
        header::plane::lemma_high_bands_failed(c1, components, bands);
    } else if bands != 3 {
        lemma_read_flag(c1);
        let c2 = c1.read_flag().1;
        if c2.error is Some {
            lemma_quantizers_failed(c2, components);
            lemma_quantizers_failed(c2.optional_quantizers(components).1, components);
        } else {
            lemma_quantizer_bits(c2, components);
            let c3 = c2.optional_quantizers(components).1;
            if bands != 2 {
                if c3.error is Some {
                    lemma_quantizers_failed(c3, components);
                } else {
                    lemma_read_flag(c3);
                    let c4 = c3.read_flag().1;
                    if c4.error is Some {
                        lemma_quantizers_failed(c4, components);
                    } else {
                        lemma_quantizer_bits(c4, components);
                    }
                }
            }
        }
    }
}

proof fn lemma_quantizers_failed(cursor: HeaderCursor, components: u16)
    requires
        cursor.error is Some,
    ensures
        cursor.optional_quantizers(components).1 == cursor,
{
    lemma_octets_failed(cursor, components as nat);
}

/// The bits that the component layout takes.
pub open spec fn layout_width(bytes: Seq<u8>, place: int, color: int) -> int {
    if color == 0 || color == 4 {
        0
    } else if color == 6 && field(bytes, place, 4) == 15 {
        16
    } else {
        8
    }
}

/// The number of components: one for luma, three for YUV, four for YUVK, and otherwise what four
/// or, behind these, twelve further bits say.
pub open spec fn component_count(bytes: Seq<u8>, place: int, color: int) -> int {
    if color == 0 {
        1
    } else if color == 4 {
        4
    } else if color == 6 && field(bytes, place, 4) == 15 {
        field(bytes, place + 4, 12) + 16
    } else if color == 6 {
        field(bytes, place, 4) + 1
    } else {
        3
    }
}

/// Whether a chroma centering is the one that three bits at a place say; the codes from 5 on mean
/// the same.
pub open spec fn centering_written(bytes: Seq<u8>, place: int, centering: int) -> bool {
    centering == (if field(bytes, place, 3) >= 5 {
        7
    } else {
        field(bytes, place, 3)
    })
}

/// Whether chroma centerings are those that the component layout says: across and down for 4:2:0,
/// across for 4:2:2, and none for others.
pub open spec fn centerings_written(
    bytes: Seq<u8>,
    place: int,
    color: int,
    across: int,
    down: int,
) -> bool {
    &&& if color == 1 || color == 2 {
        centering_written(bytes, place + 1, across)
    } else {
        across == 0
    }
    &&& if color == 1 {
        centering_written(bytes, place + 5, down)
    } else {
        down == 0
    }
}

proof fn lemma_centering(cursor: HeaderCursor)
    requires
        cursor.error is None,
    ensures
        ({
            let (value, next) = cursor.chroma_centering();
            let end = cursor.position + 3;
            &&& next.error is None <==> reaches(cursor.bytes, end)
            &&& next.error is None ==> next.position == end && next.bytes == cursor.bytes
                && centering_written(cursor.bytes, cursor.position as int, value as int)
        }),
{
    lemma_read_u8(cursor, 3);
}

/// The component count and the chroma centerings are those that the bits of the layout say.
pub proof fn lemma_layout_bits(cursor: HeaderCursor, color: u8)
    requires
        cursor.error is None,
        color <= 7 && color != 5 && color != 7,
        reaches(cursor.bytes, cursor.position as int),
    ensures
        ({
            let ((components, across, down), next) = cursor.component_layout(color);
            let place = cursor.position as int;
            let end = place + layout_width(cursor.bytes, place, color as int);
            &&& next.error is None <==> reaches(cursor.bytes, end)
            &&& next.error is None ==> {
                &&& next.position == end && next.bytes == cursor.bytes
                &&& components == component_count(cursor.bytes, place, color as int)
                &&& components >= 1
                &&& centerings_written(
                    cursor.bytes,
                    place,
                    color as int,
                    across as int,
                    down as int,
                )
            }
        }),
{
    if color == 1 || color == 2 {
        lemma_read_flag(cursor);
        let c1 = cursor.read_flag().1;
        if c1.error is None {
            lemma_centering(c1);
            let c2 = c1.chroma_centering().1;
            if c2.error is None {
                if color == 1 {
                    lemma_read_flag(c2);
                    let c3 = c2.read_flag().1;
                    if c3.error is None {
                        lemma_centering(c3);
                    }
                } else {
                    lemma_read(c2, 4);
                }
            }
        }
    } else if color == 3 {
        lemma_read(cursor, 4);
        let c1 = cursor.read(4).1;
        if c1.error is None {
            lemma_read(c1, 4);
        }
    } else if color == 6 {
        lemma_read_u16(cursor, 4);
        let c1 = cursor.read_u16(4).1;
        if c1.error is None {
            lemma_read_u16(c1, 12);
            lemma_read(c1, 4);
        }
    }
}

/// The place behind the component layout of a plane header.
pub open spec fn layout_end(bytes: Seq<u8>, place: int) -> int {
    place + 8 + layout_width(bytes, place + 8, field(bytes, place, 3))
}

/// The bits of the number that fixed-point or floating-point samples have.
pub open spec fn parameter_width(depth: int) -> int {
    if depth == 7 {
        16
    } else if depth == 2 || depth == 3 || depth == 6 {
        8
    } else {
        0
    }
}

/// The place of the quantizers in a plane header.
pub open spec fn quantizer_place(bytes: Seq<u8>, place: int, depth: int) -> int {
    layout_end(bytes, place) + parameter_width(depth)
}

/// The place behind the quantizers of a plane header.
pub open spec fn plane_bits_end(bytes: Seq<u8>, place: int, depth: int) -> int {
    bands_end(
        bytes,
        quantizer_place(bytes, place, depth),
        component_count(bytes, place + 8, field(bytes, place, 3)),
        field(bytes, place + 4, 4),
    )
}

/// The number of bits up to the next byte boundary.
pub open spec fn padding(place: int) -> nat {
    ((8 - place % 8) % 8) as nat
}

/// The place behind a plane header: the byte boundary behind its quantizers.
#[verifier::opaque]
pub open spec fn plane_end(bytes: Seq<u8>, place: int, depth: int) -> int {
    plane_bits_end(bytes, place, depth) + padding(plane_bits_end(bytes, place, depth))
}

/// Whether the bits at a place are a plane header: no reserved colour format, bands or quantizer
/// mode, padded with zeros, and all there.
#[verifier::opaque]
pub open spec fn plane_allowed(bytes: Seq<u8>, place: int, depth: int) -> bool {
    let color = field(bytes, place, 3);
    let bands = field(bytes, place + 4, 4);
    let bits_end = plane_bits_end(bytes, place, depth);
    &&& color != 5 && color != 7
    &&& bands <= 3
    &&& bands_allowed(
        bytes,
        quantizer_place(bytes, place, depth),
        component_count(bytes, place + 8, color),
        bands,
    )
    &&& field(bytes, bits_end, padding(bits_end)) == 0
    &&& reaches(bytes, plane_end(bytes, place, depth))
}

/// A byte as a number with a sign.
pub open spec fn as_signed(byte: int) -> int {
    if byte < 128 {
        byte
    } else {
        byte - 256
    }
}

/// Whether a plane header says what the bits at a place say.
#[verifier::opaque]
pub open spec fn plane_written(bytes: Seq<u8>, place: int, depth: int, plane: PlaneModel) -> bool {
    let color = field(bytes, place, 3);
    let bands = field(bytes, place + 4, 4);
    let layout = layout_end(bytes, place);
    let components = component_count(bytes, place + 8, color);
    &&& plane.internal_color_format == color
    &&& plane.scaled == set(bytes, place + 3)
    &&& plane.bands_present == bands
    &&& plane.components == components
    &&& centerings_written(
        bytes,
        place + 8,
        color,
        plane.chroma_centering_x as int,
        plane.chroma_centering_y as int,
    )
    &&& plane.shift_bits == (if depth == 2 || depth == 3 || depth == 6 {
        field(bytes, layout, 8)
    } else {
        0
    })
    &&& plane.mantissa_length == (if depth == 7 {
        field(bytes, layout, 8)
    } else {
        0
    })
    &&& plane.exponent_bias == (if depth == 7 {
        as_signed(field(bytes, layout + 8, 8))
    } else {
        0
    })
    &&& bands_written(
        bytes,
        quantizer_place(bytes, place, depth),
        components,
        bands,
        plane.dc_quantizers,
        plane.lp_quantizers,
        plane.hp_quantizers,
    )
}

proof fn lemma_align(cursor: HeaderCursor)
    requires
        cursor.error is None,
        reaches(cursor.bytes, cursor.position as int),
    ensures
        ({
            let place = cursor.position as int;
            let next = cursor.align_zero();
            let end = place + padding(place);
            &&& next.error is None <==> reaches(cursor.bytes, end) && field(
                cursor.bytes,
                place,
                padding(place),
            ) == 0
            &&& next.error is None ==> next.position == end && next.bytes == cursor.bytes
        }),
    decreases padding(cursor.position as int),
{
    let place = cursor.position as int;
    if place % 8 != 0 {
        lemma_read_flag(cursor);
        let (bit, next) = cursor.read_flag();
        let rest = padding(place + 1);
        bits::lemma_bits_value_split(cursor.bytes, place, 1, rest);
        bits::lemma_bits_value_bound(cursor.bytes, place + 1, rest);
        bits::lemma_bits_value_bound(cursor.bytes, place, 1);
        lemma2_to64();
        vstd::arithmetic::power2::lemma_pow2_pos(rest);
        let first = bits::bits_value(cursor.bytes, place, 1);
        assert(first * pow2(rest) >= first) by (nonlinear_arith)
            requires
                pow2(rest) >= 1,
        ;
        assert(first == 0 ==> first * pow2(rest) == 0) by (nonlinear_arith);
        assert(padding(place) == 1 + rest);
        if next.error is None && !bit {
            lemma_align(next);
        } else {
            reveal_with_fuel(HeaderCursor::align_zero, 2);
        }
    }
}

proof fn lemma_shift(cursor: HeaderCursor, depth: u8)
    requires
        cursor.error is None,
        depth != 7,
        reaches(cursor.bytes, cursor.position as int),
    ensures
        ({
            let (shift, c) = cursor.shift_bits(depth);
            let ((mantissa, bias), next) = c.float_parameters(depth);
            let place = cursor.position as int;
            let end = place + parameter_width(depth as int);
            &&& next.error is None <==> reaches(cursor.bytes, end)
            &&& next.error is None ==> {
                &&& next.position == end && next.bytes == cursor.bytes
                &&& shift == (if depth == 2 || depth == 3 || depth == 6 {
                    field(cursor.bytes, place, 8)
                } else {
                    0
                })
                &&& mantissa == 0 && bias == 0
            }
        }),
{
    lemma_read_u8(cursor, 8);
}

proof fn lemma_float(cursor: HeaderCursor)
    requires
        cursor.error is None,
        reaches(cursor.bytes, cursor.position as int),
    ensures
        ({
            let (shift, c) = cursor.shift_bits(7);
            let ((mantissa, bias), next) = c.float_parameters(7);
            let place = cursor.position as int;
            let end = place + 16;
            &&& next.error is None <==> reaches(cursor.bytes, end)
            &&& next.error is None ==> {
                &&& next.position == end && next.bytes == cursor.bytes
                &&& shift == 0
                &&& mantissa == field(cursor.bytes, place, 8)
                &&& bias == as_signed(field(cursor.bytes, place + 8, 8))
            }
        }),
{
    lemma_read_u8(cursor, 8);
    let c1 = cursor.read_u8(8).1;
    if c1.error is None {
        lemma_read_u8(c1, 8);
        let bias = c1.read_u8(8).0;
        assert(bias < 128 ==> bias as i8 == bias) by (bit_vector);
        assert(bias >= 128 ==> bias as i8 == bias - 256) by (bit_vector);
    }
}

/// What follows the component layout of a plane header that failed already fails too.
proof fn lemma_rest_failed(cursor: HeaderCursor, depth: u8, components: u16, bands: u8)
    requires
        cursor.error is Some,
    ensures
        ({
            let c = cursor.shift_bits(depth).1.float_parameters(depth).1;
            let c = c.optional_quantizers(components).1;
            c.high_band_quantizers(components, bands).1.align_zero().error is Some
        }),
{
    lemma_quantizers_failed(cursor, components);
    header::plane::lemma_high_bands_failed(cursor, components, bands);
}

/// A place behind which more bits must follow lies before the end.
proof fn lemma_plane_order(bytes: Seq<u8>, place: int, depth: int)
    requires
        place >= 0,
    ensures
        place + 8 <= layout_end(bytes, place) <= quantizer_place(bytes, place, depth),
        component_count(bytes, place + 8, field(bytes, place, 3)) >= 0 ==> quantizer_place(
            bytes,
            place,
            depth,
        ) <= plane_bits_end(bytes, place, depth) <= plane_end(bytes, place, depth),
        plane_end(bytes, place, depth) % 8 == 0,
{
    reveal(plane_end);
    lemma_padding(plane_bits_end(bytes, place, depth));
}

proof fn lemma_padding(place: int)
    ensures
        (place + padding(place)) % 8 == 0,
{
}

/// Each field of a plane header is made of its bits: the header can be read if and only if the bits
/// at the cursor are one, it says what they say, and it ends behind them.
#[verifier::rlimit(80)]
pub proof fn lemma_plane_bits(cursor: HeaderCursor, depth: u8)
    requires
        cursor.error is None,
        reaches(cursor.bytes, cursor.position as int),
    ensures
        ({
            let place = cursor.position as int;
            let (plane, next) = cursor.plane_header(depth);
            &&& next.error is None <==> plane_allowed(cursor.bytes, place, depth as int)
            &&& next.error is None ==> {
                &&& next.position == plane_end(cursor.bytes, place, depth as int)
                &&& next.position % 8 == 0
                &&& next.position <= 8 * next.bytes.len()
                &&& next.bytes == cursor.bytes
                &&& plane_written(cursor.bytes, place, depth as int, plane)
            }
        }),
{
    reveal(HeaderCursor::plane_header);
    reveal(plane_end);
    reveal(plane_allowed);
    reveal(plane_written);
    let bytes = cursor.bytes;
    let place = cursor.position as int;
    lemma_plane_order(bytes, place, depth as int);
    lemma_read_u8(cursor, 3);
    let (color, c1) = cursor.read_u8(3);
    let c2 = c1.require(
        color != 5 && color != 7,
        NativeError::ReservedValue { field: "INTERNAL_CLR_FMT", value: color as u64 },
    );
    let (scaled, c3) = c2.read_flag();
    let (bands, c4) = c3.read_u8(4);
    let c5 = c4.require(
        bands <= 3,
        NativeError::ReservedValue { field: "BANDS_PRESENT", value: bands as u64 },
    );
    let ((components, across, down), c6) = c5.component_layout(color);
    let (shift, c7) = c6.shift_bits(depth);
    let ((mantissa, bias), c8) = c7.float_parameters(depth);
    let (dc, c9) = c8.optional_quantizers(components);
    let c10 = c9.high_band_quantizers(components, bands).1;
    let end = c10.align_zero();
    assert(end == cursor.plane_header(depth).1);
    if c2.error is None {
        lemma_read_flag(c2);
        if c3.error is None {
            lemma_read_u8(c3, 4);
        }
    }
    lemma_component_count(bytes, place + 8, field(bytes, place, 3));
    if c5.error is Some {
        lemma_layout_failed(c5, color);
        lemma_rest_failed(c5, depth, components, bands);
        assert(!plane_allowed(bytes, place, depth as int));
    } else {
        lemma_layout_bits(c5, color);
        if c6.error is Some {
            lemma_rest_failed(c6, depth, components, bands);
            assert(!plane_allowed(bytes, place, depth as int));
        } else {
            if depth == 7 {
                lemma_float(c6);
            } else {
                lemma_shift(c6, depth);
            }
            if c8.error is Some {
                lemma_quantizers_failed(c8, components);
                header::plane::lemma_high_bands_failed(c8, components, bands);
                assert(!plane_allowed(bytes, place, depth as int));
            } else {
                lemma_band_quantizer_bits(c8, components, bands);
                if c10.error is None {
                    lemma_align(c10);
                }
            }
        }
    }
}

proof fn lemma_component_count(bytes: Seq<u8>, place: int, color: int)
    ensures
        component_count(bytes, place, color) >= 1,
{
}

proof fn lemma_layout_failed(cursor: HeaderCursor, color: u8)
    requires
        cursor.error is Some,
    ensures
        cursor.component_layout(color).1 == cursor,
{
}

/// The bits of a dimension: 16 in a short header, and otherwise 32.
pub open spec fn dimension_width(bytes: Seq<u8>) -> int {
    if set(bytes, 80) {
        16
    } else {
        32
    }
}

/// The bits of a tile size: 8 in a short header, and otherwise 16.
pub open spec fn tile_width(bytes: Seq<u8>) -> int {
    if set(bytes, 80) {
        8
    } else {
        16
    }
}

/// The place behind the dimensions of the image.
pub open spec fn dimensions_end(bytes: Seq<u8>) -> int {
    96 + 2 * dimension_width(bytes)
}

/// The number of explicit tile columns.
pub open spec fn column_count(bytes: Seq<u8>) -> int {
    if set(bytes, 72) {
        field(bytes, dimensions_end(bytes), 12)
    } else {
        0
    }
}

/// The number of explicit tile rows.
pub open spec fn row_count(bytes: Seq<u8>) -> int {
    if set(bytes, 72) {
        field(bytes, dimensions_end(bytes) + 12, 12)
    } else {
        0
    }
}

/// The place behind the tile sizes.
#[verifier::opaque]
pub open spec fn tiles_end(bytes: Seq<u8>) -> int {
    if set(bytes, 72) {
        dimensions_end(bytes) + 24 + tile_width(bytes) * (column_count(bytes) + row_count(bytes))
    } else {
        dimensions_end(bytes)
    }
}

/// The place behind the image header: margins of six bits each follow the tiles, where they are
/// explicit.
#[verifier::opaque]
pub open spec fn image_end(bytes: Seq<u8>) -> int {
    if set(bytes, 82) {
        tiles_end(bytes) + 24
    } else {
        tiles_end(bytes)
    }
}

/// Whether the input begins with an image header: the signature, version 1, no reserved overlap
/// mode, colour format or bit depth, dimensions that fit, and all of its bits.
#[verifier::opaque]
pub open spec fn image_allowed(bytes: Seq<u8>) -> bool {
    let depth = field(bytes, 92, 4);
    &&& field(bytes, 0, 32) == 0x574D_5048
    &&& field(bytes, 32, 32) == 0x4F54_4F00
    &&& field(bytes, 64, 4) == 1
    &&& field(bytes, 78, 2) != 3
    &&& field(bytes, 88, 4) <= 8
    &&& depth != 5 && !(11 <= depth <= 14)
    &&& field(bytes, 96, dimension_width(bytes) as nat) < u32::MAX
    &&& field(bytes, 96 + dimension_width(bytes), dimension_width(bytes) as nat) < u32::MAX
    &&& reaches(bytes, image_end(bytes))
}

/// Whether sizes are those that fields of a width say, one behind the other.
pub open spec fn sizes_written(bytes: Seq<u8>, place: int, width: int, sizes: Seq<u16>) -> bool {
    forall|index: int|
        0 <= index < sizes.len() ==> #[trigger] sizes[index] == field(
            bytes,
            place + width * index,
            width as nat,
        )
}

/// Whether a margin is the smallest one that completes a dimension to whole macroblocks.
pub open spec fn completes(dimension: int, margin: int) -> bool {
    0 <= margin < 16 && (dimension + margin) % 16 == 0
}

/// Whether margins are those that the image header says: top, left, bottom and right where they are
/// explicit, and otherwise what completes the dimensions at the bottom and on the right.
pub open spec fn margins_written(
    bytes: Seq<u8>,
    width: int,
    height: int,
    margins: Seq<u8>,
) -> bool {
    &&& margins.len() == 4
    &&& if set(bytes, 82) {
        forall|side: int|
            0 <= side < 4 ==> #[trigger] margins[side] == field(
                bytes,
                tiles_end(bytes) + 6 * side,
                6,
            )
    } else {
        margins[0] == 0 && margins[1] == 0 && completes(height, margins[2] as int) && completes(
            width,
            margins[3] as int,
        )
    }
}

/// Whether an image header says what the first bits of the input say.
#[verifier::opaque]
pub open spec fn image_written(bytes: Seq<u8>, image: ImageModel) -> bool {
    let dimension = dimension_width(bytes);
    &&& image.width == field(bytes, 96, dimension as nat) + 1
    &&& image.height == field(bytes, 96 + dimension, dimension as nat) + 1
    &&& image.orientation == field(bytes, 74, 3)
    &&& image.overlap_mode == field(bytes, 78, 2)
    &&& image.output_color_format == field(bytes, 88, 4)
    &&& image.output_bit_depth == field(bytes, 92, 4)
    &&& image.tile_widths_mb.len() == column_count(bytes)
    &&& image.tile_heights_mb.len() == row_count(bytes)
    &&& sizes_written(
        bytes,
        dimensions_end(bytes) + 24,
        tile_width(bytes),
        image.tile_widths_mb,
    )
    &&& sizes_written(
        bytes,
        dimensions_end(bytes) + 24 + tile_width(bytes) * column_count(bytes),
        tile_width(bytes),
        image.tile_heights_mb,
    )
    &&& margins_written(bytes, image.width as int, image.height as int, image.margins)
    &&& flags_written(bytes, image.flags)
}

/// Whether the accessors of the flags of an image header return what its bits say.
pub open spec fn flags_written(bytes: Seq<u8>, flags: HeaderFlags) -> bool {
    &&& forall|hard: bool|
        call_ensures(HeaderFlags::hard_tiling, (flags,), hard) ==> hard == set(bytes, 68)
    &&& forall|frequency: bool|
        call_ensures(HeaderFlags::frequency_mode, (flags,), frequency) ==> frequency == set(
            bytes,
            73,
        )
    &&& forall|present: bool|
        call_ensures(HeaderFlags::index_table_present, (flags,), present) ==> present == set(
            bytes,
            77,
        )
    &&& forall|short: bool|
        call_ensures(HeaderFlags::short_header, (flags,), short) ==> short == set(bytes, 80)
    &&& forall|long: bool|
        call_ensures(HeaderFlags::long_word, (flags,), long) ==> long == set(bytes, 81)
    &&& forall|trim: bool|
        call_ensures(HeaderFlags::trim_flexbits, (flags,), trim) ==> trim == set(bytes, 83)
    &&& forall|kept: bool|
        call_ensures(HeaderFlags::red_blue_not_swapped, (flags,), kept) ==> kept == set(bytes, 85)
    &&& forall|premultiplied: bool|
        call_ensures(HeaderFlags::premultiplied_alpha, (flags,), premultiplied) ==> premultiplied
            == set(bytes, 86)
    &&& forall|alpha: bool|
        call_ensures(HeaderFlags::alpha_plane, (flags,), alpha) ==> alpha == set(bytes, 87)
    &&& flags.flag(8) == set(bytes, 87)
}

proof fn lemma_tile_sizes(cursor: HeaderCursor, count: nat, width: u8)
    requires
        cursor.error is None,
        width == 8 || width == 16,
        reaches(cursor.bytes, cursor.position as int),
    ensures
        ({
            let (sizes, next) = cursor.tile_sizes(count, width);
            let end = cursor.position + width * count;
            &&& sizes.len() == count
            &&& next.error is None <==> reaches(cursor.bytes, end)
            &&& next.error is None ==> next.position == end && next.bytes == cursor.bytes
                && sizes_written(cursor.bytes, cursor.position as int, width as int, sizes)
        }),
    decreases count,
{
    if count > 0 {
        let earlier = (count - 1) as nat;
        lemma_tile_sizes(cursor, earlier, width);
        let (sizes, next) = cursor.tile_sizes(earlier, width);
        assert(width * count == width * earlier + width) by (nonlinear_arith)
            requires
                count == earlier + 1,
        ;
        if next.error is None {
            lemma_read_u16(next, width);
        }
    }
}

proof fn lemma_tile_sizes_failed(cursor: HeaderCursor, count: nat, width: u8)
    requires
        cursor.error is Some,
    ensures
        cursor.tile_sizes(count, width).1 == cursor,
    decreases count,
{
    if count > 0 {
        lemma_tile_sizes_failed(cursor, (count - 1) as nat, width);
    }
}

/// Whether the fields from the signature to the overlap mode are allowed.
spec fn leading_allowed(bytes: Seq<u8>) -> bool {
    &&& field(bytes, 0, 32) == 0x574D_5048
    &&& field(bytes, 32, 32) == 0x4F54_4F00
    &&& field(bytes, 64, 4) == 1
    &&& field(bytes, 78, 2) != 3
    &&& reaches(bytes, 80)
}

proof fn lemma_signature(cursor: HeaderCursor)
    requires
        cursor.error is None,
        cursor.position == 0,
    ensures
        ({
            let (value, next) = cursor.read(64);
            &&& next.error is None <==> reaches(cursor.bytes, 64)
            &&& next.error is None ==> next.position == 64 && next.bytes == cursor.bytes && (value
                == super::image::GDI_SIGNATURE <==> field(cursor.bytes, 0, 32) == 0x574D_5048
                && field(cursor.bytes, 32, 32) == 0x4F54_4F00)
        }),
{
    bits::lemma_bits_value_split(cursor.bytes, 0, 32, 32);
    bits::lemma_bits_value_bound(cursor.bytes, 0, 32);
    bits::lemma_bits_value_bound(cursor.bytes, 32, 32);
    bits::lemma_bits_value_bound(cursor.bytes, 0, 64);
    lemma2_to64();
}

#[verifier::rlimit(60)]
proof fn lemma_leading(cursor: HeaderCursor)
    requires
        cursor.error is None,
        cursor.position == 0,
    ensures
        ({
            let bytes = cursor.bytes;
            let (leading, next) = cursor.leading_fields();
            &&& next.error is None <==> leading_allowed(bytes)
            &&& next.error is None ==> {
                &&& next.position == 80 && next.bytes == bytes
                &&& leading.hard_tiling == set(bytes, 68)
                &&& leading.tiling == set(bytes, 72)
                &&& leading.frequency_mode == set(bytes, 73)
                &&& leading.orientation == field(bytes, 74, 3)
                &&& leading.index_table_present == set(bytes, 77)
                &&& leading.overlap_mode == field(bytes, 78, 2)
            }
        }),
{
    reveal(HeaderCursor::leading_fields);
    let bytes = cursor.bytes;
    lemma_signature(cursor);
    let (signature, c) = cursor.read(64);
    let c0 = c.require(signature == super::image::GDI_SIGNATURE, NativeError::InvalidSignature);
    if c0.error is None {
        lemma_read(c0, 4);
        let (reserved, c) = c0.read(4);
        let c1 = c.require(
            reserved == 1,
            NativeError::ReservedValue { field: "RESERVED_B", value: reserved },
        );
        if c1.error is None {
            lemma_read_flag(c1);
            let c2 = c1.read_flag().1;
            if c2.error is None {
                lemma_read(c2, 3);
                let c3 = c2.read(3).1;
                if c3.error is None {
                    lemma_read_flag(c3);
                    let c4 = c3.read_flag().1;
                    if c4.error is None {
                        lemma_read_flag(c4);
                        let c5 = c4.read_flag().1;
                        if c5.error is None {
                            lemma_read_u8(c5, 3);
                            let c6 = c5.read_u8(3).1;
                            if c6.error is None {
                                lemma_read_flag(c6);
                                let c7 = c6.read_flag().1;
                                if c7.error is None {
                                    lemma_read_u8(c7, 2);
                                }
                            }
                        }
                    }
                }
            }
        }
    }
}

/// Whether the fields from the header length to the output bit depth are allowed.
spec fn format_allowed(bytes: Seq<u8>) -> bool {
    let depth = field(bytes, 92, 4);
    &&& field(bytes, 88, 4) <= 8
    &&& depth != 5 && !(11 <= depth <= 14)
    &&& reaches(bytes, 96)
}

#[verifier::rlimit(60)]
proof fn lemma_format(cursor: HeaderCursor)
    requires
        cursor.error is None,
        cursor.position == 80,
    ensures
        ({
            let bytes = cursor.bytes;
            let (format, next) = cursor.format_fields();
            &&& next.error is None <==> format_allowed(bytes)
            &&& next.error is None ==> {
                &&& next.position == 96 && next.bytes == bytes
                &&& format.short_header == set(bytes, 80)
                &&& format.long_word == set(bytes, 81)
                &&& format.windowing == set(bytes, 82)
                &&& format.trim_flexbits == set(bytes, 83)
                &&& format.red_blue_not_swapped == set(bytes, 85)
                &&& format.premultiplied_alpha == set(bytes, 86)
                &&& format.alpha_plane == set(bytes, 87)
                &&& format.output_color_format == field(bytes, 88, 4)
                &&& format.output_bit_depth == field(bytes, 92, 4)
            }
        }),
{
    reveal(HeaderCursor::format_fields);
    lemma_read_flag(cursor);
    let c1 = cursor.read_flag().1;
    if c1.error is None {
        lemma_read_flag(c1);
        let c2 = c1.read_flag().1;
        if c2.error is None {
            lemma_read_flag(c2);
            let c3 = c2.read_flag().1;
            if c3.error is None {
                lemma_read_flag(c3);
                let c4 = c3.read_flag().1;
                if c4.error is None {
                    lemma_read_flag(c4);
                    let c5 = c4.read_flag().1;
                    if c5.error is None {
                        lemma_read_flag(c5);
                        let c6 = c5.read_flag().1;
                        if c6.error is None {
                            lemma_read_flag(c6);
                            let c7 = c6.read_flag().1;
                            if c7.error is None {
                                lemma_read_flag(c7);
                                let c8 = c7.read_flag().1;
                                if c8.error is None {
                                    lemma_read_u8(c8, 4);
                                    let c9 = c8.read_u8(4).1;
                                    if c9.error is None {
                                        lemma_read_u8(c9, 4);
                                    }
                                }
                            }
                        }
                    }
                }
            }
        }
    }
}

proof fn lemma_dimension(cursor: HeaderCursor, width: u8, operation: &'static str)
    requires
        cursor.error is None,
        width == 16 || width == 32,
    ensures
        ({
            let (value, next) = cursor.read_dimension(width, operation);
            let end = cursor.position + width;
            let written = field(cursor.bytes, cursor.position as int, width as nat);
            &&& next.error is None <==> reaches(cursor.bytes, end) && written < u32::MAX
            &&& next.error is None ==> next.position == end && next.bytes == cursor.bytes && value
                == written + 1
        }),
{
    lemma_read(cursor, width);
}

proof fn lemma_tiles(cursor: HeaderCursor, tiling: bool, short: bool)
    requires
        cursor.error is None,
        reaches(cursor.bytes, cursor.position as int),
        tiling == set(cursor.bytes, 72),
        short == set(cursor.bytes, 80),
        cursor.position == dimensions_end(cursor.bytes),
    ensures
        ({
            let bytes = cursor.bytes;
            let ((widths, heights), next) = cursor.tiles(tiling, short);
            &&& next.error is None <==> reaches(bytes, tiles_end(bytes))
            &&& next.error is None ==> {
                &&& next.position == tiles_end(bytes) && next.bytes == bytes
                &&& widths.len() == column_count(bytes)
                &&& heights.len() == row_count(bytes)
                &&& sizes_written(
                    bytes,
                    dimensions_end(bytes) + 24,
                    tile_width(bytes),
                    widths,
                )
                &&& sizes_written(
                    bytes,
                    dimensions_end(bytes) + 24 + tile_width(bytes) * column_count(bytes),
                    tile_width(bytes),
                    heights,
                )
            }
        }),
{
    reveal(tiles_end);
    if tiling {
        let bytes = cursor.bytes;
        let width: u8 = if short {
            8
        } else {
            16
        };
        lemma_read_u16(cursor, 12);
        let (columns, c1) = cursor.read_u16(12);
        let across = column_count(bytes);
        let down = row_count(bytes);
        assert(tile_width(bytes) * (across + down) == width * across + width * down)
            by (nonlinear_arith)
            requires
                width == tile_width(bytes),
        ;
        lemma_second_count(bytes);
        assert(width * across >= 0 && width * down >= 0) by (nonlinear_arith)
            requires
                across >= 0,
                down >= 0,
                width >= 0,
        ;
        if c1.error is None {
            lemma_read_u16(c1, 12);
            let (rows, c2) = c1.read_u16(12);
            if c2.error is None {
                lemma_tile_sizes(c2, columns as nat, width);
                let c3 = c2.tile_sizes(columns as nat, width).1;
                if c3.error is None {
                    lemma_tile_sizes(c3, rows as nat, width);
                } else {
                    lemma_tile_sizes_failed(c3, rows as nat, width);
                }
            } else {
                lemma_tile_sizes_failed(c2, columns as nat, width);
                lemma_tile_sizes_failed(c2, rows as nat, width);
            }
        } else {
            let rows = c1.read_u16(12).0;
            lemma_tile_sizes_failed(c1, columns as nat, width);
            lemma_tile_sizes_failed(c1, rows as nat, width);
        }
    }
}

proof fn lemma_second_count(bytes: Seq<u8>)
    ensures
        column_count(bytes) >= 0,
        row_count(bytes) >= 0,
{
}

proof fn lemma_margins(cursor: HeaderCursor, windowing: bool, width: u32, height: u32)
    requires
        cursor.error is None,
        windowing == set(cursor.bytes, 82),
        reaches(cursor.bytes, cursor.position as int),
        cursor.position == tiles_end(cursor.bytes),
    ensures
        ({
            let bytes = cursor.bytes;
            let (margins, next) = cursor.margins(windowing, width, height);
            &&& next.error is None <==> reaches(bytes, image_end(bytes))
            &&& next.error is None ==> next.position == image_end(bytes) && next.bytes == bytes
                && margins_written(bytes, width as int, height as int, margins)
        }),
{
    reveal(image_end);
    if windowing {
        lemma_read_u8(cursor, 6);
        let c1 = cursor.read_u8(6).1;
        if c1.error is None {
            lemma_read_u8(c1, 6);
            let c2 = c1.read_u8(6).1;
            if c2.error is None {
                lemma_read_u8(c2, 6);
                let c3 = c2.read_u8(6).1;
                if c3.error is None {
                    lemma_read_u8(c3, 6);
                }
            }
        }
        let bytes = cursor.bytes;
        let (margins, next) = cursor.margins(windowing, width, height);
        if next.error is None {
            assert forall|side: int| 0 <= side < 4 implies #[trigger] margins[side] == field(
                bytes,
                tiles_end(bytes) + 6 * side,
                6,
            ) by {
                if side == 0 {
                } else if side == 1 {
                } else if side == 2 {
                } else {
                }
            }
        }
    } else {
        lemma_inferred(width);
        lemma_inferred(height);
    }
}

proof fn lemma_inferred(dimension: u32)
    ensures
        completes(dimension as int, super::image::inferred(dimension) as int),
{
}

proof fn lemma_flags(bytes: Seq<u8>, values: Seq<bool>)
    requires
        values == seq![
            set(bytes, 68),
            set(bytes, 73),
            set(bytes, 77),
            set(bytes, 81),
            set(bytes, 80),
            set(bytes, 83),
            set(bytes, 85),
            set(bytes, 86),
            set(bytes, 87),
        ],
    ensures
        flags_written(bytes, HeaderFlags::of(values)),
{
    assert forall|index: int| 0 <= index < 9 implies #[trigger] HeaderFlags::of(values).flag(index)
        == values[index] by {
        super::types::lemma_flags_round_trip(values, index);
    }
    let flags = HeaderFlags::of(values);
    assert(flags.flag(0) == values[0] && flags.flag(1) == values[1] && flags.flag(2) == values[2]
        && flags.flag(3) == values[3] && flags.flag(4) == values[4] && flags.flag(5) == values[5]
        && flags.flag(6) == values[6] && flags.flag(7) == values[7] && flags.flag(8) == values[8]);
}

/// Each field of an image header is made of its bits: the header can be read if and only if the
/// input begins with one, it says what its bits say, and it ends behind them.
#[verifier::rlimit(80)]
pub proof fn lemma_image_bits(bytes: Seq<u8>)
    ensures
        ({
            let (image, next) = HeaderCursor::start(bytes).image_header();
            &&& next.error is None <==> image_allowed(bytes)
            &&& next.error is None ==> {
                &&& next.position == image_end(bytes)
                &&& next.position <= 8 * bytes.len()
                &&& next.bytes == bytes
                &&& image_written(bytes, image)
                &&& image.output_bit_depth == field(bytes, 92, 4)
                &&& image.flags.flag(8) == set(bytes, 87)
            }
        }),
{
    reveal(HeaderCursor::image_header);
    reveal(tiles_end);
    reveal(image_end);
    reveal(image_allowed);
    reveal(image_written);
    let start = HeaderCursor::start(bytes);
    lemma_leading(start);
    let (leading, c1) = start.leading_fields();
    let (format, c2) = c1.format_fields();
    let width_bits: u8 = if format.short_header {
        16
    } else {
        32
    };
    let (width, c3) = c2.read_dimension(width_bits, "WIDTH_MINUS1");
    let (height, c4) = c3.read_dimension(width_bits, "HEIGHT_MINUS1");
    let ((widths, heights), c5) = c4.tiles(leading.tiling, format.short_header);
    let c6 = c5.margins(format.windowing, width, height).1;
    lemma_second_count(bytes);
    assert(tile_width(bytes) * (column_count(bytes) + row_count(bytes)) >= 0) by (nonlinear_arith)
        requires
            tile_width(bytes) >= 0,
            column_count(bytes) >= 0,
            row_count(bytes) >= 0,
    ;
    if c1.error is Some {
        lemma_format_failed(c1);
        lemma_image_rest_failed(c2, width_bits, leading.tiling, format.short_header, format.windowing);
    } else {
        lemma_format(c1);
        if c2.error is Some {
            lemma_image_rest_failed(
                c2,
                width_bits,
                leading.tiling,
                format.short_header,
                format.windowing,
            );
        } else {
            lemma_dimension(c2, width_bits, "WIDTH_MINUS1");
            if c3.error is None {
                lemma_dimension(c3, width_bits, "HEIGHT_MINUS1");
            }
            if c4.error is Some {
                lemma_tiles_failed(c4, leading.tiling, format.short_header);
            } else {
                lemma_tiles(c4, leading.tiling, format.short_header);
                if c5.error is None {
                    lemma_margins(c5, format.windowing, width, height);
                    if c6.error is None {
                        lemma_flags(bytes, super::image::flags_of(leading, format));
                    }
                }
            }
        }
    }
}

proof fn lemma_format_failed(cursor: HeaderCursor)
    requires
        cursor.error is Some,
    ensures
        cursor.format_fields().1.error is Some,
{
    reveal(HeaderCursor::format_fields);
}

proof fn lemma_tiles_failed(cursor: HeaderCursor, tiling: bool, short: bool)
    requires
        cursor.error is Some,
    ensures
        cursor.tiles(tiling, short).1.error is Some,
{
    let width: u8 = if short {
        8
    } else {
        16
    };
    let columns = cursor.read_u16(12).0;
    lemma_tile_sizes_failed(cursor, columns as nat, width);
}

proof fn lemma_image_rest_failed(
    cursor: HeaderCursor,
    width_bits: u8,
    tiling: bool,
    short: bool,
    windowing: bool,
)
    requires
        cursor.error is Some,
    ensures
        ({
            let (width, c3) = cursor.read_dimension(width_bits, "WIDTH_MINUS1");
            let (height, c4) = c3.read_dimension(width_bits, "HEIGHT_MINUS1");
            c4.tiles(tiling, short).1.margins(windowing, width, height).1.error is Some
        }),
{
    let c3 = cursor.read_dimension(width_bits, "WIDTH_MINUS1").1;
    let c4 = c3.read_dimension(width_bits, "HEIGHT_MINUS1").1;
    lemma_tiles_failed(c4, tiling, short);
}

/// Whether the input begins with an image header and its plane headers.
pub open spec fn headers_allowed(bytes: Seq<u8>) -> bool {
    let depth = field(bytes, 92, 4);
    let primary = image_end(bytes);
    let alpha = plane_end(bytes, primary, depth);
    &&& image_allowed(bytes)
    &&& plane_allowed(bytes, primary, depth)
    &&& set(bytes, 87) ==> plane_allowed(bytes, alpha, depth)
}

/// Whether headers say what the first bits of the input say: the primary plane header behind the
/// image header, and the alpha plane header, where there is one, behind that.
pub open spec fn headers_written(bytes: Seq<u8>, headers: HeadersModel) -> bool {
    let depth = field(bytes, 92, 4);
    let primary = image_end(bytes);
    let alpha = plane_end(bytes, primary, depth);
    &&& image_written(bytes, headers.image)
    &&& plane_written(bytes, primary, depth, headers.primary)
    &&& headers.alpha is Some <==> set(bytes, 87)
    &&& headers.alpha matches Some(plane) ==> plane_written(bytes, alpha, depth, plane)
    &&& 8 * headers.bytes_consumed == (if set(bytes, 87) {
        plane_end(bytes, alpha, depth)
    } else {
        alpha
    })
}

/// Headers can be parsed if and only if the input begins with them, and each of their fields is
/// made of its bits.
pub proof fn lemma_header_bits(bytes: Seq<u8>)
    ensures
        header::headers_of(bytes) is Ok <==> headers_allowed(bytes),
        header::headers_of(bytes) matches Ok(headers) ==> headers_written(bytes, headers),
{
    let start = HeaderCursor::start(bytes);
    lemma_image_bits(bytes);
    let (image, c1) = start.image_header();
    let depth = image.output_bit_depth;
    let (primary, c2) = c1.plane_header(depth);
    if c1.error is None {
        lemma_plane_bits(c1, depth);
        if c2.error is None {
            lemma_plane_bits(c2, depth);
        } else {
            header::plane::lemma_plane_failed(c2, depth);
        }
    } else {
        header::plane::lemma_plane_failed(c1, depth);
        header::plane::lemma_plane_failed(c2, depth);
    }
}

} // verus!

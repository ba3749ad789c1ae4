//! What holds of all headers that can be parsed.

use super::image::GDI_SIGNATURE;
use super::types::{HeadersModel, ImageModel, PlaneModel};
use crate::bit_reader::HeaderCursor;
use crate::bits;
use crate::error::NativeError;
use crate::header;
use vstd::arithmetic::power2::{lemma2_to64, lemma_pow2_strictly_increases, pow2};
use vstd::prelude::*;

verus! {

/// Whether the fields of an image header lie in their bounds.
pub open spec fn image_in_bounds(image: ImageModel) -> bool {
    let short = image.flags.flag(4);
    &&& image.width >= 1 && image.height >= 1
    &&& short ==> image.width <= 0x1_0000 && image.height <= 0x1_0000
    &&& image.orientation <= 7
    &&& image.overlap_mode <= 2
    &&& image.output_color_format <= 8
    &&& image.output_bit_depth <= 15
    &&& image.output_bit_depth != 5 && !(11 <= image.output_bit_depth <= 14)
    &&& image.tile_widths_mb.len() <= 4095
    &&& image.tile_heights_mb.len() <= 4095
    &&& short ==> sizes_below(image.tile_widths_mb, 256) && sizes_below(image.tile_heights_mb, 256)
    &&& image.margins.len() == 4
    &&& forall|side: int| 0 <= side < 4 ==> #[trigger] image.margins[side] <= 63
}

/// Whether all sizes lie below a limit.
pub open spec fn sizes_below(sizes: Seq<u16>, limit: int) -> bool {
    forall|index: int| 0 <= index < sizes.len() ==> #[trigger] sizes[index] < limit
}

/// Whether there are as many quantizers as components, if there are any.
pub open spec fn quantizers_complete(quantizers: Option<Seq<u8>>, components: u16) -> bool {
    quantizers matches Some(values) ==> values.len() == components
}

/// Whether the number of components is one that a colour format can have.
pub open spec fn components_fit(color: u8, components: u16) -> bool {
    if color == 0 {
        components == 1
    } else if color == 1 || color == 2 || color == 3 {
        components == 3
    } else if color == 4 {
        components == 4
    } else {
        color == 6 && 1 <= components <= 4111
    }
}

/// Whether a chroma centering code is one of the six that are left.
pub open spec fn is_centering(code: u8) -> bool {
    code <= 4 || code == 7
}

/// Whether the fields of a plane header lie in their bounds.
pub open spec fn plane_in_bounds(plane: PlaneModel, output_bit_depth: u8) -> bool {
    &&& components_fit(plane.internal_color_format, plane.components)
    &&& plane.bands_present <= 3
    &&& is_centering(plane.chroma_centering_x)
    &&& is_centering(plane.chroma_centering_y)
    &&& output_bit_depth != 2 && output_bit_depth != 3 && output_bit_depth != 6
        ==> plane.shift_bits == 0
    &&& output_bit_depth != 7 ==> plane.mantissa_length == 0 && plane.exponent_bias == 0
    &&& quantizers_complete(plane.dc_quantizers, plane.components)
    &&& quantizers_complete(plane.lp_quantizers, plane.components)
    &&& quantizers_complete(plane.hp_quantizers, plane.components)
    &&& plane.bands_present == 3 ==> plane.lp_quantizers is None
    &&& plane.bands_present >= 2 ==> plane.hp_quantizers is None
}

/// Whether headers end within so many bytes, and their fields lie in their bounds.
pub open spec fn headers_in_bounds(headers: HeadersModel, length: int) -> bool {
    &&& headers.bytes_consumed <= length
    &&& image_in_bounds(headers.image)
    &&& plane_in_bounds(headers.primary, headers.image.output_bit_depth)
    &&& headers.alpha is Some == headers.image.flags.flag(8)
    &&& headers.alpha matches Some(alpha) ==> plane_in_bounds(
        alpha,
        headers.image.output_bit_depth,
    )
}

/// Whether a cursor is one that another cursor may come to: over the same bytes and within them,
/// and the same one where that holds an error.
spec fn follows(before: HeaderCursor, after: HeaderCursor) -> bool {
    &&& after.bytes == before.bytes
    &&& before.position <= 8 * before.bytes.len() ==> after.position <= 8 * after.bytes.len()
    &&& before.error is Some ==> after.error is Some
}

proof fn lemma_read(cursor: HeaderCursor, count: u8)
    requires
        count <= 63,
    ensures
        follows(cursor, cursor.read(count).1),
        cursor.read(count).0 < pow2(count as nat),
{
    bits::lemma_bits_value_bound(cursor.bytes, cursor.position as int, count as nat);
    lemma2_to64();
    lemma_pow2_strictly_increases(count as nat, 64);
    vstd::arithmetic::power2::lemma_pow2_pos(count as nat);
}

proof fn lemma_read_u8(cursor: HeaderCursor, count: u8)
    requires
        count <= 8,
    ensures
        follows(cursor, cursor.read_u8(count).1),
        cursor.read_u8(count).0 < pow2(count as nat),
{
    lemma_read(cursor, count);
    lemma2_to64();
    if count < 8 {
        lemma_pow2_strictly_increases(count as nat, 8);
    }
}

proof fn lemma_read_u16(cursor: HeaderCursor, count: u8)
    requires
        count <= 16,
    ensures
        follows(cursor, cursor.read_u16(count).1),
        cursor.read_u16(count).0 < pow2(count as nat),
{
    lemma_read(cursor, count);
    lemma2_to64();
    if count < 16 {
        lemma_pow2_strictly_increases(count as nat, 16);
    }
}

proof fn lemma_dimension(cursor: HeaderCursor, count: u8, operation: &'static str)
    requires
        count <= 32,
    ensures
        follows(cursor, cursor.read_dimension(count, operation).1),
        cursor.read_dimension(count, operation).1.error is None ==> 1 <= cursor.read_dimension(
            count,
            operation,
        ).0 <= pow2(count as nat),
{
    lemma_read(cursor, count);
}

proof fn lemma_tile_sizes(cursor: HeaderCursor, count: nat, width: u8)
    requires
        width <= 16,
    ensures
        follows(cursor, cursor.tile_sizes(count, width).1),
        cursor.tile_sizes(count, width).0.len() == count,
        sizes_below(cursor.tile_sizes(count, width).0, pow2(width as nat) as int),
    decreases count,
{
    if count > 0 {
        lemma_tile_sizes(cursor, (count - 1) as nat, width);
        lemma_read_u16(cursor.tile_sizes((count - 1) as nat, width).1, width);
    }
}

proof fn lemma_tiles(cursor: HeaderCursor, tiling: bool, short_header: bool)
    ensures
        follows(cursor, cursor.tiles(tiling, short_header).1),
        cursor.tiles(tiling, short_header).0.0.len() <= 4095,
        cursor.tiles(tiling, short_header).0.1.len() <= 4095,
        short_header ==> sizes_below(cursor.tiles(tiling, short_header).0.0, 256) && sizes_below(
            cursor.tiles(tiling, short_header).0.1,
            256,
        ),
{
    if tiling {
        lemma2_to64();
        let width: u8 = if short_header {
            8
        } else {
            16
        };
        let (columns, c1) = cursor.read_u16(12);
        lemma_read_u16(cursor, 12);
        let (rows, c2) = c1.read_u16(12);
        lemma_read_u16(c1, 12);
        lemma_tile_sizes(c2, columns as nat, width);
        lemma_tile_sizes(c2.tile_sizes(columns as nat, width).1, rows as nat, width);
    }
}

proof fn lemma_margins(cursor: HeaderCursor, windowing: bool, width: u32, height: u32)
    ensures
        follows(cursor, cursor.margins(windowing, width, height).1),
        cursor.margins(windowing, width, height).0.len() == 4,
        forall|side: int|
            0 <= side < 4 ==> #[trigger] cursor.margins(windowing, width, height).0[side] <= 63,
{
    if windowing {
        lemma2_to64();
        let c1 = cursor.read_u8(6).1;
        let c2 = c1.read_u8(6).1;
        let c3 = c2.read_u8(6).1;
        lemma_read_u8(cursor, 6);
        lemma_read_u8(c1, 6);
        lemma_read_u8(c2, 6);
        lemma_read_u8(c3, 6);
    }
}

#[verifier::rlimit(60)]
proof fn lemma_leading(cursor: HeaderCursor)
    ensures
        follows(cursor, cursor.leading_fields().1),
        cursor.leading_fields().1.error is None ==> {
            &&& cursor.leading_fields().0.orientation <= 7
            &&& cursor.leading_fields().0.overlap_mode <= 2
        },
{
    reveal(HeaderCursor::leading_fields);
    lemma2_to64();
    let (signature, c0) = cursor.read(64);
    assert(follows(cursor, c0));
    let c0 = c0.require(signature == GDI_SIGNATURE, NativeError::InvalidSignature);
    let (reserved, c1) = c0.read(4);
    lemma_read(c0, 4);
    let c1 = c1.require(
        reserved == 1,
        NativeError::ReservedValue { field: "RESERVED_B", value: reserved },
    );
    let c2 = c1.read_flag().1;
    lemma_read(c1, 1);
    let c3 = c2.read(3).1;
    lemma_read(c2, 3);
    let c4 = c3.read_flag().1;
    lemma_read(c3, 1);
    let c5 = c4.read_flag().1;
    lemma_read(c4, 1);
    let c6 = c5.read_u8(3).1;
    lemma_read_u8(c5, 3);
    let c7 = c6.read_flag().1;
    lemma_read(c6, 1);
    lemma_read_u8(c7, 2);
}

#[verifier::rlimit(60)]
proof fn lemma_format(cursor: HeaderCursor)
    ensures
        follows(cursor, cursor.format_fields().1),
        cursor.format_fields().1.error is None ==> {
            let depth = cursor.format_fields().0.output_bit_depth;
            &&& cursor.format_fields().0.output_color_format <= 8
            &&& depth <= 15 && depth != 5 && !(11 <= depth <= 14)
        },
{
    reveal(HeaderCursor::format_fields);
    lemma2_to64();
    let c1 = cursor.read_flag().1;
    lemma_read(cursor, 1);
    let c2 = c1.read_flag().1;
    lemma_read(c1, 1);
    let c3 = c2.read_flag().1;
    lemma_read(c2, 1);
    let c4 = c3.read_flag().1;
    lemma_read(c3, 1);
    let c5 = c4.read_flag().1;
    lemma_read(c4, 1);
    let c6 = c5.read_flag().1;
    lemma_read(c5, 1);
    let c7 = c6.read_flag().1;
    lemma_read(c6, 1);
    let c8 = c7.read_flag().1;
    lemma_read(c7, 1);
    let c9 = c8.read_u8(4).1;
    lemma_read_u8(c8, 4);
    lemma_read_u8(c9, 4);
}

#[verifier::rlimit(60)]
proof fn lemma_image(cursor: HeaderCursor)
    ensures
        follows(cursor, cursor.image_header().1),
        cursor.image_header().1.error is None ==> image_in_bounds(cursor.image_header().0),
{
    reveal(HeaderCursor::image_header);
    lemma2_to64();
    let (leading, c1) = cursor.leading_fields();
    lemma_leading(cursor);
    let (format, c2) = c1.format_fields();
    lemma_format(c1);
    let dimension_bits: u8 = if format.short_header {
        16
    } else {
        32
    };
    let (width, c3) = c2.read_dimension(dimension_bits, "WIDTH_MINUS1");
    lemma_dimension(c2, dimension_bits, "WIDTH_MINUS1");
    let (height, c4) = c3.read_dimension(dimension_bits, "HEIGHT_MINUS1");
    lemma_dimension(c3, dimension_bits, "HEIGHT_MINUS1");
    let c5 = c4.tiles(leading.tiling, format.short_header).1;
    lemma_tiles(c4, leading.tiling, format.short_header);
    lemma_margins(c5, format.windowing, width, height);
    header::types::lemma_flags_round_trip(header::image::flags_of(leading, format), 4);
}

proof fn lemma_centering(cursor: HeaderCursor)
    ensures
        follows(cursor, cursor.chroma_centering().1),
        is_centering(cursor.chroma_centering().0),
{
    lemma_read_u8(cursor, 3);
    lemma2_to64();
}

proof fn lemma_layout(cursor: HeaderCursor, color: u8)
    ensures
        follows(cursor, cursor.component_layout(color).1),
        is_centering(cursor.component_layout(color).0.1),
        is_centering(cursor.component_layout(color).0.2),
        cursor.component_layout(color).1.error is None ==> components_fit(
            color,
            cursor.component_layout(color).0.0,
        ),
{
    lemma2_to64();
    if color == 1 || color == 2 {
        let c1 = cursor.read_flag().1;
        lemma_read(cursor, 1);
        let c2 = c1.chroma_centering().1;
        lemma_centering(c1);
        if color == 1 {
            let c3 = c2.read_flag().1;
            lemma_read(c2, 1);
            lemma_centering(c3);
        } else {
            lemma_read(c2, 4);
        }
    } else if color == 3 {
        lemma_read(cursor, 4);
        lemma_read(cursor.read(4).1, 4);
    } else if color == 6 {
        let c1 = cursor.read_u16(4).1;
        lemma_read_u16(cursor, 4);
        lemma_read_u16(c1, 12);
        lemma_read(c1, 4);
    }
}

proof fn lemma_octets(cursor: HeaderCursor, count: nat)
    ensures
        follows(cursor, cursor.octets(count).1),
        cursor.octets(count).0.len() == count,
    decreases count,
{
    if count > 0 {
        lemma_octets(cursor, (count - 1) as nat);
        lemma_read_u8(cursor.octets((count - 1) as nat).1, 8);
    }
}

proof fn lemma_quantizers(cursor: HeaderCursor, components: u16)
    ensures
        follows(cursor, cursor.optional_quantizers(components).1),
        cursor.optional_quantizers(components).1.error is None ==> quantizers_complete(
            cursor.optional_quantizers(components).0,
            components,
        ),
{
    let c1 = cursor.read_flag().1;
    lemma_read(cursor, 1);
    let c2 = if components == 1 {
        c1
    } else {
        c1.read_u8(2).1
    };
    lemma_read_u8(c1, 2);
    lemma_read_u8(c2, 8);
    lemma_read_u8(c2.read_u8(8).1, 8);
    lemma_octets(c2, components as nat);
}

proof fn lemma_high_bands(cursor: HeaderCursor, components: u16, bands_present: u8)
    requires
        bands_present <= 3,
    ensures
        follows(cursor, cursor.high_band_quantizers(components, bands_present).1),
        cursor.high_band_quantizers(components, bands_present).1.error is None ==> {
            let (low_pass, high_pass) = cursor.high_band_quantizers(components, bands_present).0;
            &&& quantizers_complete(low_pass, components)
            &&& quantizers_complete(high_pass, components)
            &&& bands_present == 3 ==> low_pass is None
            &&& bands_present >= 2 ==> high_pass is None
        },
{
    if bands_present != 3 {
        let c1 = cursor.read_flag().1;
        lemma_read(cursor, 1);
        let c2 = c1.optional_quantizers(components).1;
        lemma_quantizers(c1, components);
        let c3 = c2.read_flag().1;
        lemma_read(c2, 1);
        lemma_quantizers(c3, components);
    }
}

proof fn lemma_align(cursor: HeaderCursor)
    ensures
        follows(cursor, cursor.align_zero()),
    decreases (8 - cursor.position % 8) % 8, (if cursor.error is None { 1int } else { 0int }),
{
    if cursor.error is None && cursor.position % 8 != 0 {
        lemma_read(cursor, 1);
        let (bit, next) = cursor.read_flag();
        lemma_align(
            next.require(
                !bit,
                NativeError::NonZeroAlignmentBit { bit_position: cursor.position },
            ),
        );
    }
}

#[verifier::rlimit(60)]
proof fn lemma_plane(cursor: HeaderCursor, output_bit_depth: u8)
    ensures
        follows(cursor, cursor.plane_header(output_bit_depth).1),
        cursor.plane_header(output_bit_depth).1.error is None ==> plane_in_bounds(
            cursor.plane_header(output_bit_depth).0,
            output_bit_depth,
        ),
{
    reveal(HeaderCursor::plane_header);
    lemma2_to64();
    let (color, c1) = cursor.read_u8(3);
    lemma_read_u8(cursor, 3);
    let c2 = c1.require(
        color != 5 && color != 7,
        NativeError::ReservedValue { field: "INTERNAL_CLR_FMT", value: color as u64 },
    );
    let c3 = c2.read_flag().1;
    lemma_read(c2, 1);
    let (bands, c4) = c3.read_u8(4);
    lemma_read_u8(c3, 4);
    let c5 = c4.require(
        bands <= 3,
        NativeError::ReservedValue { field: "BANDS_PRESENT", value: bands as u64 },
    );
    let ((components, _, _), c6) = c5.component_layout(color);
    lemma_layout(c5, color);
    let c7 = c6.shift_bits(output_bit_depth).1;
    lemma_read_u8(c6, 8);
    let c8 = c7.float_parameters(output_bit_depth).1;
    lemma_read_u8(c7, 8);
    lemma_read_u8(c7.read_u8(8).1, 8);
    let c9 = c8.optional_quantizers(components).1;
    lemma_quantizers(c8, components);
    let c10 = c9.high_band_quantizers(components, bands).1;
    if bands <= 3 {
        lemma_high_bands(c9, components, bands);
    } else {
        header::plane::lemma_high_bands_failed(c9, components, bands);
    }
    lemma_align(c10);
    assert(cursor.plane_header(output_bit_depth).1 == c10.align_zero());
}

/// Headers that can be parsed end within their input, and each of their fields lies in its bounds.
pub proof fn lemma_headers_in_bounds(bytes: Seq<u8>)
    requires
        header::headers_of(bytes) is Ok,
        bytes.len() <= usize::MAX,
    ensures
        headers_in_bounds(header::headers_of(bytes)->Ok_0, bytes.len() as int),
{
    let start = HeaderCursor::start(bytes);
    let (image, c1) = start.image_header();
    lemma_image(start);
    let c2 = c1.plane_header(image.output_bit_depth).1;
    lemma_plane(c1, image.output_bit_depth);
    lemma_plane(c2, image.output_bit_depth);
}

} // verus!

//! Image header parsing.

use super::fields::{read_dimension, read_u16, read_u8, require_value};
use super::types::{CodestreamHeader, HeaderFlags, ImageModel};
use crate::bit_reader::{BitReader, HeaderCursor};
use crate::error::NativeError;
use vstd::prelude::*;

verus! {

/// The eight bytes that a codestream begins with, as one number.
pub const GDI_SIGNATURE: u64 = 0x574D_5048_4F54_4F00;

/// The smallest margin that completes a dimension to a multiple of 16.
pub open spec fn inferred(dimension: u32) -> u8 {
    ((16 - dimension % 16) % 16) as u8
}

fn inferred_margin(dimension: u32) -> (margin: u8)
    ensures
        margin == inferred(dimension),
{
    let remainder: u32 = dimension % 16;
    if remainder == 0 {
        0
    } else {
        (16 - remainder) as u8
    }
}

/// Fields from the signature to the overlap mode.
#[derive(Clone, Copy)]
pub struct LeadingFields {
    /// Whether tiles have hard boundaries.
    pub hard_tiling: bool,
    /// Whether there are tiles.
    pub tiling: bool,
    /// Whether packets are ordered by frequency.
    pub frequency_mode: bool,
    /// Code of the presentation transformation.
    pub orientation: u8,
    /// Whether there is a tile index table.
    pub index_table_present: bool,
    /// Code of the overlap mode.
    pub overlap_mode: u8,
}

/// Fields from the header length to the output bit depth.
#[derive(Clone, Copy)]
pub struct FormatFields {
    /// Whether dimensions and tile sizes are short.
    pub short_header: bool,
    /// Whether long words are used.
    pub long_word: bool,
    /// Whether there are explicit margins.
    pub windowing: bool,
    /// Whether flexbits are trimmed.
    pub trim_flexbits: bool,
    /// Whether red and blue are not swapped.
    pub red_blue_not_swapped: bool,
    /// Whether colours are multiplied by alpha.
    pub premultiplied_alpha: bool,
    /// Whether there is an alpha plane.
    pub alpha_plane: bool,
    /// Code of the output colour format.
    pub output_color_format: u8,
    /// Code of the output bit depth.
    pub output_bit_depth: u8,
}

/// The flags of an image header, in the order in which they are packed.
pub open spec fn flags_of(leading: LeadingFields, format: FormatFields) -> Seq<bool> {
    seq![
        leading.hard_tiling,
        leading.frequency_mode,
        leading.index_table_present,
        format.long_word,
        format.short_header,
        format.trim_flexbits,
        format.red_blue_not_swapped,
        format.premultiplied_alpha,
        format.alpha_plane,
    ]
}

impl HeaderCursor {
    /// Reads the overlap mode, of which 3 is reserved.
    pub open spec fn overlap_mode(self) -> (u8, HeaderCursor) {
        let (value, next) = self.read_u8(2);
        (
            value,
            next.require(
                value != 3,
                NativeError::ReservedValue { field: "OVERLAP_MODE", value: 3 },
            ),
        )
    }

    /// Requires output codes that are not reserved.
    pub open spec fn output_codes(self, color: u8, depth: u8) -> HeaderCursor {
        self.require(
            color <= 8,
            NativeError::ReservedValue { field: "OUTPUT_CLR_FMT", value: color as u64 },
        ).require(
            depth != 5 && !(11 <= depth <= 14),
            NativeError::ReservedValue { field: "OUTPUT_BITDEPTH", value: depth as u64 },
        )
    }

    /// Reads the margins, or infers them from the dimensions.
    pub open spec fn margins(self, windowing: bool, width: u32, height: u32) -> (
        Seq<u8>,
        HeaderCursor,
    ) {
        if windowing {
            let (top, c) = self.read_u8(6);
            let (left, c) = c.read_u8(6);
            let (bottom, c) = c.read_u8(6);
            let (right, c) = c.read_u8(6);
            (seq![top, left, bottom, right], c)
        } else {
            (seq![0u8, 0u8, inferred(height), inferred(width)], self)
        }
    }

    /// Reads `count` tile sizes.
    pub open spec fn tile_sizes(self, count: nat, bits: u8) -> (Seq<u16>, HeaderCursor)
        decreases count,
    {
        if count == 0 {
            (Seq::empty(), self)
        } else {
            let (sizes, c) = self.tile_sizes((count - 1) as nat, bits);
            let (size, c) = c.read_u16(bits);
            (sizes.push(size), c)
        }
    }

    /// Reads the explicit tile widths and heights, if there are tiles.
    pub open spec fn tiles(self, tiling: bool, short_header: bool) -> (
        (Seq<u16>, Seq<u16>),
        HeaderCursor,
    ) {
        if !tiling {
            ((Seq::empty(), Seq::empty()), self)
        } else {
            let bits: u8 = if short_header {
                8
            } else {
                16
            };
            let (columns, c) = self.read_u16(12);
            let (rows, c) = c.read_u16(12);
            let (widths, c) = c.tile_sizes(columns as nat, bits);
            let (heights, c) = c.tile_sizes(rows as nat, bits);
            ((widths, heights), c)
        }
    }

    /// Reads the fields from the signature to the overlap mode.
    #[verifier::opaque]
    pub open spec fn leading_fields(self) -> (LeadingFields, HeaderCursor) {
        let (signature, c) = self.read(64);
        let c = c.require(signature == GDI_SIGNATURE, NativeError::InvalidSignature);
        let (reserved_b, c) = c.read(4);
        let c = c.require(
            reserved_b == 1,
            NativeError::ReservedValue { field: "RESERVED_B", value: reserved_b },
        );
        let (hard_tiling, c) = c.read_flag();
        let (_, c) = c.read(3);
        let (tiling, c) = c.read_flag();
        let (frequency_mode, c) = c.read_flag();
        let (orientation, c) = c.read_u8(3);
        let (index_table_present, c) = c.read_flag();
        let (overlap_mode, c) = c.overlap_mode();
        (
            LeadingFields {
                hard_tiling,
                tiling,
                frequency_mode,
                orientation,
                index_table_present,
                overlap_mode,
            },
            c,
        )
    }

    /// Reads the fields from the header length to the output bit depth.
    #[verifier::opaque]
    pub open spec fn format_fields(self) -> (FormatFields, HeaderCursor) {
        let (short_header, c) = self.read_flag();
        let (long_word, c) = c.read_flag();
        let (windowing, c) = c.read_flag();
        let (trim_flexbits, c) = c.read_flag();
        let (_, c) = c.read_flag();
        let (red_blue_not_swapped, c) = c.read_flag();
        let (premultiplied_alpha, c) = c.read_flag();
        let (alpha_plane, c) = c.read_flag();
        let (output_color_format, c) = c.read_u8(4);
        let (output_bit_depth, c) = c.read_u8(4);
        (
            FormatFields {
                short_header,
                long_word,
                windowing,
                trim_flexbits,
                red_blue_not_swapped,
                premultiplied_alpha,
                alpha_plane,
                output_color_format,
                output_bit_depth,
            },
            c.output_codes(output_color_format, output_bit_depth),
        )
    }

    /// Reads an image header.
    #[verifier::opaque]
    pub open spec fn image_header(self) -> (ImageModel, HeaderCursor) {
        let (leading, c) = self.leading_fields();
        let (format, c) = c.format_fields();
        let dimension_bits: u8 = if format.short_header {
            16
        } else {
            32
        };
        let (width, c) = c.read_dimension(dimension_bits, "WIDTH_MINUS1");
        let (height, c) = c.read_dimension(dimension_bits, "HEIGHT_MINUS1");
        let ((tile_widths_mb, tile_heights_mb), c) = c.tiles(leading.tiling, format.short_header);
        let (margins, c) = c.margins(format.windowing, width, height);
        (
            ImageModel {
                width,
                height,
                flags: HeaderFlags::of(flags_of(leading, format)),
                orientation: leading.orientation,
                overlap_mode: leading.overlap_mode,
                output_color_format: format.output_color_format,
                output_bit_depth: format.output_bit_depth,
                tile_widths_mb,
                tile_heights_mb,
                margins,
            },
            c,
        )
    }
}

/// A cursor that holds an error reads no fields.
proof fn lemma_format_failed(cursor: HeaderCursor)
    requires
        cursor.error is Some,
    ensures
        cursor.format_fields().1 == cursor,
{
    reveal(HeaderCursor::format_fields);
}

/// Once a size cannot be read, no later one can.
proof fn lemma_tile_sizes_stop(cursor: HeaderCursor, some: nat, all: nat, bits: u8)
    requires
        some <= all,
        cursor.tile_sizes(some, bits).1.error is Some,
    ensures
        cursor.tile_sizes(all, bits).1 == cursor.tile_sizes(some, bits).1,
    decreases all,
{
    if some < all {
        lemma_tile_sizes_stop(cursor, some, (all - 1) as nat, bits);
    }
}

/// A cursor that holds an error reads nothing.
proof fn lemma_tile_sizes_failed(cursor: HeaderCursor, count: nat, bits: u8)
    requires
        cursor.error is Some,
    ensures
        cursor.tile_sizes(count, bits).1 == cursor,
    decreases count,
{
    if count > 0 {
        lemma_tile_sizes_failed(cursor, (count - 1) as nat, bits);
    }
}

fn read_tile_sizes(reader: &mut BitReader<'_>, count: usize, bits: u8) -> (result: Result<
    Vec<u16>,
    NativeError,
>)
    requires
        old(reader)@.error is None,
    ensures
        old(reader)@.tile_sizes(count as nat, bits).1.agrees(result),
        result matches Ok(sizes) ==> sizes@ == old(reader)@.tile_sizes(count as nat, bits).0,
        final(reader)@ == old(reader)@.tile_sizes(count as nat, bits).1.place(),
{
    let mut values: Vec<u16> = Vec::new();
    for k in 0..count
        invariant
            old(reader)@.error is None,
            reader@ == old(reader)@.tile_sizes(k as nat, bits).1,
            reader@.error is None,
            values@ == old(reader)@.tile_sizes(k as nat, bits).0,
    {
        proof {
            assert(old(reader)@.tile_sizes(k as nat + 1, bits).1 == old(reader)@.tile_sizes(
                k as nat,
                bits,
            ).1.read_u16(bits).1);
            if old(reader)@.tile_sizes(k as nat + 1, bits).1.error is Some {
                lemma_tile_sizes_stop(old(reader)@, k as nat + 1, count as nat, bits);
            }
        }
        values.push(read_u16(reader, bits)?);
    }
    Ok(values)
}

fn parse_tiles(reader: &mut BitReader<'_>, tiling: bool, short_header: bool) -> (result: Result<
    (Vec<u16>, Vec<u16>),
    NativeError,
>)
    requires
        old(reader)@.error is None,
    ensures
        old(reader)@.tiles(tiling, short_header).1.agrees(result),
        result matches Ok(sizes) ==> (sizes.0@, sizes.1@) == old(reader)@.tiles(
            tiling,
            short_header,
        ).0,
        final(reader)@ == old(reader)@.tiles(tiling, short_header).1.place(),
{
    if !tiling {
        return Ok((Vec::new(), Vec::new()));
    }
    proof {
        let bits: u8 = if short_header {
            8
        } else {
            16
        };
        let (columns, c1) = old(reader)@.read_u16(12);
        let (rows, c2) = c1.read_u16(12);
        let (_, c3) = c2.tile_sizes(columns as nat, bits);
        if c2.error is Some {
            lemma_tile_sizes_failed(c2, columns as nat, bits);
        }
        if c3.error is Some {
            lemma_tile_sizes_failed(c3, rows as nat, bits);
        }
    }
    let columns_minus_one: usize = read_u16(reader, 12)? as usize;
    let rows_minus_one: usize = read_u16(reader, 12)? as usize;
    let tile_bits: u8 = if short_header {
        8
    } else {
        16
    };
    let widths = read_tile_sizes(reader, columns_minus_one, tile_bits)?;
    let heights = read_tile_sizes(reader, rows_minus_one, tile_bits)?;
    Ok((widths, heights))
}

fn read_overlap_mode(reader: &mut BitReader<'_>) -> (result: Result<u8, NativeError>)
    requires
        old(reader)@.error is None,
    ensures
        result == old(reader)@.overlap_mode().1.outcome(old(reader)@.overlap_mode().0),
        final(reader)@ == old(reader)@.overlap_mode().1.place(),
{
    let value: u8 = read_u8(reader, 2)?;
    if value == 3 {
        Err(NativeError::ReservedValue { field: "OVERLAP_MODE", value: 3 })
    } else {
        Ok(value)
    }
}

fn parse_margins(reader: &mut BitReader<'_>, windowing: bool, width: u32, height: u32) -> (result:
    Result<[u8; 4], NativeError>)
    requires
        old(reader)@.error is None,
    ensures
        old(reader)@.margins(windowing, width, height).1.agrees(result),
        result matches Ok(margins) ==> margins@ == old(reader)@.margins(windowing, width, height).0,
        final(reader)@ == old(reader)@.margins(windowing, width, height).1.place(),
{
    if windowing {
        let top: u8 = read_u8(reader, 6)?;
        let left: u8 = read_u8(reader, 6)?;
        let bottom: u8 = read_u8(reader, 6)?;
        let right: u8 = read_u8(reader, 6)?;
        Ok([top, left, bottom, right])
    } else {
        Ok([0, 0, inferred_margin(height), inferred_margin(width)])
    }
}

fn validate_output_codes(color: u8, depth: u8) -> (result: Result<(), NativeError>)
    ensures
        forall|cursor: HeaderCursor|
            cursor.error is None ==> (#[trigger] cursor.output_codes(color, depth)).outcome(())
                == result && cursor.output_codes(color, depth).place() == cursor,
{
    if color > 8 {
        return Err(NativeError::ReservedValue { field: "OUTPUT_CLR_FMT", value: color as u64 });
    }
    if depth == 5 || (depth >= 11 && depth <= 14) {
        return Err(NativeError::ReservedValue { field: "OUTPUT_BITDEPTH", value: depth as u64 });
    }
    Ok(())
}

#[verifier::rlimit(60)]
fn parse_leading_fields(reader: &mut BitReader<'_>) -> (result: Result<LeadingFields, NativeError>)
    requires
        old(reader)@.error is None,
    ensures
        old(reader)@.leading_fields().1.agrees(result),
        result matches Ok(fields) ==> fields == old(reader)@.leading_fields().0,
        final(reader)@ == old(reader)@.leading_fields().1.place(),
{
    proof {
        reveal(HeaderCursor::leading_fields);
    }
    if reader.read_bits(64)? != GDI_SIGNATURE {
        return Err(NativeError::InvalidSignature);
    }
    require_value(reader.read_bits(4)?, 1, "RESERVED_B")?;
    let hard_tiling: bool = reader.read_flag()?;
    let _reserved_c: u64 = reader.read_bits(3)?;
    let tiling: bool = reader.read_flag()?;
    let frequency_mode: bool = reader.read_flag()?;
    let orientation: u8 = read_u8(reader, 3)?;
    let index_table_present: bool = reader.read_flag()?;
    let overlap_mode: u8 = read_overlap_mode(reader)?;
    Ok(
        LeadingFields {
            hard_tiling,
            tiling,
            frequency_mode,
            orientation,
            index_table_present,
            overlap_mode,
        },
    )
}

#[verifier::rlimit(60)]
fn parse_format_fields(reader: &mut BitReader<'_>) -> (result: Result<FormatFields, NativeError>)
    requires
        old(reader)@.error is None,
    ensures
        old(reader)@.format_fields().1.agrees(result),
        result matches Ok(fields) ==> fields == old(reader)@.format_fields().0,
        final(reader)@ == old(reader)@.format_fields().1.place(),
{
    proof {
        reveal(HeaderCursor::format_fields);
    }
    let short_header: bool = reader.read_flag()?;
    let long_word: bool = reader.read_flag()?;
    let windowing: bool = reader.read_flag()?;
    let trim_flexbits: bool = reader.read_flag()?;
    let _reserved_d: bool = reader.read_flag()?;
    let red_blue_not_swapped: bool = reader.read_flag()?;
    let premultiplied_alpha: bool = reader.read_flag()?;
    let alpha_plane: bool = reader.read_flag()?;
    let output_color_format: u8 = read_u8(reader, 4)?;
    let output_bit_depth: u8 = read_u8(reader, 4)?;
    validate_output_codes(output_color_format, output_bit_depth)?;
    Ok(
        FormatFields {
            short_header,
            long_word,
            windowing,
            trim_flexbits,
            red_blue_not_swapped,
            premultiplied_alpha,
            alpha_plane,
            output_color_format,
            output_bit_depth,
        },
    )
}

/// Parses the image header at the reader.
#[verifier::rlimit(60)]
pub(crate) fn parse_image_header(reader: &mut BitReader<'_>) -> (result: Result<
    CodestreamHeader,
    NativeError,
>)
    requires
        old(reader)@.error is None,
    ensures
        old(reader)@.image_header().1.agrees(result),
        result matches Ok(header) ==> header@ == old(reader)@.image_header().0,
        final(reader)@ == old(reader)@.image_header().1.place(),
{
    proof {
        reveal(HeaderCursor::image_header);
        let c = reader@.leading_fields().1;
        if c.error is Some {
            lemma_format_failed(c);
        }
    }
    let leading: LeadingFields = parse_leading_fields(reader)?;
    let format: FormatFields = parse_format_fields(reader)?;
    let dimension_bits: u8 = if format.short_header {
        16
    } else {
        32
    };
    let width: u32 = read_dimension(reader, dimension_bits, "WIDTH_MINUS1")?;
    let height: u32 = read_dimension(reader, dimension_bits, "HEIGHT_MINUS1")?;
    let (tile_widths_mb, tile_heights_mb) = parse_tiles(
        reader,
        leading.tiling,
        format.short_header,
    )?;
    let margins: [u8; 4] = parse_margins(reader, format.windowing, width, height)?;
    let values: [bool; 9] = [
        leading.hard_tiling,
        leading.frequency_mode,
        leading.index_table_present,
        format.long_word,
        format.short_header,
        format.trim_flexbits,
        format.red_blue_not_swapped,
        format.premultiplied_alpha,
        format.alpha_plane,
    ];
    assert(values@ =~= flags_of(leading, format));
    let flags: HeaderFlags = HeaderFlags::from_parsed(values);
    Ok(
        CodestreamHeader {
            width,
            height,
            flags,
            orientation: leading.orientation,
            overlap_mode: leading.overlap_mode,
            output_color_format: format.output_color_format,
            output_bit_depth: format.output_bit_depth,
            tile_widths_mb,
            tile_heights_mb,
            margins,
        },
    )
}

} // verus!

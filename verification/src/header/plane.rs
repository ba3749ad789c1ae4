//! Image-plane header parsing.

use super::fields::{read_u16, read_u8};
use super::types::{ImagePlaneHeader, PlaneModel, QuantizerSet};
use crate::bit_reader::{BitReader, HeaderCursor};
use crate::error::NativeError;
use vstd::prelude::*;

verus! {

/// The component count and the two chroma centering codes.
pub type Layout = (u16, u8, u8);

impl HeaderCursor {
    /// Reads a chroma centering code; 5 and 6 mean the same as 7.
    pub open spec fn chroma_centering(self) -> (u8, HeaderCursor) {
        let (value, c) = self.read_u8(3);
        (
            if value == 5 || value == 6 {
                7
            } else {
                value
            },
            c,
        )
    }

    /// Reads the layout of a 4:2:0 plane.
    pub open spec fn yuv420_layout(self) -> (Layout, HeaderCursor) {
        let (_, c) = self.read_flag();
        let (x, c) = c.chroma_centering();
        let (_, c) = c.read_flag();
        let (y, c) = c.chroma_centering();
        ((3, x, y), c)
    }

    /// Reads the layout of a 4:2:2 plane.
    pub open spec fn yuv422_layout(self) -> (Layout, HeaderCursor) {
        let (_, c) = self.read_flag();
        let (x, c) = c.chroma_centering();
        let (_, c) = c.read(4);
        ((3, x, 0), c)
    }

    /// Reads the layout of a plane with an explicit component count.
    pub open spec fn ncomponent_layout(self) -> (Layout, HeaderCursor) {
        let (short_count, c) = self.read_u16(4);
        if short_count == 15 {
            let (count, c) = c.read_u16(12);
            (
                ((count + 16) as u16, 0, 0),
                c.require(
                    count + 16 <= u16::MAX,
                    NativeError::IntegerOverflow { operation: "computing component count" },
                ),
            )
        } else {
            let (_, c) = c.read(4);
            (((short_count + 1) as u16, 0, 0), c)
        }
    }

    /// Reads the layout that the colour format asks for.
    pub open spec fn component_layout(self, color: u8) -> (Layout, HeaderCursor) {
        if color == 0 {
            ((1, 0, 0), self)
        } else if color == 1 {
            self.yuv420_layout()
        } else if color == 2 {
            self.yuv422_layout()
        } else if color == 3 {
            let (_, c) = self.read(4);
            let (_, c) = c.read(4);
            ((3, 0, 0), c)
        } else if color == 4 {
            ((4, 0, 0), self)
        } else if color == 6 {
            self.ncomponent_layout()
        } else {
            (
                (0, 0, 0),
                self.fail(
                    NativeError::ReservedValue { field: "INTERNAL_CLR_FMT", value: color as u64 },
                ),
            )
        }
    }

    /// Reads `count` bytes.
    pub open spec fn octets(self, count: nat) -> (Seq<u8>, HeaderCursor)
        decreases count,
    {
        if count == 0 {
            (Seq::empty(), self)
        } else {
            let (values, c) = self.octets((count - 1) as nat);
            let (value, c) = c.read_u8(8);
            (values.push(value), c)
        }
    }

    /// Reads one quantizer per component: a single one for all, one for the first component and
    /// one for the others, or one for each.
    pub open spec fn quantizer_set(self, components: u16) -> (Seq<u8>, HeaderCursor) {
        let (mode, c) = if components == 1 {
            (0, self)
        } else {
            self.read_u8(2)
        };
        if mode == 0 {
            let (value, c) = c.read_u8(8);
            (Seq::new(components as nat, |i: int| value), c)
        } else if mode == 1 {
            let (luma, c) = c.read_u8(8);
            let (chroma, c) = c.read_u8(8);
            (
                Seq::new(
                    components as nat,
                    |i: int|
                        if i == 0 {
                            luma
                        } else {
                            chroma
                        },
                ),
                c,
            )
        } else if mode == 2 {
            c.octets(components as nat)
        } else {
            (
                Seq::empty(),
                c.fail(NativeError::ReservedValue { field: "COMPONENT_MODE", value: 3 }),
            )
        }
    }

    /// Reads a quantizer set if the bit before it says that there is one.
    pub open spec fn optional_quantizers(self, components: u16) -> (Option<Seq<u8>>, HeaderCursor) {
        let (present, c) = self.read_flag();
        if present {
            let (values, c) = c.quantizer_set(components);
            (Some(values), c)
        } else {
            (None, c)
        }
    }

    /// Reads the quantizers of the bands above DC that are present.
    pub open spec fn high_band_quantizers(self, components: u16, bands_present: u8) -> (
        (Option<Seq<u8>>, Option<Seq<u8>>),
        HeaderCursor,
    ) {
        if bands_present == 3 {
            ((None, None), self)
        } else {
            let (_, c) = self.read_flag();
            let (low_pass, c) = c.optional_quantizers(components);
            if bands_present == 2 {
                ((low_pass, None), c)
            } else {
                let (_, c) = c.read_flag();
                let (high_pass, c) = c.optional_quantizers(components);
                ((low_pass, high_pass), c)
            }
        }
    }

    /// Reads the shift of fixed-point samples.
    pub open spec fn shift_bits(self, output_bit_depth: u8) -> (u8, HeaderCursor) {
        if output_bit_depth == 2 || output_bit_depth == 3 || output_bit_depth == 6 {
            self.read_u8(8)
        } else {
            (0, self)
        }
    }

    /// Reads the mantissa length and the exponent bias of floating-point samples.
    pub open spec fn float_parameters(self, output_bit_depth: u8) -> ((u8, i8), HeaderCursor) {
        if output_bit_depth == 7 {
            let (mantissa, c) = self.read_u8(8);
            let (bias, c) = c.read_u8(8);
            ((mantissa, bias as i8), c)
        } else {
            ((0, 0), self)
        }
    }

    /// Reads a plane header.
    #[verifier::opaque]
    pub open spec fn plane_header(self, output_bit_depth: u8) -> (PlaneModel, HeaderCursor) {
        let (internal_color_format, c) = self.read_u8(3);
        let c = c.require(
            internal_color_format != 5 && internal_color_format != 7,
            NativeError::ReservedValue {
                field: "INTERNAL_CLR_FMT",
                value: internal_color_format as u64,
            },
        );
        let (scaled, c) = c.read_flag();
        let (bands_present, c) = c.read_u8(4);
        let c = c.require(
            bands_present <= 3,
            NativeError::ReservedValue { field: "BANDS_PRESENT", value: bands_present as u64 },
        );
        let ((components, chroma_centering_x, chroma_centering_y), c) = c.component_layout(
            internal_color_format,
        );
        let (shift_bits, c) = c.shift_bits(output_bit_depth);
        let ((mantissa_length, exponent_bias), c) = c.float_parameters(output_bit_depth);
        let (dc_quantizers, c) = c.optional_quantizers(components);
        let ((lp_quantizers, hp_quantizers), c) = c.high_band_quantizers(components, bands_present);
        (
            PlaneModel {
                internal_color_format,
                scaled,
                bands_present,
                components,
                chroma_centering_x,
                chroma_centering_y,
                shift_bits,
                mantissa_length,
                exponent_bias,
                dc_quantizers,
                lp_quantizers,
                hp_quantizers,
            },
            c.align_zero(),
        )
    }
}

fn read_chroma_centering(reader: &mut BitReader<'_>) -> (result: Result<u8, NativeError>)
    requires
        old(reader)@.error is None,
    ensures
        result == old(reader)@.chroma_centering().1.outcome(old(reader)@.chroma_centering().0),
        final(reader)@ == old(reader)@.chroma_centering().1.place(),
{
    let value: u8 = read_u8(reader, 3)?;
    Ok(
        if value == 5 || value == 6 {
            7
        } else {
            value
        },
    )
}

fn parse_yuv420_layout(reader: &mut BitReader<'_>) -> (result: Result<Layout, NativeError>)
    requires
        old(reader)@.error is None,
    ensures
        result == old(reader)@.yuv420_layout().1.outcome(old(reader)@.yuv420_layout().0),
        final(reader)@ == old(reader)@.yuv420_layout().1.place(),
{
    let _reserved_e: bool = reader.read_flag()?;
    let x: u8 = read_chroma_centering(reader)?;
    let _reserved_g: bool = reader.read_flag()?;
    let y: u8 = read_chroma_centering(reader)?;
    Ok((3, x, y))
}

fn parse_yuv422_layout(reader: &mut BitReader<'_>) -> (result: Result<Layout, NativeError>)
    requires
        old(reader)@.error is None,
    ensures
        result == old(reader)@.yuv422_layout().1.outcome(old(reader)@.yuv422_layout().0),
        final(reader)@ == old(reader)@.yuv422_layout().1.place(),
{
    let _reserved_e: bool = reader.read_flag()?;
    let x: u8 = read_chroma_centering(reader)?;
    let _reserved_h: u64 = reader.read_bits(4)?;
    Ok((3, x, 0))
}

fn parse_ncomponent_layout(reader: &mut BitReader<'_>) -> (result: Result<Layout, NativeError>)
    requires
        old(reader)@.error is None,
    ensures
        result == old(reader)@.ncomponent_layout().1.outcome(old(reader)@.ncomponent_layout().0),
        final(reader)@ == old(reader)@.ncomponent_layout().1.place(),
        result matches Ok(layout) ==> layout.0 >= 1,
{
    proof {
        lemma_read_u16_bound(reader@);
    }
    let short_count: u16 = read_u16(reader, 4)?;
    let components: u16 = if short_count == 15 {
        match read_u16(reader, 12)?.checked_add(16) {
            Some(components) => components,
            None => {
                return Err(
                    NativeError::IntegerOverflow { operation: "computing component count" },
                );
            },
        }
    } else {
        let _reserved_h: u64 = reader.read_bits(4)?;
        short_count + 1
    };
    Ok((components, 0, 0))
}

/// Four bits hold less than 16.
proof fn lemma_read_u16_bound(cursor: HeaderCursor)
    ensures
        cursor.read_u16(4).1.error is None ==> cursor.read_u16(4).0 < 16,
{
    crate::bits::lemma_bits_value_bound(cursor.bytes, cursor.position as int, 4);
    vstd::arithmetic::power2::lemma2_to64();
}

fn parse_component_layout(reader: &mut BitReader<'_>, color: u8) -> (result: Result<
    Layout,
    NativeError,
>)
    requires
        old(reader)@.error is None,
    ensures
        result == old(reader)@.component_layout(color).1.outcome(
            old(reader)@.component_layout(color).0,
        ),
        final(reader)@ == old(reader)@.component_layout(color).1.place(),
        result matches Ok(layout) ==> layout.0 >= 1,
{
    match color {
        0 => Ok((1, 0, 0)),
        1 => parse_yuv420_layout(reader),
        2 => parse_yuv422_layout(reader),
        3 => {
            let _reserved_f: u64 = reader.read_bits(4)?;
            let _reserved_h: u64 = reader.read_bits(4)?;
            Ok((3, 0, 0))
        },
        4 => Ok((4, 0, 0)),
        6 => parse_ncomponent_layout(reader),
        _ => Err(NativeError::ReservedValue { field: "INTERNAL_CLR_FMT", value: color as u64 }),
    }
}

/// Once a byte cannot be read, no later one can.
proof fn lemma_octets_stop(cursor: HeaderCursor, some: nat, all: nat)
    requires
        some <= all,
        cursor.octets(some).1.error is Some,
    ensures
        cursor.octets(all).1 == cursor.octets(some).1,
    decreases all,
{
    if some < all {
        lemma_octets_stop(cursor, some, (all - 1) as nat);
    }
}

/// A cursor that holds an error reads nothing.
proof fn lemma_octets_failed(cursor: HeaderCursor, count: nat)
    requires
        cursor.error is Some,
    ensures
        cursor.octets(count).1 == cursor,
    decreases count,
{
    if count > 0 {
        lemma_octets_failed(cursor, (count - 1) as nat);
    }
}

fn independent_quantizers(reader: &mut BitReader<'_>, components: u16) -> (result: Result<
    Vec<u8>,
    NativeError,
>)
    requires
        old(reader)@.error is None,
    ensures
        old(reader)@.octets(components as nat).1.agrees(result),
        result matches Ok(values) ==> values@ == old(reader)@.octets(components as nat).0,
        final(reader)@ == old(reader)@.octets(components as nat).1.place(),
{
    let mut values: Vec<u8> = Vec::new();
    for k in 0..components
        invariant
            old(reader)@.error is None,
            reader@ == old(reader)@.octets(k as nat).1,
            reader@.error is None,
            values@ == old(reader)@.octets(k as nat).0,
    {
        proof {
            assert(old(reader)@.octets(k as nat + 1).1 == old(reader)@.octets(k as nat).1.read_u8(
                8,
            ).1);
            if old(reader)@.octets(k as nat + 1).1.error is Some {
                lemma_octets_stop(old(reader)@, k as nat + 1, components as nat);
            }
        }
        values.push(read_u8(reader, 8)?);
    }
    Ok(values)
}

fn filled(value: u8, count: u16) -> (values: Vec<u8>)
    ensures
        values@ == Seq::new(count as nat, |i: int| value),
{
    let mut values: Vec<u8> = Vec::new();
    for k in 0..count
        invariant
            values@ == Seq::new(k as nat, |i: int| value),
    {
        values.push(value);
        assert(values@ =~= Seq::new((k + 1) as nat, |i: int| value));
    }
    values
}

fn separate_quantizers(reader: &mut BitReader<'_>, components: u16) -> (result: Result<
    Vec<u8>,
    NativeError,
>)
    requires
        old(reader)@.error is None,
        components >= 1,
    ensures
        ({
            let (luma, c) = old(reader)@.read_u8(8);
            let (chroma, c) = c.read_u8(8);
            &&& c.agrees(result)
            &&& result matches Ok(values) ==> values@ == Seq::new(
                components as nat,
                |i: int|
                    if i == 0 {
                        luma
                    } else {
                        chroma
                    },
            )
            &&& final(reader)@ == c.place()
        }),
{
    let luma: u8 = read_u8(reader, 8)?;
    let chroma: u8 = read_u8(reader, 8)?;
    let mut values: Vec<u8> = filled(chroma, components);
    values.set(0, luma);
    assert(values@ =~= Seq::new(
        components as nat,
        |i: int|
            if i == 0 {
                luma
            } else {
                chroma
            },
    ));
    Ok(values)
}

fn parse_quantizer_set(reader: &mut BitReader<'_>, components: u16) -> (result: Result<
    QuantizerSet,
    NativeError,
>)
    requires
        old(reader)@.error is None,
        components >= 1,
    ensures
        old(reader)@.quantizer_set(components).1.agrees(result),
        result matches Ok(set) ==> set@ == old(reader)@.quantizer_set(components).0,
        final(reader)@ == old(reader)@.quantizer_set(components).1.place(),
{
    proof {
        crate::bits::lemma_bits_value_bound(reader@.bytes, reader@.position as int, 2);
        vstd::arithmetic::power2::lemma2_to64();
    }
    let mode: u8 = if components == 1 {
        0
    } else {
        read_u8(reader, 2)?
    };
    let values: Vec<u8> = match mode {
        0 => {
            let value: u8 = read_u8(reader, 8)?;
            filled(value, components)
        },
        1 => separate_quantizers(reader, components)?,
        2 => independent_quantizers(reader, components)?,
        _ => {
            return Err(NativeError::ReservedValue { field: "COMPONENT_MODE", value: 3 });
        },
    };
    Ok(QuantizerSet { components: values })
}

fn parse_optional_quantizers(reader: &mut BitReader<'_>, components: u16) -> (result: Result<
    Option<QuantizerSet>,
    NativeError,
>)
    requires
        old(reader)@.error is None,
        components >= 1,
    ensures
        old(reader)@.optional_quantizers(components).1.agrees(result),
        result matches Ok(set) ==> super::types::quantizers_view(set)
            == old(reader)@.optional_quantizers(components).0,
        final(reader)@ == old(reader)@.optional_quantizers(components).1.place(),
{
    if reader.read_flag()? {
        let set: QuantizerSet = parse_quantizer_set(reader, components)?;
        Ok(Some(set))
    } else {
        Ok(None)
    }
}

/// A cursor that holds an error reads no quantizers.
proof fn lemma_quantizers_failed(cursor: HeaderCursor, components: u16)
    requires
        cursor.error is Some,
    ensures
        cursor.optional_quantizers(components).1 == cursor,
{
    lemma_octets_failed(cursor, components as nat);
}

fn parse_high_band_quantizers(
    reader: &mut BitReader<'_>,
    components: u16,
    bands_present: u8,
) -> (result: Result<(Option<QuantizerSet>, Option<QuantizerSet>), NativeError>)
    requires
        old(reader)@.error is None,
        components >= 1,
    ensures
        old(reader)@.high_band_quantizers(components, bands_present).1.agrees(result),
        result matches Ok(sets) ==> (
            super::types::quantizers_view(sets.0),
            super::types::quantizers_view(sets.1),
        ) == old(reader)@.high_band_quantizers(components, bands_present).0,
        final(reader)@ == old(reader)@.high_band_quantizers(components, bands_present).1.place(),
{
    if bands_present == 3 {
        return Ok((None, None));
    }
    proof {
        let c1 = reader@.read_flag().1;
        if c1.error is Some {
            lemma_quantizers_failed(c1, components);
        }
        let c2 = c1.optional_quantizers(components).1;
        if c2.error is Some {
            lemma_quantizers_failed(c2.read_flag().1, components);
        }
        let c3 = c2.read_flag().1;
        if c3.error is Some {
            lemma_quantizers_failed(c3, components);
        }
    }
    let _reserved_i: bool = reader.read_flag()?;
    let low_pass = parse_optional_quantizers(reader, components)?;
    if bands_present == 2 {
        return Ok((low_pass, None));
    }
    let _reserved_j: bool = reader.read_flag()?;
    let high_pass = parse_optional_quantizers(reader, components)?;
    Ok((low_pass, high_pass))
}

/// A cursor that holds an error reads no quantizers of any band.
pub(crate) proof fn lemma_high_bands_failed(cursor: HeaderCursor, components: u16, bands_present: u8)
    requires
        cursor.error is Some,
    ensures
        cursor.high_band_quantizers(components, bands_present).1 == cursor,
{
    lemma_quantizers_failed(cursor, components);
}

fn parse_shift_bits(reader: &mut BitReader<'_>, output_bit_depth: u8) -> (result: Result<
    u8,
    NativeError,
>)
    requires
        old(reader)@.error is None,
    ensures
        result == old(reader)@.shift_bits(output_bit_depth).1.outcome(
            old(reader)@.shift_bits(output_bit_depth).0,
        ),
        final(reader)@ == old(reader)@.shift_bits(output_bit_depth).1.place(),
{
    if output_bit_depth == 2 || output_bit_depth == 3 || output_bit_depth == 6 {
        read_u8(reader, 8)
    } else {
        Ok(0)
    }
}

fn parse_float_parameters(reader: &mut BitReader<'_>, output_bit_depth: u8) -> (result: Result<
    (u8, i8),
    NativeError,
>)
    requires
        old(reader)@.error is None,
    ensures
        result == old(reader)@.float_parameters(output_bit_depth).1.outcome(
            old(reader)@.float_parameters(output_bit_depth).0,
        ),
        final(reader)@ == old(reader)@.float_parameters(output_bit_depth).1.place(),
{
    if output_bit_depth == 7 {
        let mantissa: u8 = read_u8(reader, 8)?;
        let bias: u8 = read_u8(reader, 8)?;
        Ok((mantissa, bias as i8))
    } else {
        Ok((0, 0))
    }
}

fn validate_internal_color(value: u8) -> (result: Result<(), NativeError>)
    ensures
        result == (if value != 5 && value != 7 {
            Ok::<(), NativeError>(())
        } else {
            Err(NativeError::ReservedValue { field: "INTERNAL_CLR_FMT", value: value as u64 })
        }),
{
    if value == 5 || value == 7 {
        Err(NativeError::ReservedValue { field: "INTERNAL_CLR_FMT", value: value as u64 })
    } else {
        Ok(())
    }
}

fn validate_bands(value: u8) -> (result: Result<(), NativeError>)
    ensures
        result == (if value <= 3 {
            Ok::<(), NativeError>(())
        } else {
            Err(NativeError::ReservedValue { field: "BANDS_PRESENT", value: value as u64 })
        }),
{
    if value > 3 {
        Err(NativeError::ReservedValue { field: "BANDS_PRESENT", value: value as u64 })
    } else {
        Ok(())
    }
}

/// A cursor that holds an error reads no layout.
proof fn lemma_layout_failed(cursor: HeaderCursor, color: u8)
    requires
        cursor.error is Some,
    ensures
        cursor.component_layout(color).1 == cursor,
{
}

/// A cursor that holds an error reads no plane header.
pub proof fn lemma_plane_failed(cursor: HeaderCursor, output_bit_depth: u8)
    requires
        cursor.error is Some,
    ensures
        cursor.plane_header(output_bit_depth).1 == cursor,
{
    reveal(HeaderCursor::plane_header);
    let color = cursor.read_u8(3).0;
    lemma_layout_failed(cursor, color);
    let layout = cursor.component_layout(color).0;
    lemma_quantizers_failed(cursor, layout.0);
    lemma_high_bands_failed(cursor, layout.0, cursor.read_u8(4).0);
}

/// Parses the plane header at the reader.
#[verifier::rlimit(60)]
pub(crate) fn parse_plane_header(reader: &mut BitReader<'_>, output_bit_depth: u8) -> (result:
    Result<ImagePlaneHeader, NativeError>)
    requires
        old(reader)@.error is None,
    ensures
        old(reader)@.plane_header(output_bit_depth).1.agrees(result),
        result matches Ok(header) ==> header@ == old(reader)@.plane_header(output_bit_depth).0
            && header.components >= 1 && header.bands_present <= 3,
        final(reader)@ == old(reader)@.plane_header(output_bit_depth).1.place(),
{
    proof {
        reveal(HeaderCursor::plane_header);
        assert forall|c: HeaderCursor, color: u8| c.error is Some implies (
        #[trigger] c.component_layout(color)).1 == c by {
            lemma_layout_failed(c, color);
        }
        assert forall|c: HeaderCursor, n: u16| c.error is Some implies (
        #[trigger] c.optional_quantizers(n)).1 == c by {
            lemma_quantizers_failed(c, n);
        }
        assert forall|c: HeaderCursor, n: u16, bands: u8| c.error is Some implies (
        #[trigger] c.high_band_quantizers(n, bands)).1 == c by {
            lemma_high_bands_failed(c, n, bands);
        }
    }
    let internal_color_format: u8 = read_u8(reader, 3)?;
    validate_internal_color(internal_color_format)?;
    let scaled: bool = reader.read_flag()?;
    let bands_present: u8 = read_u8(reader, 4)?;
    validate_bands(bands_present)?;
    let (components, chroma_centering_x, chroma_centering_y) = parse_component_layout(
        reader,
        internal_color_format,
    )?;
    let shift_bits: u8 = parse_shift_bits(reader, output_bit_depth)?;
    let (mantissa_length, exponent_bias) = parse_float_parameters(reader, output_bit_depth)?;
    let dc_quantizers = parse_optional_quantizers(reader, components)?;
    let (lp_quantizers, hp_quantizers) = parse_high_band_quantizers(
        reader,
        components,
        bands_present,
    )?;
    reader.align_zero()?;
    Ok(
        ImagePlaneHeader {
            internal_color_format,
            scaled,
            bands_present,
            components,
            chroma_centering_x,
            chroma_centering_y,
            shift_bits,
            mantissa_length,
            exponent_bias,
            dc_quantizers,
            lp_quantizers,
            hp_quantizers,
        },
    )
}

} // verus!

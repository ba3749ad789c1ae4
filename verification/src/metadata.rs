//! Conversion from parsed syntax to public image metadata.

use crate::codestream::{ParsedCodestream, ParsedModel};
use crate::error::NativeError;
use crate::header::types::{ImageModel, PlaneModel};
use crate::header::{CodestreamHeader, ImagePlaneHeader};
use crate::pixel_format;
use crate::pixel_format::classify_annex_a_pixel_format;
use crate::types::{
    AlphaMode, AnnexAPixelFormat, BandPresence, BitstreamMode, ByteRange, ChromaSampling,
    ColorFormat, Orientation, OverlapMode,
};
use std::ops::Range;
use vstd::prelude::*;

verus! {

/// Representation of coded samples.
#[derive(Debug, Clone, Copy, PartialEq, Eq, Structural)]
pub enum SampleFormat {
    /// One bit.
    Bit1,
    /// Unsigned integers.
    Unsigned {
        /// Bits per sample.
        bits: u8,
    },
    /// Signed integers.
    Signed {
        /// Bits per sample.
        bits: u8,
    },
    /// Half precision.
    Float16,
    /// Single precision.
    Float32,
}

/// Declared profile.
#[derive(Debug, Clone, Copy, PartialEq, Eq, Structural)]
pub enum Profile {
    /// Sub-Baseline.
    SubBaseline,
    /// Baseline.
    Baseline,
    /// Main.
    Main,
    /// Advanced.
    Advanced,
    /// Any other identifier.
    Unknown(u8),
}

/// Declared level.
#[derive(Debug, Clone, Copy, PartialEq, Eq, Structural)]
pub struct Level(pub u8);

/// Properties of one coded plane.
#[derive(Debug, Clone, Copy, PartialEq, Eq)]
pub struct PlaneInfo {
    /// Internal colour format.
    pub color_format: ColorFormat,
    /// Representation of samples.
    pub sample_format: SampleFormat,
    /// Bands present.
    pub bands: BandPresence,
    /// Order of coded data.
    pub bitstream_mode: BitstreamMode,
    /// Overlap stages.
    pub overlap: OverlapMode,
    /// Whether the compact header syntax is used.
    pub short_header: bool,
    /// Whether long-word storage may be needed.
    pub long_word: bool,
    /// Whether output scaling is enabled.
    pub scaled: bool,
    /// Horizontal and vertical chroma centering codes.
    pub chroma_centering: [u8; 2],
    /// Fixed-point output shift.
    pub shift_bits: u8,
    /// Floating-point mantissa length.
    pub mantissa_length: u8,
    /// Floating-point exponent bias.
    pub exponent_bias: i8,
    /// Width.
    pub width: u32,
    /// Height.
    pub height: u32,
}

/// Tile sizes in macroblocks.
#[derive(Debug, PartialEq, Eq)]
pub struct TileGrid {
    /// Widths from left to right.
    pub column_widths: Vec<u32>,
    /// Heights from top to bottom.
    pub row_heights: Vec<u32>,
    /// Whether overlap filtering stops at tile boundaries.
    pub hard_tiles: bool,
}

/// Tile sizes in macroblocks.
pub struct TileGridModel {
    /// Widths from left to right.
    pub column_widths: Seq<u32>,
    /// Heights from top to bottom.
    pub row_heights: Seq<u32>,
    /// Whether overlap filtering stops at tile boundaries.
    pub hard_tiles: bool,
}

impl View for TileGrid {
    type V = TileGridModel;

    open spec fn view(&self) -> TileGridModel {
        TileGridModel {
            column_widths: self.column_widths@,
            row_heights: self.row_heights@,
            hard_tiles: self.hard_tiles,
        }
    }
}

impl Clone for TileGrid {
    fn clone(&self) -> (grid: Self)
        ensures
            grid@ == self@,
    {
        let grid = TileGrid {
            column_widths: self.column_widths.clone(),
            row_heights: self.row_heights.clone(),
            hard_tiles: self.hard_tiles,
        };
        assert(grid.column_widths@ =~= self.column_widths@);
        assert(grid.row_heights@ =~= self.row_heights@);
        grid
    }
}

/// Properties that do not affect decoding.
#[derive(Debug, Clone, Copy, PartialEq, Eq)]
pub struct ImageMetadata {
    /// Presentation transformation.
    pub orientation: Orientation,
    /// Range of the ICC profile, if any.
    pub icc_profile: Option<ByteRange>,
    /// Identifier of the container's pixel format, if any.
    pub container_pixel_format: Option<[u8; 16]>,
    /// Classification of the container's pixel format, if any.
    pub annex_a_pixel_format: Option<AnnexAPixelFormat>,
}

/// Public description of an image.
#[derive(Debug, PartialEq, Eq)]
pub struct ImageInfo {
    /// Width.
    pub width: u32,
    /// Height.
    pub height: u32,
    /// Declared or inferred profile.
    pub profile: Option<Profile>,
    /// Declared or inferred level.
    pub level: Option<Level>,
    /// Primary plane.
    pub primary: PlaneInfo,
    /// Where alpha is coded.
    pub alpha_mode: AlphaMode,
    /// Whether primary samples are multiplied by alpha.
    pub premultiplied_alpha: bool,
    /// Alpha plane, if any.
    pub alpha: Option<PlaneInfo>,
    /// Tiles.
    pub tiles: TileGrid,
    /// Properties that do not affect decoding.
    pub metadata: ImageMetadata,
}

/// Public description of an image.
pub struct InfoModel {
    /// Width.
    pub width: u32,
    /// Height.
    pub height: u32,
    /// Declared or inferred profile.
    pub profile: Option<Profile>,
    /// Declared or inferred level.
    pub level: Option<Level>,
    /// Primary plane.
    pub primary: PlaneInfo,
    /// Where alpha is coded.
    pub alpha_mode: AlphaMode,
    /// Whether primary samples are multiplied by alpha.
    pub premultiplied_alpha: bool,
    /// Alpha plane, if any.
    pub alpha: Option<PlaneInfo>,
    /// Tiles.
    pub tiles: TileGridModel,
    /// Properties that do not affect decoding.
    pub metadata: MetadataModel,
}

/// Properties that do not affect decoding.
pub struct MetadataModel {
    /// Presentation transformation.
    pub orientation: Orientation,
    /// Range of the ICC profile, if any.
    pub icc_profile: Option<ByteRange>,
    /// Identifier of the container's pixel format, if any.
    pub container_pixel_format: Option<Seq<u8>>,
}

impl View for ImageMetadata {
    type V = MetadataModel;

    open spec fn view(&self) -> MetadataModel {
        MetadataModel {
            orientation: self.orientation,
            icc_profile: self.icc_profile,
            container_pixel_format: match self.container_pixel_format {
                Some(guid) => Some(guid@),
                None => None,
            },
        }
    }
}

impl ImageMetadata {
    /// The classification belongs to the identifier.
    pub open spec fn wf(self) -> bool {
        self.annex_a_pixel_format == (match self.container_pixel_format {
            Some(guid) => Some(pixel_format::pixel_format_of(guid)),
            None => None,
        })
    }
}

impl View for ImageInfo {
    type V = InfoModel;

    open spec fn view(&self) -> InfoModel {
        InfoModel {
            width: self.width,
            height: self.height,
            profile: self.profile,
            level: self.level,
            primary: self.primary,
            alpha_mode: self.alpha_mode,
            premultiplied_alpha: self.premultiplied_alpha,
            alpha: self.alpha,
            tiles: self.tiles@,
            metadata: self.metadata@,
        }
    }
}

impl Clone for ImageInfo {
    fn clone(&self) -> (info: Self)
        ensures
            info@ == self@,
            info.metadata == self.metadata,
    {
        ImageInfo {
            width: self.width,
            height: self.height,
            profile: self.profile,
            level: self.level,
            primary: self.primary,
            alpha_mode: self.alpha_mode,
            premultiplied_alpha: self.premultiplied_alpha,
            alpha: self.alpha,
            tiles: self.tiles.clone(),
            metadata: self.metadata,
        }
    }
}

impl ImageInfo {
    /// Width and height.
    pub fn dimensions(&self) -> (dimensions: (u32, u32))
        ensures
            dimensions == (self.width, self.height),
    {
        (self.width, self.height)
    }
}

/// The error of a code without a meaning.
pub open spec fn reserved(field: &'static str, value: u8) -> NativeError {
    NativeError::ReservedValue { field, value: value as u64 }
}

/// The internal colour format of a code.
pub open spec fn color_of(code: u8, components: u16) -> Result<ColorFormat, NativeError> {
    if code == 0 {
        Ok(ColorFormat::Luma)
    } else if code == 1 {
        Ok(ColorFormat::Yuv(ChromaSampling::Cs420))
    } else if code == 2 {
        Ok(ColorFormat::Yuv(ChromaSampling::Cs422))
    } else if code == 3 {
        Ok(ColorFormat::Yuv(ChromaSampling::Cs444))
    } else if code == 4 {
        Ok(ColorFormat::YuvK)
    } else if code == 6 {
        Ok(ColorFormat::NComponent(components))
    } else {
        Err(reserved("INTERNAL_CLR_FMT", code))
    }
}

fn internal_color(code: u8, components: u16) -> (result: Result<ColorFormat, NativeError>)
    ensures
        result == color_of(code, components),
{
    match code {
        0 => Ok(ColorFormat::Luma),
        1 => Ok(ColorFormat::Yuv(ChromaSampling::Cs420)),
        2 => Ok(ColorFormat::Yuv(ChromaSampling::Cs422)),
        3 => Ok(ColorFormat::Yuv(ChromaSampling::Cs444)),
        4 => Ok(ColorFormat::YuvK),
        6 => Ok(ColorFormat::NComponent(components)),
        value => Err(NativeError::ReservedValue { field: "INTERNAL_CLR_FMT", value: value as u64 }),
    }
}

/// The representation of samples of a bit-depth code.
pub open spec fn samples_of(code: u8) -> Result<SampleFormat, NativeError> {
    if code == 0 || code == 15 {
        Ok(SampleFormat::Bit1)
    } else if code == 1 {
        Ok(SampleFormat::Unsigned { bits: 8 })
    } else if code == 2 {
        Ok(SampleFormat::Unsigned { bits: 16 })
    } else if code == 3 {
        Ok(SampleFormat::Signed { bits: 16 })
    } else if code == 4 {
        Ok(SampleFormat::Float16)
    } else if code == 6 {
        Ok(SampleFormat::Signed { bits: 32 })
    } else if code == 7 {
        Ok(SampleFormat::Float32)
    } else if code == 8 {
        Ok(SampleFormat::Unsigned { bits: 5 })
    } else if code == 9 {
        Ok(SampleFormat::Unsigned { bits: 10 })
    } else if code == 10 {
        Ok(SampleFormat::Unsigned { bits: 6 })
    } else {
        Err(reserved("OUTPUT_BITDEPTH", code))
    }
}

fn sample_format(code: u8) -> (result: Result<SampleFormat, NativeError>)
    ensures
        result == samples_of(code),
{
    match code {
        0 | 15 => Ok(SampleFormat::Bit1),
        1 => Ok(SampleFormat::Unsigned { bits: 8 }),
        2 => Ok(SampleFormat::Unsigned { bits: 16 }),
        3 => Ok(SampleFormat::Signed { bits: 16 }),
        4 => Ok(SampleFormat::Float16),
        6 => Ok(SampleFormat::Signed { bits: 32 }),
        7 => Ok(SampleFormat::Float32),
        8 => Ok(SampleFormat::Unsigned { bits: 5 }),
        9 => Ok(SampleFormat::Unsigned { bits: 10 }),
        10 => Ok(SampleFormat::Unsigned { bits: 6 }),
        value => Err(NativeError::ReservedValue { field: "OUTPUT_BITDEPTH", value: value as u64 }),
    }
}

/// The bands of a bands-present code.
pub open spec fn bands_of(code: u8) -> Result<BandPresence, NativeError> {
    if code == 0 {
        Ok(BandPresence::All)
    } else if code == 1 {
        Ok(BandPresence::NoFlexbits)
    } else if code == 2 {
        Ok(BandPresence::NoHighPass)
    } else if code == 3 {
        Ok(BandPresence::DcOnly)
    } else {
        Err(reserved("BANDS_PRESENT", code))
    }
}

fn band_presence(code: u8) -> (result: Result<BandPresence, NativeError>)
    ensures
        result == bands_of(code),
{
    match code {
        0 => Ok(BandPresence::All),
        1 => Ok(BandPresence::NoFlexbits),
        2 => Ok(BandPresence::NoHighPass),
        3 => Ok(BandPresence::DcOnly),
        value => Err(NativeError::ReservedValue { field: "BANDS_PRESENT", value: value as u64 }),
    }
}

/// The overlap stages of an overlap code.
pub open spec fn overlap_of(code: u8) -> Result<OverlapMode, NativeError> {
    if code == 0 {
        Ok(OverlapMode::Off)
    } else if code == 1 {
        Ok(OverlapMode::One)
    } else if code == 2 {
        Ok(OverlapMode::Two)
    } else {
        Err(reserved("OVERLAP_MODE", code))
    }
}

fn overlap_mode(code: u8) -> (result: Result<OverlapMode, NativeError>)
    ensures
        result == overlap_of(code),
{
    match code {
        0 => Ok(OverlapMode::Off),
        1 => Ok(OverlapMode::One),
        2 => Ok(OverlapMode::Two),
        value => Err(NativeError::ReservedValue { field: "OVERLAP_MODE", value: value as u64 }),
    }
}

/// What the headers say of a plane.
pub open spec fn plane_of(image: ImageModel, plane: PlaneModel) -> Result<PlaneInfo, NativeError> {
    let color = color_of(plane.internal_color_format, plane.components);
    let samples = samples_of(image.output_bit_depth);
    let bands = bands_of(plane.bands_present);
    let overlap = overlap_of(image.overlap_mode);
    if color is Err {
        Err(color->Err_0)
    } else if samples is Err {
        Err(samples->Err_0)
    } else if bands is Err {
        Err(bands->Err_0)
    } else if overlap is Err {
        Err(overlap->Err_0)
    } else {
        Ok(
            PlaneInfo {
                color_format: color->Ok_0,
                sample_format: samples->Ok_0,
                bands: bands->Ok_0,
                bitstream_mode: if image.flags.flag(1) {
                    BitstreamMode::Frequency
                } else {
                    BitstreamMode::Spatial
                },
                overlap: overlap->Ok_0,
                short_header: image.flags.flag(4),
                long_word: image.flags.flag(3),
                scaled: plane.scaled,
                chroma_centering: [plane.chroma_centering_x, plane.chroma_centering_y],
                shift_bits: plane.shift_bits,
                mantissa_length: plane.mantissa_length,
                exponent_bias: plane.exponent_bias,
                width: image.width,
                height: image.height,
            },
        )
    }
}

fn plane_info(image: &CodestreamHeader, plane: &ImagePlaneHeader) -> (result: Result<
    PlaneInfo,
    NativeError,
>)
    ensures
        result == plane_of(image@, plane@),
{
    let color_format: ColorFormat = internal_color(plane.internal_color_format, plane.components)?;
    let sample_format: SampleFormat = sample_format(image.output_bit_depth)?;
    let bands: BandPresence = band_presence(plane.bands_present)?;
    let bitstream_mode: BitstreamMode = if image.flags.frequency_mode() {
        BitstreamMode::Frequency
    } else {
        BitstreamMode::Spatial
    };
    let overlap: OverlapMode = overlap_mode(image.overlap_mode)?;
    Ok(
        PlaneInfo {
            color_format,
            sample_format,
            bands,
            bitstream_mode,
            overlap,
            short_header: image.flags.short_header(),
            long_word: image.flags.long_word(),
            scaled: plane.scaled,
            chroma_centering: [plane.chroma_centering_x, plane.chroma_centering_y],
            shift_bits: plane.shift_bits,
            mantissa_length: plane.mantissa_length,
            exponent_bias: plane.exponent_bias,
            width: image.width,
            height: image.height,
        },
    )
}

/// Where alpha is coded, and what the headers say of it; a codestream of its own comes first.
pub open spec fn alpha_of(parsed: ParsedModel) -> Result<
    (AlphaMode, Option<PlaneInfo>),
    NativeError,
> {
    match parsed.separate_alpha_headers {
        Some(headers) => match plane_of(headers.image, pixel_format::separate_plane(headers)) {
            Ok(plane) => Ok((AlphaMode::Separate, Some(plane))),
            Err(error) => Err(error),
        },
        None => match parsed.headers.alpha {
            Some(alpha) => match plane_of(parsed.headers.image, alpha) {
                Ok(plane) => Ok((AlphaMode::Integrated, Some(plane))),
                Err(error) => Err(error),
            },
            None => Ok((AlphaMode::Absent, None)),
        },
    }
}

fn alpha_info(parsed: &ParsedCodestream) -> (result: Result<
    (AlphaMode, Option<PlaneInfo>),
    NativeError,
>)
    ensures
        result == alpha_of(parsed@),
{
    if let Some(headers) = &parsed.separate_alpha_headers {
        let plane: PlaneInfo = match &headers.alpha {
            Some(alpha) => plane_info(&headers.image, alpha)?,
            None => plane_info(&headers.image, &headers.primary)?,
        };
        return Ok((AlphaMode::Separate, Some(plane)));
    }
    if let Some(alpha) = &parsed.headers.alpha {
        let plane: PlaneInfo = plane_info(&parsed.headers.image, alpha)?;
        return Ok((AlphaMode::Integrated, Some(plane)));
    }
    Ok((AlphaMode::Absent, None))
}

/// Whether the primary plane carries every band that the alpha plane carries.
#[verifier::allow_in_spec]
pub fn bands_are_subset(primary: BandPresence, alpha: BandPresence) -> bool
    returns
        ((!alpha.has_low_pass() || primary.has_low_pass()) && (!alpha.has_high_pass()
            || primary.has_high_pass()) && (!alpha.has_flexbits() || primary.has_flexbits())),
{
    (!alpha.has_low_pass() || primary.has_low_pass()) && (!alpha.has_high_pass()
        || primary.has_high_pass()) && (!alpha.has_flexbits() || primary.has_flexbits())
}

/// A dimension with its margins, which must make it a multiple of 16.
pub open spec fn extended(dimension: u32, first: u8, second: u8) -> Result<u32, NativeError> {
    let sum = dimension + first + second;
    if sum > u32::MAX {
        Err(NativeError::IntegerOverflow { operation: "computing extended image dimension" })
    } else if sum % 16 != 0 {
        Err(NativeError::InvalidSyntax { field: "extended image dimension alignment" })
    } else {
        Ok(sum as u32)
    }
}

fn extended_dimension(dimension: u32, first: u8, second: u8) -> (result: Result<u32, NativeError>)
    ensures
        result == extended(dimension, first, second),
{
    let sum: u64 = dimension as u64 + first as u64 + second as u64;
    if sum > u32::MAX as u64 {
        return Err(
            NativeError::IntegerOverflow { operation: "computing extended image dimension" },
        );
    }
    if sum % 16 != 0 {
        return Err(NativeError::InvalidSyntax { field: "extended image dimension alignment" });
    }
    Ok(sum as u32)
}

/// The sum of tile sizes, none of which may be zero.
pub open spec fn used_by(explicit: Seq<u16>, field: &'static str) -> Result<u32, NativeError>
    decreases explicit.len(),
{
    if explicit.len() == 0 {
        Ok(0)
    } else {
        match used_by(explicit.drop_last(), field) {
            Err(error) => Err(error),
            Ok(used) => if explicit.last() == 0 {
                Err(NativeError::InvalidSyntax { field })
            } else if used + explicit.last() > u32::MAX {
                Err(NativeError::IntegerOverflow { operation: "summing tile dimensions" })
            } else {
                Ok((used + explicit.last()) as u32)
            },
        }
    }
}

/// The tile sizes with the last one, which takes what the others leave.
pub open spec fn completed(explicit: Seq<u16>, total: u32, field: &'static str) -> Result<
    Seq<u32>,
    NativeError,
> {
    match used_by(explicit, field) {
        Err(error) => Err(error),
        Ok(used) => if total <= used {
            Err(NativeError::InvalidSyntax { field })
        } else {
            Ok(
                Seq::new(explicit.len(), |index: int| explicit[index] as u32).push(
                    (total - used) as u32,
                ),
            )
        },
    }
}

/// Once the sizes cannot be summed, more sizes do not help.
proof fn lemma_used_stops(explicit: Seq<u16>, some: int, field: &'static str)
    requires
        0 <= some <= explicit.len(),
        used_by(explicit.take(some), field) is Err,
    ensures
        used_by(explicit, field) == used_by(explicit.take(some), field),
    decreases explicit.len(),
{
    if some < explicit.len() {
        let rest = explicit.drop_last();
        assert(rest.take(some) =~= explicit.take(some));
        lemma_used_stops(rest, some, field);
    } else {
        assert(explicit.take(some) =~= explicit);
    }
}

fn complete_tiles(explicit: &[u16], total: u32, field: &'static str) -> (result: Result<
    Vec<u32>,
    NativeError,
>)
    ensures
        match (result, completed(explicit@, total, field)) {
            (Ok(sizes), Ok(expected)) => sizes@ == expected,
            (Err(error), Err(expected)) => error == expected,
            _ => false,
        },
{
    let mut sizes: Vec<u32> = Vec::new();
    let mut used: u32 = 0;
    for index in 0..explicit.len()
        invariant
            used_by(explicit@.take(index as int), field) == Ok::<u32, NativeError>(used),
            sizes@ == Seq::new(index as nat, |k: int| explicit@[k] as u32),
    {
        let size: u16 = explicit[index];
        proof {
            let next = explicit@.take(index as int + 1);
            assert(next.drop_last() =~= explicit@.take(index as int));
            if used_by(next, field) is Err {
                lemma_used_stops(explicit@, index as int + 1, field);
            }
        }
        if size == 0 {
            return Err(NativeError::InvalidSyntax { field });
        }
        used = match used.checked_add(size as u32) {
            Some(used) => used,
            None => {
                return Err(NativeError::IntegerOverflow { operation: "summing tile dimensions" });
            },
        };
        sizes.push(size as u32);
        assert(sizes@ =~= Seq::new((index + 1) as nat, |k: int| explicit@[k] as u32));
    }
    assert(explicit@.take(explicit@.len() as int) =~= explicit@);
    if total <= used {
        return Err(NativeError::InvalidSyntax { field });
    }
    sizes.push(total - used);
    Ok(sizes)
}

/// The sum of sizes.
pub open spec fn size_sum(sizes: Seq<u32>) -> nat
    decreases sizes.len(),
{
    if sizes.len() == 0 {
        0
    } else {
        size_sum(sizes.drop_last()) + sizes.last() as nat
    }
}

/// The sizes that could be summed are all positive, and they have that sum.
proof fn lemma_used(explicit: Seq<u16>, field: &'static str)
    requires
        used_by(explicit, field) is Ok,
    ensures
        size_sum(Seq::new(explicit.len(), |index: int| explicit[index] as u32)) == used_by(
            explicit,
            field,
        )->Ok_0,
        forall|index: int| 0 <= index < explicit.len() ==> #[trigger] explicit[index] > 0,
    decreases explicit.len(),
{
    let sizes = Seq::new(explicit.len(), |index: int| explicit[index] as u32);
    if explicit.len() > 0 {
        let rest = explicit.drop_last();
        lemma_used(rest, field);
        assert(sizes.drop_last() =~= Seq::new(rest.len(), |index: int| rest[index] as u32));
        assert forall|index: int| 0 <= index < explicit.len() implies #[trigger] explicit[index]
            > 0 by {
            if index < rest.len() {
                assert(rest[index] == explicit[index]);
            }
        }
    }
}

/// Completed tile sizes are all positive and fill the whole extent.
pub proof fn lemma_tiles_fill(explicit: Seq<u16>, total: u32, field: &'static str)
    requires
        completed(explicit, total, field) is Ok,
    ensures
        ({
            let sizes = completed(explicit, total, field)->Ok_0;
            &&& sizes.len() == explicit.len() + 1
            &&& size_sum(sizes) == total
            &&& forall|index: int| 0 <= index < sizes.len() ==> #[trigger] sizes[index] > 0
        }),
{
    lemma_used(explicit, field);
    let sizes = completed(explicit, total, field)->Ok_0;
    assert(sizes.drop_last() =~= Seq::new(
        explicit.len(),
        |index: int| explicit[index] as u32,
    ));
    assert forall|index: int| 0 <= index < sizes.len() implies #[trigger] sizes[index] > 0 by {
        if index < explicit.len() {
            assert(explicit[index] > 0);
        }
    }
}

/// The tiles of an image.
pub open spec fn grid_of(image: ImageModel) -> Result<TileGridModel, NativeError> {
    let width = extended(image.width, image.margins[1], image.margins[3]);
    let height = extended(image.height, image.margins[0], image.margins[2]);
    let columns = completed(image.tile_widths_mb, width->Ok_0 / 16, "tile columns");
    let rows = completed(image.tile_heights_mb, height->Ok_0 / 16, "tile rows");
    if width is Err {
        Err(width->Err_0)
    } else if height is Err {
        Err(height->Err_0)
    } else if columns is Err {
        Err(columns->Err_0)
    } else if rows is Err {
        Err(rows->Err_0)
    } else {
        Ok(
            TileGridModel {
                column_widths: columns->Ok_0,
                row_heights: rows->Ok_0,
                hard_tiles: image.flags.flag(0),
            },
        )
    }
}

fn tile_grid(image: &CodestreamHeader) -> (result: Result<TileGrid, NativeError>)
    ensures
        match (result, grid_of(image@)) {
            (Ok(grid), Ok(expected)) => grid@ == expected,
            (Err(error), Err(expected)) => error == expected,
            _ => false,
        },
{
    let extended_width: u32 = extended_dimension(image.width, image.margins[1], image.margins[3])?;
    let extended_height: u32 = extended_dimension(
        image.height,
        image.margins[0],
        image.margins[2],
    )?;
    let column_widths: Vec<u32> = complete_tiles(
        image.tile_widths_mb.as_slice(),
        extended_width / 16,
        "tile columns",
    )?;
    let row_heights: Vec<u32> = complete_tiles(
        image.tile_heights_mb.as_slice(),
        extended_height / 16,
        "tile rows",
    )?;
    Ok(TileGrid { column_widths, row_heights, hard_tiles: image.flags.hard_tiling() })
}

/// The orientation of a transformation value.
#[verifier::allow_in_spec]
pub fn orientation(value: u8) -> Orientation
    returns
        (if value == 0 {
            Orientation::Identity
        } else if value == 1 {
            Orientation::MirrorVertical
        } else if value == 2 {
            Orientation::MirrorHorizontal
        } else if value == 3 {
            Orientation::Rotate180
        } else if value == 4 {
            Orientation::Rotate90
        } else if value == 5 {
            Orientation::Transverse
        } else if value == 6 {
            Orientation::Transpose
        } else {
            Orientation::Rotate270
        }),
{
    match value {
        0 => Orientation::Identity,
        1 => Orientation::MirrorVertical,
        2 => Orientation::MirrorHorizontal,
        3 => Orientation::Rotate180,
        4 => Orientation::Rotate90,
        5 => Orientation::Transverse,
        6 => Orientation::Transpose,
        _ => Orientation::Rotate270,
    }
}

/// The orientation that a container stores is the one that is read from it.
pub proof fn lemma_orientation_round_trip(chosen: Orientation)
    ensures
        crate::annex_a::writer::orientation_code(chosen) < 8,
        orientation(crate::annex_a::writer::orientation_code(chosen) as u8) == chosen,
{
}

/// The transformation value: that of the container if it gives one, or that of the codestream.
pub open spec fn transformation_of(parsed: ParsedModel) -> u32 {
    match parsed.annex_a {
        Some(annex) => match annex.metadata.transformation {
            Some(value) => value,
            None => parsed.headers.image.orientation as u32,
        },
        None => parsed.headers.image.orientation as u32,
    }
}

/// A range by offset and length; one that ends before it starts is empty.
pub open spec fn byte_range_of(range: Range<usize>) -> ByteRange {
    ByteRange {
        offset: range.start,
        length: if range.end > range.start {
            (range.end - range.start) as usize
        } else {
            0
        },
    }
}

/// What an input says that does not affect decoding.
pub open spec fn metadata_of(parsed: ParsedModel) -> Result<MetadataModel, NativeError> {
    if transformation_of(parsed) >= 8 {
        Err(
            NativeError::ReservedValue {
                field: "Annex-A spatial transformation",
                value: transformation_of(parsed) as u64,
            },
        )
    } else {
        Ok(
            MetadataModel {
                orientation: orientation(transformation_of(parsed) as u8),
                icc_profile: match parsed.annex_a {
                    Some(annex) => match annex.metadata.icc_profile_range {
                        Some(range) => Some(byte_range_of(range)),
                        None => None,
                    },
                    None => None,
                },
                container_pixel_format: match parsed.annex_a {
                    Some(annex) => Some(annex.pixel_format_guid),
                    None => None,
                },
            },
        )
    }
}

fn metadata(parsed: &ParsedCodestream) -> (result: Result<ImageMetadata, NativeError>)
    ensures
        match (result, metadata_of(parsed@)) {
            (Ok(metadata), Ok(expected)) => metadata@ == expected && metadata.wf(),
            (Err(error), Err(expected)) => error == expected,
            _ => false,
        },
{
    let mut icc_profile: Option<ByteRange> = None;
    let mut orientation_value: u32 = parsed.headers.image.orientation as u32;
    let mut container_pixel_format: Option<[u8; 16]> = None;
    let mut annex_a_pixel_format: Option<AnnexAPixelFormat> = None;
    if let Some(annex) = &parsed.annex_a {
        if let Some(range) = &annex.metadata.icc_profile_range {
            let length: usize = if range.end > range.start {
                range.end - range.start
            } else {
                0
            };
            icc_profile = Some(ByteRange { offset: range.start, length });
        }
        if let Some(transformation) = annex.metadata.transformation {
            orientation_value = transformation;
        }
        container_pixel_format = Some(annex.pixel_format_guid);
        annex_a_pixel_format = Some(classify_annex_a_pixel_format(annex.pixel_format_guid));
    }
    if orientation_value >= 8 {
        return Err(
            NativeError::ReservedValue {
                field: "Annex-A spatial transformation",
                value: orientation_value as u64,
            },
        );
    }
    Ok(
        ImageMetadata {
            orientation: orientation(orientation_value as u8),
            icc_profile,
            container_pixel_format,
            annex_a_pixel_format,
        },
    )
}

/// The first declared profile and level, or Advanced and 255 where none is declared.
pub open spec fn profile_of(parsed: ParsedModel) -> (Option<Profile>, Option<Level>) {
    if parsed.directory.profiles.len() == 0 {
        (Some(Profile::Advanced), Some(Level(255)))
    } else {
        let declaration = parsed.directory.profiles[0];
        (
            Some(
                if declaration.profile_idc == 44 {
                    Profile::SubBaseline
                } else if declaration.profile_idc == 55 {
                    Profile::Baseline
                } else if declaration.profile_idc == 66 {
                    Profile::Main
                } else if declaration.profile_idc == 111 {
                    Profile::Advanced
                } else {
                    Profile::Unknown(declaration.profile_idc)
                },
            ),
            Some(Level(declaration.level_idc)),
        )
    }
}

fn profile_and_level(parsed: &ParsedCodestream) -> (declared: (Option<Profile>, Option<Level>))
    ensures
        declared == profile_of(parsed@),
{
    if parsed.directory.profiles.len() == 0 {
        return (Some(Profile::Advanced), Some(Level(255)));
    }
    let declaration = parsed.directory.profiles[0];
    let profile: Profile = match declaration.profile_idc {
        44 => Profile::SubBaseline,
        55 => Profile::Baseline,
        66 => Profile::Main,
        111 => Profile::Advanced,
        value => Profile::Unknown(value),
    };
    (Some(profile), Some(Level(declaration.level_idc)))
}

/// What an input says of its image, before the shared rules for such descriptions are asked.
pub open spec fn described(parsed: ParsedModel) -> Result<InfoModel, NativeError> {
    let image = parsed.headers.image;
    let primary = plane_of(image, parsed.headers.primary);
    let alpha = alpha_of(parsed);
    let grid = grid_of(image);
    let metadata = metadata_of(parsed);
    if primary is Err {
        Err(primary->Err_0)
    } else if alpha is Err {
        Err(alpha->Err_0)
    } else if alpha->Ok_0.0 == AlphaMode::Integrated && alpha->Ok_0.1 is Some && !bands_are_subset(
        primary->Ok_0.bands,
        alpha->Ok_0.1->0.bands,
    ) {
        Err(NativeError::InvalidSyntax { field: "integrated alpha bands exceed primary bands" })
    } else if grid is Err {
        Err(grid->Err_0)
    } else if metadata is Err {
        Err(metadata->Err_0)
    } else {
        Ok(
            InfoModel {
                width: image.width,
                height: image.height,
                profile: profile_of(parsed).0,
                level: profile_of(parsed).1,
                primary: primary->Ok_0,
                alpha_mode: alpha->Ok_0.0,
                premultiplied_alpha: pixel_format::premultiplied_source(parsed),
                alpha: alpha->Ok_0.1,
                tiles: grid->Ok_0,
                metadata: metadata->Ok_0,
            },
        )
    }
}

/// Whether the executable check answers as the rule does.
pub open spec fn checks<C: Fn(&ImageInfo) -> bool>(
    consistent: C,
    rule: spec_fn(InfoModel) -> bool,
) -> bool {
    forall|info: &ImageInfo, answer: bool| #[trigger]
        call_ensures(consistent, (info,), answer) ==> answer == rule(info@)
}

/// What an input says of its image, given the shared rules for such descriptions.
pub open spec fn info_of(parsed: ParsedModel, rule: spec_fn(InfoModel) -> bool) -> Result<
    InfoModel,
    NativeError,
> {
    match described(parsed) {
        Err(error) => Err(error),
        Ok(info) => if rule(info) {
            Ok(info)
        } else {
            Err(NativeError::InvalidSyntax { field: "public image metadata" })
        },
    }
}

/// Build validated public metadata from a parsed codestream.
///
/// `consistent` answers whether a description obeys the rules that it shares with other decoders.
pub fn image_info<C: Fn(&ImageInfo) -> bool>(parsed: &ParsedCodestream, consistent: &C) -> (result:
    Result<ImageInfo, NativeError>)
    requires
        forall|info: &ImageInfo| call_requires(*consistent, (info,)),
    ensures
        described(parsed@) matches Err(error) ==> result == Err::<ImageInfo, NativeError>(error),
        result matches Ok(info) ==> described(parsed@) == Ok::<InfoModel, NativeError>(info@)
            && info.metadata.wf(),
        forall|rule: spec_fn(InfoModel) -> bool| #[trigger]
            checks(*consistent, rule) ==> match (result, info_of(parsed@, rule)) {
                (Ok(info), Ok(expected)) => info@ == expected,
                (Err(error), Err(expected)) => error == expected,
                _ => false,
            },
{
    let image = &parsed.headers.image;
    let primary: PlaneInfo = plane_info(image, &parsed.headers.primary)?;
    let (alpha_mode, alpha) = alpha_info(parsed)?;
    if alpha_mode == AlphaMode::Integrated {
        if let Some(plane) = alpha {
            if !bands_are_subset(primary.bands, plane.bands) {
                return Err(
                    NativeError::InvalidSyntax {
                        field: "integrated alpha bands exceed primary bands",
                    },
                );
            }
        }
    }
    let (profile, level) = profile_and_level(parsed);
    let premultiplied_alpha: bool = pixel_format::source_is_premultiplied(parsed);
    let tiles: TileGrid = tile_grid(image)?;
    let metadata: ImageMetadata = metadata(parsed)?;
    let info = ImageInfo {
        width: image.width,
        height: image.height,
        profile,
        level,
        primary,
        alpha_mode,
        premultiplied_alpha,
        alpha,
        tiles,
        metadata,
    };
    if !consistent(&info) {
        return Err(NativeError::InvalidSyntax { field: "public image metadata" });
    }
    Ok(info)
}

} // verus!

//! Validated Annex-A still-image serialization.

use crate::annex_a;
use crate::annex_a::{
    DirectoryEntry, TAG_ALPHA_BYTE_COUNT, TAG_ALPHA_OFFSET, TAG_HORIZONTAL_RESOLUTION,
    TAG_ICC_PROFILE, TAG_IMAGE_BYTE_COUNT, TAG_IMAGE_HEIGHT, TAG_IMAGE_OFFSET, TAG_IMAGE_WIDTH,
    TAG_PIXEL_FORMAT, TAG_TRANSFORMATION, TAG_VERTICAL_RESOLUTION,
};
use crate::codestream;
use crate::codestream::{parse_codestream, ParsedCodestream};
use crate::error::NativeError;
use crate::types::Orientation;
use vstd::prelude::*;

verus! {

/// Element type of single bytes.
pub const TYPE_BYTE: u16 = 1;

/// Element type of 32-bit unsigned integers.
pub const TYPE_LONG: u16 = 4;

/// Element type of bytes without interpretation.
pub const TYPE_UNDEFINED: u16 = 7;

/// Element type of single-precision numbers.
pub const TYPE_FLOAT: u16 = 11;

/// The single-precision bit pattern of 96.
pub const DEFAULT_RESOLUTION_BITS: u32 = 0x42C0_0000;

/// The smallest bit pattern that is not that of a positive finite single-precision number.
pub const INFINITY_BITS: u32 = 0x7F80_0000;

/// Metadata and optional payloads for an Annex-A still-image container.
///
/// The resolutions are single-precision numbers, given by their bit patterns.
#[derive(Clone, Copy, Debug)]
pub struct AnnexAWriteOptions<'a> {
    /// Image width.
    pub width: u32,
    /// Image height.
    pub height: u32,
    /// Sixteen-byte pixel-format identifier.
    pub pixel_format_guid: [u8; 16],
    /// Presentation transformation.
    pub orientation: Orientation,
    /// Bit pattern of the horizontal resolution in dots per inch.
    pub horizontal_resolution_bits: u32,
    /// Bit pattern of the vertical resolution in dots per inch.
    pub vertical_resolution_bits: u32,
    /// ICC profile, if any.
    pub icc_profile: Option<&'a [u8]>,
    /// Separate alpha codestream, if any.
    pub separate_alpha: Option<&'a [u8]>,
}

/// What a container is to hold besides its primary codestream.
pub struct OptionsModel {
    /// Image width.
    pub width: u32,
    /// Image height.
    pub height: u32,
    /// Sixteen-byte pixel-format identifier.
    pub pixel_format_guid: Seq<u8>,
    /// Presentation transformation.
    pub orientation: Orientation,
    /// Bit pattern of the horizontal resolution.
    pub horizontal_resolution_bits: u32,
    /// Bit pattern of the vertical resolution.
    pub vertical_resolution_bits: u32,
    /// ICC profile, if any.
    pub icc_profile: Option<Seq<u8>>,
    /// Separate alpha codestream, if any.
    pub separate_alpha: Option<Seq<u8>>,
}

/// The bytes of an optional payload.
pub open spec fn payload_view(payload: Option<&[u8]>) -> Option<Seq<u8>> {
    match payload {
        Some(bytes) => Some(bytes@),
        None => None,
    }
}

impl<'a> View for AnnexAWriteOptions<'a> {
    type V = OptionsModel;

    open spec fn view(&self) -> OptionsModel {
        OptionsModel {
            width: self.width,
            height: self.height,
            pixel_format_guid: self.pixel_format_guid@,
            orientation: self.orientation,
            horizontal_resolution_bits: self.horizontal_resolution_bits,
            vertical_resolution_bits: self.vertical_resolution_bits,
            icc_profile: payload_view(self.icc_profile),
            separate_alpha: payload_view(self.separate_alpha),
        }
    }
}

impl<'a> AnnexAWriteOptions<'a> {
    /// Create options for one raw codestream using identity orientation and 96 DPI.
    #[must_use]
    pub fn new(width: u32, height: u32, pixel_format_guid: [u8; 16]) -> (options: Self)
        ensures
            options == (AnnexAWriteOptions {
                width,
                height,
                pixel_format_guid,
                orientation: Orientation::Identity,
                horizontal_resolution_bits: DEFAULT_RESOLUTION_BITS,
                vertical_resolution_bits: DEFAULT_RESOLUTION_BITS,
                icc_profile: None,
                separate_alpha: None,
            }),
    {
        AnnexAWriteOptions {
            width,
            height,
            pixel_format_guid,
            orientation: Orientation::Identity,
            horizontal_resolution_bits: DEFAULT_RESOLUTION_BITS,
            vertical_resolution_bits: DEFAULT_RESOLUTION_BITS,
            icc_profile: None,
            separate_alpha: None,
        }
    }

    /// Set the lossless Annex-A presentation transformation.
    #[must_use]
    pub fn with_orientation(self, orientation: Orientation) -> (options: Self)
        ensures
            options == (AnnexAWriteOptions { orientation, ..self }),
    {
        AnnexAWriteOptions { orientation, ..self }
    }

    /// Set horizontal and vertical display resolution in dots per inch, by the bit patterns of
    /// single-precision numbers.
    ///
    /// Both numbers must be finite and greater than zero.
    #[must_use]
    pub fn with_resolution_dpi(self, horizontal_bits: u32, vertical_bits: u32) -> (options: Self)
        ensures
            options == (AnnexAWriteOptions {
                horizontal_resolution_bits: horizontal_bits,
                vertical_resolution_bits: vertical_bits,
                ..self
            }),
    {
        AnnexAWriteOptions {
            horizontal_resolution_bits: horizontal_bits,
            vertical_resolution_bits: vertical_bits,
            ..self
        }
    }

    /// Attach an ICC profile, copied exactly into the output container.
    #[must_use]
    pub fn with_icc_profile(self, profile: &'a [u8]) -> (options: Self)
        ensures
            options == (AnnexAWriteOptions { icc_profile: Some(profile), ..self }),
    {
        AnnexAWriteOptions { icc_profile: Some(profile), ..self }
    }

    /// Attach a separately encoded raw alpha codestream.
    #[must_use]
    pub fn with_separate_alpha(self, codestream: &'a [u8]) -> (options: Self)
        ensures
            options == (AnnexAWriteOptions { separate_alpha: Some(codestream), ..self }),
    {
        AnnexAWriteOptions { separate_alpha: Some(codestream), ..self }
    }
}

/// The number that a container stores for an orientation.
#[verifier::allow_in_spec]
pub fn orientation_code(orientation: Orientation) -> u32
    returns
        (match orientation {
            Orientation::Identity => 0u32,
            Orientation::MirrorVertical => 1u32,
            Orientation::MirrorHorizontal => 2u32,
            Orientation::Rotate180 => 3u32,
            Orientation::Rotate90 => 4u32,
            Orientation::Transverse => 5u32,
            Orientation::Transpose => 6u32,
            Orientation::Rotate270 => 7u32,
        }),
{
    match orientation {
        Orientation::Identity => 0,
        Orientation::MirrorVertical => 1,
        Orientation::MirrorHorizontal => 2,
        Orientation::Rotate180 => 3,
        Orientation::Rotate90 => 4,
        Orientation::Transverse => 5,
        Orientation::Transpose => 6,
        Orientation::Rotate270 => 7,
    }
}

/// Whether a bit pattern is that of a positive finite single-precision number.
pub open spec fn positive_finite(bits: u32) -> bool {
    0 < bits < INFINITY_BITS
}

/// Why a codestream cannot go into the container, if it cannot.
pub open spec fn raw_codestream_error(bytes: Seq<u8>, width: u32, height: u32, alpha: bool) -> Option<
    NativeError,
> {
    if !codestream::has_raw_signature(bytes) {
        Some(NativeError::InvalidSyntax { field: "Annex-A writer requires a raw codestream" })
    } else {
        match codestream::parsed_of(bytes) {
            Err(error) => Some(error),
            Ok(parsed) => if parsed.headers.image.width != width || parsed.headers.image.height
                != height {
                Some(
                    NativeError::InvalidSyntax {
                        field: if alpha {
                            "Annex-A separate alpha dimensions"
                        } else {
                            "Annex-A/codestream dimension mismatch"
                        },
                    },
                )
            } else {
                None
            },
        }
    }
}

fn validate_raw_codestream(bytes: &[u8], width: u32, height: u32, alpha: bool) -> (result: Result<
    (),
    NativeError,
>)
    ensures
        match raw_codestream_error(bytes@, width, height, alpha) {
            None => result == Ok::<(), NativeError>(()),
            Some(error) => result == Err::<(), NativeError>(error),
        },
{
    if !codestream::starts_with_raw_signature(bytes) {
        return Err(
            NativeError::InvalidSyntax { field: "Annex-A writer requires a raw codestream" },
        );
    }
    let parsed: ParsedCodestream = parse_codestream(bytes)?;
    if parsed.headers.image.width != width || parsed.headers.image.height != height {
        return Err(
            NativeError::InvalidSyntax {
                field: if alpha {
                    "Annex-A separate alpha dimensions"
                } else {
                    "Annex-A/codestream dimension mismatch"
                },
            },
        );
    }
    Ok(())
}

/// Why a container with these contents cannot be written, if it cannot.
pub open spec fn options_error(primary: Seq<u8>, options: OptionsModel) -> Option<NativeError> {
    let primary_error = raw_codestream_error(primary, options.width, options.height, false);
    if primary_error is Some {
        primary_error
    } else if !positive_finite(options.horizontal_resolution_bits) || !positive_finite(
        options.vertical_resolution_bits,
    ) {
        Some(NativeError::InvalidSyntax { field: "Annex-A display resolution" })
    } else if options.icc_profile is Some && options.icc_profile->0.len() == 0 {
        Some(NativeError::InvalidSyntax { field: "empty Annex-A ICC profile" })
    } else if options.separate_alpha is Some {
        raw_codestream_error(options.separate_alpha->0, options.width, options.height, true)
    } else {
        None
    }
}

fn validate_options(primary: &[u8], options: &AnnexAWriteOptions<'_>) -> (result: Result<
    (),
    NativeError,
>)
    ensures
        match options_error(primary@, options@) {
            None => result == Ok::<(), NativeError>(()),
            Some(error) => result == Err::<(), NativeError>(error),
        },
{
    validate_raw_codestream(primary, options.width, options.height, false)?;
    if options.horizontal_resolution_bits == 0 || options.horizontal_resolution_bits
        >= INFINITY_BITS || options.vertical_resolution_bits == 0
        || options.vertical_resolution_bits >= INFINITY_BITS {
        return Err(NativeError::InvalidSyntax { field: "Annex-A display resolution" });
    }
    if let Some(profile) = options.icc_profile {
        if profile.len() == 0 {
            return Err(NativeError::InvalidSyntax { field: "empty Annex-A ICC profile" });
        }
    }
    if let Some(alpha) = options.separate_alpha {
        validate_raw_codestream(alpha, options.width, options.height, true)?;
    }
    Ok(())
}

/// The next multiple of four.
pub open spec fn aligned(value: int) -> int {
    ((value + 3) / 4) * 4
}

fn overflow(operation: &'static str) -> (error: NativeError)
    ensures
        error == (NativeError::IntegerOverflow { operation }),
{
    NativeError::IntegerOverflow { operation }
}

fn align_four(value: usize) -> (result: Result<usize, NativeError>)
    ensures
        match result {
            Ok(next) => value + 3 <= usize::MAX && next == aligned(value as int),
            Err(error) => value + 3 > usize::MAX && error == (NativeError::IntegerOverflow {
                operation: "aligning Annex-A payload",
            }),
        },
{
    match value.checked_add(3) {
        Some(raised) => Ok((raised / 4) * 4),
        None => Err(overflow("aligning Annex-A payload")),
    }
}

fn checked_advance(offset: usize, length: usize) -> (result: Result<usize, NativeError>)
    ensures
        match result {
            Ok(next) => next == offset + length,
            Err(error) => offset + length > usize::MAX && error == (NativeError::IntegerOverflow {
                operation: "sizing Annex-A output",
            }),
        },
{
    match offset.checked_add(length) {
        Some(next) => Ok(next),
        None => Err(overflow("sizing Annex-A output")),
    }
}

fn checked_u32(value: usize, operation: &'static str) -> (result: Result<u32, NativeError>)
    ensures
        result == (if value <= u32::MAX {
            Ok::<u32, NativeError>(value as u32)
        } else {
            Err(NativeError::IntegerOverflow { operation })
        }),
{
    if value as u64 <= u32::MAX as u64 {
        Ok(value as u32)
    } else {
        Err(overflow(operation))
    }
}

/// Where the parts of a container go.
#[derive(Clone, Copy, Debug, PartialEq, Eq)]
pub struct ContainerLayout {
    /// Number of directory entries.
    pub entry_count: usize,
    /// Offset of the pixel-format identifier.
    pub pixel_format_offset: usize,
    /// Offset of the ICC profile, if any.
    pub icc_offset: Option<usize>,
    /// Offset of the primary codestream.
    pub primary_offset: usize,
    /// Offset of the alpha codestream, if any.
    pub alpha_offset: Option<usize>,
    /// Length of the file.
    pub output_len: usize,
}

/// The number of directory entries.
pub open spec fn entry_total(options: OptionsModel) -> int {
    8 + (if options.icc_profile is Some {
        1int
    } else {
        0int
    }) + (if options.separate_alpha is Some {
        2int
    } else {
        0int
    })
}

/// Where the identifier goes: behind the directory and the offset of the next one.
pub open spec fn guid_place(options: OptionsModel) -> int {
    aligned(8 + 2 + 12 * entry_total(options) + 4)
}

/// The first byte behind the ICC profile, or behind the identifier if there is no profile.
pub open spec fn icc_end(options: OptionsModel) -> int {
    match options.icc_profile {
        Some(profile) => aligned(guid_place(options) + 16) + profile.len(),
        None => guid_place(options) + 16,
    }
}

/// Where the primary codestream goes.
pub open spec fn primary_place(options: OptionsModel) -> int {
    aligned(icc_end(options))
}

/// The first byte behind the primary codestream.
pub open spec fn primary_end(primary: int, options: OptionsModel) -> int {
    primary_place(options) + primary
}

/// The length of the container.
pub open spec fn container_length(primary: int, options: OptionsModel) -> int {
    match options.separate_alpha {
        Some(alpha) => aligned(primary_end(primary, options)) + alpha.len(),
        None => primary_end(primary, options),
    }
}

/// The places of all parts.
pub open spec fn places(primary: int, options: OptionsModel) -> ContainerLayout {
    ContainerLayout {
        entry_count: entry_total(options) as usize,
        pixel_format_offset: guid_place(options) as usize,
        icc_offset: match options.icc_profile {
            Some(_) => Some(aligned(guid_place(options) + 16) as usize),
            None => None,
        },
        primary_offset: primary_place(options) as usize,
        alpha_offset: match options.separate_alpha {
            Some(_) => Some(aligned(primary_end(primary, options)) as usize),
            None => None,
        },
        output_len: container_length(primary, options) as usize,
    }
}

/// The operation whose result the container cannot represent, if there is one.
pub open spec fn layout_overflow(primary: int, options: OptionsModel) -> Option<&'static str> {
    let sizing = "sizing Annex-A output";
    let aligning = "aligning Annex-A payload";
    if icc_end(options) > usize::MAX {
        Some(sizing)
    } else if icc_end(options) + 3 > usize::MAX {
        Some(aligning)
    } else if primary_end(primary, options) > usize::MAX {
        Some(sizing)
    } else if options.separate_alpha is Some && primary_end(primary, options) + 3 > usize::MAX {
        Some(aligning)
    } else if container_length(primary, options) > usize::MAX {
        Some(sizing)
    } else if primary > u32::MAX {
        Some("representing primary codestream length")
    } else if options.icc_profile is Some && options.icc_profile->0.len() > u32::MAX {
        Some("representing ICC profile length")
    } else if options.separate_alpha is Some && options.separate_alpha->0.len() > u32::MAX {
        Some("representing alpha codestream length")
    } else if container_length(primary, options) > u32::MAX {
        Some("representing Annex-A file length")
    } else {
        None
    }
}

impl ContainerLayout {
    /// Places the parts of a container one behind the other, each at a multiple of four.
    pub fn new(primary: &[u8], options: &AnnexAWriteOptions<'_>) -> (result: Result<
        Self,
        NativeError,
    >)
        ensures
            match layout_overflow(primary@.len() as int, options@) {
                None => result == Ok::<ContainerLayout, NativeError>(
                    places(primary@.len() as int, options@),
                ),
                Some(operation) => result == Err::<ContainerLayout, NativeError>(
                    NativeError::IntegerOverflow { operation },
                ),
            },
    {
        let mut entry_count: usize = 8;
        if options.icc_profile.is_some() {
            entry_count = entry_count + 1;
        }
        if options.separate_alpha.is_some() {
            entry_count = entry_count + 2;
        }
        let directory_size: usize = 2 + 12 * entry_count + 4;
        let pixel_format_offset: usize = align_four(8 + directory_size)?;
        let mut cursor: usize = checked_advance(pixel_format_offset, 16)?;
        let icc_offset: Option<usize> = if let Some(profile) = options.icc_profile {
            cursor = align_four(cursor)?;
            let offset: usize = cursor;
            cursor = checked_advance(cursor, profile.len())?;
            Some(offset)
        } else {
            None
        };
        let primary_offset: usize = align_four(cursor)?;
        cursor = checked_advance(primary_offset, primary.len())?;
        let alpha_offset: Option<usize> = if let Some(alpha) = options.separate_alpha {
            cursor = align_four(cursor)?;
            let offset: usize = cursor;
            cursor = checked_advance(cursor, alpha.len())?;
            Some(offset)
        } else {
            None
        };
        checked_u32(primary.len(), "representing primary codestream length")?;
        if let Some(profile) = options.icc_profile {
            checked_u32(profile.len(), "representing ICC profile length")?;
        }
        if let Some(alpha) = options.separate_alpha {
            checked_u32(alpha.len(), "representing alpha codestream length")?;
        }
        checked_u32(cursor, "representing Annex-A file length")?;
        Ok(
            ContainerLayout {
                entry_count,
                pixel_format_offset,
                icc_offset,
                primary_offset,
                alpha_offset,
                output_len: cursor,
            },
        )
    }
}

/// The two bytes of a little-endian number.
pub open spec fn bytes16(value: u16) -> Seq<u8> {
    seq![(value % 256) as u8, (value / 256) as u8]
}

/// The four bytes of a little-endian number.
pub open spec fn bytes32(value: u32) -> Seq<u8> {
    seq![
        (value % 256) as u8,
        ((value / 256) % 256) as u8,
        ((value / 65536) % 256) as u8,
        (value / 16777216) as u8,
    ]
}

/// The twelve bytes of a directory entry.
pub open spec fn entry_bytes(entry: DirectoryEntry) -> Seq<u8> {
    bytes16(entry.tag) + bytes16(entry.element_type) + bytes32(entry.count) + bytes32(entry.value)
}

/// The bytes of the entries one behind the other.
pub open spec fn directory_bytes(entries: Seq<DirectoryEntry>) -> Seq<u8>
    decreases entries.len(),
{
    if entries.len() == 0 {
        Seq::empty()
    } else {
        directory_bytes(entries.drop_last()) + entry_bytes(entries.last())
    }
}

/// A directory entry with the given fields.
pub open spec fn entry(tag: u16, element_type: u16, count: u32, value: u32) -> DirectoryEntry {
    DirectoryEntry { tag, element_type, count, value }
}

/// The entries of the container, in the order of their tags.
#[verifier::opaque]
pub open spec fn written_entries(primary: int, options: OptionsModel) -> Seq<DirectoryEntry> {
    let layout = places(primary, options);
    let icc = match options.icc_profile {
        Some(profile) => seq![
            entry(
                TAG_ICC_PROFILE,
                TYPE_UNDEFINED,
                profile.len() as u32,
                layout.icc_offset->0 as u32,
            ),
        ],
        None => Seq::empty(),
    };
    let alpha = match options.separate_alpha {
        Some(alpha) => seq![
            entry(TAG_ALPHA_OFFSET, TYPE_LONG, 1, layout.alpha_offset->0 as u32),
            entry(TAG_ALPHA_BYTE_COUNT, TYPE_LONG, 1, alpha.len() as u32),
        ],
        None => Seq::empty(),
    };
    icc + seq![
        entry(TAG_PIXEL_FORMAT, TYPE_BYTE, 16, layout.pixel_format_offset as u32),
        entry(TAG_TRANSFORMATION, TYPE_LONG, 1, orientation_code(options.orientation)),
        entry(TAG_IMAGE_WIDTH, TYPE_LONG, 1, options.width),
        entry(TAG_IMAGE_HEIGHT, TYPE_LONG, 1, options.height),
        entry(TAG_HORIZONTAL_RESOLUTION, TYPE_FLOAT, 1, options.horizontal_resolution_bits),
        entry(TAG_VERTICAL_RESOLUTION, TYPE_FLOAT, 1, options.vertical_resolution_bits),
        entry(TAG_IMAGE_OFFSET, TYPE_LONG, 1, layout.primary_offset as u32),
        entry(TAG_IMAGE_BYTE_COUNT, TYPE_LONG, 1, primary as u32),
    ] + alpha
}

/// The file header, the directory, and a zero in place of the offset of a further directory.
pub open spec fn head_bytes(primary: int, options: OptionsModel) -> Seq<u8> {
    seq![0x49u8, 0x49u8, 0xBCu8, 0x01u8] + bytes32(8) + bytes16(entry_total(options) as u16)
        + directory_bytes(written_entries(primary, options)) + bytes32(0)
}

/// The bytes with zeros behind them up to the given length.
pub open spec fn padded(bytes: Seq<u8>, length: int) -> Seq<u8> {
    bytes + Seq::new((length - bytes.len()) as nat, |i: int| 0u8)
}

/// The container up to the end of its identifier.
pub open spec fn with_guid(primary: int, options: OptionsModel) -> Seq<u8> {
    padded(head_bytes(primary, options), guid_place(options)) + options.pixel_format_guid
}

/// The container up to the end of its ICC profile.
pub open spec fn with_icc(primary: int, options: OptionsModel) -> Seq<u8> {
    match options.icc_profile {
        Some(profile) => padded(
            with_guid(primary, options),
            aligned(guid_place(options) + 16),
        ) + profile,
        None => with_guid(primary, options),
    }
}

/// The container up to the end of its primary codestream.
pub open spec fn with_primary(primary: Seq<u8>, options: OptionsModel) -> Seq<u8> {
    padded(with_icc(primary.len() as int, options), primary_place(options)) + primary
}

/// The whole container.
#[verifier::opaque]
pub open spec fn container_bytes(primary: Seq<u8>, options: OptionsModel) -> Seq<u8> {
    match options.separate_alpha {
        Some(alpha) => padded(
            with_primary(primary, options),
            aligned(primary_end(primary.len() as int, options)),
        ) + alpha,
        None => with_primary(primary, options),
    }
}

fn push_u16(output: &mut Vec<u8>, value: u16)
    ensures
        final(output)@ == old(output)@ + bytes16(value),
{
    output.push((value % 256) as u8);
    output.push((value / 256) as u8);
    assert(output@ =~= old(output)@ + bytes16(value));
}

fn push_u32(output: &mut Vec<u8>, value: u32)
    ensures
        final(output)@ == old(output)@ + bytes32(value),
{
    output.push((value % 256) as u8);
    output.push(((value / 256) % 256) as u8);
    output.push(((value / 65536) % 256) as u8);
    output.push((value / 16777216) as u8);
    assert(output@ =~= old(output)@ + bytes32(value));
}

fn push_bytes(output: &mut Vec<u8>, bytes: &[u8])
    ensures
        final(output)@ == old(output)@ + bytes@,
{
    for index in 0..bytes.len()
        invariant
            output@ == old(output)@ + bytes@.take(index as int),
    {
        output.push(bytes[index]);
        assert(output@ =~= old(output)@ + bytes@.take(index as int + 1));
    }
    assert(bytes@.take(bytes@.len() as int) =~= bytes@);
}

fn pad_to(output: &mut Vec<u8>, length: usize)
    requires
        old(output)@.len() <= length,
    ensures
        final(output)@ == padded(old(output)@, length as int),
        final(output)@.len() == length,
{
    while output.len() < length
        invariant
            output@.len() <= length,
            old(output)@.len() <= output@.len(),
            output@ == padded(old(output)@, output@.len() as int),
        decreases length - output@.len(),
    {
        output.push(0);
        assert(output@ =~= padded(old(output)@, output@.len() as int));
    }
}

/// Writer of directory entries in the order of their tags.
struct DirectoryEntries {
    output: Vec<u8>,
    written: Ghost<Seq<DirectoryEntry>>,
}

impl DirectoryEntries {
    spec fn wf(self, start: Seq<u8>) -> bool {
        self.output@ == start + directory_bytes(self.written@)
    }

    fn push(&mut self, tag: u16, element_type: u16, count: u32, value: u32)
        ensures
            final(self).written@ == old(self).written@.push(
                entry(tag, element_type, count, value),
            ),
            forall|start: Seq<u8>| #[trigger] old(self).wf(start) ==> final(self).wf(start),
    {
        push_u16(&mut self.output, tag);
        push_u16(&mut self.output, element_type);
        push_u32(&mut self.output, count);
        push_u32(&mut self.output, value);
        let ghost added = entry(tag, element_type, count, value);
        self.written = Ghost(self.written@.push(added));
        proof {
            assert(self.written@.drop_last() =~= old(self).written@);
            assert forall|start: Seq<u8>| #[trigger] old(self).wf(start) implies self.wf(start) by {
                assert(self.output@ =~= start + directory_bytes(self.written@));
            }
        }
    }
}

fn write_directory(primary: &[u8], options: &AnnexAWriteOptions<'_>, layout: &ContainerLayout) -> (result:
    Result<Vec<u8>, NativeError>)
    requires
        layout_overflow(primary@.len() as int, options@) is None,
        *layout == places(primary@.len() as int, options@),
    ensures
        result matches Ok(output) && output@ == head_bytes(primary@.len() as int, options@),
{
    let mut output: Vec<u8> = Vec::new();
    output.push(0x49);
    output.push(0x49);
    output.push(0xBC);
    output.push(0x01);
    push_u32(&mut output, 8);
    push_u16(&mut output, layout.entry_count as u16);
    let ghost start = output@;
    proof {
        assert(start =~= seq![0x49u8, 0x49u8, 0xBCu8, 0x01u8] + bytes32(8) + bytes16(
            entry_total(options@) as u16,
        ));
        assert(start + directory_bytes(Seq::empty()) =~= start);
        lemma_places(primary@.len() as int, options@);
    }
    let mut entries = DirectoryEntries { output, written: Ghost(Seq::empty()) };
    assert(entries.wf(start));
    if let Some(profile) = options.icc_profile {
        if let Some(offset) = layout.icc_offset {
            entries.push(
                TAG_ICC_PROFILE,
                TYPE_UNDEFINED,
                checked_u32(profile.len(), "representing ICC profile length")?,
                checked_u32(offset, "representing ICC profile offset")?,
            );
        }
    }
    entries.push(
        TAG_PIXEL_FORMAT,
        TYPE_BYTE,
        16,
        checked_u32(layout.pixel_format_offset, "representing pixel format offset")?,
    );
    entries.push(TAG_TRANSFORMATION, TYPE_LONG, 1, orientation_code(options.orientation));
    entries.push(TAG_IMAGE_WIDTH, TYPE_LONG, 1, options.width);
    entries.push(TAG_IMAGE_HEIGHT, TYPE_LONG, 1, options.height);
    entries.push(TAG_HORIZONTAL_RESOLUTION, TYPE_FLOAT, 1, options.horizontal_resolution_bits);
    entries.push(TAG_VERTICAL_RESOLUTION, TYPE_FLOAT, 1, options.vertical_resolution_bits);
    entries.push(
        TAG_IMAGE_OFFSET,
        TYPE_LONG,
        1,
        checked_u32(layout.primary_offset, "representing primary codestream offset")?,
    );
    entries.push(
        TAG_IMAGE_BYTE_COUNT,
        TYPE_LONG,
        1,
        checked_u32(primary.len(), "representing primary codestream length")?,
    );
    if let Some(alpha) = options.separate_alpha {
        if let Some(offset) = layout.alpha_offset {
            entries.push(
                TAG_ALPHA_OFFSET,
                TYPE_LONG,
                1,
                checked_u32(offset, "representing alpha codestream offset")?,
            );
            entries.push(
                TAG_ALPHA_BYTE_COUNT,
                TYPE_LONG,
                1,
                checked_u32(alpha.len(), "representing alpha codestream length")?,
            );
        }
    }
    proof {
        reveal(written_entries);
        assert(entries.written@ =~= written_entries(primary@.len() as int, options@));
    }
    let mut output: Vec<u8> = entries.output;
    push_u32(&mut output, 0);
    Ok(output)
}

/// Without an overflow every place is a 32-bit number, and each part ends before the next begins.
pub proof fn lemma_places(primary: int, options: OptionsModel)
    requires
        0 <= primary,
        layout_overflow(primary, options) is None,
    ensures
        0 <= guid_place(options),
        guid_place(options) + 16 <= icc_end(options) <= primary_place(options) <= primary_end(
            primary,
            options,
        ) <= container_length(primary, options) <= u32::MAX,
        options.icc_profile is Some ==> guid_place(options) + 16 <= aligned(
            guid_place(options) + 16,
        ) <= icc_end(options),
        options.separate_alpha is Some ==> primary_end(primary, options) <= aligned(
            primary_end(primary, options),
        ) <= container_length(primary, options),
{
}

/// The directory takes twelve bytes for each entry.
pub proof fn lemma_directory_length(entries: Seq<DirectoryEntry>)
    ensures
        directory_bytes(entries).len() == 12 * entries.len(),
    decreases entries.len(),
{
    if entries.len() > 0 {
        lemma_directory_length(entries.drop_last());
    }
}

/// The head ends where the padding before the identifier begins.
pub proof fn lemma_head_length(primary: int, options: OptionsModel)
    ensures
        head_bytes(primary, options).len() == 8 + 2 + 12 * entry_total(options) + 4,
        written_entries(primary, options).len() == entry_total(options),
{
    reveal(written_entries);
    lemma_directory_length(written_entries(primary, options));
}

fn write_payloads(
    head: Vec<u8>,
    primary: &[u8],
    options: &AnnexAWriteOptions<'_>,
    layout: &ContainerLayout,
) -> (output: Vec<u8>)
    requires
        layout_overflow(primary@.len() as int, options@) is None,
        *layout == places(primary@.len() as int, options@),
        head@ == head_bytes(primary@.len() as int, options@),
    ensures
        output@ == container_bytes(primary@, options@),
        output@.len() == layout.output_len,
{
    proof {
        lemma_places(primary@.len() as int, options@);
        lemma_head_length(primary@.len() as int, options@);
        reveal(container_bytes);
    }
    let mut output: Vec<u8> = head;
    pad_to(&mut output, layout.pixel_format_offset);
    push_bytes(&mut output, options.pixel_format_guid.as_slice());
    if let Some(profile) = options.icc_profile {
        if let Some(offset) = layout.icc_offset {
            pad_to(&mut output, offset);
            push_bytes(&mut output, profile);
        }
    }
    pad_to(&mut output, layout.primary_offset);
    push_bytes(&mut output, primary);
    if let Some(alpha) = options.separate_alpha {
        if let Some(offset) = layout.alpha_offset {
            pad_to(&mut output, offset);
            push_bytes(&mut output, alpha);
        }
    }
    output
}

/// The container, or why it cannot be written.
pub open spec fn written(primary: Seq<u8>, options: OptionsModel) -> Result<Seq<u8>, NativeError> {
    let container = container_bytes(primary, options);
    match options_error(primary, options) {
        Some(error) => Err(error),
        None => match layout_overflow(primary.len() as int, options) {
            Some(operation) => Err(NativeError::IntegerOverflow { operation }),
            None => match codestream::parsed_of(container) {
                Err(error) => Err(error),
                Ok(_) => Ok(container),
            },
        },
    }
}

/// Serialize a raw codestream into a deterministic Annex-A still-image file.
///
/// The primary and optional separate-alpha codestreams are fully parsed before
/// serialization. Their dimensions must match the declared container dimensions.
/// The finished file is parsed again, including known pixel-format consistency
/// checks, before it is returned.
pub fn write_annex_a(primary: &[u8], options: &AnnexAWriteOptions<'_>) -> (result: Result<
    Vec<u8>,
    NativeError,
>)
    ensures
        match (result, written(primary@, options@)) {
            (Ok(output), Ok(expected)) => output@ == expected,
            (Err(error), Err(expected)) => error == expected,
            _ => false,
        },
{
    validate_options(primary, options)?;
    let layout: ContainerLayout = ContainerLayout::new(primary, options)?;
    let head: Vec<u8> = write_directory(primary, options, &layout)?;
    let output: Vec<u8> = write_payloads(head, primary, options, &layout);
    parse_codestream(output.as_slice())?;
    Ok(output)
}

} // verus!

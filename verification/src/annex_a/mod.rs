//! Bounds-checked Annex-A tag container parsing.

pub mod entry_laws;
pub mod round_trip;
pub mod writer;

use crate::error::NativeError;
use std::ops::Range;
use vstd::prelude::*;

pub use writer::{write_annex_a, AnnexAWriteOptions};

verus! {

/// Tag of the pixel-format identifier.
pub const TAG_PIXEL_FORMAT: u16 = 0xBC01;

/// Tag of the spatial transformation.
pub const TAG_TRANSFORMATION: u16 = 0xBC02;

/// Tag of the image width.
pub const TAG_IMAGE_WIDTH: u16 = 0xBC80;

/// Tag of the image height.
pub const TAG_IMAGE_HEIGHT: u16 = 0xBC81;

/// Tag of the horizontal resolution.
pub const TAG_HORIZONTAL_RESOLUTION: u16 = 0xBC82;

/// Tag of the vertical resolution.
pub const TAG_VERTICAL_RESOLUTION: u16 = 0xBC83;

/// Tag of the offset of the primary codestream.
pub const TAG_IMAGE_OFFSET: u16 = 0xBCC0;

/// Tag of the length of the primary codestream.
pub const TAG_IMAGE_BYTE_COUNT: u16 = 0xBCC1;

/// Tag of the offset of the alpha codestream.
pub const TAG_ALPHA_OFFSET: u16 = 0xBCC2;

/// Tag of the length of the alpha codestream.
pub const TAG_ALPHA_BYTE_COUNT: u16 = 0xBCC3;

/// Tag of the ICC profile.
pub const TAG_ICC_PROFILE: u16 = 0x8773;

/// Metadata retained from the first Annex-A image file directory.
#[derive(Debug, Default, PartialEq, Eq)]
pub struct AnnexAMetadata {
    /// Optional spatial transformation value.
    pub transformation: Option<u32>,
    /// Optional horizontal and vertical DPI as exact IEEE-754 bit patterns.
    pub resolution_dpi_bits: Option<[u32; 2]>,
    /// Optional ICC profile byte range.
    pub icc_profile_range: Option<Range<usize>>,
}

/// Parsed Annex-A still image location and metadata.
#[derive(Debug, PartialEq, Eq)]
pub struct AnnexAImage {
    /// Image width declared by the container.
    pub width: u32,
    /// Image height declared by the container.
    pub height: u32,
    /// Sixteen-byte pixel-format identifier.
    pub pixel_format_guid: [u8; 16],
    /// Primary JPEG XR codestream range.
    pub codestream_range: Range<usize>,
    /// Separate alpha codestream range, when present.
    pub alpha_range: Option<Range<usize>>,
    /// Additional metadata exposed without interpretation.
    pub metadata: AnnexAMetadata,
}

/// What a container says of its image.
pub struct AnnexAModel {
    /// Image width declared by the container.
    pub width: u32,
    /// Image height declared by the container.
    pub height: u32,
    /// Sixteen-byte pixel-format identifier.
    pub pixel_format_guid: Seq<u8>,
    /// Primary JPEG XR codestream range.
    pub codestream_range: Range<usize>,
    /// Separate alpha codestream range, when present.
    pub alpha_range: Option<Range<usize>>,
    /// Additional metadata.
    pub metadata: AnnexAMetadata,
}

impl View for AnnexAImage {
    type V = AnnexAModel;

    open spec fn view(&self) -> AnnexAModel {
        AnnexAModel {
            width: self.width,
            height: self.height,
            pixel_format_guid: self.pixel_format_guid@,
            codestream_range: self.codestream_range,
            alpha_range: self.alpha_range,
            metadata: self.metadata,
        }
    }
}

fn clone_range(range: &Option<Range<usize>>) -> (copy: Option<Range<usize>>)
    ensures
        copy == *range,
{
    match range {
        Some(range) => Some(Range { start: range.start, end: range.end }),
        None => None,
    }
}

impl Clone for AnnexAMetadata {
    fn clone(&self) -> (metadata: Self)
        ensures
            metadata == *self,
    {
        AnnexAMetadata {
            transformation: self.transformation,
            resolution_dpi_bits: self.resolution_dpi_bits,
            icc_profile_range: clone_range(&self.icc_profile_range),
        }
    }
}

impl Clone for AnnexAImage {
    fn clone(&self) -> (image: Self)
        ensures
            image == *self,
    {
        AnnexAImage {
            width: self.width,
            height: self.height,
            pixel_format_guid: self.pixel_format_guid,
            codestream_range: Range {
                start: self.codestream_range.start,
                end: self.codestream_range.end,
            },
            alpha_range: clone_range(&self.alpha_range),
            metadata: self.metadata.clone(),
        }
    }
}

/// One entry of an image file directory.
#[derive(Clone, Copy, Debug, PartialEq, Eq, Structural)]
pub struct DirectoryEntry {
    /// The field that the entry gives.
    pub tag: u16,
    /// The type of its elements.
    pub element_type: u16,
    /// The number of its elements.
    pub count: u32,
    /// The value itself, or the offset of the values.
    pub value: u32,
}

/// The little-endian 16-bit number at `offset`.
pub open spec fn le16(bytes: Seq<u8>, offset: int) -> u16 {
    (bytes[offset] + 256 * bytes[offset + 1]) as u16
}

/// The little-endian 32-bit number at `offset`.
pub open spec fn le32(bytes: Seq<u8>, offset: int) -> u32 {
    (bytes[offset] + 256 * bytes[offset + 1] + 65536 * bytes[offset + 2] + 16777216 * bytes[offset
        + 3]) as u32
}

/// The range of `length` bytes from `offset` on, if the input holds them all.
pub open spec fn range_in(input: int, field: &'static str, offset: usize, length: usize) -> Result<
    Range<usize>,
    NativeError,
> {
    if offset + length > usize::MAX {
        Err(NativeError::IntegerOverflow { operation: "computing input byte range" })
    } else if offset + length > input {
        Err(
            NativeError::RangeOutsideInput {
                field,
                offset,
                length,
                input_length: input as usize,
            },
        )
    } else {
        Ok(Range { start: offset, end: (offset + length) as usize })
    }
}

/// The range of a codestream, whose even length may count one byte past the end of the input.
pub open spec fn codestream_range_in(
    input: int,
    field: &'static str,
    offset: usize,
    length: usize,
) -> Result<Range<usize>, NativeError> {
    if offset + length <= usize::MAX && offset <= input && offset + length == input + 1 && length % 2
        == 0 {
        Ok(Range { start: offset, end: input as usize })
    } else {
        range_in(input, field, offset, length)
    }
}

fn checked_range(bytes: &[u8], field: &'static str, offset: usize, length: usize) -> (result:
    Result<Range<usize>, NativeError>)
    ensures
        result == range_in(bytes@.len() as int, field, offset, length),
        result matches Ok(range) ==> range.start <= range.end <= bytes@.len(),
{
    let end: usize = match offset.checked_add(length) {
        Some(end) => end,
        None => {
            return Err(NativeError::IntegerOverflow { operation: "computing input byte range" });
        },
    };
    if end > bytes.len() {
        return Err(
            NativeError::RangeOutsideInput { field, offset, length, input_length: bytes.len() },
        );
    }
    Ok(Range { start: offset, end })
}

fn checked_codestream_range(
    bytes: &[u8],
    field: &'static str,
    offset: usize,
    length: usize,
) -> (result: Result<Range<usize>, NativeError>)
    ensures
        result == codestream_range_in(bytes@.len() as int, field, offset, length),
        result matches Ok(range) ==> range.start <= range.end <= bytes@.len(),
{
    match checked_range(bytes, field, offset, length) {
        Ok(range) => Ok(range),
        Err(error) => {
            let outside: bool = match error {
                NativeError::RangeOutsideInput { .. } => true,
                _ => false,
            };
            if outside && length % 2 == 0 && offset <= bytes.len() && length - 1 == bytes.len()
                - offset {
                // Some writers round an odd codestream byte count up to an even value without
                // materializing the final pad byte.
                return Ok(Range { start: offset, end: bytes.len() });
            }
            Err(error)
        },
    }
}

fn read_u16(bytes: &[u8], offset: usize, field: &'static str) -> (result: Result<u16, NativeError>)
    ensures
        match range_in(bytes@.len() as int, field, offset, 2) {
            Ok(_) => result == Ok::<u16, NativeError>(le16(bytes@, offset as int)),
            Err(error) => result == Err::<u16, NativeError>(error),
        },
{
    let range: Range<usize> = checked_range(bytes, field, offset, 2)?;
    Ok(bytes[range.start] as u16 + 256 * bytes[range.start + 1] as u16)
}

fn read_u32(bytes: &[u8], offset: usize, field: &'static str) -> (result: Result<u32, NativeError>)
    ensures
        match range_in(bytes@.len() as int, field, offset, 4) {
            Ok(_) => result == Ok::<u32, NativeError>(le32(bytes@, offset as int)),
            Err(error) => result == Err::<u32, NativeError>(error),
        },
{
    let range: Range<usize> = checked_range(bytes, field, offset, 4)?;
    Ok(
        bytes[range.start] as u32 + 256 * bytes[range.start + 1] as u32 + 65536 * bytes[range.start
            + 2] as u32 + 16777216 * bytes[range.start + 3] as u32,
    )
}

/// Entry `index` of the directory whose entries begin at `table`.
pub open spec fn entry_at(bytes: Seq<u8>, table: int, index: int) -> DirectoryEntry {
    DirectoryEntry {
        tag: le16(bytes, table + 12 * index),
        element_type: le16(bytes, table + 12 * index + 2),
        count: le32(bytes, table + 12 * index + 4),
        value: le32(bytes, table + 12 * index + 8),
    }
}

/// The entries of the directory at `offset`.
pub open spec fn entries_at(bytes: Seq<u8>, offset: int) -> Seq<DirectoryEntry> {
    Seq::new(le16(bytes, offset) as nat, |index: int| entry_at(bytes, offset + 2, index))
}

/// Whether tag `index` is not above its predecessor, and all tags before it are.
pub open spec fn unsorted_at(entries: Seq<DirectoryEntry>, index: int) -> bool {
    &&& 1 <= index < entries.len()
    &&& entries[index].tag <= entries[index - 1].tag
    &&& forall|earlier: int| #![trigger entries[earlier]]
        1 <= earlier < index ==> entries[earlier].tag > entries[earlier - 1].tag
}

/// The entries of the directory at `offset`, or why there are none.
pub open spec fn directory_at(bytes: Seq<u8>, offset: usize) -> Result<
    Seq<DirectoryEntry>,
    NativeError,
> {
    let input = bytes.len() as int;
    let count_range = range_in(input, "NUM_ENTRIES", offset, 2);
    let entries = entries_at(bytes, offset as int);
    let table_range = range_in(
        input,
        "IMAGE_FILE_DIRECTORY",
        (offset + 2) as usize,
        (12 * entries.len()) as usize,
    );
    if count_range is Err {
        Err(count_range->Err_0)
    } else if entries.len() == 0 {
        Err(NativeError::ReservedValue { field: "NUM_ENTRIES", value: 0 })
    } else if table_range is Err {
        Err(table_range->Err_0)
    } else if exists|index: int| unsorted_at(entries, index) {
        let index = choose|index: int| unsorted_at(entries, index);
        Err(
            NativeError::UnsortedAnnexATags {
                previous: entries[index - 1].tag,
                current: entries[index].tag,
            },
        )
    } else {
        Ok(entries)
    }
}

fn parse_directory(bytes: &[u8], offset: usize) -> (result: Result<
    Vec<DirectoryEntry>,
    NativeError,
>)
    ensures
        match (result, directory_at(bytes@, offset)) {
            (Ok(entries), Ok(expected)) => entries@ == expected,
            (Err(error), Err(expected)) => error == expected,
            _ => false,
        },
{
    let count: usize = read_u16(bytes, offset, "NUM_ENTRIES")? as usize;
    if count == 0 {
        return Err(NativeError::ReservedValue { field: "NUM_ENTRIES", value: 0 });
    }
    let table_start: usize = offset + 2;
    checked_range(bytes, "IMAGE_FILE_DIRECTORY", table_start, count * 12)?;
    let mut entries: Vec<DirectoryEntry> = Vec::new();
    let ghost expected = entries_at(bytes@, offset as int);
    for index in 0..count
        invariant
            expected == entries_at(bytes@, offset as int),
            expected.len() == count,
            table_start == offset + 2,
            table_start + 12 * count <= bytes@.len(),
            range_in(bytes@.len() as int, "NUM_ENTRIES", offset, 2) is Ok,
            range_in(
                bytes@.len() as int,
                "IMAGE_FILE_DIRECTORY",
                (offset + 2) as usize,
                (12 * count) as usize,
            ) is Ok,
            entries@ == expected.take(index as int),
            forall|earlier: int|
                #![trigger expected[earlier]]
                1 <= earlier < index ==> expected[earlier].tag > expected[earlier - 1].tag,
    {
        let entry_offset: usize = table_start + index * 12;
        let entry = DirectoryEntry {
            tag: read_u16(bytes, entry_offset, "FIELD_TAG")?,
            element_type: read_u16(bytes, entry_offset + 2, "ELEMENT_TYPE")?,
            count: read_u32(bytes, entry_offset + 4, "NUM_ELEMENTS")?,
            value: read_u32(bytes, entry_offset + 8, "VALUES_OR_OFFSET")?,
        };
        assert(entry == expected[index as int]);
        if index > 0 && entry.tag <= entries[index - 1].tag {
            proof {
                assert(unsorted_at(expected, index as int));
                let chosen = choose|chosen: int| unsorted_at(expected, chosen);
                if chosen < index {
                    assert(expected[chosen].tag > expected[chosen - 1].tag);
                } else if chosen > index {
                    assert(expected[index as int].tag > expected[index - 1].tag);
                }
            }
            return Err(
                NativeError::UnsortedAnnexATags {
                    previous: entries[index - 1].tag,
                    current: entry.tag,
                },
            );
        }
        entries.push(entry);
        assert(entries@ =~= expected.take(index as int + 1));
    }
    proof {
        assert(expected.take(count as int) =~= expected);
        assert forall|index: int| !unsorted_at(expected, index) by {
            if unsorted_at(expected, index) {
                assert(expected[index].tag > expected[index - 1].tag);
            }
        }
    }
    Ok(entries)
}

/// The first entry with the tag.
pub open spec fn find(entries: Seq<DirectoryEntry>, tag: u16) -> Option<DirectoryEntry>
    decreases entries.len(),
{
    if entries.len() == 0 {
        None
    } else if entries[0].tag == tag {
        Some(entries[0])
    } else {
        find(entries.drop_first(), tag)
    }
}

fn find_entry(entries: &[DirectoryEntry], tag: u16) -> (found: Option<DirectoryEntry>)
    ensures
        found == find(entries@, tag),
{
    assert(entries@.skip(0) =~= entries@);
    for index in 0..entries.len()
        invariant
            find(entries@, tag) == find(entries@.skip(index as int), tag),
    {
        proof {
            assert(entries@.skip(index as int)[0] == entries@[index as int]);
            assert(entries@.skip(index as int).drop_first() =~= entries@.skip(index as int + 1));
        }
        if entries[index].tag == tag {
            return Some(entries[index]);
        }
    }
    assert(entries@.skip(entries@.len() as int) =~= Seq::<DirectoryEntry>::empty());
    None
}

/// The error of an entry whose type or count does not fit its tag.
pub open spec fn entry_error(entry: DirectoryEntry) -> NativeError {
    NativeError::InvalidAnnexAEntry {
        tag: entry.tag,
        element_type: entry.element_type,
        count: entry.count,
    }
}

/// The value of an entry that holds a single unsigned number of one, two or four bytes.
pub open spec fn scalar(entry: DirectoryEntry) -> Result<u32, NativeError> {
    if entry.count != 1 {
        Err(entry_error(entry))
    } else if entry.element_type == 1 {
        Ok(entry.value % 0x100)
    } else if entry.element_type == 3 {
        Ok(entry.value % 0x10000)
    } else if entry.element_type == 4 {
        Ok(entry.value)
    } else {
        Err(entry_error(entry))
    }
}

fn invalid_entry(entry: &DirectoryEntry) -> (error: NativeError)
    ensures
        error == entry_error(*entry),
{
    NativeError::InvalidAnnexAEntry {
        tag: entry.tag,
        element_type: entry.element_type,
        count: entry.count,
    }
}

fn scalar_value(entry: &DirectoryEntry) -> (result: Result<u32, NativeError>)
    ensures
        result == scalar(*entry),
{
    if entry.count != 1 {
        return Err(invalid_entry(entry));
    }
    match entry.element_type {
        1 => Ok(entry.value % 0x100),
        3 => Ok(entry.value % 0x10000),
        4 => Ok(entry.value),
        _ => Err(invalid_entry(entry)),
    }
}

/// The entry with the tag, or the error that it is missing.
pub open spec fn required(entries: Seq<DirectoryEntry>, tag: u16) -> Result<
    DirectoryEntry,
    NativeError,
> {
    match find(entries, tag) {
        Some(entry) => Ok(entry),
        None => Err(NativeError::MissingAnnexAField { tag }),
    }
}

fn required_entry(entries: &[DirectoryEntry], tag: u16) -> (result: Result<
    DirectoryEntry,
    NativeError,
>)
    ensures
        result == required(entries@, tag),
{
    match find_entry(entries, tag) {
        Some(entry) => Ok(entry),
        None => Err(NativeError::MissingAnnexAField { tag }),
    }
}

/// The single number with the tag.
pub open spec fn required_scalar(entries: Seq<DirectoryEntry>, tag: u16) -> Result<
    u32,
    NativeError,
> {
    match required(entries, tag) {
        Ok(entry) => scalar(entry),
        Err(error) => Err(error),
    }
}

fn required_value(entries: &[DirectoryEntry], tag: u16) -> (result: Result<u32, NativeError>)
    ensures
        result == required_scalar(entries@, tag),
{
    let entry: DirectoryEntry = required_entry(entries, tag)?;
    scalar_value(&entry)
}

/// The single number with the tag, if there is such an entry.
pub open spec fn optional(entries: Seq<DirectoryEntry>, tag: u16) -> Result<
    Option<u32>,
    NativeError,
> {
    match find(entries, tag) {
        None => Ok(None),
        Some(entry) => match scalar(entry) {
            Ok(value) => Ok(Some(value)),
            Err(error) => Err(error),
        },
    }
}

fn optional_scalar(entries: &[DirectoryEntry], tag: u16) -> (result: Result<
    Option<u32>,
    NativeError,
>)
    ensures
        result == optional(entries@, tag),
{
    match find_entry(entries, tag) {
        None => Ok(None),
        Some(entry) => {
            let value: u32 = scalar_value(&entry)?;
            Ok(Some(value))
        },
    }
}

/// Both resolutions or neither, each a single floating-point number.
pub open spec fn resolution(entries: Seq<DirectoryEntry>) -> Result<Option<[u32; 2]>, NativeError> {
    match (
        find(entries, TAG_HORIZONTAL_RESOLUTION),
        find(entries, TAG_VERTICAL_RESOLUTION),
    ) {
        (None, None) => Ok(None),
        (Some(_), None) => Err(
            NativeError::MissingAnnexAField { tag: TAG_VERTICAL_RESOLUTION },
        ),
        (None, Some(_)) => Err(
            NativeError::MissingAnnexAField { tag: TAG_HORIZONTAL_RESOLUTION },
        ),
        (Some(horizontal), Some(vertical)) => if horizontal.count != 1 || horizontal.element_type
            != 11 {
            Err(entry_error(horizontal))
        } else if vertical.count != 1 || vertical.element_type != 11 {
            Err(entry_error(vertical))
        } else {
            Ok(Some([horizontal.value, vertical.value]))
        },
    }
}

fn optional_resolution(entries: &[DirectoryEntry]) -> (result: Result<
    Option<[u32; 2]>,
    NativeError,
>)
    ensures
        result == resolution(entries@),
{
    let horizontal = find_entry(entries, TAG_HORIZONTAL_RESOLUTION);
    let vertical = find_entry(entries, TAG_VERTICAL_RESOLUTION);
    match (horizontal, vertical) {
        (None, None) => Ok(None),
        (Some(_), None) => Err(NativeError::MissingAnnexAField { tag: TAG_VERTICAL_RESOLUTION }),
        (None, Some(_)) => Err(
            NativeError::MissingAnnexAField { tag: TAG_HORIZONTAL_RESOLUTION },
        ),
        (Some(horizontal), Some(vertical)) => {
            if horizontal.count != 1 || horizontal.element_type != 11 {
                return Err(invalid_entry(&horizontal));
            }
            if vertical.count != 1 || vertical.element_type != 11 {
                return Err(invalid_entry(&vertical));
            }
            Ok(Some([horizontal.value, vertical.value]))
        },
    }
}

/// The range of the alpha codestream: offset and length come together, and both zero mean none.
pub open spec fn alpha_range_of(input: int, entries: Seq<DirectoryEntry>) -> Result<
    Option<Range<usize>>,
    NativeError,
> {
    let offset = optional(entries, TAG_ALPHA_OFFSET);
    let count = optional(entries, TAG_ALPHA_BYTE_COUNT);
    if offset is Err {
        Err(offset->Err_0)
    } else if count is Err {
        Err(count->Err_0)
    } else {
        match (offset->Ok_0, count->Ok_0) {
            (None, None) => Ok(None),
            (Some(_), None) => Err(NativeError::MissingAnnexAField { tag: TAG_ALPHA_BYTE_COUNT }),
            (None, Some(_)) => Err(NativeError::MissingAnnexAField { tag: TAG_ALPHA_OFFSET }),
            (Some(offset), Some(count)) => if offset == 0 && count == 0 {
                Ok(None)
            } else {
                match codestream_range_in(
                    input,
                    "ALPHA_BYTE_COUNT",
                    offset as usize,
                    count as usize,
                ) {
                    Ok(range) => Ok(Some(range)),
                    Err(error) => Err(error),
                }
            },
        }
    }
}

fn parse_alpha_range(bytes: &[u8], entries: &[DirectoryEntry]) -> (result: Result<
    Option<Range<usize>>,
    NativeError,
>)
    ensures
        result == alpha_range_of(bytes@.len() as int, entries@),
        result matches Ok(Some(range)) ==> range.start <= range.end <= bytes@.len(),
{
    let offset = optional_scalar(entries, TAG_ALPHA_OFFSET)?;
    let count = optional_scalar(entries, TAG_ALPHA_BYTE_COUNT)?;
    match (offset, count) {
        (None, None) => Ok(None),
        (Some(_), None) => Err(NativeError::MissingAnnexAField { tag: TAG_ALPHA_BYTE_COUNT }),
        (None, Some(_)) => Err(NativeError::MissingAnnexAField { tag: TAG_ALPHA_OFFSET }),
        (Some(offset), Some(count)) => {
            if offset == 0 && count == 0 {
                return Ok(None);
            }
            let range: Range<usize> = checked_codestream_range(
                bytes,
                "ALPHA_BYTE_COUNT",
                offset as usize,
                count as usize,
            )?;
            Ok(Some(range))
        },
    }
}

/// The size of an element of the given type, if there is such a type.
pub open spec fn size_of_element(element_type: u16) -> Option<usize> {
    if element_type == 1 || element_type == 2 || element_type == 6 || element_type == 7 {
        Some(1)
    } else if element_type == 3 || element_type == 8 {
        Some(2)
    } else if element_type == 4 || element_type == 9 || element_type == 11 {
        Some(4)
    } else if element_type == 5 || element_type == 10 || element_type == 12 {
        Some(8)
    } else {
        None
    }
}

fn element_size(element_type: u16) -> (size: Option<usize>)
    ensures
        size == size_of_element(element_type),
{
    match element_type {
        1 | 2 | 6 | 7 => Some(1),
        3 | 8 => Some(2),
        4 | 9 | 11 => Some(4),
        5 | 10 | 12 => Some(8),
        _ => None,
    }
}

/// The range of the bytes that the entry with the tag points at, if there is such an entry.
pub open spec fn blob(input: int, entries: Seq<DirectoryEntry>, tag: u16) -> Result<
    Option<Range<usize>>,
    NativeError,
> {
    match find(entries, tag) {
        None => Ok(None),
        Some(entry) => match size_of_element(entry.element_type) {
            None => Err(entry_error(entry)),
            Some(size) => if size * entry.count > usize::MAX {
                Err(NativeError::IntegerOverflow { operation: "sizing Annex-A metadata" })
            } else {
                match range_in(
                    input,
                    "Annex-A metadata",
                    entry.value as usize,
                    (size * entry.count) as usize,
                ) {
                    Ok(range) => Ok(Some(range)),
                    Err(error) => Err(error),
                }
            },
        },
    }
}

/// A found entry has the tag that was looked for.
proof fn lemma_find_tag(entries: Seq<DirectoryEntry>, tag: u16)
    ensures
        find(entries, tag) matches Some(entry) ==> entry.tag == tag,
    decreases entries.len(),
{
    if entries.len() > 0 {
        lemma_find_tag(entries.drop_first(), tag);
    }
}

fn optional_blob(bytes: &[u8], entries: &[DirectoryEntry], tag: u16) -> (result: Result<
    Option<Range<usize>>,
    NativeError,
>)
    ensures
        result == blob(bytes@.len() as int, entries@, tag),
        result matches Ok(Some(range)) ==> range.start <= range.end <= bytes@.len(),
{
    let entry: DirectoryEntry = match find_entry(entries, tag) {
        Some(entry) => entry,
        None => return Ok(None),
    };
    proof {
        lemma_find_tag(entries@, tag);
    }
    let size: usize = match element_size(entry.element_type) {
        Some(size) => size,
        None => {
            return Err(invalid_entry(&entry));
        },
    };
    let length: usize = match size.checked_mul(entry.count as usize) {
        Some(length) => length,
        None => {
            return Err(NativeError::IntegerOverflow { operation: "sizing Annex-A metadata" });
        },
    };
    let range: Range<usize> = checked_range(
        bytes,
        "Annex-A metadata",
        entry.value as usize,
        length,
    )?;
    Ok(Some(range))
}

/// The range of the primary codestream; a length of zero means all that follows its offset.
pub open spec fn primary_range(input: int, offset: u32, count: u32) -> Result<
    Range<usize>,
    NativeError,
> {
    if count == 0 && offset > input {
        Err(
            NativeError::RangeOutsideInput {
                field: "IMAGE_OFFSET",
                offset: offset as usize,
                length: 0,
                input_length: input as usize,
            },
        )
    } else {
        codestream_range_in(
            input,
            "IMAGE_BYTE_COUNT",
            offset as usize,
            if count == 0 {
                (input - offset) as usize
            } else {
                count as usize
            },
        )
    }
}

fn primary_codestream_range(bytes: &[u8], image_offset: u32, image_count: u32) -> (result: Result<
    Range<usize>,
    NativeError,
>)
    ensures
        result == primary_range(bytes@.len() as int, image_offset, image_count),
        result matches Ok(range) ==> range.start <= range.end <= bytes@.len(),
{
    let offset: usize = image_offset as usize;
    let length: usize = if image_count == 0 {
        if offset > bytes.len() {
            return Err(
                NativeError::RangeOutsideInput {
                    field: "IMAGE_OFFSET",
                    offset,
                    length: 0,
                    input_length: bytes.len(),
                },
            );
        }
        bytes.len() - offset
    } else {
        image_count as usize
    };
    checked_codestream_range(bytes, "IMAGE_BYTE_COUNT", offset, length)
}

/// Whether two byte ranges have a byte in common.
pub open spec fn overlapping(left: Range<usize>, right: Range<usize>) -> bool {
    left.start < right.end && right.start < left.end
}

/// The identifier that the pixel-format entry points at.
pub open spec fn pixel_format_range(input: int, entries: Seq<DirectoryEntry>) -> Result<
    Range<usize>,
    NativeError,
> {
    match required(entries, TAG_PIXEL_FORMAT) {
        Err(error) => Err(error),
        Ok(entry) => if entry.count != 16 || entry.element_type != 1 {
            Err(entry_error(entry))
        } else {
            range_in(input, "PIXEL_FORMAT", entry.value as usize, 16)
        },
    }
}

/// What the entries of a directory say of the image, or the first of their errors.
pub open spec fn image_of(bytes: Seq<u8>, entries: Seq<DirectoryEntry>) -> Result<
    AnnexAModel,
    NativeError,
> {
    let input = bytes.len() as int;
    let guid = pixel_format_range(input, entries);
    let width = required_scalar(entries, TAG_IMAGE_WIDTH);
    let height = required_scalar(entries, TAG_IMAGE_HEIGHT);
    let offset = required_scalar(entries, TAG_IMAGE_OFFSET);
    let count = required_scalar(entries, TAG_IMAGE_BYTE_COUNT);
    let primary = primary_range(input, offset->Ok_0, count->Ok_0);
    let alpha = alpha_range_of(input, entries);
    let transformation = optional(entries, TAG_TRANSFORMATION);
    let resolution = resolution(entries);
    let icc = blob(input, entries, TAG_ICC_PROFILE);
    if guid is Err {
        Err(guid->Err_0)
    } else if width is Err {
        Err(width->Err_0)
    } else if height is Err {
        Err(height->Err_0)
    } else if offset is Err {
        Err(offset->Err_0)
    } else if count is Err {
        Err(count->Err_0)
    } else if primary is Err {
        Err(primary->Err_0)
    } else if alpha is Err {
        Err(alpha->Err_0)
    } else if alpha->Ok_0 is Some && overlapping(alpha->Ok_0->0, primary->Ok_0) {
        Err(
            NativeError::InvalidSyntax { field: "overlapping primary and alpha codestream ranges" },
        )
    } else if transformation is Err {
        Err(transformation->Err_0)
    } else if resolution is Err {
        Err(resolution->Err_0)
    } else if icc is Err {
        Err(icc->Err_0)
    } else {
        Ok(
            AnnexAModel {
                width: width->Ok_0,
                height: height->Ok_0,
                pixel_format_guid: bytes.subrange(guid->Ok_0.start as int, guid->Ok_0.end as int),
                codestream_range: primary->Ok_0,
                alpha_range: alpha->Ok_0,
                metadata: AnnexAMetadata {
                    transformation: transformation->Ok_0,
                    resolution_dpi_bits: resolution->Ok_0,
                    icc_profile_range: icc->Ok_0,
                },
            },
        )
    }
}

fn sixteen_bytes(bytes: &[u8], start: usize) -> (copy: [u8; 16])
    requires
        start + 16 <= bytes@.len(),
    ensures
        copy@ == bytes@.subrange(start as int, start + 16),
{
    let length: usize = bytes.len();
    let mut copy: [u8; 16] = [0u8;16];
    for index in 0..16usize
        invariant
            start + 16 <= length,
            length == bytes@.len(),
            forall|earlier: int| 0 <= earlier < index ==> copy[earlier] == bytes@[start + earlier],
    {
        copy[index] = bytes[start + index];
    }
    assert(copy@ =~= bytes@.subrange(start as int, start + 16));
    copy
}

fn build_image(bytes: &[u8], entries: &[DirectoryEntry]) -> (result: Result<
    AnnexAImage,
    NativeError,
>)
    ensures
        match (result, image_of(bytes@, entries@)) {
            (Ok(image), Ok(expected)) => image@ == expected,
            (Err(error), Err(expected)) => error == expected,
            _ => false,
        },
{
    let pixel_entry: DirectoryEntry = required_entry(entries, TAG_PIXEL_FORMAT)?;
    if pixel_entry.count != 16 || pixel_entry.element_type != 1 {
        return Err(invalid_entry(&pixel_entry));
    }
    let guid_range: Range<usize> = checked_range(
        bytes,
        "PIXEL_FORMAT",
        pixel_entry.value as usize,
        16,
    )?;
    let pixel_format_guid: [u8; 16] = sixteen_bytes(bytes, guid_range.start);
    let width: u32 = required_value(entries, TAG_IMAGE_WIDTH)?;
    let height: u32 = required_value(entries, TAG_IMAGE_HEIGHT)?;
    let image_offset: u32 = required_value(entries, TAG_IMAGE_OFFSET)?;
    let image_count: u32 = required_value(entries, TAG_IMAGE_BYTE_COUNT)?;
    let codestream_range: Range<usize> = primary_codestream_range(
        bytes,
        image_offset,
        image_count,
    )?;
    let alpha_range: Option<Range<usize>> = parse_alpha_range(bytes, entries)?;
    if let Some(alpha) = &alpha_range {
        if alpha.start < codestream_range.end && codestream_range.start < alpha.end {
            return Err(
                NativeError::InvalidSyntax {
                    field: "overlapping primary and alpha codestream ranges",
                },
            );
        }
    }
    let metadata = AnnexAMetadata {
        transformation: optional_scalar(entries, TAG_TRANSFORMATION)?,
        resolution_dpi_bits: optional_resolution(entries)?,
        icc_profile_range: optional_blob(bytes, entries, TAG_ICC_PROFILE)?,
    };
    Ok(
        AnnexAImage {
            width,
            height,
            pixel_format_guid,
            codestream_range,
            alpha_range,
            metadata,
        },
    )
}

/// Whether the bytes begin as an Annex-A file does.
pub open spec fn has_file_signature(bytes: Seq<u8>) -> bool {
    bytes[0] == 0x49 && bytes[1] == 0x49 && bytes[2] == 0xBC && bytes[3] == 1
}

fn validate_file_header(bytes: &[u8]) -> (result: Result<(), NativeError>)
    ensures
        result == (if bytes@.len() < 8 {
            Err::<(), NativeError>(
                NativeError::Truncated {
                    bit_position: (8 * bytes@.len()) as usize,
                    requested_bits: 64,
                },
            )
        } else if !has_file_signature(bytes@) {
            Err(NativeError::InvalidSignature)
        } else {
            Ok(())
        }),
{
    if bytes.len() < 8 {
        return Err(NativeError::Truncated { bit_position: bytes.len() * 8, requested_bits: 64 });
    }
    if bytes[0] != 0x49 || bytes[1] != 0x49 || bytes[2] != 0xBC || bytes[3] != 1 {
        return Err(NativeError::InvalidSignature);
    }
    Ok(())
}

/// What an Annex-A file says of its first image, or why it says nothing.
pub open spec fn annex_a_of(bytes: Seq<u8>) -> Result<AnnexAModel, NativeError> {
    if bytes.len() < 8 {
        Err(
            NativeError::Truncated {
                bit_position: (8 * bytes.len()) as usize,
                requested_bits: 64,
            },
        )
    } else if !has_file_signature(bytes) {
        Err(NativeError::InvalidSignature)
    } else if le32(bytes, 4) % 2 != 0 {
        Err(
            NativeError::ReservedValue {
                field: "FIRST_IFD_OFFSET alignment",
                value: le32(bytes, 4) as u64,
            },
        )
    } else {
        match directory_at(bytes, le32(bytes, 4) as usize) {
            Err(error) => Err(error),
            Ok(entries) => image_of(bytes, entries),
        }
    }
}

/// Parse the first image directory of an Annex-A JPEG XR file.
pub fn parse_annex_a(bytes: &[u8]) -> (result: Result<AnnexAImage, NativeError>)
    ensures
        match (result, annex_a_of(bytes@)) {
            (Ok(image), Ok(expected)) => image@ == expected,
            (Err(error), Err(expected)) => error == expected,
            _ => false,
        },
{
    validate_file_header(bytes)?;
    let ifd_offset: usize = read_u32(bytes, 4, "FIRST_IFD_OFFSET")? as usize;
    if ifd_offset % 2 != 0 {
        return Err(
            NativeError::ReservedValue {
                field: "FIRST_IFD_OFFSET alignment",
                value: ifd_offset as u64,
            },
        );
    }
    let entries: Vec<DirectoryEntry> = parse_directory(bytes, ifd_offset)?;
    build_image(bytes, entries.as_slice())
}

/// The ranges that a container gives are in bounds, and its two codestreams share no byte.
pub proof fn lemma_ranges_in_bounds(bytes: Seq<u8>)
    requires
        annex_a_of(bytes) is Ok,
        bytes.len() <= usize::MAX,
    ensures
        ({
            let image = annex_a_of(bytes)->Ok_0;
            &&& image.pixel_format_guid.len() == 16
            &&& image.codestream_range.start <= image.codestream_range.end <= bytes.len()
            &&& image.alpha_range matches Some(alpha) ==> alpha.start <= alpha.end <= bytes.len()
                && !overlapping(alpha, image.codestream_range)
            &&& image.metadata.icc_profile_range matches Some(icc) ==> icc.start <= icc.end
                <= bytes.len()
        }),
{
}

} // verus!

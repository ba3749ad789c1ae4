//! What is written into a container is what is read from it.

use super::writer;
use super::writer::OptionsModel;
use crate::annex_a;
use crate::annex_a::{
    AnnexAMetadata, AnnexAModel, DirectoryEntry, TAG_ALPHA_BYTE_COUNT, TAG_ALPHA_OFFSET,
    TAG_HORIZONTAL_RESOLUTION, TAG_ICC_PROFILE, TAG_IMAGE_BYTE_COUNT, TAG_IMAGE_HEIGHT,
    TAG_IMAGE_OFFSET, TAG_IMAGE_WIDTH, TAG_PIXEL_FORMAT, TAG_TRANSFORMATION,
    TAG_VERTICAL_RESOLUTION,
};
use crate::codestream;
use crate::codestream::ParsedModel;
use crate::error::NativeError;
use crate::pixel_format;
use std::ops::Range;
use vstd::prelude::*;

verus! {

/// Reading a little-endian number gives back the number that was written.
pub proof fn lemma_numbers(bytes: Seq<u8>, offset: int, short: u16, long: u32)
    requires
        0 <= offset,
    ensures
        offset + 2 <= bytes.len() && bytes.subrange(offset, offset + 2) == writer::bytes16(short)
            ==> annex_a::le16(bytes, offset) == short,
        offset + 4 <= bytes.len() && bytes.subrange(offset, offset + 4) == writer::bytes32(long)
            ==> annex_a::le32(bytes, offset) == long,
{
    if offset + 2 <= bytes.len() && bytes.subrange(offset, offset + 2) == writer::bytes16(short) {
        assert(bytes[offset] == bytes.subrange(offset, offset + 2)[0]);
        assert(bytes[offset + 1] == bytes.subrange(offset, offset + 2)[1]);
    }
    if offset + 4 <= bytes.len() && bytes.subrange(offset, offset + 4) == writer::bytes32(long) {
        assert(bytes[offset] == bytes.subrange(offset, offset + 4)[0]);
        assert(bytes[offset + 1] == bytes.subrange(offset, offset + 4)[1]);
        assert(bytes[offset + 2] == bytes.subrange(offset, offset + 4)[2]);
        assert(bytes[offset + 3] == bytes.subrange(offset, offset + 4)[3]);
    }
}

/// An entry stands at its place among the entries.
proof fn lemma_entry_bytes(entries: Seq<DirectoryEntry>, index: int)
    requires
        0 <= index < entries.len(),
    ensures
        writer::directory_bytes(entries).len() == 12 * entries.len(),
        writer::directory_bytes(entries).subrange(12 * index, 12 * index + 12)
            == writer::entry_bytes(entries[index]),
    decreases entries.len(),
{
    let rest = entries.drop_last();
    writer::lemma_directory_length(entries);
    writer::lemma_directory_length(rest);
    if index < rest.len() {
        lemma_entry_bytes(rest, index);
        assert(writer::directory_bytes(entries).subrange(12 * index, 12 * index + 12)
            =~= writer::directory_bytes(rest).subrange(12 * index, 12 * index + 12));
    } else {
        assert(writer::directory_bytes(entries).subrange(12 * index, 12 * index + 12)
            =~= writer::entry_bytes(entries[index]));
    }
}

/// Reading an entry gives back the entry that was written.
proof fn lemma_entry(bytes: Seq<u8>, offset: int, expected: DirectoryEntry)
    requires
        0 <= offset,
        offset + 12 <= bytes.len(),
        bytes.subrange(offset, offset + 12) == writer::entry_bytes(expected),
    ensures
        annex_a::entry_at(bytes, offset, 0) == expected,
{
    let part = bytes.subrange(offset, offset + 12);
    assert(bytes.subrange(offset, offset + 2) =~= part.subrange(0, 2));
    assert(part.subrange(0, 2) =~= writer::bytes16(expected.tag));
    assert(bytes.subrange(offset + 2, offset + 4) =~= part.subrange(2, 4));
    assert(part.subrange(2, 4) =~= writer::bytes16(expected.element_type));
    assert(bytes.subrange(offset + 4, offset + 8) =~= part.subrange(4, 8));
    assert(part.subrange(4, 8) =~= writer::bytes32(expected.count));
    assert(bytes.subrange(offset + 8, offset + 12) =~= part.subrange(8, 12));
    assert(part.subrange(8, 12) =~= writer::bytes32(expected.value));
    lemma_numbers(bytes, offset, expected.tag, 0);
    lemma_numbers(bytes, offset + 2, expected.element_type, 0);
    lemma_numbers(bytes, offset + 4, 0, expected.count);
    lemma_numbers(bytes, offset + 8, 0, expected.value);
}

/// An entry whose tag is above all tags before it is the one that is found.
proof fn lemma_found(entries: Seq<DirectoryEntry>, index: int)
    requires
        0 <= index < entries.len(),
        forall|earlier: int| 0 <= earlier < index ==> (#[trigger] entries[earlier]).tag
            != entries[index].tag,
    ensures
        annex_a::find(entries, entries[index].tag) == Some(entries[index]),
    decreases entries.len(),
{
    if index > 0 {
        let rest = entries.drop_first();
        assert(rest[index - 1] == entries[index]);
        assert forall|earlier: int| 0 <= earlier < index - 1 implies (#[trigger] rest[earlier]).tag
            != rest[index - 1].tag by {
            assert(rest[earlier] == entries[earlier + 1]);
        }
        assert(entries[0].tag != entries[index].tag);
        lemma_found(rest, index - 1);
    }
}

/// A tag that no entry has is not found.
proof fn lemma_not_found(entries: Seq<DirectoryEntry>, tag: u16)
    requires
        forall|index: int| 0 <= index < entries.len() ==> (#[trigger] entries[index]).tag != tag,
    ensures
        annex_a::find(entries, tag) is None,
    decreases entries.len(),
{
    if entries.len() > 0 {
        let rest = entries.drop_first();
        assert(entries[0].tag != tag);
        assert forall|index: int| 0 <= index < rest.len() implies (#[trigger] rest[index]).tag
            != tag by {
            assert(rest[index] == entries[index + 1]);
        }
        lemma_not_found(rest, tag);
    }
}

/// Every part of the container has its place in the file.
proof fn lemma_parts(primary: Seq<u8>, options: OptionsModel)
    requires
        writer::layout_overflow(primary.len() as int, options) is None,
        options.pixel_format_guid.len() == 16,
    ensures
        ({
            let size = primary.len() as int;
            let file = writer::container_bytes(primary, options);
            let head = writer::head_bytes(size, options);
            &&& file.len() == writer::container_length(size, options)
            &&& head.len() <= file.len()
            &&& file.take(head.len() as int) == head
            &&& file.subrange(writer::guid_place(options), writer::guid_place(options) + 16)
                == options.pixel_format_guid
            &&& file.subrange(writer::primary_place(options), writer::primary_end(size, options))
                == primary
            &&& options.icc_profile matches Some(profile) ==> file.subrange(
                writer::aligned(writer::guid_place(options) + 16),
                writer::icc_end(options),
            ) == profile
            &&& options.separate_alpha matches Some(alpha) ==> file.subrange(
                writer::aligned(writer::primary_end(size, options)),
                writer::container_length(size, options),
            ) == alpha
        }),
{
    let size = primary.len() as int;
    let file = writer::container_bytes(primary, options);
    let head = writer::head_bytes(size, options);
    let guid = writer::with_guid(size, options);
    let icc = writer::with_icc(size, options);
    let body = writer::with_primary(primary, options);
    reveal(writer::container_bytes);
    writer::lemma_places(size, options);
    writer::lemma_head_length(size, options);
    assert(guid.len() == writer::guid_place(options) + 16);
    assert(icc.len() == writer::icc_end(options));
    assert(body.len() == writer::primary_end(size, options));
    assert(guid.take(head.len() as int) =~= head);
    assert(icc.take(guid.len() as int) =~= guid);
    assert(body.take(icc.len() as int) =~= icc);
    assert(file.take(body.len() as int) =~= body);
    assert forall|i: int| 0 <= i < icc.len() implies file[i] == icc[i] by {
        assert(file[i] == file.take(body.len() as int)[i]);
        assert(body[i] == body.take(icc.len() as int)[i]);
    }
    assert forall|i: int| 0 <= i < guid.len() implies file[i] == guid[i] by {
        assert(icc[i] == icc.take(guid.len() as int)[i]);
    }
    assert forall|i: int| 0 <= i < head.len() implies file[i] == head[i] by {
        assert(guid[i] == guid.take(head.len() as int)[i]);
    }
    assert(file.take(head.len() as int) =~= head);
    assert(file.subrange(writer::guid_place(options), writer::guid_place(options) + 16)
        =~= options.pixel_format_guid);
    assert(file.subrange(writer::primary_place(options), writer::primary_end(size, options))
        =~= primary) by {
        assert forall|i: int| 0 <= i < body.len() implies file[i] == body[i] by {
            assert(file[i] == file.take(body.len() as int)[i]);
        }
    }
    if let Some(profile) = options.icc_profile {
        assert(file.subrange(
            writer::aligned(writer::guid_place(options) + 16),
            writer::icc_end(options),
        ) =~= profile);
    }
    if let Some(alpha) = options.separate_alpha {
        assert(file.subrange(
            writer::aligned(writer::primary_end(size, options)),
            writer::container_length(size, options),
        ) =~= alpha);
    }
}

/// The tags of the written entries grow from entry to entry.
proof fn lemma_sorted(primary: int, options: OptionsModel)
    ensures
        forall|index: int| !annex_a::unsorted_at(writer::written_entries(primary, options), index),
{
    let entries = writer::written_entries(primary, options);
    let tags = Seq::new(entries.len(), |index: int| entries[index].tag);
    let middle = seq![
        TAG_PIXEL_FORMAT,
        TAG_TRANSFORMATION,
        TAG_IMAGE_WIDTH,
        TAG_IMAGE_HEIGHT,
        TAG_HORIZONTAL_RESOLUTION,
        TAG_VERTICAL_RESOLUTION,
        TAG_IMAGE_OFFSET,
        TAG_IMAGE_BYTE_COUNT,
    ];
    let before = if options.icc_profile is Some {
        seq![TAG_ICC_PROFILE]
    } else {
        Seq::<u16>::empty()
    };
    let after = if options.separate_alpha is Some {
        seq![TAG_ALPHA_OFFSET, TAG_ALPHA_BYTE_COUNT]
    } else {
        Seq::<u16>::empty()
    };
    assert(tags =~= before + middle + after) by {
        reveal(writer::written_entries);
    }
    assert forall|index: int| !annex_a::unsorted_at(entries, index) by {
        if 1 <= index < entries.len() {
            assert(tags[index] > tags[index - 1]) by {
                let place = index - before.len();
                if place <= 0 {
                } else if place == 1 {
                } else if place == 2 {
                } else if place == 3 {
                } else if place == 4 {
                } else if place == 5 {
                } else if place == 6 {
                } else if place == 7 {
                } else {
                    assert(place == 8 || place == 9);
                }
            }
            assert(entries[index].tag == tags[index]);
            assert(entries[index - 1].tag == tags[index - 1]);
        }
    }
}

/// Entries that stand one behind the other are read one by one.
proof fn lemma_read_entries(file: Seq<u8>, entries: Seq<DirectoryEntry>)
    requires
        file.len() >= 10 + 12 * entries.len(),
        file.subrange(10, 10 + 12 * entries.len() as int) == writer::directory_bytes(entries),
        annex_a::le16(file, 8) == entries.len(),
    ensures
        annex_a::entries_at(file, 8) == entries,
{
    let found = annex_a::entries_at(file, 8);
    assert forall|index: int| 0 <= index < entries.len() implies found[index] == entries[index] by {
        lemma_entry_bytes(entries, index);
        let directory = file.subrange(10, 10 + 12 * entries.len() as int);
        assert(file.subrange(10 + 12 * index, 10 + 12 * index + 12) =~= directory.subrange(
            12 * index,
            12 * index + 12,
        ));
        lemma_entry(file, 10 + 12 * index, entries[index]);
    }
    assert(found =~= entries);
}

/// The directory of the file holds the written entries.
proof fn lemma_directory(primary: Seq<u8>, options: OptionsModel)
    requires
        writer::layout_overflow(primary.len() as int, options) is None,
        options.pixel_format_guid.len() == 16,
    ensures
        ({
            let file = writer::container_bytes(primary, options);
            &&& file.len() >= 8
            &&& annex_a::has_file_signature(file)
            &&& annex_a::le32(file, 4) == 8
            &&& annex_a::directory_at(file, 8) == Ok::<Seq<DirectoryEntry>, NativeError>(
                writer::written_entries(primary.len() as int, options),
            )
        }),
{
    let size = primary.len() as int;
    let file = writer::container_bytes(primary, options);
    let head = writer::head_bytes(size, options);
    let entries = writer::written_entries(size, options);
    let count = writer::entry_total(options);
    lemma_parts(primary, options);
    writer::lemma_head_length(size, options);
    writer::lemma_directory_length(entries);
    writer::lemma_places(size, options);
    assert forall|i: int| 0 <= i < head.len() implies file[i] == head[i] by {
        assert(file[i] == file.take(head.len() as int)[i]);
    }
    assert(file.subrange(4, 8) =~= writer::bytes32(8));
    lemma_numbers(file, 4, 0, 8);
    assert(file.subrange(8, 10) =~= writer::bytes16(count as u16));
    lemma_numbers(file, 8, count as u16, 0);
    assert(file.subrange(10, 10 + 12 * entries.len() as int) =~= writer::directory_bytes(entries));
    lemma_read_entries(file, entries);
    lemma_sorted(size, options);
}

/// The fields of the written directory, by tag.
proof fn lemma_fields(primary: int, options: OptionsModel)
    ensures
        ({
            let entries = writer::written_entries(primary, options);
            let layout = writer::places(primary, options);
            &&& annex_a::find(entries, TAG_PIXEL_FORMAT) == Some(
                writer::entry(TAG_PIXEL_FORMAT, 1, 16, layout.pixel_format_offset as u32),
            )
            &&& annex_a::find(entries, TAG_TRANSFORMATION) == Some(
                writer::entry(
                    TAG_TRANSFORMATION,
                    4,
                    1,
                    writer::orientation_code(options.orientation),
                ),
            )
            &&& annex_a::find(entries, TAG_IMAGE_WIDTH) == Some(
                writer::entry(TAG_IMAGE_WIDTH, 4, 1, options.width),
            )
            &&& annex_a::find(entries, TAG_IMAGE_HEIGHT) == Some(
                writer::entry(TAG_IMAGE_HEIGHT, 4, 1, options.height),
            )
            &&& annex_a::find(entries, TAG_HORIZONTAL_RESOLUTION) == Some(
                writer::entry(
                    TAG_HORIZONTAL_RESOLUTION,
                    11,
                    1,
                    options.horizontal_resolution_bits,
                ),
            )
            &&& annex_a::find(entries, TAG_VERTICAL_RESOLUTION) == Some(
                writer::entry(TAG_VERTICAL_RESOLUTION, 11, 1, options.vertical_resolution_bits),
            )
            &&& annex_a::find(entries, TAG_IMAGE_OFFSET) == Some(
                writer::entry(TAG_IMAGE_OFFSET, 4, 1, layout.primary_offset as u32),
            )
            &&& annex_a::find(entries, TAG_IMAGE_BYTE_COUNT) == Some(
                writer::entry(TAG_IMAGE_BYTE_COUNT, 4, 1, primary as u32),
            )
            &&& annex_a::find(entries, TAG_ICC_PROFILE) == (match options.icc_profile {
                Some(profile) => Some(
                    writer::entry(
                        TAG_ICC_PROFILE,
                        7,
                        profile.len() as u32,
                        layout.icc_offset->0 as u32,
                    ),
                ),
                None => None,
            })
            &&& annex_a::find(entries, TAG_ALPHA_OFFSET) == (match options.separate_alpha {
                Some(_) => Some(
                    writer::entry(TAG_ALPHA_OFFSET, 4, 1, layout.alpha_offset->0 as u32),
                ),
                None => None,
            })
            &&& annex_a::find(entries, TAG_ALPHA_BYTE_COUNT) == (match options.separate_alpha {
                Some(alpha) => Some(
                    writer::entry(TAG_ALPHA_BYTE_COUNT, 4, 1, alpha.len() as u32),
                ),
                None => None,
            })
        }),
{
    reveal(writer::written_entries);
    let entries = writer::written_entries(primary, options);
    let base: int = if options.icc_profile is Some {
        1
    } else {
        0
    };
    lemma_found(entries, base);
    lemma_found(entries, base + 1);
    lemma_found(entries, base + 2);
    lemma_found(entries, base + 3);
    lemma_found(entries, base + 4);
    lemma_found(entries, base + 5);
    lemma_found(entries, base + 6);
    lemma_found(entries, base + 7);
    if options.icc_profile is Some {
        lemma_found(entries, 0);
    } else {
        lemma_not_found(entries, TAG_ICC_PROFILE);
    }
    if options.separate_alpha is Some {
        lemma_found(entries, base + 8);
        lemma_found(entries, base + 9);
    } else {
        lemma_not_found(entries, TAG_ALPHA_OFFSET);
        lemma_not_found(entries, TAG_ALPHA_BYTE_COUNT);
    }
}

/// A range of the file from a place to a place.
pub open spec fn span(start: int, end: int) -> Range<usize> {
    Range { start: start as usize, end: end as usize }
}

/// What the container says of its image.
pub open spec fn stored(primary: int, options: OptionsModel) -> AnnexAModel {
    AnnexAModel {
        width: options.width,
        height: options.height,
        pixel_format_guid: options.pixel_format_guid,
        codestream_range: span(
            writer::primary_place(options),
            writer::primary_end(primary, options),
        ),
        alpha_range: match options.separate_alpha {
            Some(_) => Some(
                span(
                    writer::aligned(writer::primary_end(primary, options)),
                    writer::container_length(primary, options),
                ),
            ),
            None => None,
        },
        metadata: AnnexAMetadata {
            transformation: Some(writer::orientation_code(options.orientation)),
            resolution_dpi_bits: Some(
                [options.horizontal_resolution_bits, options.vertical_resolution_bits],
            ),
            icc_profile_range: match options.icc_profile {
                Some(_) => Some(
                    span(
                        writer::aligned(writer::guid_place(options) + 16),
                        writer::icc_end(options),
                    ),
                ),
                None => None,
            },
        },
    }
}

/// The fields of the directory say where everything is.
proof fn lemma_stored(file: Seq<u8>, primary: int, options: OptionsModel)
    requires
        writer::layout_overflow(primary, options) is None,
        primary > 0,
        file.len() == writer::container_length(primary, options),
        file.subrange(writer::guid_place(options), writer::guid_place(options) + 16)
            == options.pixel_format_guid,
    ensures
        annex_a::image_of(file, writer::written_entries(primary, options)) == Ok::<
            AnnexAModel,
            NativeError,
        >(stored(primary, options)),
{
    let entries = writer::written_entries(primary, options);
    let input = file.len() as int;
    let image = stored(primary, options);
    lemma_fields(primary, options);
    writer::lemma_places(primary, options);
    assert(annex_a::pixel_format_range(input, entries) == Ok::<Range<usize>, NativeError>(
        span(writer::guid_place(options), writer::guid_place(options) + 16),
    ));
    assert(annex_a::required_scalar(entries, TAG_IMAGE_OFFSET) == Ok::<u32, NativeError>(
        writer::primary_place(options) as u32,
    ));
    assert(annex_a::required_scalar(entries, TAG_IMAGE_BYTE_COUNT) == Ok::<u32, NativeError>(
        primary as u32,
    ));
    assert(annex_a::primary_range(input, writer::primary_place(options) as u32, primary as u32)
        == Ok::<Range<usize>, NativeError>(image.codestream_range));
    assert(annex_a::alpha_range_of(input, entries) == Ok::<Option<Range<usize>>, NativeError>(
        image.alpha_range,
    ));
    assert(annex_a::resolution(entries) == Ok::<Option<[u32; 2]>, NativeError>(
        image.metadata.resolution_dpi_bits,
    ));
    assert(annex_a::blob(input, entries, TAG_ICC_PROFILE) == Ok::<
        Option<Range<usize>>,
        NativeError,
    >(image.metadata.icc_profile_range)) by {
        if let Some(profile) = options.icc_profile {
            let found = annex_a::find(entries, TAG_ICC_PROFILE)->0;
            assert(annex_a::size_of_element(found.element_type) == Some(1usize));
            assert(1usize * found.count == profile.len());
            assert(found.value == writer::aligned(writer::guid_place(options) + 16));
        }
    }
}

/// A container that is read gives back what was written into it: dimensions, identifier,
/// orientation, resolution, and byte for byte the ICC profile and both codestreams.
pub proof fn lemma_container_round_trip(primary: Seq<u8>, options: OptionsModel)
    requires
        writer::layout_overflow(primary.len() as int, options) is None,
        options.pixel_format_guid.len() == 16,
        primary.len() > 0,
    ensures
        ({
            let file = writer::container_bytes(primary, options);
            let image = stored(primary.len() as int, options);
            &&& annex_a::annex_a_of(file) == Ok::<AnnexAModel, NativeError>(image)
            &&& codestream::slice_of(file, image.codestream_range) == primary
            &&& options.separate_alpha matches Some(alpha) ==> codestream::slice_of(
                file,
                image.alpha_range->0,
            ) == alpha
            &&& options.icc_profile matches Some(profile) ==> codestream::slice_of(
                file,
                image.metadata.icc_profile_range->0,
            ) == profile
        }),
{
    let size = primary.len() as int;
    lemma_parts(primary, options);
    lemma_directory(primary, options);
    writer::lemma_places(size, options);
    lemma_stored(writer::container_bytes(primary, options), size, options);
}

/// What the finished container says, with what its codestreams say by themselves.
pub open spec fn written_model(primary: Seq<u8>, options: OptionsModel) -> ParsedModel {
    let main = codestream::prelude_of(primary)->Ok_0;
    let alpha = codestream::prelude_of(options.separate_alpha->0)->Ok_0;
    ParsedModel {
        codestream_range: stored(primary.len() as int, options).codestream_range,
        headers: main.0,
        directory: main.1,
        separate_alpha_headers: match options.separate_alpha {
            Some(_) => Some(alpha.0),
            None => None,
        },
        separate_alpha_directory: match options.separate_alpha {
            Some(_) => Some(alpha.1),
            None => None,
        },
        annex_a: Some(stored(primary.len() as int, options)),
    }
}

/// Writing fails only for the reasons that can be seen before anything is written: contents that
/// do not go into a container, a size that it cannot represent, and a known pixel format that
/// the codestreams do not have.  Whatever is written can be parsed, and then says of its
/// codestreams what they say by themselves.
pub proof fn lemma_written_parses(primary: Seq<u8>, options: OptionsModel)
    requires
        options.pixel_format_guid.len() == 16,
        writer::options_error(primary, options) is None,
        writer::layout_overflow(primary.len() as int, options) is None,
    ensures
        ({
            let file = writer::container_bytes(primary, options);
            let model = written_model(primary, options);
            match pixel_format::pixel_format_disagreement(model) {
                Some(field) => codestream::parsed_of(file) == Err::<ParsedModel, NativeError>(
                    NativeError::InvalidSyntax { field },
                ) && writer::written(primary, options) == Err::<Seq<u8>, NativeError>(
                    NativeError::InvalidSyntax { field },
                ),
                None => codestream::parsed_of(file) == Ok::<ParsedModel, NativeError>(model)
                    && writer::written(primary, options) == Ok::<Seq<u8>, NativeError>(file),
            }
        }),
{
    let file = writer::container_bytes(primary, options);
    lemma_container_round_trip(primary, options);
    lemma_directory(primary, options);
    assert(!codestream::has_raw_signature(file)) by {
        if codestream::has_raw_signature(file) {
            assert(file.take(8)[0] == codestream::RAW_SIGNATURE@[0]);
            assert(file[0] == 0x49);
        }
    }
}

} // verus!

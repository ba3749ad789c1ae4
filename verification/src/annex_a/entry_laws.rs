//! What the entries of a container stand for, stated over the places of their bytes.

use super::{annex_a_of, entries_at, find, unsorted_at, DirectoryEntry};
use std::ops::Range;
use vstd::prelude::*;

verus! {

/// The number of two bytes from a place on, the first one counting least.
pub open spec fn pair(bytes: Seq<u8>, place: int) -> int {
    bytes[place] + 256 * bytes[place + 1]
}

/// The number of four bytes from a place on, the first one counting least.
pub open spec fn quad(bytes: Seq<u8>, place: int) -> int {
    pair(bytes, place) + 0x1_0000 * pair(bytes, place + 2)
}

/// Where an entry of the first directory starts: twelve bytes each, behind their count.
pub open spec fn entry_place(bytes: Seq<u8>, index: int) -> int {
    quad(bytes, 4) + 2 + 12 * index
}

/// The tag of an entry.
pub open spec fn tag_at(bytes: Seq<u8>, index: int) -> int {
    pair(bytes, entry_place(bytes, index))
}

/// The type of the elements of an entry.
pub open spec fn type_at(bytes: Seq<u8>, index: int) -> int {
    pair(bytes, entry_place(bytes, index) + 2)
}

/// The number of elements of an entry.
pub open spec fn count_at(bytes: Seq<u8>, index: int) -> int {
    quad(bytes, entry_place(bytes, index) + 4)
}

/// The last four bytes of an entry.
pub open spec fn value_at(bytes: Seq<u8>, index: int) -> int {
    quad(bytes, entry_place(bytes, index) + 8)
}

/// The single number of an entry: one, two or four bytes.
pub open spec fn number_at(bytes: Seq<u8>, index: int) -> int {
    let place = entry_place(bytes, index) + 8;
    if type_at(bytes, index) == 1 {
        bytes[place] as int
    } else if type_at(bytes, index) == 3 {
        pair(bytes, place)
    } else {
        quad(bytes, place)
    }
}

/// The bytes of an element of a type.
pub open spec fn bytes_of_element(kind: int) -> int {
    if kind == 3 || kind == 8 {
        2
    } else if kind == 4 || kind == 9 || kind == 11 {
        4
    } else if kind == 5 || kind == 10 || kind == 12 {
        8
    } else {
        1
    }
}

/// Whether a codestream ends where its byte count says; an even count may reach one byte beyond the
/// file.
pub open spec fn ends(range: Range<usize>, count: int, file: int) -> bool {
    ||| range.end == range.start + count
    ||| range.end == file && range.end + 1 == range.start + count && count % 2 == 0
}

proof fn lemma_tags_rise(entries: Seq<DirectoryEntry>, count: int)
    requires
        forall|index: int| !unsorted_at(entries, index),
        0 <= count <= entries.len(),
    ensures
        forall|left: int, right: int|
            0 <= left < right < count ==> entries[left].tag < entries[right].tag,
    decreases count,
{
    if count > 1 {
        lemma_tags_rise(entries, count - 1);
        assert(!unsorted_at(entries, count - 1));
    }
}

proof fn lemma_entry_is_found(entries: Seq<DirectoryEntry>, index: int)
    requires
        forall|left: int, right: int|
            0 <= left < right < entries.len() ==> entries[left].tag < entries[right].tag,
        0 <= index < entries.len(),
    ensures
        find(entries, entries[index].tag) == Some(entries[index]),
    decreases entries.len(),
{
    if index > 0 {
        let rest = entries.drop_first();
        lemma_entry_is_found(rest, index - 1);
        assert(rest[index - 1] == entries[index]);
    }
}

proof fn lemma_nothing_is_found(entries: Seq<DirectoryEntry>, tag: u16)
    requires
        forall|index: int| 0 <= index < entries.len() ==> (#[trigger] entries[index]).tag != tag,
    ensures
        find(entries, tag) is None,
    decreases entries.len(),
{
    if entries.len() > 0 {
        let rest = entries.drop_first();
        assert forall|index: int| 0 <= index < rest.len() implies (#[trigger] rest[index]).tag
            != tag by {
            assert(rest[index] == entries[index + 1]);
        }
        lemma_nothing_is_found(rest, tag);
    }
}

proof fn lemma_entry_bytes(bytes: Seq<u8>, index: int)
    requires
        bytes.len() >= 8,
    ensures
        ({
            let entry = super::entry_at(bytes, quad(bytes, 4) + 2, index);
            &&& super::le32(bytes, 4) == quad(bytes, 4)
            &&& entry.tag == tag_at(bytes, index)
            &&& entry.element_type == type_at(bytes, index)
            &&& entry.count == count_at(bytes, index)
            &&& entry.value == value_at(bytes, index)
            &&& entry.element_type == 1 ==> entry.value % 0x100 == number_at(bytes, index)
            &&& entry.element_type == 3 ==> entry.value % 0x1_0000 == number_at(bytes, index)
            &&& entry.element_type == 4 ==> entry.value == number_at(bytes, index)
        }),
{
}

/// An entry says what its tag stands for: the dimensions, where the codestreams start and how many
/// bytes they have, and the identifier, orientation, resolutions and profile of the image.
pub proof fn lemma_entries_are_read(bytes: Seq<u8>, index: int)
    requires
        bytes.len() <= usize::MAX,
        annex_a_of(bytes) is Ok,
        0 <= index < pair(bytes, quad(bytes, 4)),
    ensures
        ({
            let image = annex_a_of(bytes)->Ok_0;
            let tag = tag_at(bytes, index);
            let number = number_at(bytes, index);
            let value = value_at(bytes, index);
            let count = count_at(bytes, index);
            let kind = type_at(bytes, index);
            &&& bytes.take(4) == seq![0x49u8, 0x49u8, 0xBCu8, 0x01u8]
            &&& tag == 0xBC80 ==> image.width == number && count == 1
            &&& tag == 0xBC81 ==> image.height == number && count == 1
            &&& tag == 0xBCC0 ==> image.codestream_range.start == number && count == 1
            &&& tag == 0xBCC1 && number > 0 ==> ends(
                image.codestream_range,
                number,
                bytes.len() as int,
            )
            &&& tag == 0xBCC1 && number == 0 ==> image.codestream_range.end == bytes.len()
            &&& tag == 0xBCC2 ==> (image.alpha_range matches Some(range) ==> range.start == number)
            &&& tag == 0xBCC2 && number > 0 ==> image.alpha_range is Some
            &&& tag == 0xBCC3 ==> (image.alpha_range matches Some(range) ==> ends(
                range,
                number,
                bytes.len() as int,
            ))
            &&& tag == 0xBC01 ==> image.pixel_format_guid == bytes.subrange(value, value + 16)
                && count == 16 && kind == 1
            &&& tag == 0xBC02 ==> (image.metadata.transformation matches Some(given) && given
                == number)
            &&& tag == 0xBC82 ==> (image.metadata.resolution_dpi_bits matches Some(given)
                && given[0] == value && kind == 11)
            &&& tag == 0xBC83 ==> (image.metadata.resolution_dpi_bits matches Some(given)
                && given[1] == value && kind == 11)
            &&& tag == 0x8773 ==> (image.metadata.icc_profile_range matches Some(range)
                && range.start == value && range.end == value + count * bytes_of_element(kind))
        }),
{
    assert(bytes.take(4) =~= seq![0x49u8, 0x49u8, 0xBCu8, 0x01u8]);
    let directory = quad(bytes, 4);
    lemma_entry_bytes(bytes, index);
    let entries = entries_at(bytes, directory);
    assert(super::le16(bytes, directory) == pair(bytes, directory));
    assert(entries[index] == super::entry_at(bytes, directory + 2, index));
    lemma_tags_rise(entries, entries.len() as int);
    lemma_entry_is_found(entries, index);
    let entry = entries[index];
    if let Some(size) = super::size_of_element(entry.element_type) {
        assert(size == bytes_of_element(entry.element_type as int));
        assert(size * entry.count == entry.count * bytes_of_element(entry.element_type as int))
            by (nonlinear_arith)
            requires
                size == bytes_of_element(entry.element_type as int),
        ;
    }
}

/// What no entry speaks of is not there.
pub proof fn lemma_missing_entries_say_nothing(bytes: Seq<u8>, tag: u16)
    requires
        annex_a_of(bytes) is Ok,
        forall|index: int|
            0 <= index < pair(bytes, quad(bytes, 4)) ==> #[trigger] tag_at(bytes, index) != tag,
    ensures
        ({
            let image = annex_a_of(bytes)->Ok_0;
            &&& tag != 0xBC80 && tag != 0xBC81 && tag != 0xBCC0 && tag != 0xBCC1 && tag != 0xBC01
            &&& tag == 0xBCC2 || tag == 0xBCC3 ==> image.alpha_range is None
            &&& tag == 0xBC02 ==> image.metadata.transformation is None
            &&& tag == 0xBC82 || tag == 0xBC83 ==> image.metadata.resolution_dpi_bits is None
            &&& tag == 0x8773 ==> image.metadata.icc_profile_range is None
        }),
{
    let directory = quad(bytes, 4);
    let entries = entries_at(bytes, directory);
    assert(super::le32(bytes, 4) == directory);
    assert(super::le16(bytes, directory) == pair(bytes, directory));
    assert forall|index: int| 0 <= index < entries.len() implies (#[trigger] entries[index]).tag
        != tag by {
        lemma_entry_bytes(bytes, index);
        assert(tag_at(bytes, index) != tag);
    }
    lemma_nothing_is_found(entries, tag);
}

} // verus!

//! Laws of the syntax between image headers and tile packets, stated over the places of its bytes.

use crate::header::types::HeadersModel;
use crate::tail::{directory_of, tile_total, BytePlace, DirectoryModel, ProfileLevel};
use vstd::prelude::*;

verus! {

/// The number that two bytes from a place on write, the first one counting most.
pub open spec fn pair(bytes: Seq<u8>, place: int) -> int {
    bytes[place] * 256 + bytes[place + 1]
}

/// The number that four bytes from a place on write, the first one counting most.
pub open spec fn quad(bytes: Seq<u8>, place: int) -> int {
    pair(bytes, place) * 0x1_0000 + pair(bytes, place + 2)
}

/// Whether the bytes from one place up to another one write a number of variable length: two bytes
/// on their own, four behind a mark, eight behind another mark, or one of three marks for none.
pub open spec fn writes(bytes: Seq<u8>, from: int, to: int, value: int) -> bool {
    &&& 0 <= from < to <= bytes.len()
    &&& if bytes[from] <= 0xFA {
        to == from + 2 && value == pair(bytes, from)
    } else if bytes[from] == 0xFB {
        to == from + 5 && value == quad(bytes, from + 1)
    } else if bytes[from] == 0xFC {
        to == from + 9 && value == quad(bytes, from + 1) * 0x1_0000_0000 + quad(bytes, from + 5)
    } else {
        to == from + 1 && value == 0
    }
}

/// Whether bytes write offsets one behind the other, each between two places.
pub open spec fn writes_offsets(bytes: Seq<u8>, places: Seq<int>, offsets: Seq<u64>) -> bool {
    &&& places.len() == offsets.len() + 1
    &&& forall|index: int|
        0 <= index < offsets.len() ==> writes(
            bytes,
            #[trigger] places[index],
            places[index + 1],
            offsets[index] as int,
        )
}

/// Whether the bytes from a place on write profiles and levels, four bytes each, of which the last
/// one is one in the last record and zero in the others.
pub open spec fn writes_profiles(bytes: Seq<u8>, from: int, profiles: Seq<ProfileLevel>) -> bool {
    forall|index: int|
        0 <= index < profiles.len() ==> {
            &&& bytes[from + 4 * index] == (#[trigger] profiles[index]).profile_idc
            &&& bytes[from + 4 * index + 1] == profiles[index].level_idc
            &&& bytes[from + 4 * index + 2] == 0
            &&& bytes[from + 4 * index + 3] == (if index == profiles.len() - 1 {
                1int
            } else {
                0int
            })
        }
}

proof fn lemma_number_is_read(bytes: Seq<u8>, from: int, to: int, value: int)
    requires
        writes(bytes, from, to, value),
        bytes.len() <= usize::MAX,
    ensures
        (BytePlace { bytes, position: from as usize, error: None }).read_vlw() == (
            value as u64,
            BytePlace { bytes, position: to as usize, error: None },
        ),
        0 <= value <= u64::MAX,
{
    reveal_with_fuel(BytePlace::read_number, 9);
    let place = BytePlace { bytes, position: from as usize, error: None };
    if bytes[from] == 0xFB {
        let start = place.read_u8().1;
        assert(start.read_number(4).0 == quad(bytes, from + 1));
    } else if bytes[from] == 0xFC {
        let start = place.read_u8().1;
        assert(start.read_number(4).0 == quad(bytes, from + 1));
        assert(start.read_number(8).0 == value);
        assert(value <= u64::MAX);
    }
}

proof fn lemma_offsets_are_read(bytes: Seq<u8>, places: Seq<int>, offsets: Seq<u64>, count: nat)
    requires
        writes_offsets(bytes, places, offsets),
        0 <= places[0] <= bytes.len() <= usize::MAX,
        count <= offsets.len(),
    ensures
        (BytePlace { bytes, position: places[0] as usize, error: None }).read_offsets(count) == (
            offsets.take(count as int),
            BytePlace { bytes, position: places[count as int] as usize, error: None },
        ),
    decreases count,
{
    if count == 0 {
        assert(offsets.take(0) =~= Seq::<u64>::empty());
    } else {
        let before = (count - 1) as nat;
        lemma_offsets_are_read(bytes, places, offsets, before);
        assert(writes(bytes, places[count - 1], places[count as int], offsets[count - 1] as int));
        lemma_number_is_read(
            bytes,
            places[count - 1],
            places[count as int],
            offsets[count - 1] as int,
        );
        assert(offsets.take(before as int).push(offsets[count - 1]) =~= offsets.take(count as int));
    }
}

proof fn lemma_profiles_are_read(
    bytes: Seq<u8>,
    from: int,
    end: usize,
    profiles: Seq<ProfileLevel>,
    index: int,
)
    requires
        writes_profiles(bytes, from, profiles),
        0 <= index < profiles.len(),
        0 <= from,
        from + 4 * profiles.len() <= end <= bytes.len() <= usize::MAX,
    ensures
        (BytePlace { bytes, position: (from + 4 * index) as usize, error: None }).read_profiles(
            end,
            profiles.take(index),
        ) == (
            profiles,
            BytePlace {
                bytes,
                position: (from + 4 * profiles.len()) as usize,
                error: None,
            },
        ),
    decreases profiles.len() - index,
{
    reveal_with_fuel(BytePlace::read_number, 3);
    let place = BytePlace { bytes, position: (from + 4 * index) as usize, error: None };
    let record = profiles[index];
    assert(bytes[from + 4 * index] == record.profile_idc);
    let marks = place.read_u8().1.read_u8().1.read_number(2);
    assert(marks.0 == (if index == profiles.len() - 1 {
        1nat
    } else {
        0nat
    }));
    assert(marks.1 == (BytePlace {
        bytes,
        position: (from + 4 * (index + 1)) as usize,
        error: None,
    }));
    assert(profiles.take(index).push(record) =~= profiles.take(index + 1));
    if index < profiles.len() - 1 {
        lemma_profiles_are_read(bytes, from, end, profiles, index + 1);
    } else {
        assert(profiles.take(index + 1) =~= profiles);
    }
}

/// What bytes write behind the headers is read: with an index, two bytes that write one and then
/// the offsets, one for every tile, or for every tile and coded band if the bands are apart; then
/// the length of an area, and in the area, if it has a length, the profiles and levels. The tile
/// packets start behind the area.
pub proof fn lemma_directory_is_read(
    bytes: Seq<u8>,
    headers: HeadersModel,
    places: Seq<int>,
    offsets: Seq<u64>,
    area: int,
    length: int,
    profiles: Seq<ProfileLevel>,
)
    requires
        bytes.len() <= usize::MAX,
        headers.primary.bands_present <= 3,
        offsets.len() <= usize::MAX,
        headers.image.flags.flag(2) ==> {
            &&& places[0] == headers.bytes_consumed + 2
            &&& places[0] <= bytes.len()
            &&& pair(bytes, headers.bytes_consumed as int) == 1
            &&& writes_offsets(bytes, places, offsets)
            &&& offsets.len() == (headers.image.tile_widths_mb.len() + 1) * (
            headers.image.tile_heights_mb.len() + 1) * (if headers.image.flags.flag(1) {
                4 - headers.primary.bands_present
            } else {
                1
            })
        },
        !headers.image.flags.flag(2) ==> {
            &&& !headers.image.flags.flag(1)
            &&& headers.image.tile_widths_mb.len() == 0
            &&& headers.image.tile_heights_mb.len() == 0
            &&& offsets.len() == 0
            &&& places =~= seq![headers.bytes_consumed as int]
        },
        writes(bytes, places[offsets.len() as int], area, length),
        area + length <= bytes.len(),
        length == 0 ==> profiles.len() == 0,
        length > 0 ==> 1 <= profiles.len() && 4 * profiles.len() <= length,
        writes_profiles(bytes, area, profiles),
    ensures
        directory_of(bytes, headers) == Ok::<_, crate::error::NativeError>(
            DirectoryModel {
                tile_offsets: offsets,
                profiles,
                tile_data_offset: (area + length) as usize,
            },
        ),
{
    let columns = headers.image.tile_widths_mb.len() as int + 1;
    let rows = headers.image.tile_heights_mb.len() as int + 1;
    let start = BytePlace { bytes, position: headers.bytes_consumed, error: None };
    let indexed = BytePlace { bytes, position: places[offsets.len() as int] as usize, error: None };
    if headers.image.flags.flag(2) {
        let bands: int = if headers.image.flags.flag(1) {
            4 - headers.primary.bands_present
        } else {
            1
        };
        assert(columns * rows <= columns * rows * bands) by (nonlinear_arith)
            requires
                columns >= 1,
                rows >= 1,
                bands >= 1,
        ;
        assert(tile_total(headers) <= usize::MAX);
        reveal_with_fuel(BytePlace::read_number, 3);
        assert(start.read_number(2) == (
            1nat,
            BytePlace { bytes, position: places[0] as usize, error: None },
        ));
        lemma_offsets_are_read(bytes, places, offsets, offsets.len());
        assert(offsets.take(offsets.len() as int) =~= offsets);
        assert(start.read_index(headers) == (offsets, indexed));
    } else {
        assert(columns * rows == 1) by (nonlinear_arith)
            requires
                columns == 1,
                rows == 1,
        ;
        assert(tile_total(headers) == 1);
        assert(offsets =~= Seq::<u64>::empty());
    }
    lemma_number_is_read(bytes, places[offsets.len() as int], area, length);
    let ready = BytePlace { bytes, position: area as usize, error: None };
    if length > 0 {
        lemma_profiles_are_read(bytes, area, (area + length) as usize, profiles, 0);
        assert(profiles.take(0) =~= Seq::<ProfileLevel>::empty());
    } else {
        assert(profiles =~= Seq::<ProfileLevel>::empty());
    }
    assert(ready.read_profile_area(length as usize) == (
        profiles,
        BytePlace { bytes, position: (area + length) as usize, error: None },
    ));
}

proof fn lemma_pair_is_read(place: BytePlace)
    requires
        place.error is None,
        place.bytes.len() <= usize::MAX,
    ensures
        place.read_number(2).1.error is None ==> place.position + 2 <= place.bytes.len()
            && place.read_number(2).0 == pair(place.bytes, place.position as int),
{
    reveal_with_fuel(BytePlace::read_number, 3);
}

proof fn lemma_errors_stay(place: BytePlace)
    requires
        place.error is Some,
    ensures
        place.read_vlw().1.error is Some,
{
    reveal_with_fuel(BytePlace::read_number, 9);
}

/// Bytes are read only where the headers end within them, where an index is there if there is more
/// than one packet, and where an index starts with two bytes that write one.
pub proof fn lemma_directory_needs_its_marks(bytes: Seq<u8>, headers: HeadersModel)
    requires
        bytes.len() <= usize::MAX,
        directory_of(bytes, headers) is Ok,
    ensures
        headers.bytes_consumed <= bytes.len(),
        headers.image.flags.flag(1) || headers.image.tile_widths_mb.len() > 0
            || headers.image.tile_heights_mb.len() > 0 ==> headers.image.flags.flag(2),
        headers.image.flags.flag(2) ==> headers.bytes_consumed + 2 <= bytes.len() && pair(
            bytes,
            headers.bytes_consumed as int,
        ) == 1,
{
    let columns = headers.image.tile_widths_mb.len() as int + 1;
    let rows = headers.image.tile_heights_mb.len() as int + 1;
    assert(columns * rows >= columns && columns * rows >= rows) by (nonlinear_arith)
        requires
            columns >= 1,
            rows >= 1,
    ;
    let start = BytePlace { bytes, position: headers.bytes_consumed, error: None };
    if headers.image.flags.flag(2) && headers.bytes_consumed <= bytes.len() {
        lemma_pair_is_read(start);
        let code = start.read_number(2);
        if code.1.error is Some || code.0 != 1 {
            lemma_errors_stay(start.read_index(headers).1);
        }
    }
}

} // verus!

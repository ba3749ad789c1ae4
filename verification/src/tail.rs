//! Tile index and profile-level syntax between image headers and tile packets.

use crate::error::NativeError;
use crate::header::types::HeadersModel;
use crate::header::ParsedHeaders;
use vstd::prelude::*;

verus! {

/// One declared JPEG XR profile and level pair.
#[derive(Clone, Copy, Debug, PartialEq, Eq, Structural)]
pub struct ProfileLevel {
    /// Profile identifier.
    pub profile_idc: u8,
    /// Level identifier.
    pub level_idc: u8,
}

/// Parsed syntax locating coded tile packets.
#[derive(Debug, PartialEq, Eq)]
pub struct CodestreamDirectory {
    /// Tile packet offsets in index order.
    pub tile_offsets: Vec<u64>,
    /// Declared profile-level pairs; empty means Advanced/255 is inferred.
    pub profiles: Vec<ProfileLevel>,
    /// Byte offset of the first coded tile packet.
    pub tile_data_offset: usize,
}

/// What the syntax between the headers and the tile packets says.
pub struct DirectoryModel {
    /// Tile packet offsets in index order.
    pub tile_offsets: Seq<u64>,
    /// Declared profile-level pairs.
    pub profiles: Seq<ProfileLevel>,
    /// Byte offset of the first coded tile packet.
    pub tile_data_offset: usize,
}

impl View for CodestreamDirectory {
    type V = DirectoryModel;

    open spec fn view(&self) -> DirectoryModel {
        DirectoryModel {
            tile_offsets: self.tile_offsets@,
            profiles: self.profiles@,
            tile_data_offset: self.tile_data_offset,
        }
    }
}

impl Clone for CodestreamDirectory {
    fn clone(&self) -> (directory: Self)
        ensures
            directory@ == self@,
    {
        let directory = CodestreamDirectory {
            tile_offsets: self.tile_offsets.clone(),
            profiles: self.profiles.clone(),
            tile_data_offset: self.tile_data_offset,
        };
        assert(directory.tile_offsets@ =~= self.tile_offsets@);
        assert(directory.profiles@ =~= self.profiles@);
        directory
    }
}

/// A place in a byte sequence, together with the first error met on the way there.
///
/// Reading from a place that holds an error changes nothing and gives zero.
pub struct BytePlace {
    /// The bytes.
    pub bytes: Seq<u8>,
    /// The offset of the next byte to read.
    pub position: usize,
    /// The first error, if any.
    pub error: Option<NativeError>,
}

/// A bit offset, capped at the largest `usize`.
pub open spec fn capped_bit_offset(position: usize) -> usize {
    if position * 8 > usize::MAX {
        usize::MAX
    } else {
        (position * 8) as usize
    }
}

impl BytePlace {
    /// The same place with an error, unless it holds one already.
    pub open spec fn fail(self, error: NativeError) -> BytePlace {
        if self.error is Some {
            self
        } else {
            BytePlace { bytes: self.bytes, position: self.position, error: Some(error) }
        }
    }

    /// The same place if `holds`, and otherwise the place with the error.
    pub open spec fn require(self, holds: bool, error: NativeError) -> BytePlace {
        if holds {
            self
        } else {
            self.fail(error)
        }
    }

    /// The same place, free of errors.
    pub open spec fn cleared(self) -> BytePlace {
        BytePlace { bytes: self.bytes, position: self.position, error: None }
    }

    /// The same bytes at another position, unless there was an error.
    pub open spec fn moved(self, position: usize) -> BytePlace {
        if self.error is Some {
            self
        } else {
            BytePlace { bytes: self.bytes, position, error: None }
        }
    }

    /// Whether a result says what the place says: an error if and only if it holds that error.
    pub open spec fn agrees<T>(self, result: Result<T, NativeError>) -> bool {
        match result {
            Ok(_) => self.error is None,
            Err(error) => self.error == Some(error),
        }
    }

    /// Success with `value`, or the error that the place holds.
    pub open spec fn outcome<T>(self, value: T) -> Result<T, NativeError> {
        match self.error {
            Some(error) => Err(error),
            None => Ok(value),
        }
    }

    /// Reads one byte.
    pub open spec fn read_u8(self) -> (u8, BytePlace) {
        if self.error is Some {
            (0, self)
        } else if self.position >= self.bytes.len() {
            (
                0,
                self.fail(
                    NativeError::Truncated {
                        bit_position: capped_bit_offset(self.position),
                        requested_bits: 8,
                    },
                ),
            )
        } else {
            (self.bytes[self.position as int], self.moved((self.position + 1) as usize))
        }
    }

    /// Reads `count` bytes as one number; an error comes from the first byte that is missing.
    pub open spec fn read_number(self, count: nat) -> (nat, BytePlace)
        decreases count,
    {
        if count == 0 {
            (0, self)
        } else {
            let (high, next) = self.read_number((count - 1) as nat);
            let (low, next) = next.read_u8();
            (256 * high + low as nat, next)
        }
    }

    /// Reads a number of variable length: two bytes up to 0xFAFF, four after 0xFB, eight after
    /// 0xFC, and zero for 0xFD through 0xFF.
    pub open spec fn read_vlw(self) -> (u64, BytePlace) {
        let (first, next) = self.read_u8();
        if first <= 0xFA {
            let (second, next) = next.read_u8();
            ((first * 256 + second) as u64, next)
        } else if first == 0xFB {
            let (value, next) = next.read_number(4);
            (value as u64, next)
        } else if first == 0xFC {
            let (value, next) = next.read_number(8);
            (value as u64, next)
        } else {
            (0, next)
        }
    }

    /// Reads `count` numbers of variable length.
    pub open spec fn read_offsets(self, count: nat) -> (Seq<u64>, BytePlace)
        decreases count,
    {
        if count == 0 {
            (Seq::empty(), self)
        } else {
            let (offsets, next) = self.read_offsets((count - 1) as nat);
            let (offset, next) = next.read_vlw();
            (offsets.push(offset), next)
        }
    }
}

/// Bytewise reader over the syntax that follows the headers.
pub struct ByteCursor<'a> {
    bytes: &'a [u8],
    position: usize,
}

impl<'a> View for ByteCursor<'a> {
    type V = BytePlace;

    closed spec fn view(&self) -> BytePlace {
        BytePlace { bytes: self.bytes@, position: self.position, error: None }
    }
}

/// The error of a place beyond the input.
pub open spec fn position_error(position: usize, length: int) -> NativeError {
    NativeError::RangeOutsideInput {
        field: "codestream syntax",
        offset: position,
        length: 0,
        input_length: length as usize,
    }
}

impl<'a> ByteCursor<'a> {
    /// Creates a cursor at a position that may be the end of the bytes but not beyond.
    pub fn new(bytes: &'a [u8], position: usize) -> (result: Result<Self, NativeError>)
        ensures
            match result {
                Ok(cursor) => position <= bytes@.len() && cursor@ == (BytePlace {
                    bytes: bytes@,
                    position,
                    error: None,
                }),
                Err(error) => position > bytes@.len() && error == position_error(
                    position,
                    bytes@.len() as int,
                ),
            },
    {
        let cursor = ByteCursor { bytes, position };
        cursor.require_position(position)?;
        Ok(cursor)
    }

    /// Returns the position of the next byte.
    pub fn position(&self) -> (position: usize)
        ensures
            position == self@.position,
    {
        self.position
    }

    /// Moves to another position.
    pub fn set_position(&mut self, position: usize)
        ensures
            final(self)@ == (BytePlace { bytes: old(self)@.bytes, position, error: None }),
    {
        self.position = position;
    }

    /// Requires a position that is not beyond the end of the bytes.
    pub fn require_position(&self, position: usize) -> (result: Result<(), NativeError>)
        ensures
            result == (if position <= self@.bytes.len() {
                Ok::<(), NativeError>(())
            } else {
                Err(position_error(position, self@.bytes.len() as int))
            }),
    {
        if position <= self.bytes.len() {
            Ok(())
        } else {
            Err(
                NativeError::RangeOutsideInput {
                    field: "codestream syntax",
                    offset: position,
                    length: 0,
                    input_length: self.bytes.len(),
                },
            )
        }
    }

    /// Reads one byte.
    pub fn read_u8(&mut self) -> (result: Result<u8, NativeError>)
        ensures
            old(self)@.error is None,
            result == old(self)@.read_u8().1.outcome(old(self)@.read_u8().0),
            final(self)@ == old(self)@.read_u8().1.cleared(),
    {
        if self.position >= self.bytes.len() {
            let bit_position: usize = match self.position.checked_mul(8) {
                Some(bit_position) => bit_position,
                None => usize::MAX,
            };
            return Err(NativeError::Truncated { bit_position, requested_bits: 8 });
        }
        let value: u8 = self.bytes[self.position];
        self.position = self.position + 1;
        Ok(value)
    }

    /// Reads a number of at most eight bytes.
    fn read_number(&mut self, count: usize) -> (result: Result<u64, NativeError>)
        requires
            count <= 8,
        ensures
            old(self)@.error is None,
            result == old(self)@.read_number(count as nat).1.outcome(
                old(self)@.read_number(count as nat).0 as u64,
            ),
            final(self)@ == old(self)@.read_number(count as nat).1.cleared(),
            result matches Ok(value) ==> value == old(self)@.read_number(count as nat).0,
    {
        let mut value: u64 = 0;
        proof {
            vstd::arithmetic::power2::lemma2_to64();
        }
        for k in 0..count
            invariant
                count <= 8,
                old(self)@.error is None,
                self@ == old(self)@.read_number(k as nat).1,
                self@.error is None,
                value == old(self)@.read_number(k as nat).0,
                value < vstd::arithmetic::power2::pow2((8 * k) as nat),
        {
            proof {
                assert(old(self)@.read_number(k as nat + 1).1 == old(self)@.read_number(
                    k as nat,
                ).1.read_u8().1);
                if old(self)@.read_number(k as nat + 1).1.error is Some {
                    lemma_number_stop(old(self)@, k as nat + 1, count as nat);
                }
                vstd::arithmetic::power2::lemma_pow2_adds((8 * k) as nat, 8);
                vstd::arithmetic::power2::lemma2_to64();
                vstd::arithmetic::power2::lemma2_to64_rest();
                assert(8 * k + 8 == 8 * (k + 1));
                if k < 7 {
                    vstd::arithmetic::power2::lemma_pow2_strictly_increases(
                        (8 * k + 8) as nat,
                        64,
                    );
                }
                assert(256 * value + 255 < 256 * vstd::arithmetic::power2::pow2((8 * k) as nat));
            }
            let low: u8 = self.read_u8()?;
            value = 256 * value + low as u64;
        }
        Ok(value)
    }

    /// Reads a big-endian 16-bit number.
    pub fn read_u16(&mut self) -> (result: Result<u16, NativeError>)
        ensures
            result == old(self)@.read_number(2).1.outcome(old(self)@.read_number(2).0 as u16),
            final(self)@ == old(self)@.read_number(2).1.cleared(),
    {
        proof {
            reveal_with_fuel(BytePlace::read_number, 3);
        }
        let high: u8 = self.read_u8()?;
        let low: u8 = self.read_u8()?;
        Ok(high as u16 * 256 + low as u16)
    }

    /// Reads a number of variable length.
    pub fn read_vlw(&mut self) -> (result: Result<u64, NativeError>)
        ensures
            old(self)@.error is None,
            result == old(self)@.read_vlw().1.outcome(old(self)@.read_vlw().0),
            final(self)@ == old(self)@.read_vlw().1.cleared(),
    {
        let first: u8 = self.read_u8()?;
        if first <= 0xFA {
            let second: u8 = self.read_u8()?;
            Ok(first as u64 * 256 + second as u64)
        } else if first == 0xFB {
            self.read_number(4)
        } else if first == 0xFC {
            self.read_number(8)
        } else {
            Ok(0)
        }
    }
}

/// Once a byte cannot be read, no later one can.
proof fn lemma_number_stop(place: BytePlace, some: nat, all: nat)
    requires
        some <= all,
        place.read_number(some).1.error is Some,
    ensures
        place.read_number(all).1 == place.read_number(some).1,
    decreases all,
{
    if some < all {
        lemma_number_stop(place, some, (all - 1) as nat);
    }
}

/// Once a number cannot be read, no later one can.
proof fn lemma_offsets_stop(place: BytePlace, some: nat, all: nat)
    requires
        some <= all,
        place.read_offsets(some).1.error is Some,
    ensures
        place.read_offsets(all).1 == place.read_offsets(some).1,
    decreases all,
{
    if some < all {
        lemma_offsets_stop(place, some, (all - 1) as nat);
    }
}

/// The number of tiles that the explicit tile sizes announce.
pub open spec fn tile_total(headers: HeadersModel) -> int {
    (headers.image.tile_widths_mb.len() as int + 1) * (headers.image.tile_heights_mb.len() as int
        + 1)
}

fn tile_count(headers: &ParsedHeaders) -> (result: Result<usize, NativeError>)
    ensures
        match result {
            Ok(count) => count == tile_total(headers@) && count >= 1,
            Err(error) => tile_total(headers@) > usize::MAX && error == (
            NativeError::IntegerOverflow { operation: "computing tile count" }),
        },
{
    let columns: usize = headers.image.tile_widths_mb.len();
    let rows: usize = headers.image.tile_heights_mb.len();
    proof {
        assert((columns + 1) * (rows + 1) >= columns + 1 && (columns + 1) * (rows + 1) >= rows + 1)
            by (nonlinear_arith);
    }
    match columns.checked_add(1) {
        Some(columns) => match rows.checked_add(1) {
            Some(rows) => match columns.checked_mul(rows) {
                Some(count) => Ok(count),
                None => Err(NativeError::IntegerOverflow { operation: "computing tile count" }),
            },
            None => Err(NativeError::IntegerOverflow { operation: "computing tile count" }),
        },
        None => Err(NativeError::IntegerOverflow { operation: "computing tile count" }),
    }
}

/// The number of packets that a tile is split into.
pub open spec fn packet_bands(headers: HeadersModel) -> int {
    if headers.image.flags.flag(1) {
        if headers.primary.bands_present > 4 {
            0
        } else {
            4 - headers.primary.bands_present
        }
    } else {
        1
    }
}

impl BytePlace {
    /// Reads the tile index.
    pub open spec fn read_index(self, headers: HeadersModel) -> (Seq<u64>, BytePlace) {
        let (start_code, next) = self.read_number(2);
        let next = next.require(
            start_code == 1,
            NativeError::ReservedValue {
                field: "INDEX_TABLE_STARTCODE",
                value: start_code as u64,
            },
        );
        let count = tile_total(headers) * packet_bands(headers);
        let next = next.require(
            count <= usize::MAX,
            NativeError::IntegerOverflow { operation: "computing tile index entry count" },
        );
        if next.error is Some {
            (Seq::empty(), next)
        } else {
            next.read_offsets(count as nat)
        }
    }

    /// Reads profile-level records up to the one that is marked as the last, none of them past
    /// `end`.
    pub open spec fn read_profiles(self, end: usize, profiles: Seq<ProfileLevel>) -> (
        Seq<ProfileLevel>,
        BytePlace,
    )
        decreases end - self.position,
    {
        if self.error is Some {
            (profiles, self)
        } else if self.position + 4 > end {
            (
                profiles,
                self.fail(
                    NativeError::Truncated {
                        bit_position: capped_bit_offset(self.position),
                        requested_bits: 32,
                    },
                ),
            )
        } else {
            let (profile_idc, next) = self.read_u8();
            let (level_idc, next) = next.read_u8();
            let (marks, next) = next.read_number(2);
            let next = next.require(
                marks <= 1,
                NativeError::ReservedValue {
                    field: "PROFILE_LEVEL_INFO reserved bits",
                    value: (marks - marks % 2) as u64,
                },
            );
            let all = profiles.push(ProfileLevel { profile_idc, level_idc });
            if marks == 1 || next.error is Some {
                (all, next)
            } else {
                proof {
                    reveal_with_fuel(BytePlace::read_number, 3);
                }
                next.read_profiles(end, all)
            }
        }
    }

    /// Reads the profile-level records of an area of the given length, and moves behind it.
    pub open spec fn read_profile_area(self, length: usize) -> (Seq<ProfileLevel>, BytePlace) {
        if length == 0 || self.error is Some {
            (Seq::empty(), self)
        } else {
            let end = self.position + length;
            let ready = self.require(
                length >= 4,
                NativeError::ReservedValue { field: "SubsequentBytes", value: length as u64 },
            ).require(
                end <= usize::MAX,
                NativeError::IntegerOverflow { operation: "locating profile-level data" },
            ).require(
                end <= self.bytes.len(),
                position_error(end as usize, self.bytes.len() as int),
            );
            if ready.error is Some {
                (Seq::empty(), ready)
            } else {
                let (profiles, next) = ready.read_profiles(end as usize, Seq::empty());
                (profiles, next.moved(end as usize))
            }
        }
    }
}

/// What the syntax between the headers and the tile packets says, or why it says nothing.
pub open spec fn directory_of(bytes: Seq<u8>, headers: HeadersModel) -> Result<
    DirectoryModel,
    NativeError,
> {
    let start = BytePlace { bytes, position: headers.bytes_consumed, error: None };
    let place = start.require(
        headers.bytes_consumed <= bytes.len(),
        position_error(headers.bytes_consumed, bytes.len() as int),
    ).require(
        tile_total(headers) <= usize::MAX,
        NativeError::IntegerOverflow { operation: "computing tile count" },
    ).require(
        headers.image.flags.flag(2) || (!headers.image.flags.flag(1) && tile_total(headers) <= 1),
        NativeError::ReservedValue { field: "INDEX_TABLE_PRESENT_FLAG", value: 0 },
    );
    let (tile_offsets, place) = if headers.image.flags.flag(2) && place.error is None {
        place.read_index(headers)
    } else {
        (Seq::empty(), place)
    };
    let (subsequent_bytes, place) = place.read_vlw();
    let place = place.require(
        subsequent_bytes <= usize::MAX,
        NativeError::IntegerOverflow { operation: "converting SubsequentBytes" },
    );
    let (profiles, place) = place.read_profile_area(subsequent_bytes as usize);
    place.outcome(DirectoryModel { tile_offsets, profiles, tile_data_offset: place.position })
}

fn parse_index(cursor: &mut ByteCursor<'_>, headers: &ParsedHeaders, tile_count: usize) -> (result:
    Result<Vec<u64>, NativeError>)
    requires
        old(cursor)@.error is None,
        tile_count == tile_total(headers@),
    ensures
        old(cursor)@.read_index(headers@).1.agrees(result),
        result matches Ok(offsets) ==> offsets@ == old(cursor)@.read_index(headers@).0
            && offsets@.len() == tile_count * packet_bands(headers@),
        final(cursor)@ == old(cursor)@.read_index(headers@).1.cleared(),
{
    proof {
        lemma_two_bytes(cursor@);
    }
    let start_code: u16 = cursor.read_u16()?;
    if start_code != 1 {
        return Err(
            NativeError::ReservedValue {
                field: "INDEX_TABLE_STARTCODE",
                value: start_code as u64,
            },
        );
    }
    let bands: usize = if headers.image.flags.frequency_mode() {
        let present: usize = headers.primary.bands_present as usize;
        if present > 4 {
            0
        } else {
            4 - present
        }
    } else {
        1
    };
    let count: usize = match tile_count.checked_mul(bands) {
        Some(count) => count,
        None => {
            return Err(
                NativeError::IntegerOverflow { operation: "computing tile index entry count" },
            );
        },
    };
    let ghost ready = cursor@;
    let mut offsets: Vec<u64> = Vec::new();
    for k in 0..count
        invariant
            ready.error is None,
            cursor@ == ready.read_offsets(k as nat).1,
            cursor@.error is None,
            offsets@ == ready.read_offsets(k as nat).0,
            offsets@.len() == k,
            old(cursor)@.read_index(headers@) == ready.read_offsets(count as nat),
    {
        proof {
            assert(ready.read_offsets(k as nat + 1).1 == ready.read_offsets(
                k as nat,
            ).1.read_vlw().1);
            if ready.read_offsets(k as nat + 1).1.error is Some {
                lemma_offsets_stop(ready, k as nat + 1, count as nat);
            }
        }
        offsets.push(cursor.read_vlw()?);
    }
    Ok(offsets)
}

/// Two bytes hold less than 2^16.
proof fn lemma_two_bytes(place: BytePlace)
    ensures
        place.read_number(2).0 < 0x10000,
{
    reveal_with_fuel(BytePlace::read_number, 3);
}

fn parse_profile_area(cursor: &mut ByteCursor<'_>, subsequent_bytes: usize) -> (result: Result<
    Vec<ProfileLevel>,
    NativeError,
>)
    requires
        old(cursor)@.error is None,
    ensures
        old(cursor)@.read_profile_area(subsequent_bytes).1.agrees(result),
        result matches Ok(profiles) ==> profiles@ == old(cursor)@.read_profile_area(
            subsequent_bytes,
        ).0,
        final(cursor)@.bytes == old(cursor)@.bytes,
        result is Ok ==> final(cursor)@ == old(cursor)@.read_profile_area(subsequent_bytes).1,
{
    if subsequent_bytes == 0 {
        return Ok(Vec::new());
    }
    if subsequent_bytes < 4 {
        return Err(
            NativeError::ReservedValue {
                field: "SubsequentBytes",
                value: subsequent_bytes as u64,
            },
        );
    }
    let end: usize = match cursor.position().checked_add(subsequent_bytes) {
        Some(end) => end,
        None => {
            return Err(NativeError::IntegerOverflow { operation: "locating profile-level data" });
        },
    };
    cursor.require_position(end)?;
    let mut profiles: Vec<ProfileLevel> = Vec::new();
    let ghost whole = cursor@.read_profiles(end, Seq::empty());
    let mut last: bool = false;
    while !last
        invariant
            cursor@.error is None,
            cursor@.bytes == old(cursor)@.bytes,
            !last ==> whole == cursor@.read_profiles(end, profiles@),
            last ==> whole.0 == profiles@ && whole.1 == cursor@,
            old(cursor)@.read_profile_area(subsequent_bytes) == (whole.0, whole.1.moved(end)),
        decreases
            end - cursor@.position,
            if last {
                0int
            } else {
                1int
            },
    {
        let position: usize = cursor.position();
        let past: bool = match position.checked_add(4) {
            Some(next) => next > end,
            None => true,
        };
        if past {
            let bit_position: usize = match position.checked_mul(8) {
                Some(bit_position) => bit_position,
                None => usize::MAX,
            };
            return Err(NativeError::Truncated { bit_position, requested_bits: 32 });
        }
        proof {
            reveal_with_fuel(BytePlace::read_number, 3);
        }
        let profile_idc: u8 = cursor.read_u8()?;
        let level_idc: u8 = cursor.read_u8()?;
        let marks: u16 = cursor.read_u16()?;
        if marks > 1 {
            return Err(
                NativeError::ReservedValue {
                    field: "PROFILE_LEVEL_INFO reserved bits",
                    value: (marks - marks % 2) as u64,
                },
            );
        }
        profiles.push(ProfileLevel { profile_idc, level_idc });
        last = marks == 1;
    }
    cursor.set_position(end);
    Ok(profiles)
}

impl CodestreamDirectory {
    /// Parse the tile index, subsequent-data length, and profile-level records.
    pub fn parse(bytes: &[u8], headers: &ParsedHeaders) -> (result: Result<Self, NativeError>)
        ensures
            match (result, directory_of(bytes@, headers@)) {
                (Ok(directory), Ok(expected)) => directory@ == expected,
                (Err(error), Err(expected)) => error == expected,
                _ => false,
            },
    {
        let mut cursor: ByteCursor<'_> = ByteCursor::new(bytes, headers.bytes_consumed)?;
        let tile_count: usize = tile_count(headers)?;
        let index_required: bool = headers.image.flags.frequency_mode() || tile_count > 1;
        if index_required && !headers.image.flags.index_table_present() {
            return Err(
                NativeError::ReservedValue { field: "INDEX_TABLE_PRESENT_FLAG", value: 0 },
            );
        }
        let tile_offsets: Vec<u64> = if headers.image.flags.index_table_present() {
            parse_index(&mut cursor, headers, tile_count)?
        } else {
            Vec::new()
        };
        let subsequent_bytes: u64 = cursor.read_vlw()?;
        if subsequent_bytes > usize::MAX as u64 {
            return Err(NativeError::IntegerOverflow { operation: "converting SubsequentBytes" });
        }
        let profiles: Vec<ProfileLevel> = parse_profile_area(
            &mut cursor,
            subsequent_bytes as usize,
        )?;
        Ok(CodestreamDirectory { tile_offsets, profiles, tile_data_offset: cursor.position() })
    }
}

/// Reading numbers of variable length stays within the bytes.
proof fn lemma_vlw_in_bounds(place: BytePlace)
    requires
        place.position <= place.bytes.len(),
    ensures
        place.read_vlw().1.bytes == place.bytes,
        place.read_vlw().1.position <= place.bytes.len(),
{
    reveal_with_fuel(BytePlace::read_number, 9);
}

/// Reading offsets stays within the bytes and gives as many offsets as asked for.
proof fn lemma_offsets_in_bounds(place: BytePlace, count: nat)
    requires
        place.position <= place.bytes.len(),
    ensures
        place.read_offsets(count).0.len() == count,
        place.read_offsets(count).1.bytes == place.bytes,
        place.read_offsets(count).1.position <= place.bytes.len(),
    decreases count,
{
    if count > 0 {
        lemma_offsets_in_bounds(place, (count - 1) as nat);
        lemma_vlw_in_bounds(place.read_offsets((count - 1) as nat).1);
    }
}

/// The tile packets start within the codestream, and the tile index names the packets of all
/// tiles or, where there is none, there is one tile.
pub proof fn lemma_directory_in_bounds(bytes: Seq<u8>, headers: HeadersModel)
    requires
        directory_of(bytes, headers) is Ok,
    ensures
        ({
            let directory = directory_of(bytes, headers)->Ok_0;
            &&& directory.tile_data_offset <= bytes.len()
            &&& tile_total(headers) >= 1
            &&& headers.image.flags.flag(2) ==> directory.tile_offsets.len() == tile_total(headers)
                * packet_bands(headers)
            &&& !headers.image.flags.flag(2) ==> directory.tile_offsets.len() == 0 && tile_total(
                headers,
            ) == 1
        }),
{
    let columns = headers.image.tile_widths_mb.len() as int + 1;
    let rows = headers.image.tile_heights_mb.len() as int + 1;
    assert(columns * rows >= 1) by (nonlinear_arith)
        requires
            columns >= 1,
            rows >= 1,
    ;
    let bands = packet_bands(headers);
    assert(tile_total(headers) * bands >= 0) by (nonlinear_arith)
        requires
            tile_total(headers) >= 1,
            bands >= 0,
    ;
    let start = BytePlace { bytes, position: headers.bytes_consumed, error: None };
    assert(start.position <= bytes.len());
    let indexed = if headers.image.flags.flag(2) {
        reveal_with_fuel(BytePlace::read_number, 3);
        lemma_offsets_in_bounds(
            start.read_number(2).1,
            (tile_total(headers) * packet_bands(headers)) as nat,
        );
        start.read_index(headers).1
    } else {
        start
    };
    assert(indexed.bytes == bytes && indexed.position <= bytes.len());
    lemma_vlw_in_bounds(indexed);
}

} // verus!

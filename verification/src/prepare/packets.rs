//! Byte ranges of tile packets.

use crate::types::{ByteRange, JxrError, JxrErrorKind};
use vstd::prelude::*;

verus! {

/// The smallest of the positions behind `start`, if there is one.
pub open spec fn next_after(positions: Seq<usize>, start: usize) -> Option<usize>
    decreases positions.len(),
{
    if positions.len() == 0 {
        None
    } else {
        let last = positions.last();
        match next_after(positions.drop_last(), start) {
            None => if last > start {
                Some(last)
            } else {
                None
            },
            Some(next) => if start < last < next {
                Some(last)
            } else {
                Some(next)
            },
        }
    }
}

/// No position lies between `start` and the next position.
proof fn lemma_next_after(positions: Seq<usize>, start: usize)
    ensures
        match next_after(positions, start) {
            Some(next) => next > start && positions.contains(next) && forall|index: int|
                0 <= index < positions.len() && positions[index] > start ==> positions[index]
                    >= next,
            None => forall|index: int| 0 <= index < positions.len() ==> positions[index] <= start,
        },
    decreases positions.len(),
{
    if positions.len() > 0 {
        let rest = positions.drop_last();
        lemma_next_after(rest, start);
        assert forall|index: int| 0 <= index < positions.len() implies positions[index]
            == positions.last() || (index < rest.len() && positions[index] == rest[index]) by {
        }
        match next_after(rest, start) {
            Some(next) => {
                let place = choose|place: int| 0 <= place < rest.len() && rest[place] == next;
                assert(positions[place] == next);
            },
            None => {},
        }
        assert(positions[positions.len() - 1] == positions.last());
    }
}

/// The position of one packet after another.
pub open spec fn tile_starts(base: usize, offsets: Seq<u64>, bands: int, count: nat) -> Result<
    Seq<usize>,
    JxrError,
>
    decreases count,
{
    if count == 0 {
        Ok(Seq::empty())
    } else {
        match tile_starts(base, offsets, bands, (count - 1) as nat) {
            Err(error) => Err(error),
            Ok(starts) => {
                let relative = offsets[(count - 1) * bands];
                if relative > usize::MAX {
                    Err(JxrError::arithmetic("tile packet offset"))
                } else if base + relative > usize::MAX {
                    Err(JxrError::arithmetic("tile packet position"))
                } else {
                    Ok(starts.push((base + relative) as usize))
                }
            },
        }
    }
}

/// Once a position does not fit, later positions do not matter.
proof fn lemma_starts_stop(base: usize, offsets: Seq<u64>, bands: int, some: nat, count: nat)
    requires
        some <= count,
        tile_starts(base, offsets, bands, some) is Err,
    ensures
        tile_starts(base, offsets, bands, count) == tile_starts(base, offsets, bands, some),
    decreases count,
{
    if some < count {
        lemma_starts_stop(base, offsets, bands, some, (count - 1) as nat);
    }
}

/// There are as many positions as tiles.
proof fn lemma_starts_length(base: usize, offsets: Seq<u64>, bands: int, count: nat)
    requires
        tile_starts(base, offsets, bands, count) is Ok,
    ensures
        tile_starts(base, offsets, bands, count)->Ok_0.len() == count,
    decreases count,
{
    if count > 0 {
        lemma_starts_length(base, offsets, bands, (count - 1) as nat);
    }
}

/// The bytes from a position to the next one, or to the end of the codestream.
pub open spec fn range_from(starts: Seq<usize>, start: usize, codestream_end: usize) -> Result<
    ByteRange,
    JxrError,
> {
    let end = match next_after(starts, start) {
        Some(next) => next,
        None => codestream_end,
    };
    if end < start {
        Err(JxrError::new(JxrErrorKind::InvalidSyntax, "tile index ordering"))
    } else {
        ByteRange::checked(start, (end - start) as usize, codestream_end)
    }
}

/// The bytes of the first `count` tiles.
pub open spec fn ranges_from(starts: Seq<usize>, count: nat, codestream_end: usize) -> Result<
    Seq<ByteRange>,
    JxrError,
>
    decreases count,
{
    if count == 0 {
        Ok(Seq::empty())
    } else {
        match ranges_from(starts, (count - 1) as nat, codestream_end) {
            Err(error) => Err(error),
            Ok(ranges) => match range_from(starts, starts[count - 1], codestream_end) {
                Err(error) => Err(error),
                Ok(range) => Ok(ranges.push(range)),
            },
        }
    }
}

/// Once a range is refused, later ranges do not matter.
proof fn lemma_ranges_stop(starts: Seq<usize>, some: nat, count: nat, codestream_end: usize)
    requires
        some <= count,
        ranges_from(starts, some, codestream_end) is Err,
    ensures
        ranges_from(starts, count, codestream_end) == ranges_from(starts, some, codestream_end),
    decreases count,
{
    if some < count {
        lemma_ranges_stop(starts, some, (count - 1) as nat, codestream_end);
    }
}

/// The bytes of the tiles that an index names.
///
/// In frequency mode the packets of a tile lie apart, so each tile gets all bytes.
pub open spec fn indexed_ranges(
    base: usize,
    codestream_end: usize,
    offsets: Seq<u64>,
    tile_count: usize,
    frequency_mode: bool,
) -> Result<Seq<ByteRange>, JxrError> {
    let bands = offsets.len() as int / tile_count as int;
    let all = ByteRange::checked(
        base,
        if codestream_end > base {
            (codestream_end - base) as usize
        } else {
            0
        },
        codestream_end,
    );
    let starts = tile_starts(base, offsets, bands, tile_count as nat);
    if tile_count == 0 {
        Err(JxrError::new(JxrErrorKind::InternalInvariant, "empty tile index"))
    } else if bands == 0 || bands * tile_count != offsets.len() {
        Err(JxrError::new(JxrErrorKind::InvalidSyntax, "tile index shape"))
    } else if frequency_mode {
        match all {
            Err(error) => Err(error),
            Ok(range) => Ok(Seq::new(tile_count as nat, |tile: int| range)),
        }
    } else if starts is Err {
        Err(starts->Err_0)
    } else {
        ranges_from(starts->Ok_0, tile_count as nat, codestream_end)
    }
}

/// Whether each position is not below the one before it.
pub open spec fn ascending(positions: Seq<usize>) -> bool {
    forall|left: int, right: int|
        0 <= left <= right < positions.len() ==> positions[left] <= positions[right]
}

/// Sorts positions with the standard library's `sort_unstable`, which leaves the same positions
/// in ascending order.
#[verifier::external_body]
fn sort_positions(positions: &mut Vec<usize>)
    ensures
        ascending(final(positions)@),
        final(positions)@.to_multiset() == old(positions)@.to_multiset(),
{
    positions.sort_unstable();
}

/// Two lists with the same positions have the same next position.
proof fn lemma_same_positions(left: Seq<usize>, right: Seq<usize>, start: usize)
    requires
        left.to_multiset() == right.to_multiset(),
    ensures
        next_after(left, start) == next_after(right, start),
{
    lemma_next_after(left, start);
    lemma_next_after(right, start);
    assert forall|position: usize|
        #![auto]
        left.contains(position) <==> right.contains(position) by {
        vstd::seq_lib::to_multiset_contains(left, position);
        vstd::seq_lib::to_multiset_contains(right, position);
    }
    if let Some(next) = next_after(left, start) {
        assert(right.contains(next));
    }
    if let Some(next) = next_after(right, start) {
        assert(left.contains(next));
    }
}

/// Finds the smallest of the sorted positions behind `start`.
fn following(physical: &[usize], start: usize) -> (next: Option<usize>)
    requires
        ascending(physical@),
    ensures
        next == next_after(physical@, start),
{
    let mut low: usize = 0;
    let mut high: usize = physical.len();
    while low < high
        invariant
            low <= high <= physical@.len(),
            ascending(physical@),
            forall|index: int| 0 <= index < low ==> physical@[index] <= start,
            forall|index: int| high <= index < physical@.len() ==> physical@[index] > start,
        decreases high - low,
    {
        let middle: usize = low + (high - low) / 2;
        if physical[middle] <= start {
            low = middle + 1;
        } else {
            high = middle;
        }
    }
    proof {
        lemma_next_after(physical@, start);
    }
    if low < physical.len() {
        assert(physical@[low as int] > start);
        Some(physical[low])
    } else {
        None
    }
}

fn absolute_starts(base: usize, offsets: &[u64], bands: usize, tile_count: usize) -> (result:
    Result<Vec<usize>, JxrError>)
    requires
        bands > 0,
        bands * tile_count == offsets@.len(),
    ensures
        match (result, tile_starts(base, offsets@, bands as int, tile_count as nat)) {
            (Ok(starts), Ok(expected)) => starts@ == expected,
            (Err(error), Err(expected)) => error == expected,
            _ => false,
        },
{
    let mut starts: Vec<usize> = Vec::new();
    let length: usize = offsets.len();
    for tile in 0..tile_count
        invariant
            bands > 0,
            bands * tile_count == length,
            length == offsets@.len(),
            tile_starts(base, offsets@, bands as int, tile as nat) == Ok::<Seq<usize>, JxrError>(
                starts@,
            ),
    {
        proof {
            assert(tile * bands < bands * tile_count) by (nonlinear_arith)
                requires
                    tile < tile_count,
                    bands > 0,
            ;
            if tile_starts(base, offsets@, bands as int, (tile + 1) as nat) is Err {
                lemma_starts_stop(
                    base,
                    offsets@,
                    bands as int,
                    (tile + 1) as nat,
                    tile_count as nat,
                );
            }
        }
        let relative: u64 = offsets[tile * bands];
        if relative > usize::MAX as u64 {
            return Err(JxrError::arithmetic("tile packet offset"));
        }
        match base.checked_add(relative as usize) {
            Some(start) => {
                starts.push(start);
            },
            None => {
                return Err(JxrError::arithmetic("tile packet position"));
            },
        }
    }
    Ok(starts)
}

/// Returns the bytes of the tiles that an index names.
pub fn indexed_tile_packet_ranges(
    base: usize,
    codestream_end: usize,
    offsets: &[u64],
    tile_count: usize,
    frequency_mode: bool,
) -> (result: Result<Vec<ByteRange>, JxrError>)
    ensures
        match (
            result,
            indexed_ranges(base, codestream_end, offsets@, tile_count, frequency_mode),
        ) {
            (Ok(ranges), Ok(expected)) => ranges@ == expected,
            (Err(error), Err(expected)) => error == expected,
            _ => false,
        },
        result matches Ok(ranges) ==> ranges@.len() == tile_count,
{
    if tile_count == 0 {
        return Err(JxrError::new(JxrErrorKind::InternalInvariant, "empty tile index"));
    }
    let bands: usize = offsets.len() / tile_count;
    proof {
        assert(bands * tile_count <= offsets@.len()) by (nonlinear_arith)
            requires
                bands == offsets@.len() as int / tile_count as int,
                tile_count > 0,
        ;
    }
    if bands == 0 || bands * tile_count != offsets.len() {
        return Err(JxrError::new(JxrErrorKind::InvalidSyntax, "tile index shape"));
    }
    if frequency_mode {
        let range: ByteRange = ByteRange::new(
            base,
            codestream_end.saturating_sub(base),
            codestream_end,
        )?;
        let mut ranges: Vec<ByteRange> = Vec::new();
        for tile in 0..tile_count
            invariant
                ranges@ == Seq::new(tile as nat, |index: int| range),
        {
            ranges.push(range);
            assert(ranges@ =~= Seq::new((tile + 1) as nat, |index: int| range));
        }
        return Ok(ranges);
    }
    let starts: Vec<usize> = absolute_starts(base, offsets, bands, tile_count)?;
    proof {
        lemma_starts_length(base, offsets@, bands as int, tile_count as nat);
    }
    let mut physical: Vec<usize> = starts.clone();
    assert(physical@ =~= starts@);
    sort_positions(&mut physical);
    let mut ranges: Vec<ByteRange> = Vec::new();
    for tile in 0..tile_count
        invariant
            starts@.len() == tile_count,
            ascending(physical@),
            physical@.to_multiset() == starts@.to_multiset(),
            ranges@.len() == tile,
            ranges_from(starts@, tile as nat, codestream_end) == Ok::<Seq<ByteRange>, JxrError>(
                ranges@,
            ),
            !frequency_mode,
            tile_count > 0,
            bands > 0,
            bands == offsets@.len() as int / tile_count as int,
            bands * tile_count == offsets@.len(),
            tile_starts(base, offsets@, bands as int, tile_count as nat) == Ok::<
                Seq<usize>,
                JxrError,
            >(starts@),
    {
        let start: usize = starts[tile];
        proof {
            lemma_same_positions(starts@, physical@, start);
            if ranges_from(starts@, (tile + 1) as nat, codestream_end) is Err {
                lemma_ranges_stop(starts@, (tile + 1) as nat, tile_count as nat, codestream_end);
            }
        }
        let end: usize = match following(physical.as_slice(), start) {
            Some(next) => next,
            None => codestream_end,
        };
        if end < start {
            return Err(JxrError::new(JxrErrorKind::InvalidSyntax, "tile index ordering"));
        }
        let range: ByteRange = ByteRange::new(start, end - start, codestream_end)?;
        ranges.push(range);
    }
    Ok(ranges)
}

/// The ranges of some tiles, one by one.
proof fn lemma_range_of(starts: Seq<usize>, count: nat, codestream_end: usize, tile: int)
    requires
        count <= starts.len(),
        ranges_from(starts, count, codestream_end) is Ok,
        0 <= tile < count,
    ensures
        ranges_from(starts, count, codestream_end)->Ok_0.len() == count,
        range_from(starts, starts[tile], codestream_end) == Ok::<ByteRange, JxrError>(
            ranges_from(starts, count, codestream_end)->Ok_0[tile],
        ),
    decreases count,
{
    if tile < count - 1 {
        lemma_range_of(starts, (count - 1) as nat, codestream_end, tile);
    } else if count > 1 {
        lemma_range_of(starts, (count - 1) as nat, codestream_end, 0);
    }
}

/// In spatial mode the packets of two tiles start at the same byte and are the same bytes, or
/// have no byte in common; and every packet ends within the codestream.
pub proof fn lemma_packets_do_not_overlap(
    base: usize,
    codestream_end: usize,
    offsets: Seq<u64>,
    tile_count: usize,
    first: int,
    second: int,
)
    requires
        indexed_ranges(base, codestream_end, offsets, tile_count, false) is Ok,
        0 <= first < tile_count,
        0 <= second < tile_count,
    ensures
        ({
            let ranges = indexed_ranges(base, codestream_end, offsets, tile_count, false)->Ok_0;
            let left = ranges[first];
            let right = ranges[second];
            &&& ranges.len() == tile_count
            &&& left.offset + left.length <= codestream_end
            &&& left == right || left.offset + left.length <= right.offset || right.offset
                + right.length <= left.offset
        }),
{
    let bands = offsets.len() as int / tile_count as int;
    let starts = tile_starts(base, offsets, bands, tile_count as nat)->Ok_0;
    lemma_starts_length(base, offsets, bands, tile_count as nat);
    lemma_range_of(starts, tile_count as nat, codestream_end, first);
    lemma_range_of(starts, tile_count as nat, codestream_end, second);
    lemma_next_after(starts, starts[first]);
    lemma_next_after(starts, starts[second]);
}

/// In spatial mode the packet of a tile starts at the tile's offset behind the base and ends where
/// the next packet starts, or with the codestream: no other packet starts in it. In frequency mode
/// every tile has all bytes from the base on.
pub proof fn lemma_packets_start_at_offsets(
    base: usize,
    codestream_end: usize,
    offsets: Seq<u64>,
    tile_count: usize,
    frequency_mode: bool,
    tile: int,
)
    requires
        indexed_ranges(base, codestream_end, offsets, tile_count, frequency_mode) is Ok,
        0 <= tile < tile_count,
    ensures
        ({
            let range = indexed_ranges(
                base,
                codestream_end,
                offsets,
                tile_count,
                frequency_mode,
            )->Ok_0[tile];
            let bands = offsets.len() as int / tile_count as int;
            let end = range.offset + range.length;
            &&& offsets.len() == bands * tile_count
            &&& bands >= 1
            &&& frequency_mode ==> range.offset == base && end == codestream_end
            &&& !frequency_mode ==> {
                &&& range.offset == base + offsets[tile * bands]
                &&& end == codestream_end || exists|other: int|
                    0 <= other < tile_count && end == base + #[trigger] offsets[other * bands]
                &&& forall|other: int|
                    0 <= other < tile_count ==> !(range.offset < base + #[trigger] offsets[other
                        * bands] < end)
            }
        }),
{
    let bands = offsets.len() as int / tile_count as int;
    if !frequency_mode {
        let starts = tile_starts(base, offsets, bands, tile_count as nat)->Ok_0;
        lemma_starts_length(base, offsets, bands, tile_count as nat);
        assert forall|other: int| 0 <= other < tile_count implies starts[other] == base
            + #[trigger] offsets[other * bands] by {
            lemma_start_of(base, offsets, bands, tile_count as nat, other);
        }
        lemma_range_of(starts, tile_count as nat, codestream_end, tile);
        lemma_next_after(starts, starts[tile]);
        assert(starts[tile] == base + offsets[tile * bands]);
        if let Some(next) = next_after(starts, starts[tile]) {
            let other = choose|other: int| 0 <= other < starts.len() && starts[other] == next;
            assert(starts[other] == base + offsets[other * bands]);
        }
    }
}

proof fn lemma_start_of(base: usize, offsets: Seq<u64>, bands: int, count: nat, tile: int)
    requires
        tile_starts(base, offsets, bands, count) is Ok,
        0 <= tile < count,
    ensures
        tile_starts(base, offsets, bands, count)->Ok_0.len() == count,
        tile_starts(base, offsets, bands, count)->Ok_0[tile] == base + offsets[tile * bands],
    decreases count,
{
    lemma_starts_length(base, offsets, bands, (count - 1) as nat);
    if tile < count - 1 {
        lemma_start_of(base, offsets, bands, (count - 1) as nat, tile);
    }
}

} // verus!

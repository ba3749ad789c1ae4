//! Laws of decoded coefficient blocks.

use super::adaptive::{AcVlcState, AdaptiveVlc};
use super::bit_reader::BitCursor;
use super::coefficients::{self, ComponentClass, FrequencyBand, RunLevel};
use super::scan;
use super::vlc;
use vstd::arithmetic::power2::*;
use vstd::prelude::*;

verus! {

/// The location behind the last coefficient of the pairs.
pub open spec fn end_of(entries: Seq<RunLevel>, start: int) -> int
    decreases entries.len(),
{
    if entries.len() == 0 {
        start
    } else {
        end_of(entries.drop_last(), start) + entries.last().run + 1
    }
}

/// Whether no pair stands for a coefficient that is zero.
pub open spec fn all_non_zero(entries: Seq<RunLevel>) -> bool {
    forall|index: int| 0 <= index < entries.len() ==> (#[trigger] entries[index]).level != 0
}

/// Whether one to fifteen pairs, none of them zero, end inside a block.
pub open spec fn fits(entries: Seq<RunLevel>, start: int) -> bool {
    &&& 1 <= entries.len() <= 15
    &&& end_of(entries, start) <= 16
    &&& all_non_zero(entries)
}

proof fn lemma_end_from_first(entries: Seq<RunLevel>, start: int)
    requires
        entries.len() > 0,
    ensures
        end_of(entries, start) == end_of(entries.drop_first(), start + entries[0].run + 1),
    decreases entries.len(),
{
    let rest = entries.drop_first();
    if entries.len() == 1 {
        assert(entries.drop_last() =~= Seq::empty());
        assert(end_of(entries.drop_last(), start) == start);
    } else {
        lemma_end_from_first(entries.drop_last(), start);
        assert(entries.drop_last().drop_first() =~= rest.drop_last());
        assert(entries.last() == rest.last());
    }
}

proof fn lemma_end_bound(entries: Seq<RunLevel>, start: int)
    ensures
        end_of(entries, start) >= start + entries.len(),
    decreases entries.len(),
{
    if entries.len() > 0 {
        lemma_end_bound(entries.drop_last(), start);
    }
}

/// An absolute level is at least two.
proof fn lemma_abs_level(cursor: BitCursor, selector: AdaptiveVlc)
    ensures
        coefficients::abs_level_at(cursor, selector).result matches Ok(level) ==> level >= 2,
{
    reveal(coefficients::abs_level_at);
    let codes = vlc::abs_level_table(selector.table_index as int);
    vlc::lemma_tables_bounded();
    vlc::lemma_symbol_bound(cursor, "ABS_LEVEL_INDEX", codes, 7);
    let (symbol, next) = vlc::symbol_at(cursor, "ABS_LEVEL_INDEX", codes);
    if let Ok(symbol) = symbol {
        if symbol < 6 {
            let count = coefficients::ABS_FIXED_LENGTH[symbol as int];
            assert(count <= 2);
            assert(2 <= coefficients::ABS_REMAP[symbol as int] <= 14);
            coefficients::lemma_read_bound(next, count);
        } else {
            coefficients::lemma_read_bound(next, 4);
            let (width, after) = coefficients::escape_width_at(next);
            let second = next.read(4).1;
            coefficients::lemma_read_bound(second, 2);
            coefficients::lemma_read_bound(second.read(2).1, 3);
            if let Ok(width) = width {
                assert(width <= 29);
                coefficients::lemma_read_bound(after, width);
                lemma2_to64();
                if width < 29 {
                    lemma_pow2_strictly_increases(width as nat, 29);
                }
            }
        }
    }
}

proof fn lemma_magnitude(cursor: BitCursor, coded: bool, context: bool, state: AcVlcState)
    ensures
        coefficients::magnitude_at(cursor, coded, context, state).result matches Ok(value)
            ==> value >= 1,
{
    lemma_abs_level(cursor, state.abs_level[super::adaptive::place(context)]);
}

/// A further coefficient is not zero, and ends where its run says.
proof fn lemma_next_coefficient(
    cursor: BitCursor,
    chroma: bool,
    location: u8,
    successors: u8,
    context: bool,
    state: AcVlcState,
)
    ensures
        coefficients::next_coefficient_at(
            cursor,
            chroma,
            location,
            successors,
            context,
            state,
        ).result matches Ok(coefficient) ==> coefficient.entry.level != 0 && coefficient.location
            == location + coefficient.entry.run + 1 && coefficient.location <= 16,
{
    reveal(coefficients::next_coefficient_at);
    assert forall|cursor: BitCursor, coded: bool, context: bool, state: AcVlcState|
        #[trigger] coefficients::magnitude_at(
            cursor,
            coded,
            context,
            state,
        ).result is Ok implies coefficients::magnitude_at(cursor, coded, context, state).result->Ok_0
        >= 1 by {
        lemma_magnitude(cursor, coded, context, state);
    }
}

/// The first coefficient is not zero, and ends where its run says.
proof fn lemma_first_coefficient(cursor: BitCursor, chroma: bool, start: u8, state: AcVlcState)
    ensures
        coefficients::first_coefficient_at(
            cursor,
            chroma,
            start,
            state,
        ).result matches Ok(coefficient) ==> coefficient.entry.level != 0 && coefficient.location
            == start + coefficient.entry.run + 1 && coefficient.location <= 16,
{
    reveal(coefficients::first_coefficient_at);
    assert forall|cursor: BitCursor, coded: bool, context: bool, state: AcVlcState|
        #[trigger] coefficients::magnitude_at(
            cursor,
            coded,
            context,
            state,
        ).result is Ok implies coefficients::magnitude_at(cursor, coded, context, state).result->Ok_0
        >= 1 by {
        lemma_magnitude(cursor, coded, context, state);
    }
}

proof fn lemma_coefficients_fit(
    cursor: BitCursor,
    chroma: bool,
    start: int,
    location: u8,
    successors: u8,
    context: bool,
    state: AcVlcState,
    entries: Seq<RunLevel>,
)
    requires
        start >= 1,
        entries.len() >= 1,
        end_of(entries, start) == location,
        location <= 16,
        all_non_zero(entries),
    ensures
        coefficients::coefficients_from(
            cursor,
            chroma,
            location,
            successors,
            context,
            state,
            entries,
        ).result matches Ok(whole) ==> fits(whole, start),
    decreases 16 - location,
{
    lemma_end_bound(entries, start);
    if successors != 0 {
        lemma_next_coefficient(cursor, chroma, location, successors, context, state);
        let next = coefficients::next_coefficient_at(
            cursor,
            chroma,
            location,
            successors,
            context,
            state,
        );
        if let Ok(coefficient) = next.result {
            assert(entries.push(coefficient.entry).drop_last() =~= entries);
            lemma_coefficients_fit(
                next.cursor,
                chroma,
                start,
                coefficient.location,
                coefficient.successors,
                coefficient.context,
                next.state,
                entries.push(coefficient.entry),
            );
        }
    }
}

/// A block that was decoded holds one to fifteen coefficients, none of them zero, and the last of
/// them lies inside the block.
pub proof fn lemma_decoded_block_fits(
    cursor: BitCursor,
    band: FrequencyBand,
    class: ComponentClass,
    start: u8,
    state: AcVlcState,
)
    ensures
        coefficients::block_at(cursor, band, class, start, state).result matches Ok(entries)
            ==> fits(entries, start as int),
{
    let chroma = class == ComponentClass::Chroma;
    let first = coefficients::first_coefficient_at(cursor, chroma, start, state);
    lemma_first_coefficient(cursor, chroma, start, state);
    if band != FrequencyBand::Dc && 1 <= start <= 15 {
        if let Ok(coefficient) = first.result {
            let entries = seq![coefficient.entry];
            assert(entries.drop_last() =~= Seq::empty());
            assert(end_of(entries.drop_last(), start as int) == start);
            lemma_coefficients_fit(
                first.cursor,
                chroma,
                start as int,
                coefficient.location,
                coefficient.successors,
                coefficient.context,
                first.state,
                entries,
            );
        }
    }
}

/// Pairs that end inside the block are placed without an error, whatever the scan.
proof fn lemma_fitting_pairs_scan(
    entries: Seq<RunLevel>,
    location: u8,
    order: Seq<u8>,
    totals: Seq<i32>,
    output: Seq<i32>,
)
    requires
        location >= 1,
        end_of(entries, location as int) <= 16,
    ensures
        coefficients::scanned(entries, location, order, totals, output).result is Ok,
    decreases entries.len(),
{
    if entries.len() > 0 {
        lemma_end_from_first(entries, location as int);
        lemma_end_bound(entries.drop_first(), location + entries[0].run + 1);
        let index = location + entries[0].run;
        lemma_fitting_pairs_scan(
            entries.drop_first(),
            (index + 1) as u8,
            scan::order_after(order, totals, index),
            scan::totals_after(totals, index),
            output.update(order[index] as int, entries[0].level),
        );
    }
}

/// Every block that was decoded can be placed: the inverse scan of its pairs never fails.
pub proof fn lemma_decoded_block_scans(
    cursor: BitCursor,
    band: FrequencyBand,
    class: ComponentClass,
    start: u8,
    state: AcVlcState,
    order: Seq<u8>,
    totals: Seq<i32>,
    output: Seq<i32>,
)
    ensures
        coefficients::block_at(cursor, band, class, start, state).result matches Ok(entries)
            ==> coefficients::scanned(entries, start, order, totals, output).result is Ok,
{
    lemma_decoded_block_fits(cursor, band, class, start, state);
    let block = coefficients::block_at(cursor, band, class, start, state);
    if let Ok(entries) = block.result {
        lemma_fitting_pairs_scan(entries, start, order, totals, output);
    }
}

} // verus!

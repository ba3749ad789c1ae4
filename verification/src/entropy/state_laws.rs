//! Laws of the state that entropy decoding adapts: code tables, scans and models.

use super::adaptive::{self, AcVlcState, AdaptiveVlc, TileEntropyState};
use super::bit_reader::BitCursor;
use super::coding_laws;
use super::coefficients::{self, FrequencyBand, RunLevel};
use super::model::{self, CoefficientModel, ColourModel};
use super::refinement;
use super::scan;
use super::scan::HpScanDirection;
use super::words;
use crate::bits;
use vstd::arithmetic::power2::*;
use vstd::prelude::*;

verus! {

/// Whether the evidence of a selector weighs the selected table against its neighbours: the table
/// before it, and the table behind it, where there is one.
pub open spec fn weighs_neighbours(selector: AdaptiveVlc, last: int) -> bool {
    &&& selector.table_index <= last
    &&& selector.delta_index[0] == (if selector.table_index > 0 {
        selector.table_index - 1
    } else {
        0
    })
    &&& selector.delta_index[1] == (if selector.table_index < last {
        selector.table_index as int
    } else {
        last - 1
    })
}

/// A symbol counts for a table by the bits that its code word would be shorter there than in the
/// table before: the evidence adds up what the next table would have saved.
pub proof fn lemma_evidence_is_saved_bits(selector: AdaptiveVlc, symbol: u8)
    requires
        selector.headroom(2),
    ensures
        symbol < 7 ==> selector.after_abs_level(symbol).discrim[0] - selector.discrim[0]
            == words::level_word(0, symbol as int).length - words::level_word(
            1,
            symbol as int,
        ).length && selector.after_abs_level(symbol).discrim[1] == selector.discrim[1],
        symbol < 6 && selector.within(3) ==> forall|side: int|
            0 <= side < 2 ==> #[trigger] selector.after_index(symbol).discrim[side]
                - selector.discrim[side] == words::index_word(
                selector.delta_index[side] as int,
                symbol as int,
            ).length - words::index_word(
                selector.delta_index[side] + 1,
                symbol as int,
            ).length,
        symbol < 12 && selector.within(4) ==> forall|side: int|
            0 <= side < 2 ==> #[trigger] selector.after_first_index(symbol).discrim[side]
                - selector.discrim[side] == words::first_index_word(
                selector.delta_index[side] as int,
                symbol as int,
            ).length - words::first_index_word(
                selector.delta_index[side] + 1,
                symbol as int,
            ).length,
{
    if symbol < 7 {
        lemma_level_lengths(symbol as int);
    }
    if symbol < 6 && selector.within(3) {
        lemma_index_lengths(selector.delta_index[0] as int, symbol as int);
        lemma_index_lengths(selector.delta_index[1] as int, symbol as int);
    }
    if symbol < 12 && selector.within(4) {
        lemma_first_index_lengths(selector.delta_index[0] as int, symbol as int);
        lemma_first_index_lengths(selector.delta_index[1] as int, symbol as int);
    }
}

proof fn lemma_level_lengths(symbol: int)
    requires
        0 <= symbol < 7,
    ensures
        adaptive::ABS_LEVEL_DELTA[symbol] == words::level_word(0, symbol).length
            - words::level_word(1, symbol).length,
{
    reveal(words::level_word);
}

proof fn lemma_index_lengths(table: int, symbol: int)
    requires
        0 <= table < 3,
        0 <= symbol < 6,
    ensures
        adaptive::INDEX_DELTA[table][symbol] == words::index_word(table, symbol).length
            - words::index_word(table + 1, symbol).length,
        -2 <= adaptive::INDEX_DELTA[table][symbol] <= 2,
{
    reveal(words::index_word);
    adaptive::lemma_index_delta_bound(table, symbol);
    if table == 0 {
    } else if table == 1 {
    } else {
        assert(table == 2);
    }
}

#[verifier::rlimit(50)]
proof fn lemma_first_index_lengths(table: int, symbol: int)
    requires
        0 <= table < 4,
        0 <= symbol < 12,
    ensures
        adaptive::FIRST_INDEX_DELTA[table][symbol] == words::first_index_word(table, symbol).length
            - words::first_index_word(table + 1, symbol).length,
        -2 <= adaptive::FIRST_INDEX_DELTA[table][symbol] <= 2,
{
    reveal(words::first_index_word);
    adaptive::lemma_first_index_delta_bound(table, symbol);
    if table == 0 {
    } else if table == 1 {
    } else if table == 2 {
    } else {
        assert(table == 3);
    }
}

/// A selector between more than two tables goes to the table before it when the evidence against
/// the selected table is more than 8 bits, otherwise to the table behind it when the evidence for
/// that one is more than 8 bits, and starts anew there. It weighs the table against its neighbours
/// all along.
pub proof fn lemma_selector_follows_evidence(selector: AdaptiveVlc, last: u8)
    requires
        last >= 2,
        weighs_neighbours(selector, last as int),
    ensures
        weighs_neighbours(AdaptiveVlc::initial_of_many(), last as int),
        AdaptiveVlc::initial_of_many().table_index == 1,
        ({
            let next = selector.adapted_of_many(last);
            let down = selector.discrim[0] < -8 && selector.table_index > 0;
            let up = selector.discrim[1] > 8 && selector.table_index < last;
            &&& weighs_neighbours(next, last as int)
            &&& down ==> next.table_index == selector.table_index - 1
            &&& !down && up ==> next.table_index == selector.table_index + 1
            &&& down || up ==> next.discrim[0] == 0 && next.discrim[1] == 0
            &&& !down && !up ==> next.table_index == selector.table_index && forall|side: int|
                0 <= side < 2 ==> {
                    &&& -64 <= #[trigger] next.discrim[side] <= 64
                    &&& -64 <= selector.discrim[side] <= 64 ==> next.discrim[side]
                        == selector.discrim[side]
                    &&& selector.discrim[side] > 64 ==> next.discrim[side] == 64
                    &&& selector.discrim[side] < -64 ==> next.discrim[side] == -64
                }
        }),
{
}

/// A selector between two tables goes to the other one when the evidence against the selected
/// table is more than 8 bits, and starts anew there.
pub proof fn lemma_selector_of_two_follows_evidence(selector: AdaptiveVlc)
    requires
        selector.table_index <= 1,
    ensures
        AdaptiveVlc::initial_of_two().table_index == 0,
        ({
            let next = selector.adapted_of_two();
            let down = selector.discrim[0] < -8 && selector.table_index == 1;
            let up = selector.discrim[0] > 8 && selector.table_index == 0;
            &&& down ==> next.table_index == 0 && next.discrim[0] == 0
            &&& up ==> next.table_index == 1 && next.discrim[0] == 0
            &&& !down && !up ==> next.table_index == selector.table_index && -64 <= next.discrim[0]
                <= 64 && (-64 <= selector.discrim[0] <= 64 ==> next.discrim[0]
                == selector.discrim[0])
        }),
{
}

/// Adapting the state of a band adapts each of its selectors on its own, within its own tables:
/// five for the first index, four for the index.
pub proof fn lemma_selectors_adapt_alone(state: AcVlcState, side: int, context: int)
    requires
        0 <= side < 2,
        0 <= context < 2,
    ensures
        state.adapted().first_index[side] == state.first_index[side].adapted_of_many(4),
        state.adapted().index[side][context] == state.index[side][context].adapted_of_many(3),
        state.adapted().abs_level[context] == state.abs_level[context].adapted_of_two(),
{
}

/// The scan index of a pair: behind those of the pairs before it and the zeros in front of it.
pub open spec fn scan_index(entries: Seq<RunLevel>, start: int, number: int) -> int
    decreases number,
{
    if number <= 0 {
        start + entries[0].run
    } else {
        scan_index(entries, start, number - 1) + 1 + entries[number].run
    }
}

proof fn lemma_scan_index_of_rest(entries: Seq<RunLevel>, start: int, number: int)
    requires
        0 <= number < entries.len() - 1,
    ensures
        scan_index(entries.drop_first(), start + entries[0].run + 1, number) == scan_index(
            entries,
            start,
            number + 1,
        ),
    decreases number,
{
    if number > 0 {
        lemma_scan_index_of_rest(entries, start, number - 1);
    } else {
        assert(scan_index(entries, start, 0) == start + entries[0].run);
    }
}

proof fn lemma_scan_index_rises(entries: Seq<RunLevel>, start: int, number: int)
    requires
        0 <= number < entries.len(),
    ensures
        scan_index(entries, start, number) >= start + number,
    decreases number,
{
    if number > 0 {
        lemma_scan_index_rises(entries, start, number - 1);
    }
}

/// Every level is placed where the order at the start of the block says: the order that the block
/// adapts is for later blocks. Nothing else is changed.
pub proof fn lemma_levels_are_placed(
    entries: Seq<RunLevel>,
    start: u8,
    order: Seq<u8>,
    totals: Seq<i32>,
    output: Seq<i32>,
)
    requires
        start >= 1,
        scan::is_scan_order(order),
        output.len() == 16,
        coefficients::scanned(entries, start, order, totals, output).result is Ok,
    ensures
        ({
            let after = coefficients::scanned(entries, start, order, totals, output).output;
            &&& after.len() == 16
            &&& forall|number: int|
                0 <= number < entries.len() ==> 1 <= #[trigger] scan_index(
                    entries,
                    start as int,
                    number,
                ) <= 15 && after[order[scan_index(entries, start as int, number)] as int]
                    == entries[number].level
            &&& forall|index: int|
                0 <= index < 16 && (forall|number: int|
                    0 <= number < entries.len() ==> #[trigger] scan_index(
                        entries,
                        start as int,
                        number,
                    ) != index) ==> after[#[trigger] order[index] as int] == output[order[index] as int]
        }),
{
    lemma_levels_are_placed_from(entries, start, order, order, totals, output);
}

proof fn lemma_levels_are_placed_from(
    entries: Seq<RunLevel>,
    start: u8,
    order: Seq<u8>,
    current: Seq<u8>,
    totals: Seq<i32>,
    output: Seq<i32>,
)
    requires
        start >= 1,
        scan::is_scan_order(order),
        scan::is_scan_order(current),
        forall|index: int| start <= index < 16 ==> current[index] == order[index],
        output.len() == 16,
        coefficients::scanned(entries, start, current, totals, output).result is Ok,
    ensures
        ({
            let after = coefficients::scanned(entries, start, current, totals, output).output;
            &&& after.len() == 16
            &&& forall|number: int|
                0 <= number < entries.len() ==> 1 <= #[trigger] scan_index(
                    entries,
                    start as int,
                    number,
                ) <= 15 && after[order[scan_index(entries, start as int, number)] as int]
                    == entries[number].level
            &&& forall|index: int|
                0 <= index < 16 && (forall|number: int|
                    0 <= number < entries.len() ==> #[trigger] scan_index(
                        entries,
                        start as int,
                        number,
                    ) != index) ==> after[#[trigger] order[index] as int] == output[order[index] as int]
        }),
    decreases entries.len(),
{
    if entries.len() > 0 {
        let index = start + entries[0].run;
        let next = scan::order_after(current, totals, index);
        let rest = entries.drop_first();
        let placed = output.update(current[index] as int, entries[0].level);
        scan::lemma_order_after(current, totals, index);
        assert(scan_index(entries, start as int, 0) == index);
        lemma_levels_are_placed_from(
            rest,
            (index + 1) as u8,
            order,
            next,
            scan::totals_after(totals, index),
            placed,
        );
        let after = coefficients::scanned(entries, start, current, totals, output).output;
        assert forall|number: int| 0 <= number < entries.len() implies 1 <= #[trigger] scan_index(
            entries,
            start as int,
            number,
        ) <= 15 && after[order[scan_index(entries, start as int, number)] as int]
            == entries[number].level by {
            if number > 0 {
                lemma_scan_index_of_rest(entries, start as int, number - 1);
                assert(scan_index(rest, index + 1, number - 1) == scan_index(
                    entries,
                    start as int,
                    number,
                ));
            } else {
                assert forall|other: int| 0 <= other < rest.len() implies #[trigger] scan_index(
                    rest,
                    index + 1,
                    other,
                ) != index by {
                    lemma_scan_index_rises(rest, index + 1, other);
                }
                assert(after[order[index] as int] == placed[order[index] as int]);
            }
        }
        assert forall|free: int|
            0 <= free < 16 && (forall|number: int|
                0 <= number < entries.len() ==> #[trigger] scan_index(
                    entries,
                    start as int,
                    number,
                ) != free) implies after[#[trigger] order[free] as int]
            == output[order[free] as int] by {
            assert forall|other: int| 0 <= other < rest.len() implies #[trigger] scan_index(
                rest,
                index + 1,
                other,
            ) != free by {
                lemma_scan_index_of_rest(entries, start as int, other);
                assert(scan_index(entries, start as int, other + 1) != free);
            }
            assert(scan_index(entries, start as int, 0) != free);
            assert(order[free] != order[index]);
        }
    }
}

/// Placing a coefficient counts it for its position, and counts go with their positions; a position
/// changes places with the one before it only to leave the larger count in front, and the first
/// two places are never exchanged.
pub proof fn lemma_counts_go_with_positions(order: Seq<u8>, totals: Seq<i32>, index: int)
    requires
        scan::is_scan_order(order),
        totals.len() == 16,
        1 <= index < 16,
        totals[index] < i32::MAX,
    ensures
        ({
            let next = scan::order_after(order, totals, index);
            let counts = scan::totals_after(totals, index);
            &&& forall|place: int|
                0 <= place < 16 ==> exists|moved: int|
                    0 <= moved < 16 && #[trigger] next[moved] == #[trigger] order[place]
                        && counts[moved] == totals[place] + (if place == index {
                        1int
                    } else {
                        0int
                    })
            &&& forall|place: int|
                0 <= place < 16 && place != index && place != index - 1 ==> next[place]
                    == order[place]
            &&& index > 1 ==> counts[index - 1] >= counts[index]
            &&& index == 1 || totals[index] + 1 <= totals[index - 1] ==> next == order
        }),
{
    let next = scan::order_after(order, totals, index);
    let counts = scan::totals_after(totals, index);
    assert forall|place: int| 0 <= place < 16 implies exists|moved: int|
        0 <= moved < 16 && #[trigger] next[moved] == #[trigger] order[place] && counts[moved]
            == totals[place] + (if place == index {
            1int
        } else {
            0int
        }) by {
        let moved = if scan::overtakes(totals, index) && place == index {
            index - 1
        } else if scan::overtakes(totals, index) && place == index - 1 {
            index
        } else {
            place
        };
        assert(next[moved] == order[place]);
    }
}

/// The luma weight of a band.
pub open spec fn luma_weight(band: FrequencyBand) -> int {
    match band {
        FrequencyBand::Dc => 240,
        FrequencyBand::Lowpass => 12,
        FrequencyBand::Highpass => 1,
    }
}

/// Whether the state and bits of a model follow a mean: between 42 and 101 nothing moves; above,
/// the state rises by a quarter of what the mean is more than 86, by 15 at most, and below, it
/// falls by a quarter of what the mean is less than 54, by 16 at most; and a state that leaves the
/// range from -8 to 8 changes the bits by one and starts anew, or stays at the end of the range
/// where the bits are at the end of theirs.
pub open spec fn follows(mean: int, before: (int, int), after: (int, int)) -> bool {
    let (state, bits) = before;
    let step: int = if 42 <= mean <= 101 {
        0
    } else if mean > 145 {
        15
    } else if mean > 101 {
        (mean - 86) / 4
    } else if mean < -10 {
        -16
    } else {
        (mean - 54) / 4
    };
    if state + step > 8 {
        after == if bits < 15 {
            (0int, bits + 1)
        } else {
            (8int, 15int)
        }
    } else if state + step < -8 {
        after == if bits > 0 {
            (0int, bits - 1)
        } else {
            (-8int, 0int)
        }
    } else {
        after == (state + step, bits)
    }
}

/// A number divided by a number of parts, rounded to the nearest.
pub open spec fn shared(number: int, parts: int) -> int {
    (2 * number + parts) / (2 * parts)
}

/// The weighted mean of so many chroma components that are as large as luma: the weight is that of
/// luma, shared by the components, in sixteenths for the high-pass band.
pub open spec fn other_mean(band: FrequencyBand, mean: int, components: int) -> int {
    match band {
        FrequencyBand::Dc => mean * shared(240, components),
        FrequencyBand::Lowpass => mean * shared(12, components),
        FrequencyBand::Highpass => mean * shared(16, components) / 16,
    }
}

proof fn lemma_weights(components: int)
    ensures
        2 <= components <= 16 ==> {
            &&& model::OTHER_WEIGHT[0][components - 1] == shared(240, components - 1)
            &&& model::OTHER_WEIGHT[1][components - 1] == shared(12, components - 1)
            &&& model::OTHER_WEIGHT[2][components - 1] == shared(16, components - 1)
        },
{
    assert(shared(240, 1) == 240 && shared(12, 1) == 12 && shared(16, 1) == 16) by (nonlinear_arith);
    assert(shared(240, 2) == 120 && shared(12, 2) == 6 && shared(16, 2) == 8) by (nonlinear_arith);
    assert(shared(240, 3) == 80 && shared(12, 3) == 4 && shared(16, 3) == 5) by (nonlinear_arith);
    assert(shared(240, 4) == 60 && shared(12, 4) == 3 && shared(16, 4) == 4) by (nonlinear_arith);
    assert(shared(240, 5) == 48 && shared(12, 5) == 2 && shared(16, 5) == 3) by (nonlinear_arith);
    assert(shared(240, 6) == 40 && shared(12, 6) == 2 && shared(16, 6) == 3) by (nonlinear_arith);
    assert(shared(240, 7) == 34 && shared(12, 7) == 2 && shared(16, 7) == 2) by (nonlinear_arith);
    assert(shared(240, 8) == 30 && shared(12, 8) == 2 && shared(16, 8) == 2) by (nonlinear_arith);
    assert(shared(240, 9) == 27 && shared(12, 9) == 1 && shared(16, 9) == 2) by (nonlinear_arith);
    assert(shared(240, 10) == 24 && shared(12, 10) == 1 && shared(16, 10) == 2) by (nonlinear_arith);
    assert(shared(240, 11) == 22 && shared(12, 11) == 1 && shared(16, 11) == 1) by (nonlinear_arith);
    assert(shared(240, 12) == 20 && shared(12, 12) == 1 && shared(16, 12) == 1) by (nonlinear_arith);
    assert(shared(240, 13) == 18 && shared(12, 13) == 1 && shared(16, 13) == 1) by (nonlinear_arith);
    assert(shared(240, 14) == 17 && shared(12, 14) == 1 && shared(16, 14) == 1) by (nonlinear_arith);
    assert(shared(240, 15) == 16 && shared(12, 15) == 1 && shared(16, 15) == 1) by (nonlinear_arith);
    if components < 8 {
        assert(2 <= components ==> components == 2 || components == 3 || components == 4
            || components == 5 || components == 6 || components == 7);
    } else if components < 13 {
        assert(components == 8 || components == 9 || components == 10 || components == 11
            || components == 12);
    } else if components <= 16 {
        assert(components == 13 || components == 14 || components == 15 || components == 16);
    }
}

/// A model follows the weighted means of luma and chroma, each on its own.
pub proof fn lemma_model_follows_means(
    model: CoefficientModel,
    means: [i32; 2],
    colour: ColourModel,
)
    requires
        model.wf(),
        model.updated(means, colour) is Ok,
    ensures
        ({
            let next = model.updated(means, colour)->Ok_0;
            &&& next.band == model.band
            &&& follows(
                means[0] * luma_weight(model.band),
                (model.state[0] as int, model.bits[0] as int),
                (next.state[0] as int, next.bits[0] as int),
            )
            &&& colour is LumaOnly ==> next.state[1] == model.state[1] && next.bits[1]
                == model.bits[1]
            &&& colour is Yuv420 ==> follows(
                means[1] * (match model.band {
                    FrequencyBand::Dc => 120int,
                    FrequencyBand::Lowpass => 37int,
                    FrequencyBand::Highpass => 2int,
                }),
                (model.state[1] as int, model.bits[1] as int),
                (next.state[1] as int, next.bits[1] as int),
            )
            &&& colour is Yuv422 ==> follows(
                means[1] * (match model.band {
                    FrequencyBand::Dc => 120int,
                    FrequencyBand::Lowpass => 18int,
                    FrequencyBand::Highpass => 1int,
                }),
                (model.state[1] as int, model.bits[1] as int),
                (next.state[1] as int, next.bits[1] as int),
            )
            &&& colour matches ColourModel::Other { components } ==> 2 <= components <= 16
                && follows(
                other_mean(model.band, means[1] as int, components - 1),
                (model.state[1] as int, model.bits[1] as int),
                (next.state[1] as int, next.bits[1] as int),
            )
        }),
{
    if let ColourModel::Other { components } = colour {
        lemma_weights(components as int);
    }
}

/// Whether the bits at the cursor write refinements of the coefficients at some positions, one
/// behind the other.
pub open spec fn refinements_begin(
    cursor: BitCursor,
    coefficients: Seq<i32>,
    positions: Seq<usize>,
    width: u8,
    values: Seq<int>,
) -> bool
    decreases positions.len(),
{
    positions.len() > 0 ==> {
        let coefficient = coefficients[positions[0] as int] as int;
        &&& coding_laws::flex_begins(cursor, coefficient, width, values[0])
        &&& refinements_begin(
            words::behind(cursor, coding_laws::flex_length(coefficient, width, values[0])),
            coefficients,
            positions.drop_first(),
            width,
            values.drop_first(),
        )
    }
}

/// Refinements that are written are decoded: each coefficient at one of the positions is moved up
/// by the width and gets its refinement in the bits below, and the others stay as they are.
pub proof fn lemma_refinements_decode(
    cursor: BitCursor,
    coefficients: Seq<i32>,
    positions: Seq<usize>,
    width: u8,
    values: Seq<int>,
)
    requires
        width <= 29,
        coefficients.len() == 16,
        positions.len() == values.len(),
        forall|index: int| 0 <= index < positions.len() ==> 1 <= #[trigger] positions[index] < 16,
        forall|left: int, right: int|
            0 <= left < right < positions.len() ==> positions[left] != positions[right],
        forall|index: int|
            0 <= index < positions.len() ==> i32::MIN <= coefficients[#[trigger] positions[index] as int]
                * pow2(width as nat) + values[index] <= i32::MAX,
        refinements_begin(cursor, coefficients, positions, width, values),
    ensures
        ({
            let step = refinement::lp_refined(cursor, coefficients, positions, width);
            &&& step.result is Ok
            &&& step.coefficients.len() == 16
            &&& forall|index: int|
                0 <= index < positions.len() ==> step.coefficients[#[trigger] positions[index] as int]
                    == coefficients[positions[index] as int] * pow2(width as nat) + values[index]
            &&& forall|place: int|
                0 <= place < 16 && (forall|index: int|
                    0 <= index < positions.len() ==> #[trigger] positions[index] != place)
                    ==> #[trigger] step.coefficients[place] == coefficients[place]
        }),
{
    lemma_refinements_decode_from(cursor, coefficients, coefficients, positions, width, values);
}

proof fn lemma_refinements_decode_from(
    cursor: BitCursor,
    coefficients: Seq<i32>,
    current: Seq<i32>,
    positions: Seq<usize>,
    width: u8,
    values: Seq<int>,
)
    requires
        width <= 29,
        coefficients.len() == 16,
        current.len() == 16,
        positions.len() == values.len(),
        forall|index: int| 0 <= index < positions.len() ==> 1 <= #[trigger] positions[index] < 16,
        forall|index: int|
            0 <= index < positions.len() ==> current[#[trigger] positions[index] as int]
                == coefficients[positions[index] as int],
        forall|left: int, right: int|
            0 <= left < right < positions.len() ==> positions[left] != positions[right],
        forall|index: int|
            0 <= index < positions.len() ==> i32::MIN <= coefficients[#[trigger] positions[index] as int]
                * pow2(width as nat) + values[index] <= i32::MAX,
        refinements_begin(cursor, coefficients, positions, width, values),
    ensures
        ({
            let step = refinement::lp_refined(cursor, current, positions, width);
            &&& step.result is Ok
            &&& step.coefficients.len() == 16
            &&& forall|index: int|
                0 <= index < positions.len() ==> step.coefficients[#[trigger] positions[index] as int]
                    == coefficients[positions[index] as int] * pow2(width as nat) + values[index]
            &&& forall|place: int|
                0 <= place < 16 && (forall|index: int|
                    0 <= index < positions.len() ==> #[trigger] positions[index] != place)
                    ==> #[trigger] step.coefficients[place] == current[place]
        }),
    decreases positions.len(),
{
    if positions.len() > 0 {
        let position = positions[0] as int;
        let coefficient = coefficients[position];
        let rest = positions.drop_first();
        assert(current[position] == coefficient);
        coding_laws::lemma_flex_decodes(cursor, coefficient, width, values[0]);
        bits::lemma_bits_value_bound(cursor.bytes, cursor.position as int, width as nat);
        lemma2_to64();
        if width < 29 {
            lemma_pow2_strictly_increases(width as nat, 29);
        }
        let value = (coefficient * pow2(width as nat) + values[0]) as i32;
        let next = current.update(position, value);
        assert forall|index: int| 0 <= index < rest.len() implies {
            &&& 1 <= #[trigger] rest[index] < 16
            &&& next[rest[index] as int] == coefficients[rest[index] as int]
            &&& rest[index] != position
            &&& i32::MIN <= coefficients[rest[index] as int] * pow2(width as nat)
                + values.drop_first()[index] <= i32::MAX
        } by {
            assert(rest[index] == positions[index + 1]);
        }
        lemma_refinements_decode_from(
            words::behind(cursor, coding_laws::flex_length(coefficient as int, width, values[0])),
            coefficients,
            next,
            rest,
            width,
            values.drop_first(),
        );
        let step = refinement::lp_refined(cursor, current, positions, width);
        assert forall|index: int| 0 <= index < positions.len() implies step.coefficients[
            #[trigger] positions[index] as int]
            == coefficients[positions[index] as int] * pow2(width as nat) + values[index] by {
            if index > 0 {
                assert(rest[index - 1] == positions[index]);
            }
        }
    }
}

/// At the start of a tile the low-pass and the horizontal high-pass scan go down the first column
/// before the first row, the vertical one goes along the first row before the first column, and the
/// counts fall by two from each place to the next one, so that places are not exchanged at once;
/// the models start with eight bits for DC, four for the low-pass band and none for the high-pass
/// band.
pub proof fn lemma_tile_starts_anew(index: int)
    requires
        0 <= index < 16,
    ensures
        ({
            let columns: Seq<int> = seq![0, 4, 1, 5, 8, 2, 9, 6, 12, 3, 10, 13, 7, 14, 11, 15];
            let rows: Seq<int> = seq![0, 1, 2, 5, 4, 3, 6, 9, 8, 7, 12, 15, 13, 10, 11, 14];
            let count = if index == 0 {
                0
            } else {
                34 - 2 * index
            };
            let state = TileEntropyState::initial();
            let low = state.lp_scan;
            let high = state.hp_scan;
            &&& low.order[index] == columns[index]
            &&& low.totals[index] == count
            &&& high.order_of(HpScanDirection::Horizontal)[index] == columns[index]
            &&& high.totals_of(HpScanDirection::Horizontal)[index] == count
            &&& high.order_of(HpScanDirection::Vertical)[index] == rows[index]
            &&& high.totals_of(HpScanDirection::Vertical)[index] == count
            &&& forall|side: int|
                0 <= side < 2 ==> {
                    &&& #[trigger] state.dc_model.bits[side] == 8
                    &&& state.lp_model.bits[side] == 4
                    &&& state.hp_model.bits[side] == 0
                    &&& state.dc_model.state[side] == 0
                    &&& state.lp_model.state[side] == 0
                    &&& state.hp_model.state[side] == 0
                }
            &&& state.dc_model.band == FrequencyBand::Dc
            &&& state.lp_model.band == FrequencyBand::Lowpass
            &&& state.hp_model.band == FrequencyBand::Highpass
        }),
{
}

} // verus!

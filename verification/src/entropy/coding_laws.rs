//! How coefficients are written, and that decoding gives back what was written.

use super::adaptive;
use super::adaptive::{AcVlcState, AdaptiveVlc, DcVlcState};
use super::bit_reader::BitCursor;
use super::coefficients;
use super::coefficients::{BlockCoefficient, ComponentClass, FrequencyBand, RunLevel, Step};
use super::error::EntropyError;
use super::refinement;
use super::words;
use super::words::Word;
use crate::bits;
use vstd::arithmetic::power2::*;
use vstd::prelude::*;

verus! {

/// The number of times that a number can be halved before it is one.
pub open spec fn halvings(value: int) -> nat
    decreases value,
{
    if value < 2 {
        0
    } else {
        1 + halvings(value / 2)
    }
}

proof fn lemma_halvings(value: int)
    requires
        value >= 1,
    ensures
        pow2(halvings(value)) <= value < pow2(halvings(value) + 1),
    decreases value,
{
    lemma2_to64();
    if value >= 2 {
        lemma_halvings(value / 2);
        lemma_pow2_unfold(halvings(value));
        lemma_pow2_unfold(halvings(value) + 1);
    }
}

/// The symbol of a level: levels from 2 on fall into classes of growing size, the last of which is
/// open.
pub open spec fn level_symbol(level: int) -> int {
    if level == 2 {
        0
    } else if level == 3 {
        1
    } else if level <= 5 {
        2
    } else if level <= 9 {
        3
    } else if level <= 13 {
        4
    } else if level <= 17 {
        5
    } else {
        6
    }
}

/// The bits that tell a level from the others of its class, where that is not the last one.
pub open spec fn level_rest(level: int) -> Word {
    if level <= 3 {
        Word { bits: 0, length: 0 }
    } else if level <= 5 {
        Word { bits: level - 4, length: 1 }
    } else if level <= 9 {
        Word { bits: level - 6, length: 2 }
    } else if level <= 13 {
        Word { bits: level - 10, length: 2 }
    } else {
        Word { bits: level - 14, length: 2 }
    }
}

/// The width of the number that a level of the last class is written with.
pub open spec fn escape_width(level: int) -> nat {
    halvings(level - 2)
}

/// The bits that the width of a number takes: four, six, or nine.
pub open spec fn width_length(width: nat) -> nat {
    if width < 19 {
        4
    } else if width < 22 {
        6
    } else {
        9
    }
}

/// Whether the bits at the cursor write the width of a number.
pub open spec fn width_begins(cursor: BitCursor, width: nat) -> bool {
    if width < 19 {
        words::begins(cursor, Word { bits: width - 4, length: 4 })
    } else if width < 22 {
        &&& words::begins(cursor, Word { bits: 15, length: 4 })
        &&& words::begins(words::behind(cursor, 4), Word { bits: width - 19, length: 2 })
    } else {
        &&& words::begins(cursor, Word { bits: 15, length: 4 })
        &&& words::begins(words::behind(cursor, 4), Word { bits: 3, length: 2 })
        &&& words::begins(words::behind(cursor, 6), Word { bits: width - 22, length: 3 })
    }
}

/// The levels that can be written.
pub open spec fn is_level(level: int) -> bool {
    2 <= level < 0x4000_0002
}

/// The code table that a selector of two selects.
pub open spec fn level_table(selector: AdaptiveVlc) -> int {
    selector.table_index as int
}

/// The bits that a level takes.
#[verifier::opaque]
pub open spec fn level_length(table: int, level: int) -> int {
    let symbol = words::level_word(table, level_symbol(level)).length;
    if level < 18 {
        (symbol + level_rest(level).length) as int
    } else {
        (symbol + width_length(escape_width(level)) + escape_width(level)) as int
    }
}

/// Whether the bits at the cursor write a level: its symbol, and then its place in its class; for
/// the last class the width of a number and the number, which is what the level exceeds two and the
/// power of two of that width by.
#[verifier::opaque]
pub open spec fn level_begins(cursor: BitCursor, table: int, level: int) -> bool {
    let word = words::level_word(table, level_symbol(level));
    let next = words::behind(cursor, word.length as int);
    let width = escape_width(level);
    &&& words::begins(cursor, word)
    &&& if level < 18 {
        words::begins(next, level_rest(level))
    } else {
        &&& width_begins(next, width)
        &&& words::begins(
            words::behind(next, width_length(width) as int),
            Word { bits: level - 2 - pow2(width), length: width },
        )
    }
}

proof fn lemma_read_word(cursor: BitCursor, word: Word)
    requires
        words::begins(cursor, word),
        word.length <= 32,
    ensures
        cursor.read(word.length as u8) == (
            Ok::<u64, EntropyError>(word.bits as u64),
            words::behind(cursor, word.length as int),
        ),
        0 <= word.bits < pow2(word.length),
        pow2(word.length) <= 0x1_0000_0000,
{
    bits::lemma_bits_value_bound(cursor.bytes, cursor.position as int, word.length);
    lemma2_to64();
    if word.length < 32 {
        lemma_pow2_strictly_increases(word.length, 32);
    }
}

proof fn lemma_width(cursor: BitCursor, width: nat)
    requires
        4 <= width <= 29,
        width_begins(cursor, width),
    ensures
        coefficients::escape_width_at(cursor) == (
            Ok::<u8, EntropyError>(width as u8),
            words::behind(cursor, width_length(width) as int),
        ),
{
    if width < 19 {
        lemma_read_word(cursor, Word { bits: width - 4, length: 4 });
    } else {
        lemma_read_word(cursor, Word { bits: 15, length: 4 });
        if width < 22 {
            lemma_read_word(words::behind(cursor, 4), Word { bits: width - 19, length: 2 });
        } else {
            lemma_read_word(words::behind(cursor, 4), Word { bits: 3, length: 2 });
            lemma_read_word(words::behind(cursor, 6), Word { bits: width - 22, length: 3 });
        }
    }
}

/// A level that is written is decoded, and moves its selector by its symbol.
pub proof fn lemma_level_decodes(cursor: BitCursor, selector: AdaptiveVlc, level: int)
    requires
        is_level(level),
        level_begins(cursor, level_table(selector), level),
    ensures
        coefficients::abs_level_at(cursor, selector) == (Step {
            result: Ok::<i32, EntropyError>(level as i32),
            cursor: words::behind(cursor, level_length(level_table(selector), level)),
            state: selector.after_abs_level(level_symbol(level) as u8),
        }),
        level_length(level_table(selector), level) >= 0,
        cursor.position + level_length(level_table(selector), level) <= cursor.limit,
{
    reveal(coefficients::abs_level_at);
    reveal(level_begins);
    reveal(level_length);
    let table = level_table(selector);
    let symbol = level_symbol(level);
    let word = words::level_word(table, symbol);
    let next = words::behind(cursor, word.length as int);
    words::lemma_level_word(cursor, "ABS_LEVEL_INDEX", table, symbol);
    if level < 18 {
        lemma_read_word(next, level_rest(level));
    } else {
        let width = escape_width(level);
        lemma_halvings(level - 2);
        lemma2_to64();
        assert(width >= 4) by {
            if width < 4 {
                if width + 1 < 4 {
                    lemma_pow2_strictly_increases(width + 1, 4);
                }
            }
        }
        assert(width <= 29) by {
            if width > 29 {
                if width > 30 {
                    lemma_pow2_strictly_increases(30, width);
                }
            }
        }
        lemma_width(next, width);
        let last = words::behind(next, width_length(width) as int);
        lemma_read_word(last, Word { bits: level - 2 - pow2(width), length: width });
    }
}

/// The runs that can be written where there is room for so many zeros.
pub open spec fn is_run(run: int, room: int) -> bool {
    1 <= run <= room && room <= 14
}

/// The index of a run, where there is room for more than four zeros: the classes of runs grow with
/// the room.
pub open spec fn run_index(run: int, room: int) -> int {
    if room <= 6 {
        if run <= 4 {
            run - 1
        } else {
            4
        }
    } else if run <= 2 {
        run - 1
    } else if run <= 4 {
        2
    } else if run <= 6 {
        3
    } else {
        4
    }
}

/// The bits that tell a run from the others of its class.
pub open spec fn run_rest(run: int, room: int) -> Word {
    if room <= 6 {
        if run <= 4 {
            Word { bits: 0, length: 0 }
        } else {
            Word { bits: run - 5, length: 1 }
        }
    } else if run <= 2 {
        Word { bits: 0, length: 0 }
    } else if run <= 4 {
        Word { bits: run - 3, length: 1 }
    } else if run <= 6 {
        Word { bits: run - 5, length: 1 }
    } else if room <= 10 {
        Word { bits: run - 7, length: 2 }
    } else {
        Word { bits: run - 7, length: 3 }
    }
}

/// The bits that a run takes: none where there is room for a single zero.
#[verifier::opaque]
pub open spec fn run_length(run: int, room: int) -> int {
    if room == 1 {
        0
    } else if room == 2 {
        words::run_word_of_2(run).length as int
    } else if room == 3 {
        words::run_word_of_3(run).length as int
    } else if room == 4 {
        words::run_word_of_4(run).length as int
    } else {
        (words::run_index_word(run_index(run, room)).length + run_rest(run, room).length) as int
    }
}

/// Whether the bits at the cursor write a run of zeros.
#[verifier::opaque]
pub open spec fn run_begins(cursor: BitCursor, run: int, room: int) -> bool {
    if room == 1 {
        true
    } else if room == 2 {
        words::begins(cursor, words::run_word_of_2(run))
    } else if room == 3 {
        words::begins(cursor, words::run_word_of_3(run))
    } else if room == 4 {
        words::begins(cursor, words::run_word_of_4(run))
    } else {
        let word = words::run_index_word(run_index(run, room));
        &&& words::begins(cursor, word)
        &&& words::begins(words::behind(cursor, word.length as int), run_rest(run, room))
    }
}

/// A run that is written is decoded.
pub proof fn lemma_run_decodes(cursor: BitCursor, run: int, room: int)
    requires
        is_run(run, room),
        run_begins(cursor, run, room),
    ensures
        coefficients::run_at(cursor, room as u8) == (
            Ok::<u8, EntropyError>(run as u8),
            words::behind(cursor, run_length(run, room)),
        ),
        run_length(run, room) >= 0,
        cursor.position + run_length(run, room) <= usize::MAX,
{
    reveal(coefficients::run_at);
    reveal(run_begins);
    reveal(run_length);
    if room == 2 {
        words::lemma_run_word_of_2(cursor, "RUN_VALUE", run);
    } else if room == 3 {
        words::lemma_run_word_of_3(cursor, "RUN_VALUE", run);
    } else if room == 4 {
        words::lemma_run_word_of_4(cursor, "RUN_VALUE", run);
    } else if room >= 5 {
        let index = run_index(run, room);
        let word = words::run_index_word(index);
        let next = words::behind(cursor, word.length as int);
        words::lemma_run_index_word(cursor, "RUN_INDEX", index);
        lemma_read_word(next, run_rest(run, room));
    }
}

/// The size of a level without its sign.
pub open spec fn size_of(level: int) -> int {
    if level < 0 {
        -level
    } else {
        level
    }
}

/// The bit that says the sign of a level.
pub open spec fn sign_word(level: int) -> Word {
    Word {
        bits: if level < 0 {
            1
        } else {
            0
        },
        length: 1,
    }
}

/// The levels that a coefficient can have.
pub open spec fn is_coded(level: int) -> bool {
    size_of(level) == 1 || is_level(size_of(level))
}

/// The bits that the size of a level takes behind its sign: none for one.
pub open spec fn size_length(table: int, level: int) -> int {
    if size_of(level) == 1 {
        0
    } else {
        level_length(table, size_of(level))
    }
}

/// Whether the bits at the cursor write the size of a level.
pub open spec fn size_begins(cursor: BitCursor, table: int, level: int) -> bool {
    size_of(level) == 1 || level_begins(cursor, table, size_of(level))
}

/// What follows a coefficient: nothing, a coefficient at once, or one behind zeros.
pub open spec fn follower(rest: Seq<RunLevel>) -> int {
    if rest.len() == 0 {
        0
    } else if rest[0].run == 0 {
        1
    } else {
        2
    }
}

/// The symbol of the first coefficient of a block: whether no zeros precede it, whether its size is
/// coded, and what follows it.
pub open spec fn first_symbol(entry: RunLevel, follower: int) -> int {
    (if entry.run == 0 {
        1int
    } else {
        0
    }) + (if size_of(entry.level as int) > 1 {
        2int
    } else {
        0
    }) + 4 * follower
}

/// The context behind the first coefficient: set where no zeros precede it and none follow it.
pub open spec fn first_context(entry: RunLevel, follower: int) -> bool {
    entry.run == 0 && follower == 1
}

/// The levels selector for a context.
pub open spec fn size_selector(state: AcVlcState, context: bool) -> AdaptiveVlc {
    if context {
        state.abs_level[1]
    } else {
        state.abs_level[0]
    }
}

/// The first-index selector of a class of components.
pub open spec fn first_selector(state: AcVlcState, chroma: bool) -> AdaptiveVlc {
    if chroma {
        state.first_index[1]
    } else {
        state.first_index[0]
    }
}

/// The index selector of a class of components and a context.
pub open spec fn index_selector(state: AcVlcState, chroma: bool, context: bool) -> AdaptiveVlc {
    let selectors = if chroma {
        state.index[1]
    } else {
        state.index[0]
    };
    if context {
        selectors[1]
    } else {
        selectors[0]
    }
}

/// Whether a state is another one in which only the level selector of a context has seen a level.
pub open spec fn saw_size(
    before: AcVlcState,
    after: AcVlcState,
    context: bool,
    level: int,
) -> bool {
    &&& after.first_index == before.first_index
    &&& after.index == before.index
    &&& size_selector(after, !context) == size_selector(before, !context)
    &&& size_selector(after, context) == (if size_of(level) == 1 {
        size_selector(before, context)
    } else {
        size_selector(before, context).after_abs_level(level_symbol(size_of(level)) as u8)
    })
}

/// Whether a state is another one in which only the first-index selector of a class has seen a
/// symbol.
pub open spec fn saw_first(
    before: AcVlcState,
    after: AcVlcState,
    chroma: bool,
    symbol: int,
) -> bool {
    &&& after.index == before.index
    &&& after.abs_level == before.abs_level
    &&& first_selector(after, !chroma) == first_selector(before, !chroma)
    &&& first_selector(after, chroma) == first_selector(before, chroma).after_first_index(
        symbol as u8,
    )
}

/// Whether a state is another one in which only the index selector of a class and a context has
/// seen a symbol, before the last two locations.
pub open spec fn saw_index(
    before: AcVlcState,
    after: AcVlcState,
    chroma: bool,
    context: bool,
    reached: int,
    symbol: int,
) -> bool {
    &&& after.first_index == before.first_index
    &&& after.abs_level == before.abs_level
    &&& index_selector(after, !chroma, true) == index_selector(before, !chroma, true)
    &&& index_selector(after, !chroma, false) == index_selector(before, !chroma, false)
    &&& index_selector(after, chroma, !context) == index_selector(before, chroma, !context)
    &&& index_selector(after, chroma, context) == (if reached < 15 {
        index_selector(before, chroma, context).after_index(symbol as u8)
    } else {
        index_selector(before, chroma, context)
    })
}

proof fn lemma_sign(cursor: BitCursor, level: int)
    requires
        words::begins(cursor, sign_word(level)),
    ensures
        cursor.read_bit() == (
            Ok::<bool, EntropyError>(level < 0),
            words::behind(cursor, 1),
        ),
{
}

proof fn lemma_size(cursor: BitCursor, context: bool, state: AcVlcState, level: int)
    requires
        is_coded(level),
        size_begins(cursor, level_table(size_selector(state, context)), level),
    ensures
        ({
            let magnitude = coefficients::magnitude_at(
                cursor,
                size_of(level) > 1,
                context,
                state,
            );
            &&& magnitude.result == Ok::<i32, EntropyError>(size_of(level) as i32)
            &&& magnitude.cursor == words::behind(
                cursor,
                size_length(level_table(size_selector(state, context)), level),
            )
            &&& saw_size(state, magnitude.state, context, level)
        }),
        size_length(level_table(size_selector(state, context)), level) >= 0,
        cursor.position + size_length(level_table(size_selector(state, context)), level)
            <= usize::MAX,
{
    if size_of(level) > 1 {
        lemma_level_decodes(cursor, size_selector(state, context), size_of(level));
    }
}

/// The bits that the first coefficient of a block takes.
pub open spec fn first_length(
    state: AcVlcState,
    chroma: bool,
    start: int,
    entry: RunLevel,
    follower: int,
) -> int {
    let word = words::first_index_word(
        first_selector(state, chroma).table_index as int,
        first_symbol(entry, follower),
    );
    let table = level_table(size_selector(state, first_context(entry, follower)));
    word.length + 1 + size_length(table, entry.level as int) + (if entry.run == 0 {
        0
    } else {
        run_length(entry.run as int, 15 - start)
    })
}

/// Whether the bits at the cursor write the first coefficient of a block: its symbol, its sign, its
/// size unless that is one, and the zeros before it, if any.
pub open spec fn first_begins(
    cursor: BitCursor,
    state: AcVlcState,
    chroma: bool,
    start: int,
    entry: RunLevel,
    follower: int,
) -> bool {
    let word = words::first_index_word(
        first_selector(state, chroma).table_index as int,
        first_symbol(entry, follower),
    );
    let table = level_table(size_selector(state, first_context(entry, follower)));
    let sign = words::behind(cursor, word.length as int);
    let size = words::behind(sign, 1);
    let run = words::behind(size, size_length(table, entry.level as int));
    &&& words::begins(cursor, word)
    &&& words::begins(sign, sign_word(entry.level as int))
    &&& size_begins(size, table, entry.level as int)
    &&& entry.run > 0 ==> run_begins(run, entry.run as int, 15 - start)
}

/// Whether the first coefficient of a block can be written.
pub open spec fn first_fits(start: int, entry: RunLevel, follower: int) -> bool {
    &&& 1 <= start <= 15
    &&& start + entry.run <= 15
    &&& is_coded(entry.level as int)
    &&& 0 <= follower <= 2
}

/// Whether a state is what the first coefficient of a block leaves behind.
pub open spec fn first_state(
    before: AcVlcState,
    after: AcVlcState,
    chroma: bool,
    entry: RunLevel,
    follower: int,
) -> bool {
    exists|between: AcVlcState| #[trigger]
        saw_first(before, between, chroma, first_symbol(entry, follower)) && saw_size(
            between,
            after,
            first_context(entry, follower),
            entry.level as int,
        )
}

proof fn lemma_first_symbol(cursor: BitCursor, selector: AdaptiveVlc, symbol: int)
    requires
        0 <= symbol < 12,
        words::begins(
            cursor,
            words::first_index_word(selector.table_index as int, symbol),
        ),
    ensures
        coefficients::first_index_at(cursor, selector) == (Step {
            result: Ok::<u8, EntropyError>(symbol as u8),
            cursor: words::behind(
                cursor,
                words::first_index_word(selector.table_index as int, symbol).length as int,
            ),
            state: selector.after_first_index(symbol as u8),
        }),
{
    reveal(coefficients::first_index_at);
    words::lemma_first_index_word(cursor, "FIRST_INDEX", selector.table_index as int, symbol);
}

/// The first coefficient of a block that is written is decoded: with its sign, behind its zeros.
#[verifier::rlimit(60)]
pub proof fn lemma_first_coefficient_decodes(
    cursor: BitCursor,
    chroma: bool,
    start: u8,
    state: AcVlcState,
    entry: RunLevel,
    follower: int,
)
    requires
        first_fits(start as int, entry, follower),
        first_begins(cursor, state, chroma, start as int, entry, follower),
    ensures
        ({
            let first = coefficients::first_coefficient_at(cursor, chroma, start, state);
            &&& first.result == Ok::<BlockCoefficient, EntropyError>(
                BlockCoefficient {
                    entry,
                    location: (start + entry.run + 1) as u8,
                    successors: follower as u8,
                    context: first_context(entry, follower),
                },
            )
            &&& first.cursor == words::behind(
                cursor,
                first_length(state, chroma, start as int, entry, follower),
            )
            &&& first_state(state, first.state, chroma, entry, follower)
        }),
{
    reveal(coefficients::first_coefficient_at);
    let symbol = first_symbol(entry, follower);
    let selector = first_selector(state, chroma);
    let word = words::first_index_word(selector.table_index as int, symbol);
    lemma_first_symbol(cursor, selector, symbol);
    let indexed = coefficients::with_first_index(
        state,
        chroma,
        selector.after_first_index(symbol as u8),
    );
    assert(saw_first(state, indexed, chroma, symbol));
    let sign = words::behind(cursor, word.length as int);
    lemma_sign(sign, entry.level as int);
    let size = words::behind(sign, 1);
    let context = first_context(entry, follower);
    let table = level_table(size_selector(state, context));
    assert(size_selector(indexed, context) == size_selector(state, context));
    assert(symbol / 4 == follower && symbol % 2 == (if entry.run == 0 {
        1int
    } else {
        0
    }) && (symbol / 2) % 2 == (if size_of(entry.level as int) > 1 {
        1int
    } else {
        0
    }));
    lemma_size(size, context, indexed, entry.level as int);
    let run = words::behind(size, size_length(table, entry.level as int));
    if entry.run > 0 {
        lemma_run_decodes(run, entry.run as int, 15 - start);
    }
    let first = coefficients::first_coefficient_at(cursor, chroma, start, state);
    let length = first_length(state, chroma, start as int, entry, follower);
    assert(first.result is Ok);
    assert(first.cursor.position == cursor.position + length);
    assert(saw_size(indexed, first.state, context, entry.level as int));
}

/// The symbol of a further coefficient: whether its size is coded, and what follows it.
pub open spec fn next_symbol(entry: RunLevel, follower: int) -> int {
    (if size_of(entry.level as int) > 1 {
        1int
    } else {
        0
    }) + 2 * follower
}

/// The word of an index symbol: the number of symbols falls towards the end of the block, as less
/// and less can follow.
pub open spec fn symbol_word(table: int, reached: int, symbol: int) -> Word {
    if reached < 15 {
        words::index_word(table, symbol)
    } else if reached == 15 {
        words::late_index_word(symbol)
    } else {
        Word { bits: symbol, length: 1 }
    }
}

/// Whether a further coefficient can be written at a location.
pub open spec fn next_fits(location: int, entry: RunLevel, follower: int) -> bool {
    let reached = location + entry.run + 1;
    &&& 1 <= location
    &&& reached <= 16
    &&& is_coded(entry.level as int)
    &&& 0 <= follower <= 2
    &&& reached == 15 ==> follower <= 1
    &&& reached == 16 ==> follower == 0
}

/// The context behind a further coefficient: it stays set as long as no zeros follow.
pub open spec fn next_context(context: bool, follower: int) -> bool {
    context && follower == 1
}

/// The bits that the zeros before a further coefficient take.
pub open spec fn gap_length(location: int, entry: RunLevel) -> int {
    if entry.run == 0 {
        0
    } else {
        run_length(entry.run as int, 15 - location)
    }
}

/// The word of the index symbol of a further coefficient.
pub open spec fn next_word(
    state: AcVlcState,
    chroma: bool,
    location: int,
    context: bool,
    entry: RunLevel,
    follower: int,
) -> Word {
    symbol_word(
        index_selector(state, chroma, context).table_index as int,
        location + entry.run + 1,
        next_symbol(entry, follower),
    )
}

/// The bits that a further coefficient takes.
pub open spec fn next_length(
    state: AcVlcState,
    chroma: bool,
    location: int,
    context: bool,
    entry: RunLevel,
    follower: int,
) -> int {
    let table = level_table(size_selector(state, next_context(context, follower)));
    gap_length(location, entry) + next_word(
        state,
        chroma,
        location,
        context,
        entry,
        follower,
    ).length + 1 + size_length(table, entry.level as int)
}

/// Whether the bits at the cursor write a further coefficient: the zeros before it, if any, its
/// symbol, its sign, and its size unless that is one.
pub open spec fn next_begins(
    cursor: BitCursor,
    state: AcVlcState,
    chroma: bool,
    location: int,
    context: bool,
    entry: RunLevel,
    follower: int,
) -> bool {
    let table = level_table(size_selector(state, next_context(context, follower)));
    let word = next_word(state, chroma, location, context, entry, follower);
    let index = words::behind(cursor, gap_length(location, entry));
    let sign = words::behind(index, word.length as int);
    let size = words::behind(sign, 1);
    &&& entry.run > 0 ==> run_begins(cursor, entry.run as int, 15 - location)
    &&& words::begins(index, word)
    &&& words::begins(sign, sign_word(entry.level as int))
    &&& size_begins(size, table, entry.level as int)
}

/// Whether a state is what a further coefficient leaves behind.
pub open spec fn next_state(
    before: AcVlcState,
    after: AcVlcState,
    chroma: bool,
    location: int,
    context: bool,
    entry: RunLevel,
    follower: int,
) -> bool {
    exists|between: AcVlcState| #[trigger]
        saw_index(
            before,
            between,
            chroma,
            context,
            location + entry.run + 1,
            next_symbol(entry, follower),
        ) && saw_size(between, after, next_context(context, follower), entry.level as int)
}

proof fn lemma_index_symbol(cursor: BitCursor, reached: u8, selector: AdaptiveVlc, symbol: int)
    requires
        reached <= 16,
        0 <= symbol < 6,
        reached == 15 ==> symbol < 4,
        reached == 16 ==> symbol < 2,
        words::begins(
            cursor,
            symbol_word(selector.table_index as int, reached as int, symbol),
        ),
    ensures
        coefficients::index_at(cursor, reached, selector) == (Step {
            result: Ok::<u8, EntropyError>(symbol as u8),
            cursor: words::behind(
                cursor,
                symbol_word(
                    selector.table_index as int,
                    reached as int,
                    symbol,
                ).length as int,
            ),
            state: if reached < 15 {
                selector.after_index(symbol as u8)
            } else {
                selector
            },
        }),
{
    reveal(coefficients::index_at);
    if reached < 15 {
        words::lemma_index_word(cursor, "INDEX_A", selector.table_index as int, symbol);
    } else if reached == 15 {
        words::lemma_late_index_word(cursor, "INDEX_B", symbol);
    }
}

/// A further coefficient that is written is decoded: with its sign, behind its zeros.
#[verifier::rlimit(60)]
pub proof fn lemma_next_coefficient_decodes(
    cursor: BitCursor,
    chroma: bool,
    location: u8,
    context: bool,
    state: AcVlcState,
    entry: RunLevel,
    follower: int,
)
    requires
        next_fits(location as int, entry, follower),
        next_begins(cursor, state, chroma, location as int, context, entry, follower),
    ensures
        ({
            let successors: u8 = if entry.run == 0 {
                1
            } else {
                2
            };
            let next = coefficients::next_coefficient_at(
                cursor,
                chroma,
                location,
                successors,
                context,
                state,
            );
            &&& next.result == Ok::<BlockCoefficient, EntropyError>(
                BlockCoefficient {
                    entry,
                    location: (location + entry.run + 1) as u8,
                    successors: follower as u8,
                    context: next_context(context, follower),
                },
            )
            &&& next.cursor == words::behind(
                cursor,
                next_length(state, chroma, location as int, context, entry, follower),
            )
            &&& next_state(
                state,
                next.state,
                chroma,
                location as int,
                context,
                entry,
                follower,
            )
        }),
{
    reveal(coefficients::next_coefficient_at);
    let symbol = next_symbol(entry, follower);
    let selector = index_selector(state, chroma, context);
    let reached = location + entry.run + 1;
    let word = next_word(state, chroma, location as int, context, entry, follower);
    if entry.run > 0 {
        lemma_run_decodes(cursor, entry.run as int, 15 - location);
    }
    let index = words::behind(cursor, gap_length(location as int, entry));
    let observed = if reached < 15 {
        selector.after_index(symbol as u8)
    } else {
        selector
    };
    assert(symbol / 2 == follower && symbol % 2 == (if size_of(entry.level as int) > 1 {
        1int
    } else {
        0
    }));
    lemma_index_symbol(index, reached as u8, selector, symbol);
    let indexed = coefficients::with_index(state, chroma, context, observed);
    assert(saw_index(state, indexed, chroma, context, reached, symbol));
    let sign = words::behind(index, word.length as int);
    lemma_sign(sign, entry.level as int);
    let size = words::behind(sign, 1);
    let inner = next_context(context, follower);
    assert(size_selector(indexed, inner) == size_selector(state, inner));
    lemma_size(size, inner, indexed, entry.level as int);
    let successors: u8 = if entry.run == 0 {
        1
    } else {
        2
    };
    let next = coefficients::next_coefficient_at(
        cursor,
        chroma,
        location,
        successors,
        context,
        state,
    );
    let length = next_length(state, chroma, location as int, context, entry, follower);
    assert(next.result is Ok);
    assert(next.cursor.position == cursor.position + length);
    assert(saw_size(indexed, next.state, inner, entry.level as int));
}

/// What precedes a further coefficient as the one before it announces it.
spec fn announced(entry: RunLevel) -> u8 {
    if entry.run == 0 {
        1
    } else {
        2
    }
}

/// Whether the bits at the cursor write the further coefficients of a block, one behind the other:
/// each announces whether another one follows, and whether zeros precede that.
pub closed spec fn rest_begins(
    cursor: BitCursor,
    chroma: bool,
    location: int,
    context: bool,
    state: AcVlcState,
    entries: Seq<RunLevel>,
) -> bool
    decreases entries.len(),
{
    entries.len() > 0 ==> {
        let entry = entries[0];
        let rest = entries.drop_first();
        let next = coefficients::next_coefficient_at(
            cursor,
            chroma,
            location as u8,
            announced(entry),
            context,
            state,
        );
        &&& next_fits(location, entry, follower(rest))
        &&& next_begins(cursor, state, chroma, location, context, entry, follower(rest))
        &&& rest_begins(
            words::behind(
                cursor,
                next_length(state, chroma, location, context, entry, follower(rest)),
            ),
            chroma,
            location + entry.run + 1,
            next_context(context, follower(rest)),
            next.state,
            rest,
        )
    }
}

proof fn lemma_rest_decodes(
    cursor: BitCursor,
    chroma: bool,
    location: u8,
    context: bool,
    state: AcVlcState,
    entries: Seq<RunLevel>,
    done: Seq<RunLevel>,
)
    requires
        rest_begins(cursor, chroma, location as int, context, state, entries),
    ensures
        coefficients::coefficients_from(
            cursor,
            chroma,
            location,
            follower(entries) as u8,
            context,
            state,
            done,
        ).result == Ok::<Seq<RunLevel>, EntropyError>(done + entries),
    decreases entries.len(),
{
    if entries.len() > 0 {
        let entry = entries[0];
        let rest = entries.drop_first();
        lemma_next_coefficient_decodes(
            cursor,
            chroma,
            location,
            context,
            state,
            entry,
            follower(rest),
        );
        let next = coefficients::next_coefficient_at(
            cursor,
            chroma,
            location,
            announced(entry),
            context,
            state,
        );
        lemma_rest_decodes(
            next.cursor,
            chroma,
            (location + entry.run + 1) as u8,
            next_context(context, follower(rest)),
            next.state,
            rest,
            done.push(entry),
        );
        assert(done.push(entry) + rest =~= done + entries);
    } else {
        assert(done + entries =~= done);
    }
}

/// Whether the bits at the cursor write the coefficients of a block.
pub closed spec fn block_begins(
    cursor: BitCursor,
    chroma: bool,
    start: u8,
    state: AcVlcState,
    entries: Seq<RunLevel>,
) -> bool {
    let entry = entries[0];
    let rest = entries.drop_first();
    let first = coefficients::first_coefficient_at(cursor, chroma, start, state);
    &&& entries.len() >= 1
    &&& first_fits(start as int, entry, follower(rest))
    &&& first_begins(cursor, state, chroma, start as int, entry, follower(rest))
    &&& rest_begins(
        words::behind(cursor, first_length(state, chroma, start as int, entry, follower(rest))),
        chroma,
        start + entry.run + 1,
        first_context(entry, follower(rest)),
        first.state,
        rest,
    )
}

/// A block that is written is decoded: all its coefficients come out, in order, each with its sign
/// and behind its zeros.
pub proof fn lemma_block_decodes(
    cursor: BitCursor,
    band: FrequencyBand,
    class: ComponentClass,
    start: u8,
    state: AcVlcState,
    entries: Seq<RunLevel>,
)
    requires
        band != FrequencyBand::Dc,
        block_begins(cursor, class == ComponentClass::Chroma, start, state, entries),
    ensures
        coefficients::block_at(cursor, band, class, start, state).result == Ok::<
            Seq<RunLevel>,
            EntropyError,
        >(entries),
{
    let chroma = class == ComponentClass::Chroma;
    let entry = entries[0];
    let rest = entries.drop_first();
    lemma_first_coefficient_decodes(cursor, chroma, start, state, entry, follower(rest));
    let first = coefficients::first_coefficient_at(cursor, chroma, start, state);
    lemma_rest_decodes(
        first.cursor,
        chroma,
        (start + entry.run + 1) as u8,
        first_context(entry, follower(rest)),
        first.state,
        rest,
        seq![entry],
    );
    assert(seq![entry] + rest =~= entries);
}

/// The upper part of a DC coefficient, without its sign and its lowest bits.
pub open spec fn upper_part(value: int, model_bits: u8) -> int {
    size_of(value) / (pow2(model_bits as nat) as int)
}

/// Whether the bits at the cursor write a DC coefficient: its upper part, more by one, as a level
/// unless it is zero, its lowest bits, and its sign unless it is zero.
pub open spec fn dc_begins(
    cursor: BitCursor,
    model_bits: u8,
    table: int,
    value: int,
) -> bool {
    let upper = upper_part(value, model_bits);
    let low = words::behind(cursor, dc_upper_length(table, upper));
    &&& upper > 0 ==> level_begins(cursor, table, upper + 1)
    &&& words::begins(
        low,
        Word { bits: size_of(value) % (pow2(model_bits as nat) as int), length: model_bits as nat },
    )
    &&& value != 0 ==> words::begins(words::behind(low, model_bits as int), sign_word(value))
}

/// The bits that the upper part of a DC coefficient takes.
pub open spec fn dc_upper_length(table: int, upper: int) -> int {
    if upper > 0 {
        level_length(table, upper + 1)
    } else {
        0
    }
}

/// The bits that a DC coefficient takes.
pub open spec fn dc_length(model_bits: u8, table: int, value: int) -> int {
    dc_upper_length(table, upper_part(value, model_bits)) + model_bits + (if value == 0 {
        0int
    } else {
        1
    })
}

/// The DC selector of a class of components.
pub open spec fn dc_selector(state: DcVlcState, class: ComponentClass) -> AdaptiveVlc {
    if class == ComponentClass::Chroma {
        state.abs_level[1]
    } else {
        state.abs_level[0]
    }
}

/// A DC coefficient that is written is decoded, with its sign.
pub proof fn lemma_dc_decodes(
    cursor: BitCursor,
    model_bits: u8,
    class: ComponentClass,
    state: DcVlcState,
    value: int,
)
    requires
        model_bits <= 15,
        -0x7FFF_FFFF <= value <= 0x7FFF_FFFF,
        upper_part(value, model_bits) <= 0x4000_0000,
        dc_begins(cursor, model_bits, level_table(dc_selector(state, class)), value),
    ensures
        ({
            let table = level_table(dc_selector(state, class));
            let step = coefficients::dc_coefficient_at(
                cursor,
                model_bits,
                upper_part(value, model_bits) > 0,
                class,
                state,
            );
            &&& step.result == Ok::<i32, EntropyError>(value as i32)
            &&& step.cursor == words::behind(cursor, dc_length(model_bits, table, value))
        }),
{
    let table = level_table(dc_selector(state, class));
    let unit = pow2(model_bits as nat) as int;
    let size = size_of(value);
    let upper = upper_part(value, model_bits);
    lemma_pow2_pos(model_bits as nat);
    assert(size == upper * unit + size % unit && 0 <= size % unit < unit && upper >= 0)
        by (nonlinear_arith)
        requires
            unit > 0,
            size >= 0,
            upper == size / unit,
    ;
    if upper > 0 {
        lemma_level_decodes(cursor, dc_selector(state, class), upper + 1);
    }
    let low = words::behind(cursor, dc_upper_length(table, upper));
    let word = Word { bits: size % unit, length: model_bits as nat };
    lemma_read_word(low, word);
    let sign = words::behind(low, model_bits as int);
    if value != 0 {
        lemma_sign(sign, value);
    }
    if model_bits == 0 {
        lemma2_to64();
        assert(upper * unit == upper) by (nonlinear_arith)
            requires
                unit == 1,
        ;
        assert(size == upper);
    } else {
        assert(coefficients::refined(upper as i32, model_bits, size % unit) == Ok::<
            i32,
            EntropyError,
        >(size as i32));
    }
}

/// Whether the bits at the cursor write a flexbits value beside a coefficient: its size, and its
/// sign where the coefficient has none and the value is not zero.
pub open spec fn flex_begins(cursor: BitCursor, coefficient: int, width: u8, value: int) -> bool {
    &&& words::begins(cursor, Word { bits: size_of(value), length: width as nat })
    &&& coefficient == 0 && value != 0 ==> words::begins(
        words::behind(cursor, width as int),
        sign_word(value),
    )
    &&& coefficient > 0 ==> value >= 0
    &&& coefficient < 0 ==> value <= 0
}

/// The bits that a flexbits value takes.
pub open spec fn flex_length(coefficient: int, width: u8, value: int) -> int {
    if coefficient == 0 && value != 0 {
        width + 1
    } else {
        width as int
    }
}

/// A flexbits value that is written is decoded: with the sign of the coefficient that it refines,
/// and its own sign where that is zero.
pub proof fn lemma_flex_decodes(cursor: BitCursor, coefficient: i32, width: u8, value: int)
    requires
        width <= 29,
        flex_begins(cursor, coefficient as int, width, value),
    ensures
        refinement::flex_at(cursor, coefficient, width) == (
            Ok::<i32, EntropyError>(value as i32),
            words::behind(cursor, flex_length(coefficient as int, width, value)),
        ),
{
    let word = Word { bits: size_of(value), length: width as nat };
    lemma_read_word(cursor, word);
    lemma2_to64();
    if width < 29 {
        lemma_pow2_strictly_increases(width as nat, 29);
    }
    if coefficient == 0 && value != 0 {
        lemma_sign(words::behind(cursor, width as int), value);
    }
}

/// The position of the flexbits with a number: column by column.
pub open spec fn flex_position(number: int) -> int {
    4 * (number % 4) + number / 4
}

/// Whether the bits at the cursor write the flexbits of a block from a number on, one behind the
/// other.
pub open spec fn flex_block_begins(
    cursor: BitCursor,
    coefficients: Seq<i32>,
    width: u8,
    values: Seq<int>,
    number: int,
) -> bool
    decreases 16 - number,
{
    number < 16 ==> {
        let position = flex_position(number);
        &&& flex_begins(cursor, coefficients[position] as int, width, values[position])
        &&& flex_block_begins(
            words::behind(
                cursor,
                flex_length(coefficients[position] as int, width, values[position]),
            ),
            coefficients,
            width,
            values,
            number + 1,
        )
    }
}

proof fn lemma_flex_positions()
    ensures
        forall|number: int|
            0 <= number < 16 ==> #[trigger] refinement::TRANSPOSE[number] == flex_position(number),
        forall|number: int, other: int|
            0 <= number < other < 16 ==> flex_position(number) != flex_position(other),
        forall|number: int| 0 <= number < 16 ==> 0 <= #[trigger] flex_position(number) < 16,
{
    assert forall|number: int| 0 <= number < 16 implies #[trigger] refinement::TRANSPOSE[number]
        == flex_position(number) by {
        if number == 0 || number == 1 || number == 2 || number == 3 {
        } else if number == 4 || number == 5 || number == 6 || number == 7 {
        } else if number == 8 || number == 9 || number == 10 || number == 11 {
        } else {
            assert(number == 12 || number == 13 || number == 14 || number == 15);
        }
    }
}

proof fn lemma_flex_rest_decodes(
    cursor: BitCursor,
    coefficients: Seq<i32>,
    width: u8,
    trim: u8,
    values: Seq<int>,
    number: nat,
    output: Seq<i32>,
)
    requires
        width <= 29,
        output.len() == 16,
        flex_block_begins(cursor, coefficients, width, values, number as int),
    ensures
        ({
            let result = refinement::flex_block_from(
                cursor,
                coefficients,
                width,
                trim,
                number,
                output,
            ).0;
            &&& result is Ok
            &&& result->Ok_0.len() == 16
            &&& forall|other: int|
                number <= other < 16 ==> result->Ok_0[#[trigger] flex_position(other)] == (
                values[flex_position(other)] as i32 * pow2(trim as nat)) as i32
            &&& forall|other: int|
                0 <= other < 16 && other < number ==> result->Ok_0[#[trigger] flex_position(other)]
                    == output[flex_position(other)]
        }),
    decreases 16 - number,
{
    lemma_flex_positions();
    if number < 16 {
        let position = flex_position(number as int);
        assert(refinement::TRANSPOSE[number as int] == position);
        lemma_flex_decodes(cursor, coefficients[position], width, values[position]);
        lemma_flex_rest_decodes(
            words::behind(
                cursor,
                flex_length(coefficients[position] as int, width, values[position]),
            ),
            coefficients,
            width,
            trim,
            values,
            number + 1,
            output.update(position, (values[position] as i32 * pow2(trim as nat)) as i32),
        );
    }
}

/// Flexbits that are written are decoded: each value comes to its position, moved up by the bits
/// that were left out, and the first position stays zero.
pub proof fn lemma_flex_block_decodes(
    cursor: BitCursor,
    coefficients: Seq<i32>,
    model_bits: u8,
    trim: u8,
    values: Seq<int>,
)
    requires
        trim < model_bits <= 15,
        flex_block_begins(cursor, coefficients, (model_bits - trim) as u8, values, 1),
    ensures
        ({
            let result = refinement::flex_block_at(cursor, coefficients, model_bits, trim).0;
            &&& result is Ok
            &&& result->Ok_0[0] == 0
            &&& forall|number: int|
                1 <= number < 16 ==> result->Ok_0[#[trigger] flex_position(number)] == (
                values[flex_position(number)] as i32 * pow2(trim as nat)) as i32
        }),
{
    lemma_flex_positions();
    lemma_flex_rest_decodes(
        cursor,
        coefficients,
        (model_bits - trim) as u8,
        trim,
        values,
        1,
        Seq::new(16, |i: int| 0i32),
    );
    assert(flex_position(0) == 0);
}

} // verus!

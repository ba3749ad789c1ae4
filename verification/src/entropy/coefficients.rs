//! DC, LP, HP, and flexbits coefficient parsing primitives.

use super::adaptive;
use super::adaptive::{AcVlcState, AdaptiveVlc, DcVlcState};
use super::bit_reader::{BitCursor, PacketBitReader};
use super::error::EntropyError;
use super::scan;
use super::scan::{AdaptiveHpScan, AdaptiveLpScan, HpScanDirection};
use super::vlc;
use crate::bits;
use vstd::arithmetic::power2::*;
use vstd::prelude::*;

verus! {

/// The smallest level of each absolute-level symbol.
pub const ABS_REMAP: [i32; 6] = [2, 3, 4, 6, 10, 14];

/// The number of bits that follow each absolute-level symbol.
pub const ABS_FIXED_LENGTH: [u8; 6] = [0, 0, 1, 2, 2, 2];

/// The smallest run of each run-index row.
pub const RUN_REMAP: [u8; 15] = [1, 2, 3, 5, 7, 1, 2, 3, 5, 7, 1, 2, 3, 4, 5];

/// The group of run-index rows for each largest run.
pub const RUN_BIN: [i8; 15] = [-1, -1, -1, -1, 2, 2, 2, 1, 1, 1, 1, 0, 0, 0, 0];

/// The number of bits that follow each run-index row.
pub const RUN_FIXED_LENGTH: [u8; 15] = [0, 0, 1, 1, 3, 0, 0, 1, 1, 2, 0, 0, 0, 0, 1];

/// A JPEG XR frequency band.
#[derive(Debug, Clone, Copy, PartialEq, Eq, Structural)]
pub enum FrequencyBand {
    /// DC coefficients.
    Dc,
    /// Lowpass coefficients.
    Lowpass,
    /// Highpass coefficients.
    Highpass,
}

impl FrequencyBand {
    /// The number of the band, counted from DC.
    pub open spec fn rank(self) -> usize {
        match self {
            FrequencyBand::Dc => 0,
            FrequencyBand::Lowpass => 1,
            FrequencyBand::Highpass => 2,
        }
    }

    /// Returns the number of the band, counted from DC.
    pub fn index(self) -> (index: usize)
        ensures
            index == self.rank(),
            index < 3,
    {
        match self {
            FrequencyBand::Dc => 0,
            FrequencyBand::Lowpass => 1,
            FrequencyBand::Highpass => 2,
        }
    }
}

/// Whether a syntax element uses luma or chroma adaptive state.
#[derive(Debug, Clone, Copy, PartialEq, Eq, Structural)]
pub enum ComponentClass {
    /// The first component in an image plane.
    Luma,
    /// Any component after the first.
    Chroma,
}

impl ComponentClass {
    /// Returns whether this is the class of chroma components.
    pub fn is_chroma(self) -> (chroma: bool)
        ensures
            chroma == (self == ComponentClass::Chroma),
    {
        matches!(self, ComponentClass::Chroma)
    }
}

/// One run/level pair in codestream order.
#[derive(Debug, Clone, Copy, Default, PartialEq, Eq, Structural)]
pub struct RunLevel {
    /// Number of zero coefficients before this coefficient.
    pub run: u8,
    /// Signed, non-zero coefficient part that a code word carries.
    pub level: i32,
}

/// What reading one value gives, where it leaves the cursor, and the state it leaves behind.
pub struct Step<T, S> {
    /// The value or the error.
    pub result: Result<T, EntropyError>,
    /// The cursor afterwards.
    pub cursor: BitCursor,
    /// The adaptive state afterwards.
    pub state: S,
}

/// The magnitude with its sign, which 32 bits cannot hold for the smallest number.
pub open spec fn with_sign(magnitude: i32, negative: bool) -> Result<i32, EntropyError> {
    if !negative {
        Ok(magnitude)
    } else if magnitude == i32::MIN {
        Err(EntropyError::CoefficientOverflow)
    } else {
        Ok((-magnitude) as i32)
    }
}

pub(crate) fn signed(magnitude: i32, negative: bool) -> (result: Result<i32, EntropyError>)
    ensures
        result == with_sign(magnitude, negative),
{
    if negative {
        if magnitude == i32::MIN {
            Err(EntropyError::CoefficientOverflow)
        } else {
            Ok(-magnitude)
        }
    } else {
        Ok(magnitude)
    }
}

/// A value and the sign bit that follows it; zero has none.
pub open spec fn signed_at(cursor: BitCursor, value: i32) -> (Result<i32, EntropyError>, BitCursor) {
    if value == 0 {
        (Ok(0), cursor)
    } else {
        match cursor.read_bit() {
            (Err(error), next) => (Err(error), next),
            (Ok(negative), next) => (with_sign(value, negative), next),
        }
    }
}

pub(crate) fn apply_sign(reader: &mut PacketBitReader<'_>, value: i32) -> (result: Result<
    i32,
    EntropyError,
>)
    ensures
        (result, final(reader)@) == signed_at(old(reader)@, value),
{
    if value == 0 {
        return Ok(0);
    }
    let negative: bool = reader.read_bit()?;
    signed(value, negative)
}

/// The width of the number that follows an escaped level: 4 more than a 4-bit number, which two
/// further numbers extend when they are reached.
pub open spec fn escape_width_at(cursor: BitCursor) -> (Result<u8, EntropyError>, BitCursor) {
    match cursor.read(4) {
        (Err(error), next) => (Err(error), next),
        (Ok(first), next) => if first + 4 != 19 {
            (Ok((first + 4) as u8), next)
        } else {
            match next.read(2) {
                (Err(error), next) => (Err(error), next),
                (Ok(second), next) => if 19 + second != 22 {
                    (Ok((19 + second) as u8), next)
                } else {
                    match next.read(3) {
                        (Err(error), next) => (Err(error), next),
                        (Ok(third), next) => (Ok((22 + third) as u8), next),
                    }
                },
            }
        },
    }
}

/// The level that an absolute-level symbol and the bits after it stand for.
pub open spec fn level_at(cursor: BitCursor, symbol: u8) -> (Result<i32, EntropyError>, BitCursor) {
    if symbol < 6 {
        match cursor.read(ABS_FIXED_LENGTH[symbol as int]) {
            (Err(error), next) => (Err(error), next),
            (Ok(refinement), next) => (Ok((ABS_REMAP[symbol as int] + refinement) as i32), next),
        }
    } else {
        match escape_width_at(cursor) {
            (Err(error), next) => (Err(error), next),
            (Ok(width), next) => match next.read(width) {
                (Err(error), next) => (Err(error), next),
                (Ok(refinement), next) => (
                    Ok((pow2(width as nat) + 2 + refinement) as i32),
                    next,
                ),
            },
        }
    }
}

/// The absolute level at the cursor.
#[verifier::opaque]
pub open spec fn abs_level_at(cursor: BitCursor, selector: AdaptiveVlc) -> Step<i32, AdaptiveVlc> {
    match vlc::symbol_at(
        cursor,
        "ABS_LEVEL_INDEX",
        vlc::abs_level_table(selector.table_index as int),
    ) {
        (Err(error), next) => Step { result: Err(error), cursor: next, state: selector },
        (Ok(symbol), next) => Step {
            result: level_at(next, symbol).0,
            cursor: level_at(next, symbol).1,
            state: selector.after_abs_level(symbol),
        },
    }
}

/// A number of `count` bits is below `2^count`.
pub proof fn lemma_read_bound(cursor: BitCursor, count: u8)
    requires
        count <= 32,
    ensures
        cursor.read(count).0 matches Ok(value) ==> value < pow2(count as nat),
        cursor.read(count).0 is Ok && count == 0 ==> cursor.read(count).0 == Ok::<
            u64,
            EntropyError,
        >(0),
        cursor.read(count).0 matches Ok(value) ==> count == 1 ==> value < 2,
        cursor.read(count).0 matches Ok(value) ==> count == 2 ==> value < 4,
        cursor.read(count).0 matches Ok(value) ==> count == 3 ==> value < 8,
        cursor.read(count).0 matches Ok(value) ==> count == 4 ==> value < 16,
        pow2(count as nat) <= 0x1_0000_0000,
{
    bits::lemma_bits_value_bound(cursor.bytes, cursor.position as int, count as nat);
    lemma2_to64();
    if count < 32 {
        lemma_pow2_strictly_increases(count as nat, 32);
    }
}

fn decode_escape_width(reader: &mut PacketBitReader<'_>) -> (result: Result<u8, EntropyError>)
    ensures
        (result, final(reader)@) == escape_width_at(old(reader)@),
        result matches Ok(width) ==> 4 <= width <= 29,
{
    proof {
        lemma_read_bound(reader@, 4);
    }
    let first: u64 = reader.read_bits(4)?;
    let mut fixed: u8 = first as u8 + 4;
    if fixed == 19 {
        proof {
            lemma_read_bound(reader@, 2);
        }
        let second: u64 = reader.read_bits(2)?;
        fixed = fixed + second as u8;
        if fixed == 22 {
            proof {
                lemma_read_bound(reader@, 3);
            }
            let third: u64 = reader.read_bits(3)?;
            fixed = fixed + third as u8;
        }
    }
    Ok(fixed)
}

pub(crate) fn power_of_two(exponent: u8) -> (power: i32)
    requires
        exponent <= 29,
    ensures
        power == pow2(exponent as nat),
        power <= 0x2000_0000,
{
    proof {
        lemma2_to64();
        if exponent < 29 {
            lemma_pow2_strictly_increases(exponent as nat, 29);
        }
        vstd::bits::lemma_u64_shl_is_mul(1, exponent as u64);
    }
    (1u64 << (exponent as u64)) as i32
}

fn decode_abs_level(reader: &mut PacketBitReader<'_>, state: &mut AdaptiveVlc) -> (result: Result<
    i32,
    EntropyError,
>)
    requires
        old(state).table_index <= 1,
        old(state).headroom(1),
    ensures
        (Step { result, cursor: final(reader)@, state: *final(state) }) == abs_level_at(
            old(reader)@,
            *old(state),
        ),
        result matches Ok(level) ==> 2 <= level,
        final(state).table_index <= 1,
        forall|distance: int| #[trigger]
            old(state).headroom(distance) ==> final(state).headroom(distance - 1),
{
    proof {
        reveal(abs_level_at);
    }
    let codes: [vlc::VlcCode; 7] = vlc::abs_level_codes(state.table_index());
    proof {
        vlc::lemma_tables_bounded();
        vlc::lemma_symbol_bound(
            reader@,
            "ABS_LEVEL_INDEX",
            vlc::abs_level_table(state.table_index as int),
            7,
        );
    }
    let symbol: u8 = vlc::decode(reader, "ABS_LEVEL_INDEX", codes.as_slice())?;
    proof {
        adaptive::lemma_abs_level_delta_bound(symbol as int);
    }
    state.observe_one(symbol, adaptive::ABS_LEVEL_DELTA.as_slice());
    if symbol < 6 {
        let fixed: u8 = ABS_FIXED_LENGTH[symbol as usize];
        proof {
            lemma_read_bound(reader@, fixed);
        }
        let refinement: u64 = reader.read_bits(fixed)?;
        return Ok(ABS_REMAP[symbol as usize] + refinement as i32);
    }
    let fixed: u8 = decode_escape_width(reader)?;
    proof {
        lemma_read_bound(reader@, fixed);
    }
    let base: i32 = power_of_two(fixed);
    let refinement: u64 = reader.read_bits(fixed)?;
    Ok(base + 2 + refinement as i32)
}

/// A coefficient moved up by its model bits, with a refinement added, if the sum fits.
pub open spec fn refined(coefficient: i32, model_bits: u8, refinement: int) -> Result<
    i32,
    EntropyError,
> {
    let sum = coefficient * pow2(model_bits as nat) + refinement;
    if i32::MIN <= sum <= i32::MAX {
        Ok(sum as i32)
    } else {
        Err(EntropyError::CoefficientOverflow)
    }
}

pub(crate) fn refine(coefficient: i32, model_bits: u8, refinement: i32) -> (result: Result<
    i32,
    EntropyError,
>)
    requires
        model_bits <= 29,
    ensures
        result == refined(coefficient, model_bits, refinement as int),
{
    let power: i64 = power_of_two(model_bits) as i64;
    proof {
        lemma_pow2_pos(model_bits as nat);
    }
    assert(-0x4000_0000_0000_0000 <= coefficient * power <= 0x4000_0000_0000_0000)
        by (nonlinear_arith)
        requires
            0 <= power <= 0x2000_0000,
    ;
    let sum: i64 = coefficient as i64 * power + refinement as i64;
    if sum < i32::MIN as i64 || sum > i32::MAX as i64 {
        return Err(EntropyError::CoefficientOverflow);
    }
    Ok(sum as i32)
}

/// The DC coefficient that starts with `coefficient` and goes on at the cursor.
pub open spec fn dc_refined_at(cursor: BitCursor, coefficient: i32, model_bits: u8) -> (
    Result<i32, EntropyError>,
    BitCursor,
) {
    if model_bits == 0 {
        signed_at(cursor, coefficient)
    } else {
        match cursor.read(model_bits) {
            (Err(error), next) => (Err(error), next),
            (Ok(refinement), next) => match refined(coefficient, model_bits, refinement as int) {
                Err(error) => (Err(error), next),
                Ok(value) => signed_at(next, value),
            },
        }
    }
}

/// An array of two with one place changed.
pub open spec fn with_place<T>(values: [T; 2], place: int, value: T) -> [T; 2] {
    if place == 0 {
        [value, values[1]]
    } else {
        [values[0], value]
    }
}

/// The DC coefficient at the cursor.
pub open spec fn dc_coefficient_at(
    cursor: BitCursor,
    model_bits: u8,
    has_abs_level: bool,
    class: ComponentClass,
    state: DcVlcState,
) -> Step<i32, DcVlcState> {
    let place = adaptive::place(class == ComponentClass::Chroma);
    if model_bits > 15 {
        Step {
            result: Err(
                EntropyError::InvalidParameter {
                    parameter: "DC model bits",
                    value: model_bits as i64,
                },
            ),
            cursor,
            state,
        }
    } else if has_abs_level {
        let level = abs_level_at(cursor, state.abs_level[place]);
        let next_state = DcVlcState { abs_level: with_place(state.abs_level, place, level.state) };
        match level.result {
            Err(error) => Step { result: Err(error), cursor: level.cursor, state: next_state },
            Ok(value) => Step {
                result: dc_refined_at(level.cursor, (value - 1) as i32, model_bits).0,
                cursor: dc_refined_at(level.cursor, (value - 1) as i32, model_bits).1,
                state: next_state,
            },
        }
    } else {
        Step {
            result: dc_refined_at(cursor, 0, model_bits).0,
            cursor: dc_refined_at(cursor, 0, model_bits).1,
            state,
        }
    }
}

/// Decodes one DC coefficient.
///
/// The discriminant of the selector must be able to move by one.
pub fn decode_dc_coefficient(
    reader: &mut PacketBitReader<'_>,
    model_bits: u8,
    has_abs_level: bool,
    class: ComponentClass,
    state: &mut DcVlcState,
) -> (result: Result<i32, EntropyError>)
    requires
        old(state).wf(),
        old(state).headroom(1),
    ensures
        (Step { result, cursor: final(reader)@, state: *final(state) }) == dc_coefficient_at(
            old(reader)@,
            model_bits,
            has_abs_level,
            class,
            *old(state),
        ),
        final(state).wf(),
{
    if model_bits > 15 {
        return Err(
            EntropyError::InvalidParameter { parameter: "DC model bits", value: model_bits as i64 },
        );
    }
    let mut coefficient: i32 = 0;
    if has_abs_level {
        let place: usize = adaptive::flag_index(class.is_chroma());
        let mut selector: AdaptiveVlc = state.abs_level[place];
        let level = decode_abs_level(reader, &mut selector);
        state.abs_level[place] = selector;
        assert(state.abs_level =~= with_place(old(state).abs_level, place as int, selector));
        coefficient = level? - 1;
    }
    if model_bits != 0 {
        proof {
            lemma_read_bound(reader@, model_bits);
            lemma2_to64();
            lemma_pow2_strictly_increases(model_bits as nat, 16);
        }
        let refinement: u64 = reader.read_bits(model_bits)?;
        coefficient = refine(coefficient, model_bits, refinement as i32)?;
    }
    apply_sign(reader, coefficient)
}

/// The error of a run that cannot be coded because of the room that is left.
pub open spec fn max_run_error(max_run: u8) -> EntropyError {
    EntropyError::InvalidParameter { parameter: "maximum coefficient run", value: max_run as i64 }
}

/// The row of the run tables that a run index selects.
pub open spec fn run_row(run_index: u8, max_run: u8) -> int {
    run_index + 5 * RUN_BIN[max_run as int]
}

/// The run of zeros at the cursor, of which there can be at most `max_run`.
#[verifier::opaque]
pub open spec fn run_at(cursor: BitCursor, max_run: u8) -> (Result<u8, EntropyError>, BitCursor) {
    if max_run == 0 || max_run > 14 {
        (Err(max_run_error(max_run)), cursor)
    } else if max_run == 1 {
        (Ok(1), cursor)
    } else if max_run == 2 {
        vlc::symbol_at(cursor, "RUN_VALUE", vlc::run_value_2_table())
    } else if max_run == 3 {
        vlc::symbol_at(cursor, "RUN_VALUE", vlc::run_value_3_table())
    } else if max_run == 4 {
        vlc::symbol_at(cursor, "RUN_VALUE", vlc::run_value_4_table())
    } else {
        match vlc::symbol_at(cursor, "RUN_INDEX", vlc::run_index_table()) {
            (Err(error), next) => (Err(error), next),
            (Ok(run_index), next) => match next.read(
                RUN_FIXED_LENGTH[run_row(run_index, max_run)],
            ) {
                (Err(error), next) => (Err(error), next),
                (Ok(refinement), next) => (
                    Ok((RUN_REMAP[run_row(run_index, max_run)] + refinement) as u8),
                    next,
                ),
            },
        }
    }
}

fn decode_run(reader: &mut PacketBitReader<'_>, max_run: u8) -> (result: Result<u8, EntropyError>)
    ensures
        (result, final(reader)@) == run_at(old(reader)@, max_run),
{
    proof {
        reveal(run_at);
    }
    if max_run == 0 || max_run > 14 {
        return Err(
            EntropyError::InvalidParameter {
                parameter: "maximum coefficient run",
                value: max_run as i64,
            },
        );
    }
    proof {
        vlc::lemma_tables_bounded();
    }
    if max_run < 5 {
        return match max_run {
            1 => Ok(1),
            2 => {
                let codes: [vlc::VlcCode; 2] = vlc::run_value_2_codes();
                vlc::decode(reader, "RUN_VALUE", codes.as_slice())
            },
            3 => {
                let codes: [vlc::VlcCode; 3] = vlc::run_value_3_codes();
                vlc::decode(reader, "RUN_VALUE", codes.as_slice())
            },
            _ => {
                let codes: [vlc::VlcCode; 4] = vlc::run_value_4_codes();
                vlc::decode(reader, "RUN_VALUE", codes.as_slice())
            },
        };
    }
    let codes: [vlc::VlcCode; 5] = vlc::run_index_codes();
    proof {
        vlc::lemma_symbol_bound(reader@, "RUN_INDEX", vlc::run_index_table(), 5);
    }
    let run_index: u8 = vlc::decode(reader, "RUN_INDEX", codes.as_slice())?;
    proof {
        assert(0 <= RUN_BIN[max_run as int] <= 2);
    }
    let row: usize = run_index as usize + 5 * (RUN_BIN[max_run as usize] as usize);
    let fixed: u8 = RUN_FIXED_LENGTH[row];
    proof {
        lemma_read_bound(reader@, fixed);
    }
    let refinement: u64 = reader.read_bits(fixed)?;
    Ok(RUN_REMAP[row] + refinement as u8)
}

/// The location after a run and the coefficient that ends it, which must not be past 16.
pub open spec fn advanced(location: u8, run: u8) -> Result<u8, EntropyError> {
    let next = location + run + 1;
    if next > 16 {
        Err(
            EntropyError::InvalidParameter {
                parameter: "coefficient location",
                value: next as i64,
            },
        )
    } else {
        Ok(next as u8)
    }
}

fn advance_location(location: u8, run: u8) -> (result: Result<u8, EntropyError>)
    ensures
        result == advanced(location, run),
{
    let next: u16 = location as u16 + run as u16 + 1;
    if next > 16 {
        return Err(
            EntropyError::InvalidParameter {
                parameter: "coefficient location",
                value: next as i64,
            },
        );
    }
    Ok(next as u8)
}

/// The first-index symbol at the cursor.
#[verifier::opaque]
pub open spec fn first_index_at(cursor: BitCursor, selector: AdaptiveVlc) -> Step<u8, AdaptiveVlc> {
    match vlc::symbol_at(
        cursor,
        "FIRST_INDEX",
        vlc::first_index_table(selector.table_index as int),
    ) {
        (Err(error), next) => Step { result: Err(error), cursor: next, state: selector },
        (Ok(symbol), next) => Step {
            result: Ok(symbol),
            cursor: next,
            state: selector.after_first_index(symbol),
        },
    }
}

fn decode_first_index(reader: &mut PacketBitReader<'_>, state: &mut AdaptiveVlc) -> (result: Result<
    u8,
    EntropyError,
>)
    requires
        old(state).within(adaptive::FIRST_INDEX_LAST_TABLE),
        old(state).headroom(2),
    ensures
        (Step { result, cursor: final(reader)@, state: *final(state) }) == first_index_at(
            old(reader)@,
            *old(state),
        ),
        result matches Ok(symbol) ==> symbol < 12,
        final(state).within(adaptive::FIRST_INDEX_LAST_TABLE),
        forall|distance: int| #[trigger]
            old(state).headroom(distance) ==> final(state).headroom(distance - 2),
{
    proof {
        reveal(first_index_at);
    }
    let codes: [vlc::VlcCode; 12] = vlc::first_index_codes(state.table_index());
    proof {
        vlc::lemma_tables_bounded();
        vlc::lemma_symbol_bound(
            reader@,
            "FIRST_INDEX",
            vlc::first_index_table(state.table_index as int),
            12,
        );
    }
    let symbol: u8 = vlc::decode(reader, "FIRST_INDEX", codes.as_slice())?;
    proof {
        adaptive::lemma_first_index_delta_bound(state.delta_index[0] as int, symbol as int);
        adaptive::lemma_first_index_delta_bound(state.delta_index[1] as int, symbol as int);
    }
    state.observe_two(symbol, &adaptive::FIRST_INDEX_DELTA);
    Ok(symbol)
}

/// The index symbol at the cursor, for the coefficient before `location`.
#[verifier::opaque]
pub open spec fn index_at(cursor: BitCursor, location: u8, selector: AdaptiveVlc) -> Step<
    u8,
    AdaptiveVlc,
> {
    if location < 15 {
        match vlc::symbol_at(
            cursor,
            "INDEX_A",
            vlc::index_a_table(selector.table_index as int),
        ) {
            (Err(error), next) => Step { result: Err(error), cursor: next, state: selector },
            (Ok(symbol), next) => Step {
                result: Ok(symbol),
                cursor: next,
                state: selector.after_index(symbol),
            },
        }
    } else if location == 15 {
        let (result, next) = vlc::symbol_at(cursor, "INDEX_B", vlc::index_b_table());
        Step { result, cursor: next, state: selector }
    } else {
        match cursor.read_bit() {
            (Err(error), next) => Step { result: Err(error), cursor: next, state: selector },
            (Ok(bit), next) => Step {
                result: Ok(
                    if bit {
                        1u8
                    } else {
                        0u8
                    },
                ),
                cursor: next,
                state: selector,
            },
        }
    }
}

fn decode_index(
    reader: &mut PacketBitReader<'_>,
    location: u8,
    state: &mut AdaptiveVlc,
) -> (result: Result<u8, EntropyError>)
    requires
        old(state).within(adaptive::INDEX_LAST_TABLE),
        old(state).headroom(2),
    ensures
        (Step { result, cursor: final(reader)@, state: *final(state) }) == index_at(
            old(reader)@,
            location,
            *old(state),
        ),
        result matches Ok(symbol) ==> symbol < 6,
        final(state).within(adaptive::INDEX_LAST_TABLE),
        forall|distance: int| #[trigger]
            old(state).headroom(distance) ==> final(state).headroom(distance - 2),
{
    proof {
        reveal(index_at);
    }
    proof {
        vlc::lemma_tables_bounded();
    }
    if location < 15 {
        let codes: [vlc::VlcCode; 6] = vlc::index_a_codes(state.table_index());
        proof {
            vlc::lemma_symbol_bound(
                reader@,
                "INDEX_A",
                vlc::index_a_table(state.table_index as int),
                6,
            );
        }
        let symbol: u8 = vlc::decode(reader, "INDEX_A", codes.as_slice())?;
        proof {
            adaptive::lemma_index_delta_bound(state.delta_index[0] as int, symbol as int);
            adaptive::lemma_index_delta_bound(state.delta_index[1] as int, symbol as int);
        }
        state.observe_two_index(symbol);
        Ok(symbol)
    } else if location == 15 {
        let codes: [vlc::VlcCode; 4] = vlc::index_b_codes();
        proof {
            vlc::lemma_symbol_bound(reader@, "INDEX_B", vlc::index_b_table(), 4);
        }
        vlc::decode(reader, "INDEX_B", codes.as_slice())
    } else {
        let bit: bool = reader.read_bit()?;
        Ok(
            if bit {
                1
            } else {
                0
            },
        )
    }
}

/// The non-zero coefficients decoded from one 4-by-4 block.
#[derive(Debug, PartialEq, Eq)]
pub struct DecodedBlock {
    entries: [RunLevel; 15],
    len: u8,
    start_location: u8,
}

impl Clone for DecodedBlock {
    fn clone(&self) -> (block: Self)
        ensures
            block == *self,
    {
        DecodedBlock {
            entries: self.entries,
            len: self.len,
            start_location: self.start_location,
        }
    }
}

impl View for DecodedBlock {
    type V = Seq<RunLevel>;

    /// The run/level pairs in codestream order.
    closed spec fn view(&self) -> Seq<RunLevel> {
        self.entries@.take(self.len as int)
    }
}

impl DecodedBlock {
    /// The location of the first coefficient that the pairs can speak of.
    pub closed spec fn start(self) -> u8 {
        self.start_location
    }

    /// At most fifteen pairs, and nothing in the unused places.
    pub closed spec fn wf(self) -> bool {
        &&& self.len <= 15
        &&& forall|index: int|
            self.len <= index < 15 ==> #[trigger] self.entries[index] == (RunLevel {
                run: 0,
                level: 0,
            })
    }

    fn empty(start_location: u8) -> (block: DecodedBlock)
        ensures
            block.wf(),
            block@ == Seq::<RunLevel>::empty(),
            block.start() == start_location,
    {
        let block = DecodedBlock {
            entries: [RunLevel { run: 0, level: 0 };15],
            len: 0,
            start_location,
        };
        assert(block@ =~= Seq::<RunLevel>::empty());
        block
    }

    /// Returns run/level pairs in codestream order.
    #[must_use]
    pub fn entries(&self) -> (entries: &[RunLevel])
        requires
            self.wf(),
        ensures
            entries@ == self@,
            entries@.len() <= 15,
    {
        let entries = vstd::slice::slice_subrange(self.entries.as_slice(), 0, self.len as usize);
        assert(entries@ =~= self@);
        entries
    }

    /// Returns the number of non-zero coefficients.
    #[must_use]
    pub fn non_zero_count(&self) -> (count: u8)
        requires
            self.wf(),
        ensures
            count == self@.len(),
    {
        self.len
    }

    fn push(&mut self, run: u8, level: i32) -> (result: Result<(), EntropyError>)
        requires
            old(self).wf(),
        ensures
            final(self).wf(),
            final(self).start() == old(self).start(),
            if old(self)@.len() < 15 {
                result is Ok && final(self)@ == old(self)@.push(RunLevel { run, level })
            } else {
                &&& result == Err::<(), EntropyError>(
                    EntropyError::InvalidParameter {
                        parameter: "non-zero coefficients in block",
                        value: (old(self)@.len() + 1) as i64,
                    },
                )
                &&& final(self)@ == old(self)@
            },
    {
        if self.len >= 15 {
            return Err(
                EntropyError::InvalidParameter {
                    parameter: "non-zero coefficients in block",
                    value: self.len as i64 + 1,
                },
            );
        }
        self.entries[self.len as usize] = RunLevel { run, level };
        self.len = self.len + 1;
        assert(self@ =~= old(self)@.push(RunLevel { run, level }));
        Ok(())
    }
}

/// One coefficient of a block and what is known of the next.
pub struct BlockCoefficient {
    /// The run before the coefficient, and its level.
    pub entry: RunLevel,
    /// The location after the coefficient.
    pub location: u8,
    /// What follows: nothing (0), a coefficient at once (1), or one after a run (2).
    pub successors: u8,
    /// The context of the next symbols.
    pub context: bool,
}

/// The state with another first-index selector.
pub open spec fn with_first_index(
    state: AcVlcState,
    chroma: bool,
    selector: AdaptiveVlc,
) -> AcVlcState {
    AcVlcState {
        first_index: with_place(state.first_index, adaptive::place(chroma), selector),
        index: state.index,
        abs_level: state.abs_level,
    }
}

/// The state with another index selector.
pub open spec fn with_index(
    state: AcVlcState,
    chroma: bool,
    context: bool,
    selector: AdaptiveVlc,
) -> AcVlcState {
    AcVlcState {
        first_index: state.first_index,
        index: with_place(
            state.index,
            adaptive::place(chroma),
            with_place(
                state.index[adaptive::place(chroma)],
                adaptive::place(context),
                selector,
            ),
        ),
        abs_level: state.abs_level,
    }
}

/// The magnitude at the cursor: 1, unless an absolute level is coded.
pub open spec fn magnitude_at(
    cursor: BitCursor,
    coded: bool,
    context: bool,
    state: AcVlcState,
) -> Step<i32, AcVlcState> {
    if coded {
        let level = abs_level_at(cursor, state.abs_level[adaptive::place(context)]);
        Step {
            result: level.result,
            cursor: level.cursor,
            state: AcVlcState {
                first_index: state.first_index,
                index: state.index,
                abs_level: with_place(state.abs_level, adaptive::place(context), level.state),
            },
        }
    } else {
        Step { result: Ok(1), cursor, state }
    }
}

/// The run at the cursor: none, unless one is coded.
pub open spec fn coded_run_at(cursor: BitCursor, coded: bool, max_run: u8) -> (
    Result<u8, EntropyError>,
    BitCursor,
) {
    if coded {
        run_at(cursor, max_run)
    } else {
        (Ok(0), cursor)
    }
}

/// The first coefficient of a block: its index, its sign, its level, and then its run.
#[verifier::opaque]
pub open spec fn first_coefficient_at(
    cursor: BitCursor,
    chroma: bool,
    start: u8,
    state: AcVlcState,
) -> Step<BlockCoefficient, AcVlcState> {
    let first = first_index_at(cursor, state.first_index[adaptive::place(chroma)]);
    let indexed = with_first_index(state, chroma, first.state);
    match first.result {
        Err(error) => Step { result: Err(error), cursor: first.cursor, state: indexed },
        Ok(symbol) => match first.cursor.read_bit() {
            (Err(error), next) => Step { result: Err(error), cursor: next, state: indexed },
            (Ok(negative), next) => {
                let successors = symbol / 4;
                let context = symbol % 2 != 0 && successors % 2 != 0;
                let magnitude = magnitude_at(next, (symbol / 2) % 2 != 0, context, indexed);
                match magnitude.result {
                    Err(error) => Step {
                        result: Err(error),
                        cursor: magnitude.cursor,
                        state: magnitude.state,
                    },
                    Ok(value) => match coded_run_at(
                        magnitude.cursor,
                        symbol % 2 == 0,
                        (15 - start) as u8,
                    ) {
                        (Err(error), next) => Step {
                            result: Err(error),
                            cursor: next,
                            state: magnitude.state,
                        },
                        (Ok(run), next) => Step {
                            result: placed(start, run, value, negative, successors, context),
                            cursor: next,
                            state: magnitude.state,
                        },
                    },
                }
            },
        },
    }
}

/// A coefficient put behind its run, if there is room for both.
pub open spec fn placed(
    location: u8,
    run: u8,
    magnitude: i32,
    negative: bool,
    successors: u8,
    context: bool,
) -> Result<BlockCoefficient, EntropyError> {
    match advanced(location, run) {
        Err(error) => Err(error),
        Ok(next) => match with_sign(magnitude, negative) {
            Err(error) => Err(error),
            Ok(level) => Ok(
                BlockCoefficient {
                    entry: RunLevel { run, level },
                    location: next,
                    successors,
                    context,
                },
            ),
        },
    }
}

/// A further coefficient of a block: its run, its index, its sign, and then its level.
#[verifier::opaque]
pub open spec fn next_coefficient_at(
    cursor: BitCursor,
    chroma: bool,
    location: u8,
    successors: u8,
    context: bool,
    state: AcVlcState,
) -> Step<BlockCoefficient, AcVlcState> {
    let room: u8 = if location > 15 {
        0
    } else {
        (15 - location) as u8
    };
    match coded_run_at(cursor, successors % 2 == 0, room) {
        (Err(error), next) => Step { result: Err(error), cursor: next, state },
        (Ok(run), next) => match advanced(location, run) {
            Err(error) => Step { result: Err(error), cursor: next, state },
            Ok(reached) => {
                let index = index_at(
                    next,
                    reached,
                    state.index[adaptive::place(chroma)][adaptive::place(context)],
                );
                let indexed = with_index(state, chroma, context, index.state);
                match index.result {
                    Err(error) => Step { result: Err(error), cursor: index.cursor, state: indexed },
                    Ok(symbol) => match index.cursor.read_bit() {
                        (Err(error), next) => Step {
                            result: Err(error),
                            cursor: next,
                            state: indexed,
                        },
                        (Ok(negative), next) => {
                            let further = symbol / 2;
                            let inner = context && further % 2 != 0;
                            let magnitude = magnitude_at(next, symbol % 2 != 0, inner, indexed);
                            match magnitude.result {
                                Err(error) => Step {
                                    result: Err(error),
                                    cursor: magnitude.cursor,
                                    state: magnitude.state,
                                },
                                Ok(value) => Step {
                                    result: placed(
                                        location,
                                        run,
                                        value,
                                        negative,
                                        further,
                                        inner,
                                    ),
                                    cursor: magnitude.cursor,
                                    state: magnitude.state,
                                },
                            }
                        },
                    },
                }
            },
        },
    }
}

/// A further coefficient moves the location on, to 16 at most.
pub proof fn lemma_next_location(
    cursor: BitCursor,
    chroma: bool,
    location: u8,
    successors: u8,
    context: bool,
    state: AcVlcState,
)
    ensures
        next_coefficient_at(cursor, chroma, location, successors, context, state).result matches Ok(
            coefficient,
        ) ==> location < coefficient.location <= 16,
{
    reveal(next_coefficient_at);
}

/// The coefficients that follow in a block, after those in `entries`.
pub open spec fn coefficients_from(
    cursor: BitCursor,
    chroma: bool,
    location: u8,
    successors: u8,
    context: bool,
    state: AcVlcState,
    entries: Seq<RunLevel>,
) -> Step<Seq<RunLevel>, AcVlcState>
    decreases 16 - location,
{
    if successors == 0 {
        Step { result: Ok(entries), cursor, state }
    } else {
        proof {
            lemma_next_location(cursor, chroma, location, successors, context, state);
        }
        let next = next_coefficient_at(cursor, chroma, location, successors, context, state);
        match next.result {
            Err(error) => Step { result: Err(error), cursor: next.cursor, state: next.state },
            Ok(coefficient) => coefficients_from(
                next.cursor,
                chroma,
                coefficient.location,
                coefficient.successors,
                coefficient.context,
                next.state,
                entries.push(coefficient.entry),
            ),
        }
    }
}

/// The coefficients of the block at the cursor.
pub open spec fn block_at(
    cursor: BitCursor,
    band: FrequencyBand,
    class: ComponentClass,
    start: u8,
    state: AcVlcState,
) -> Step<Seq<RunLevel>, AcVlcState> {
    if band == FrequencyBand::Dc {
        Step {
            result: Err(
                EntropyError::InvalidParameter { parameter: "AC frequency band", value: 0 },
            ),
            cursor,
            state,
        }
    } else if !(1 <= start <= 15) {
        Step {
            result: Err(
                EntropyError::InvalidParameter {
                    parameter: "block start location",
                    value: start as i64,
                },
            ),
            cursor,
            state,
        }
    } else {
        let chroma = class == ComponentClass::Chroma;
        let first = first_coefficient_at(cursor, chroma, start, state);
        match first.result {
            Err(error) => Step { result: Err(error), cursor: first.cursor, state: first.state },
            Ok(coefficient) => coefficients_from(
                first.cursor,
                chroma,
                coefficient.location,
                coefficient.successors,
                coefficient.context,
                first.state,
                seq![coefficient.entry],
            ),
        }
    }
}

fn decode_magnitude(
    reader: &mut PacketBitReader<'_>,
    coded: bool,
    context: bool,
    state: &mut AcVlcState,
) -> (result: Result<i32, EntropyError>)
    requires
        old(state).wf(),
        old(state).headroom(1),
    ensures
        (Step { result, cursor: final(reader)@, state: *final(state) }) == magnitude_at(
            old(reader)@,
            coded,
            context,
            *old(state),
        ),
        result matches Ok(magnitude) ==> 1 <= magnitude,
        final(state).wf(),
        forall|distance: int| #[trigger]
            old(state).headroom(distance) && distance >= 1 ==> final(state).headroom(distance - 1),
        final(state).first_index == old(state).first_index,
        final(state).index == old(state).index,
{
    if coded {
        let place: usize = adaptive::flag_index(context);
        let mut selector: AdaptiveVlc = state.abs_level[place];
        let ghost before = selector;
        let level = decode_abs_level(reader, &mut selector);
        state.abs_level[place] = selector;
        assert(state.abs_level =~= with_place(old(state).abs_level, place as int, selector));
        assert(forall|distance: int| #[trigger]
            old(state).headroom(distance) ==> before.headroom(distance));
        level
    } else {
        Ok(1)
    }
}

fn decode_coded_run(reader: &mut PacketBitReader<'_>, coded: bool, max_run: u8) -> (result: Result<
    u8,
    EntropyError,
>)
    ensures
        (result, final(reader)@) == coded_run_at(old(reader)@, coded, max_run),
{
    if coded {
        decode_run(reader, max_run)
    } else {
        Ok(0)
    }
}

fn decode_first_coefficient(
    reader: &mut PacketBitReader<'_>,
    chroma: bool,
    start: u8,
    state: &mut AcVlcState,
) -> (result: Result<BlockCoefficient, EntropyError>)
    requires
        old(state).wf(),
        old(state).headroom(3),
        1 <= start <= 15,
    ensures
        (Step { result, cursor: final(reader)@, state: *final(state) }) == first_coefficient_at(
            old(reader)@,
            chroma,
            start,
            *old(state),
        ),
        result matches Ok(coefficient) ==> start < coefficient.location <= 16
            && coefficient.successors <= 2,
        final(state).wf(),
        forall|distance: int| #[trigger]
            old(state).headroom(distance) && distance >= 3 ==> final(state).headroom(distance - 3),
{
    proof {
        reveal(first_coefficient_at);
    }
    let place: usize = adaptive::flag_index(chroma);
    let mut selector: AdaptiveVlc = state.first_index[place];
    let ghost before = selector;
    let decoded_first = decode_first_index(reader, &mut selector);
    state.first_index[place] = selector;
    proof {
        assert(state.first_index =~= with_first_index(*old(state), chroma, selector).first_index);
        assert forall|distance: int| #[trigger]
            old(state).headroom(distance) && distance >= 3 implies state.headroom(distance - 2) by {
            assert(before.headroom(distance));
        }
    }
    let first: u8 = decoded_first?;
    let negative: bool = reader.read_bit()?;
    let successors: u8 = first / 4;
    let context: bool = first % 2 != 0 && successors % 2 != 0;
    let magnitude: i32 = decode_magnitude(reader, (first / 2) % 2 != 0, context, state)?;
    let run: u8 = decode_coded_run(reader, first % 2 == 0, 15 - start)?;
    let location: u8 = advance_location(start, run)?;
    let level: i32 = signed(magnitude, negative)?;
    Ok(BlockCoefficient { entry: RunLevel { run, level }, location, successors, context })
}

/// Replaces an index selector by one that has moved on by at most 2.
fn set_index(state: &mut AcVlcState, chroma: bool, context: bool, selector: AdaptiveVlc)
    requires
        old(state).wf(),
        selector.within(adaptive::INDEX_LAST_TABLE),
        forall|distance: int|
            old(state).index[adaptive::place(chroma)][adaptive::place(context)].headroom(distance)
                ==> #[trigger] selector.headroom(distance - 2),
    ensures
        *final(state) == with_index(*old(state), chroma, context, selector),
        final(state).wf(),
        forall|distance: int| #[trigger]
            old(state).headroom(distance) && distance >= 2 ==> final(state).headroom(distance - 2),
{
    let row: usize = adaptive::flag_index(chroma);
    let column: usize = adaptive::flag_index(context);
    state.index[row][column] = selector;
    proof {
        let expected = with_index(*old(state), chroma, context, selector);
        assert(state.index[0] =~= expected.index[0]);
        assert(state.index[1] =~= expected.index[1]);
        assert(state.index =~= expected.index);
        assert forall|distance: int| #[trigger]
            old(state).headroom(distance) && distance >= 2 implies state.headroom(distance - 2) by {
            assert(selector.headroom(distance - 2));
        }
    }
}

fn decode_next_coefficient(
    reader: &mut PacketBitReader<'_>,
    chroma: bool,
    location: u8,
    successors: u8,
    context: bool,
    state: &mut AcVlcState,
) -> (result: Result<BlockCoefficient, EntropyError>)
    requires
        old(state).wf(),
        old(state).headroom(3),
        location <= 16,
    ensures
        (Step { result, cursor: final(reader)@, state: *final(state) }) == next_coefficient_at(
            old(reader)@,
            chroma,
            location,
            successors,
            context,
            *old(state),
        ),
        result matches Ok(coefficient) ==> location < coefficient.location <= 16
            && coefficient.successors <= 2,
        final(state).wf(),
        forall|distance: int| #[trigger]
            old(state).headroom(distance) && distance >= 3 ==> final(state).headroom(distance - 3),
{
    proof {
        reveal(next_coefficient_at);
    }
    let room: u8 = if location > 15 {
        0
    } else {
        15 - location
    };
    let run: u8 = decode_coded_run(reader, successors % 2 == 0, room)?;
    let reached: u8 = advance_location(location, run)?;
    let row: usize = adaptive::flag_index(chroma);
    let column: usize = adaptive::flag_index(context);
    let mut selector: AdaptiveVlc = state.index[row][column];
    let ghost before = selector;
    let decoded_index = decode_index(reader, reached, &mut selector);
    assert forall|distance: int| before.headroom(distance) implies #[trigger] selector.headroom(
        distance - 2,
    ) by {
        assert(before.headroom(distance));
    }
    set_index(state, chroma, context, selector);
    let index: u8 = decoded_index?;
    let negative: bool = reader.read_bit()?;
    let further: u8 = index / 2;
    let inner: bool = context && further % 2 != 0;
    let magnitude: i32 = decode_magnitude(reader, index % 2 != 0, inner, state)?;
    let level: i32 = signed(magnitude, negative)?;
    Ok(
        BlockCoefficient {
            entry: RunLevel { run, level },
            location: reached,
            successors: further,
            context: inner,
        },
    )
}

/// Decodes the run/level representation of one LP or HP 4-by-4 block.
///
/// A block moves each discriminant by at most 48, so that much room must be left.
pub fn decode_ac_block(
    reader: &mut PacketBitReader<'_>,
    band: FrequencyBand,
    class: ComponentClass,
    start_location: u8,
    state: &mut AcVlcState,
) -> (result: Result<DecodedBlock, EntropyError>)
    requires
        old(state).wf(),
        old(state).headroom(48),
    ensures
        ({
            let block = block_at(old(reader)@, band, class, start_location, *old(state));
            &&& final(reader)@ == block.cursor
            &&& *final(state) == block.state
            &&& match (result, block.result) {
                (Ok(decoded), Ok(entries)) => decoded.wf() && decoded@ == entries && decoded.start()
                    == start_location,
                (Err(error), Err(expected)) => error == expected,
                _ => false,
            }
        }),
        final(state).wf(),
        forall|distance: int| #[trigger]
            old(state).headroom(distance) && distance >= 48 ==> final(state).headroom(
                distance - 48,
            ),
{
    if band == FrequencyBand::Dc {
        return Err(EntropyError::InvalidParameter { parameter: "AC frequency band", value: 0 });
    }
    if !(1 <= start_location && start_location <= 15) {
        return Err(
            EntropyError::InvalidParameter {
                parameter: "block start location",
                value: start_location as i64,
            },
        );
    }
    let chroma: bool = class.is_chroma();
    let mut output: DecodedBlock = DecodedBlock::empty(start_location);
    let first: BlockCoefficient = decode_first_coefficient(reader, chroma, start_location, state)?;
    output.push(first.entry.run, first.entry.level)?;
    let mut location: u8 = first.location;
    let mut successors: u8 = first.successors;
    let mut context: bool = first.context;
    let ghost whole = block_at(old(reader)@, band, class, start_location, *old(state));
    proof {
        assert(output@ =~= seq![first.entry]);
    }
    while successors != 0
        invariant
            1 <= start_location < location <= 16,
            output.wf(),
            output.start() == start_location,
            1 <= output@.len() <= location - start_location,
            state.wf(),
            old(state).headroom(48),
            forall|distance: int| #[trigger]
                old(state).headroom(distance) && distance >= 48 ==> state.headroom(
                    distance - 3 * (location - 1),
                ),
            whole == coefficients_from(
                reader@,
                chroma,
                location,
                successors,
                context,
                *state,
                output@,
            ),
            whole == block_at(old(reader)@, band, class, start_location, *old(state)),
        decreases 16 - location,
    {
        let ghost earlier = *state;
        assert(earlier.headroom(48 - 3 * (location - 1)));
        let next: BlockCoefficient = decode_next_coefficient(
            reader,
            chroma,
            location,
            successors,
            context,
            state,
        )?;
        output.push(next.entry.run, next.entry.level)?;
        assert forall|distance: int| #[trigger]
            old(state).headroom(distance) && distance >= 48 implies state.headroom(
            distance - 3 * (next.location - 1),
        ) by {
            assert(earlier.headroom(distance - 3 * (location - 1)));
        }
        location = next.location;
        successors = next.successors;
        context = next.context;
    }
    Ok(output)
}

/// What placing the pairs of a block gives, and the scan and the coefficients it leaves behind.
pub struct ScanStep {
    /// Success or the error.
    pub result: Result<(), EntropyError>,
    /// The scan order afterwards.
    pub order: Seq<u8>,
    /// The scan totals afterwards.
    pub totals: Seq<i32>,
    /// The coefficients afterwards.
    pub output: Seq<i32>,
}

/// Places the pairs one after the other, the first of them `run` places after `location`.
pub open spec fn scanned(
    entries: Seq<RunLevel>,
    location: u8,
    order: Seq<u8>,
    totals: Seq<i32>,
    output: Seq<i32>,
) -> ScanStep
    decreases entries.len(),
{
    if entries.len() == 0 {
        ScanStep { result: Ok(()), order, totals, output }
    } else {
        let index = location + entries[0].run;
        if index > 255 {
            ScanStep { result: Err(EntropyError::CoefficientOverflow), order, totals, output }
        } else if !(1 <= index <= 15) {
            ScanStep {
                result: Err(scan::scan_index_error(index as u8)),
                order,
                totals,
                output,
            }
        } else {
            scanned(
                entries.drop_first(),
                (index + 1) as u8,
                scan::order_after(order, totals, index),
                scan::totals_after(totals, index),
                output.update(order[index] as int, entries[0].level),
            )
        }
    }
}

/// Whether each total can still grow by `count`.
pub open spec fn countable(totals: Seq<i32>, count: int) -> bool {
    forall|index: int| 0 <= index < 16 ==> #[trigger] totals[index] <= i32::MAX - count
}

impl DecodedBlock {
    fn scan_entries(
        &self,
        order: &mut [u8; 16],
        totals: &mut [i32; 16],
        output: &mut [i32; 16],
    ) -> (result: Result<(), EntropyError>)
        requires
            self.wf(),
            scan::is_scan_order(old(order)@),
            countable(old(totals)@, 15),
        ensures
            scan::is_scan_order(final(order)@),
            (ScanStep {
                result,
                order: final(order)@,
                totals: final(totals)@,
                output: final(output)@,
            }) == scanned(self@, self.start(), old(order)@, old(totals)@, old(output)@),
    {
        let entries: &[RunLevel] = self.entries();
        let mut location: u8 = self.start_location;
        let ghost whole = scanned(
            self@,
            self.start(),
            old(order)@,
            old(totals)@,
            old(output)@,
        );
        assert(self@.skip(0) =~= self@);
        for k in 0..entries.len()
            invariant
                entries@ == self@,
                entries@.len() <= 15,
                scan::is_scan_order(order@),
                countable(totals@, 15 - k),
                whole == scanned(self@.skip(k as int), location, order@, totals@, output@),
                whole == scanned(
                    self@,
                    self.start(),
                    old(order)@,
                    old(totals)@,
                    old(output)@,
                ),
        {
            let entry: RunLevel = entries[k];
            proof {
                assert(self@.skip(k as int)[0] == entry);
                assert(self@.skip(k as int).drop_first() =~= self@.skip(k as int + 1));
            }
            let index: u8 = match location.checked_add(entry.run) {
                Some(index) => index,
                None => return Err(EntropyError::CoefficientOverflow),
            };
            scan::place_and_adapt(order, totals, output, index, entry.level)?;
            location = index + 1;
        }
        assert(self@.skip(entries@.len() as int) =~= Seq::<RunLevel>::empty());
        Ok(())
    }

    /// Applies this block to the tile-local LP inverse scan.
    ///
    /// A block has at most fifteen pairs, so each total must be able to grow by as much.
    pub fn inverse_scan_lp(&self, scan: &mut AdaptiveLpScan, output: &mut [i32; 16]) -> (result:
        Result<(), EntropyError>)
        requires
            self.wf(),
            old(scan).wf(),
            countable(old(scan).totals@, 15),
        ensures
            final(scan).wf(),
            (ScanStep {
                result,
                order: final(scan).order@,
                totals: final(scan).totals@,
                output: final(output)@,
            }) == scanned(
                self@,
                self.start(),
                old(scan).order@,
                old(scan).totals@,
                old(output)@,
            ),
    {
        self.scan_entries(&mut scan.order, &mut scan.totals, output)
    }

    /// Applies this block to the selected tile-local HP inverse scan.
    pub fn inverse_scan_hp(
        &self,
        scan: &mut AdaptiveHpScan,
        direction: HpScanDirection,
        output: &mut [i32; 16],
    ) -> (result: Result<(), EntropyError>)
        requires
            self.wf(),
            old(scan).wf(),
            countable(old(scan).totals_of(direction)@, 15),
        ensures
            final(scan).wf(),
            (ScanStep {
                result,
                order: final(scan).order_of(direction)@,
                totals: final(scan).totals_of(direction)@,
                output: final(output)@,
            }) == scanned(
                self@,
                self.start(),
                old(scan).order_of(direction)@,
                old(scan).totals_of(direction)@,
                old(output)@,
            ),
            final(scan).order_of(AdaptiveHpScan::other(direction)) == old(scan).order_of(
                AdaptiveHpScan::other(direction),
            ),
            final(scan).totals_of(AdaptiveHpScan::other(direction)) == old(scan).totals_of(
                AdaptiveHpScan::other(direction),
            ),
    {
        match direction {
            HpScanDirection::Horizontal => self.scan_entries(
                &mut scan.horizontal_order,
                &mut scan.horizontal_totals,
                output,
            ),
            HpScanDirection::Vertical => self.scan_entries(
                &mut scan.vertical_order,
                &mut scan.vertical_totals,
                output,
            ),
        }
    }
}

} // verus!

//! Prefix-code tables and prefix-code reading.

use super::bit_reader::{BitCursor, PacketBitReader};
use super::error::EntropyError;
use crate::bits;
use vstd::arithmetic::power2::*;
use vstd::prelude::*;

verus! {

/// One code word and the symbol it stands for.
#[derive(Clone, Copy, Debug, PartialEq, Eq, Structural)]
pub struct VlcCode {
    /// The bits of the code word as a number, first bit most significant.
    pub bits: u16,
    /// The number of bits in the code word.
    pub length: u8,
    /// The decoded symbol.
    pub symbol: u8,
}

/// The code word of `length` bits that reads `bits`.
pub fn c(bits: u16, length: u8, symbol: u8) -> (code: VlcCode)
    ensures
        code == (VlcCode { bits, length, symbol }),
{
    VlcCode { bits, length, symbol }
}

/// Whether the bits at the cursor begin with the code word.
pub open spec fn begins_with(cursor: BitCursor, code: VlcCode) -> bool {
    &&& code.length >= 1
    &&& cursor.position + code.length <= cursor.limit
    &&& bits::bits_value(cursor.bytes, cursor.position as int, code.length as nat) == code.bits
}

/// Whether entry `index` is the one that a reader at the cursor finds: it is the first of the
/// shortest entries that the bits begin with.
pub open spec fn selects(cursor: BitCursor, codes: Seq<VlcCode>, index: int) -> bool {
    &&& 0 <= index < codes.len()
    &&& begins_with(cursor, codes[index])
    &&& forall|other: int|
        #![trigger codes[other]]
        0 <= other < codes.len() && begins_with(cursor, codes[other]) ==> codes[index].length
            < codes[other].length || (codes[index].length == codes[other].length && index <= other)
}

/// The length of the longest code word.
pub open spec fn longest(codes: Seq<VlcCode>) -> u8
    decreases codes.len(),
{
    if codes.len() == 0 {
        0
    } else if codes.last().length > longest(codes.drop_last()) {
        codes.last().length
    } else {
        longest(codes.drop_last())
    }
}

/// What decoding one symbol gives, and where it leaves the cursor.
pub open spec fn symbol_at(cursor: BitCursor, syntax: &'static str, codes: Seq<VlcCode>) -> (
    Result<u8, EntropyError>,
    BitCursor,
) {
    if exists|index: int| selects(cursor, codes, index) {
        let index = choose|index: int| selects(cursor, codes, index);
        (Ok(codes[index].symbol), cursor.moved(cursor.position + codes[index].length))
    } else if cursor.position + longest(codes) > cursor.limit {
        let end = cursor.moved(cursor.limit as int);
        (Err(end.end_error(1)), end)
    } else {
        (
            Err(EntropyError::InvalidVlc { syntax, bit_position: cursor.position }),
            cursor.moved(cursor.position + longest(codes)),
        )
    }
}

proof fn lemma_longest(codes: Seq<VlcCode>)
    ensures
        forall|index: int| 0 <= index < codes.len() ==> codes[index].length <= longest(codes),
        codes.len() == 0 ==> longest(codes) == 0,
        codes.len() > 0 ==> exists|index: int|
            0 <= index < codes.len() && #[trigger] codes[index].length == longest(codes),
    decreases codes.len(),
{
    if codes.len() > 0 {
        let rest = codes.drop_last();
        lemma_longest(rest);
        assert forall|index: int| 0 <= index < codes.len() implies codes[index].length <= longest(
            codes,
        ) by {
            if index < rest.len() {
                assert(rest[index] == codes[index]);
            }
        }
        if codes.last().length > longest(rest) {
            assert(codes[codes.len() - 1].length == longest(codes));
        } else if rest.len() > 0 {
            let index = choose|index: int|
                0 <= index < rest.len() && #[trigger] rest[index].length == longest(rest);
            assert(codes[index].length == longest(codes));
        } else {
            assert(codes[0].length == longest(codes));
        }
    }
}

/// Reading one more bit doubles the prefix and adds the bit.
proof fn lemma_next_prefix(cursor: BitCursor, length: nat, prefix: u16, bit: bool)
    requires
        length < 16,
        cursor.position + length < cursor.limit,
        prefix == bits::bits_value(cursor.bytes, cursor.position as int, length),
        bit == (bits::bits_value(cursor.bytes, cursor.position + length, 1) != 0),
    ensures
        (prefix << 1) | (if bit {
            1u16
        } else {
            0u16
        }) == bits::bits_value(cursor.bytes, cursor.position as int, length + 1),
{
    let low: u16 = if bit {
        1u16
    } else {
        0u16
    };
    reveal_with_fuel(bits::bits_value, 2);
    bits::lemma_bits_value_bound(cursor.bytes, cursor.position as int, length);
    bits::lemma_bit_at_bound(cursor.bytes, cursor.position + length);
    lemma2_to64();
    if length < 15 {
        lemma_pow2_strictly_increases(length, 15);
    }
    assert((prefix << 1) | low == 2 * prefix + low) by (bit_vector)
        requires
            prefix < 0x8000,
            low <= 1,
    ;
    assert(cursor.position + (length + 1) - 1 == cursor.position + length);
}

fn longest_code(codes: &[VlcCode]) -> (length: u8)
    ensures
        length == longest(codes@),
{
    let mut length: u8 = 0;
    for index in 0..codes.len()
        invariant
            length == longest(codes@.take(index as int)),
    {
        proof {
            assert(codes@.take(index as int + 1).drop_last() =~= codes@.take(index as int));
        }
        if codes[index].length > length {
            length = codes[index].length;
        }
    }
    proof {
        assert(codes@.take(codes@.len() as int) =~= codes@);
    }
    length
}

/// Reads one symbol of the table.
pub fn decode(
    reader: &mut PacketBitReader<'_>,
    syntax: &'static str,
    codes: &[VlcCode],
) -> (result: Result<u8, EntropyError>)
    requires
        forall|index: int| 0 <= index < codes@.len() ==> (#[trigger] codes@[index]).length <= 16,
    ensures
        (result, final(reader)@) == symbol_at(old(reader)@, syntax, codes@),
{
    let start: usize = reader.bit_position();
    let max_length: u8 = longest_code(codes);
    let ghost origin = reader@;
    let mut prefix: u16 = 0;
    let mut length: u8 = 0;
    proof {
        lemma_longest(codes@);
        assert(reader@ =~= origin.moved(origin.position as int));
    }
    while length < max_length
        invariant
            origin == old(reader)@,
            start == origin.position,
            max_length == longest(codes@),
            max_length <= 16,
            length <= max_length,
            forall|index: int|
                0 <= index < codes@.len() ==> (#[trigger] codes@[index]).length <= max_length,
            origin.position + length <= origin.limit,
            reader@ == origin.moved(origin.position + length),
            prefix == bits::bits_value(origin.bytes, origin.position as int, length as nat),
            forall|index: int|
                0 <= index < codes@.len() && begins_with(origin, #[trigger] codes@[index])
                    ==> codes@[index].length > length,
        decreases max_length - length,
    {
        let bit: bool = match reader.read_bit() {
            Ok(bit) => bit,
            Err(error) => {
                proof {
                    assert(origin.moved(origin.position + length) =~= origin.moved(
                        origin.limit as int,
                    ));
                    assert(!exists|index: int| selects(origin, codes@, index));
                }
                return Err(error);
            },
        };
        proof {
            lemma_next_prefix(origin, length as nat, prefix, bit);
        }
        prefix = (prefix << 1) | (if bit {
            1u16
        } else {
            0u16
        });
        length = length + 1;
        for index in 0..codes.len()
            invariant
                origin == old(reader)@,
                1 <= length <= max_length <= 16,
                max_length == longest(codes@),
                origin.position + length <= origin.limit,
                reader@ == origin.moved(origin.position + length),
                prefix == bits::bits_value(origin.bytes, origin.position as int, length as nat),
                forall|other: int|
                    0 <= other < codes@.len() && begins_with(origin, #[trigger] codes@[other])
                        ==> codes@[other].length >= length,
                forall|other: int|
                    0 <= other < index && begins_with(origin, #[trigger] codes@[other])
                        ==> codes@[other].length > length,
        {
            if codes[index].length == length && codes[index].bits == prefix {
                proof {
                    assert(selects(origin, codes@, index as int));
                    let chosen = choose|chosen: int| selects(origin, codes@, chosen);
                    assert(begins_with(origin, codes@[chosen]));
                    assert(chosen == index);
                }
                return Ok(codes[index].symbol);
            }
        }
    }
    proof {
        assert forall|index: int| !selects(origin, codes@, index) by {
            if selects(origin, codes@, index) {
                assert(begins_with(origin, codes@[index]));
            }
        }
    }
    Err(EntropyError::InvalidVlc { syntax, bit_position: start })
}

/// The code word of `length` bits that reads `bits`.
pub open spec fn code(bits: u16, length: u8, symbol: u8) -> VlcCode {
    VlcCode { bits, length, symbol }
}

/// The absolute-level codes.
pub open spec fn abs_level_table(table: int) -> Seq<VlcCode> {
    if table == 0 {
        seq![
            code(0b01, 2, 0),
            code(0b10, 2, 1),
            code(0b11, 2, 2),
            code(0b001, 3, 3),
            code(0b0001, 4, 4),
            code(0b00000, 5, 5),
            code(0b00001, 5, 6),
        ]
    } else {
        seq![
            code(0b1, 1, 0),
            code(0b01, 2, 1),
            code(0b001, 3, 2),
            code(0b0001, 4, 3),
            code(0b00001, 5, 4),
            code(0b000000, 6, 5),
            code(0b000001, 6, 6),
        ]
    }
}

/// The absolute-level codes.
pub fn abs_level_codes(table: usize) -> (codes: [VlcCode; 7])
    requires
        table < 2,
    ensures
        codes@ == abs_level_table(table as int),
{
    if table == 0 {
        [
            c(0b01, 2, 0),
            c(0b10, 2, 1),
            c(0b11, 2, 2),
            c(0b001, 3, 3),
            c(0b0001, 4, 4),
            c(0b00000, 5, 5),
            c(0b00001, 5, 6),
        ]
    } else {
        [
            c(0b1, 1, 0),
            c(0b01, 2, 1),
            c(0b001, 3, 2),
            c(0b0001, 4, 3),
            c(0b00001, 5, 4),
            c(0b000000, 6, 5),
            c(0b000001, 6, 6),
        ]
    }
}

/// The run codes where at most 2 zeros can follow.
pub open spec fn run_value_2_table() -> Seq<VlcCode> {
    seq![
        code(0b1, 1, 1),
        code(0b0, 1, 2),
    ]
}

/// The run codes where at most 2 zeros can follow.
pub fn run_value_2_codes() -> (codes: [VlcCode; 2])
    ensures
        codes@ == run_value_2_table(),
{
    [
        c(0b1, 1, 1),
        c(0b0, 1, 2),
    ]
}

/// The run codes where at most 3 zeros can follow.
pub open spec fn run_value_3_table() -> Seq<VlcCode> {
    seq![
        code(0b1, 1, 1),
        code(0b01, 2, 2),
        code(0b00, 2, 3),
    ]
}

/// The run codes where at most 3 zeros can follow.
pub fn run_value_3_codes() -> (codes: [VlcCode; 3])
    ensures
        codes@ == run_value_3_table(),
{
    [
        c(0b1, 1, 1),
        c(0b01, 2, 2),
        c(0b00, 2, 3),
    ]
}

/// The run codes where at most 4 zeros can follow.
pub open spec fn run_value_4_table() -> Seq<VlcCode> {
    seq![
        code(0b1, 1, 1),
        code(0b01, 2, 2),
        code(0b001, 3, 3),
        code(0b000, 3, 4),
    ]
}

/// The run codes where at most 4 zeros can follow.
pub fn run_value_4_codes() -> (codes: [VlcCode; 4])
    ensures
        codes@ == run_value_4_table(),
{
    [
        c(0b1, 1, 1),
        c(0b01, 2, 2),
        c(0b001, 3, 3),
        c(0b000, 3, 4),
    ]
}

/// The run-index codes where more than 4 zeros can follow.
pub open spec fn run_index_table() -> Seq<VlcCode> {
    seq![
        code(0b1, 1, 0),
        code(0b01, 2, 1),
        code(0b001, 3, 2),
        code(0b0000, 4, 3),
        code(0b0001, 4, 4),
    ]
}

/// The run-index codes where more than 4 zeros can follow.
pub fn run_index_codes() -> (codes: [VlcCode; 5])
    ensures
        codes@ == run_index_table(),
{
    [
        c(0b1, 1, 0),
        c(0b01, 2, 1),
        c(0b001, 3, 2),
        c(0b0000, 4, 3),
        c(0b0001, 4, 4),
    ]
}

/// The index codes before the last two locations.
pub open spec fn index_a_table(table: int) -> Seq<VlcCode> {
    if table == 0 {
        seq![
            code(0b1, 1, 0),
            code(0b00000, 5, 1),
            code(0b001, 3, 2),
            code(0b00001, 5, 3),
            code(0b01, 2, 4),
            code(0b0001, 4, 5),
        ]
    } else if table == 1 {
        seq![
            code(0b01, 2, 0),
            code(0b0000, 4, 1),
            code(0b10, 2, 2),
            code(0b0001, 4, 3),
            code(0b11, 2, 4),
            code(0b001, 3, 5),
        ]
    } else if table == 2 {
        seq![
            code(0b0000, 4, 0),
            code(0b0001, 4, 1),
            code(0b01, 2, 2),
            code(0b10, 2, 3),
            code(0b11, 2, 4),
            code(0b001, 3, 5),
        ]
    } else {
        seq![
            code(0b00000, 5, 0),
            code(0b00001, 5, 1),
            code(0b01, 2, 2),
            code(0b1, 1, 3),
            code(0b0001, 4, 4),
            code(0b001, 3, 5),
        ]
    }
}

/// The index codes before the last two locations.
pub fn index_a_codes(table: usize) -> (codes: [VlcCode; 6])
    requires
        table < 4,
    ensures
        codes@ == index_a_table(table as int),
{
    if table == 0 {
        [
            c(0b1, 1, 0),
            c(0b00000, 5, 1),
            c(0b001, 3, 2),
            c(0b00001, 5, 3),
            c(0b01, 2, 4),
            c(0b0001, 4, 5),
        ]
    } else if table == 1 {
        [
            c(0b01, 2, 0),
            c(0b0000, 4, 1),
            c(0b10, 2, 2),
            c(0b0001, 4, 3),
            c(0b11, 2, 4),
            c(0b001, 3, 5),
        ]
    } else if table == 2 {
        [
            c(0b0000, 4, 0),
            c(0b0001, 4, 1),
            c(0b01, 2, 2),
            c(0b10, 2, 3),
            c(0b11, 2, 4),
            c(0b001, 3, 5),
        ]
    } else {
        [
            c(0b00000, 5, 0),
            c(0b00001, 5, 1),
            c(0b01, 2, 2),
            c(0b1, 1, 3),
            c(0b0001, 4, 4),
            c(0b001, 3, 5),
        ]
    }
}

/// The index codes at the last but one location.
pub open spec fn index_b_table() -> Seq<VlcCode> {
    seq![
        code(0b0, 1, 0),
        code(0b10, 2, 2),
        code(0b110, 3, 1),
        code(0b111, 3, 3),
    ]
}

/// The index codes at the last but one location.
pub fn index_b_codes() -> (codes: [VlcCode; 4])
    ensures
        codes@ == index_b_table(),
{
    [
        c(0b0, 1, 0),
        c(0b10, 2, 2),
        c(0b110, 3, 1),
        c(0b111, 3, 3),
    ]
}

/// The first-index codes.
pub open spec fn first_index_table(table: int) -> Seq<VlcCode> {
    if table == 0 {
        seq![
            code(0b00001, 5, 0),
            code(0b000001, 6, 1),
            code(0b0000000, 7, 2),
            code(0b0000001, 7, 3),
            code(0b00100, 5, 4),
            code(0b010, 3, 5),
            code(0b00101, 5, 6),
            code(0b1, 1, 7),
            code(0b00110, 5, 8),
            code(0b0001, 4, 9),
            code(0b00111, 5, 10),
            code(0b011, 3, 11),
        ]
    } else if table == 1 {
        seq![
            code(0b0010, 4, 0),
            code(0b00010, 5, 1),
            code(0b000000, 6, 2),
            code(0b000001, 6, 3),
            code(0b0011, 4, 4),
            code(0b010, 3, 5),
            code(0b00011, 5, 6),
            code(0b11, 2, 7),
            code(0b011, 3, 8),
            code(0b100, 3, 9),
            code(0b00001, 5, 10),
            code(0b101, 3, 11),
        ]
    } else if table == 2 {
        seq![
            code(0b11, 2, 0),
            code(0b001, 3, 1),
            code(0b0000000, 7, 2),
            code(0b0000001, 7, 3),
            code(0b00001, 5, 4),
            code(0b010, 3, 5),
            code(0b0000010, 7, 6),
            code(0b011, 3, 7),
            code(0b100, 3, 8),
            code(0b101, 3, 9),
            code(0b0000011, 7, 10),
            code(0b0001, 4, 11),
        ]
    } else if table == 3 {
        seq![
            code(0b001, 3, 0),
            code(0b11, 2, 1),
            code(0b0000000, 7, 2),
            code(0b00001, 5, 3),
            code(0b00010, 5, 4),
            code(0b010, 3, 5),
            code(0b0000001, 7, 6),
            code(0b011, 3, 7),
            code(0b00011, 5, 8),
            code(0b100, 3, 9),
            code(0b000001, 6, 10),
            code(0b101, 3, 11),
        ]
    } else {
        seq![
            code(0b010, 3, 0),
            code(0b1, 1, 1),
            code(0b0000001, 7, 2),
            code(0b0001, 4, 3),
            code(0b0000010, 7, 4),
            code(0b011, 3, 5),
            code(0b00000000, 8, 6),
            code(0b0010, 4, 7),
            code(0b0000011, 7, 8),
            code(0b0011, 4, 9),
            code(0b00000001, 8, 10),
            code(0b00001, 5, 11),
        ]
    }
}

/// The first-index codes.
pub fn first_index_codes(table: usize) -> (codes: [VlcCode; 12])
    requires
        table < 5,
    ensures
        codes@ == first_index_table(table as int),
{
    if table == 0 {
        [
            c(0b00001, 5, 0),
            c(0b000001, 6, 1),
            c(0b0000000, 7, 2),
            c(0b0000001, 7, 3),
            c(0b00100, 5, 4),
            c(0b010, 3, 5),
            c(0b00101, 5, 6),
            c(0b1, 1, 7),
            c(0b00110, 5, 8),
            c(0b0001, 4, 9),
            c(0b00111, 5, 10),
            c(0b011, 3, 11),
        ]
    } else if table == 1 {
        [
            c(0b0010, 4, 0),
            c(0b00010, 5, 1),
            c(0b000000, 6, 2),
            c(0b000001, 6, 3),
            c(0b0011, 4, 4),
            c(0b010, 3, 5),
            c(0b00011, 5, 6),
            c(0b11, 2, 7),
            c(0b011, 3, 8),
            c(0b100, 3, 9),
            c(0b00001, 5, 10),
            c(0b101, 3, 11),
        ]
    } else if table == 2 {
        [
            c(0b11, 2, 0),
            c(0b001, 3, 1),
            c(0b0000000, 7, 2),
            c(0b0000001, 7, 3),
            c(0b00001, 5, 4),
            c(0b010, 3, 5),
            c(0b0000010, 7, 6),
            c(0b011, 3, 7),
            c(0b100, 3, 8),
            c(0b101, 3, 9),
            c(0b0000011, 7, 10),
            c(0b0001, 4, 11),
        ]
    } else if table == 3 {
        [
            c(0b001, 3, 0),
            c(0b11, 2, 1),
            c(0b0000000, 7, 2),
            c(0b00001, 5, 3),
            c(0b00010, 5, 4),
            c(0b010, 3, 5),
            c(0b0000001, 7, 6),
            c(0b011, 3, 7),
            c(0b00011, 5, 8),
            c(0b100, 3, 9),
            c(0b000001, 6, 10),
            c(0b101, 3, 11),
        ]
    } else {
        [
            c(0b010, 3, 0),
            c(0b1, 1, 1),
            c(0b0000001, 7, 2),
            c(0b0001, 4, 3),
            c(0b0000010, 7, 4),
            c(0b011, 3, 5),
            c(0b00000000, 8, 6),
            c(0b0010, 4, 7),
            c(0b0000011, 7, 8),
            c(0b0011, 4, 9),
            c(0b00000001, 8, 10),
            c(0b00001, 5, 11),
        ]
    }
}

/// Whether every symbol of the table is below `bound` and every code word short enough to read.
pub open spec fn bounded(codes: Seq<VlcCode>, bound: int) -> bool {
    &&& forall|index: int| 0 <= index < codes.len() ==> (#[trigger] codes[index]).symbol < bound
    &&& forall|index: int| 0 <= index < codes.len() ==> (#[trigger] codes[index]).length <= 16
}

/// A decoded symbol is a symbol of the table.
pub proof fn lemma_symbol_bound(
    cursor: BitCursor,
    syntax: &'static str,
    codes: Seq<VlcCode>,
    bound: int,
)
    requires
        bounded(codes, bound),
    ensures
        symbol_at(cursor, syntax, codes).0 matches Ok(symbol) ==> symbol < bound,
{
    if exists|index: int| selects(cursor, codes, index) {
        let index = choose|index: int| selects(cursor, codes, index);
        assert(codes[index].symbol < bound);
    }
}

/// The symbols of every table, and the lengths of its code words, are small.
pub proof fn lemma_tables_bounded()
    ensures
        forall|table: int| bounded(#[trigger] abs_level_table(table), 7),
        bounded(run_value_2_table(), 3),
        bounded(run_value_3_table(), 4),
        bounded(run_value_4_table(), 5),
        bounded(run_index_table(), 5),
        forall|table: int| bounded(#[trigger] index_a_table(table), 6),
        bounded(index_b_table(), 4),
        forall|table: int| bounded(#[trigger] first_index_table(table), 12),
{
}

} // verus!

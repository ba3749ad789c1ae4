//! Laws of the prefix codes.

use super::bit_reader::BitCursor;
use super::error::EntropyError;
use super::vlc::{self, VlcCode};
use crate::bits;
use vstd::arithmetic::power2::*;
use vstd::prelude::*;

verus! {

/// The upper bits of a number, without its lowest `count` bits.
pub open spec fn upper(value: int, count: nat) -> int
    decreases count,
{
    if count == 0 {
        value
    } else {
        upper(value / 2, (count - 1) as nat)
    }
}

/// Whether the bits of the longer code word begin with those of the shorter one.
pub open spec fn starts(longer: VlcCode, shorter: VlcCode) -> bool {
    &&& shorter.length <= longer.length
    &&& upper(longer.bits as int, (longer.length - shorter.length) as nat) == shorter.bits
}

/// Whether no code word begins with another code word of the table.
pub open spec fn prefix_free(codes: Seq<VlcCode>) -> bool {
    forall|longer: int, shorter: int|
        #![trigger codes[longer], codes[shorter]]
        0 <= longer < codes.len() && 0 <= shorter < codes.len() && longer != shorter ==> !starts(
            codes[longer],
            codes[shorter],
        )
}

/// Whether `length` bits that read `value` begin with the code word.
pub open spec fn matched(value: int, length: nat, code: VlcCode) -> bool {
    &&& 1 <= code.length <= length
    &&& upper(value, (length - code.length) as nat) == code.bits
}

/// Whether `length` bits that read `value` begin with a code word of the table.
pub open spec fn covered(value: int, length: nat, codes: Seq<VlcCode>) -> bool {
    exists|index: int| 0 <= index < codes.len() && #[trigger] matched(value, length, codes[index])
}

/// Whether every string of `length` bits begins with a code word of the table.
pub open spec fn complete(codes: Seq<VlcCode>, length: nat) -> bool {
    forall|value: int| 0 <= value < pow2(length) ==> #[trigger] covered(value, length, codes)
}

/// Whether the table is one of those that the decoder reads with.
pub open spec fn is_table(codes: Seq<VlcCode>) -> bool {
    ||| exists|table: int| codes == #[trigger] vlc::abs_level_table(table)
    ||| codes == vlc::run_value_2_table()
    ||| codes == vlc::run_value_3_table()
    ||| codes == vlc::run_value_4_table()
    ||| codes == vlc::run_index_table()
    ||| exists|table: int| codes == #[trigger] vlc::index_a_table(table)
    ||| codes == vlc::index_b_table()
    ||| exists|table: int| codes == #[trigger] vlc::first_index_table(table)
}

/// The upper bits of a number are the bits that come first.
proof fn lemma_upper_bits(bytes: Seq<u8>, start: int, high: nat, low: nat)
    ensures
        upper(bits::bits_value(bytes, start, high + low) as int, low) == bits::bits_value(
            bytes,
            start,
            high,
        ),
    decreases low,
{
    if low > 0 {
        let count = high + low;
        bits::lemma_bit_at_bound(bytes, start + count - 1);
        assert(bits::bits_value(bytes, start, count) as int / 2 == bits::bits_value(
            bytes,
            start,
            (count - 1) as nat,
        ));
        lemma_upper_bits(bytes, start, high, (low - 1) as nat);
    }
}

/// Leaving out bits is dividing by a power of two.
proof fn lemma_upper()
    ensures
        forall|value: int| #[trigger] upper(value, 0) == value,
        forall|value: int| #[trigger] upper(value, 1) == value / 2,
        forall|value: int| #[trigger] upper(value, 2) == value / 4,
        forall|value: int| #[trigger] upper(value, 3) == value / 8,
        forall|value: int| #[trigger] upper(value, 4) == value / 16,
        forall|value: int| #[trigger] upper(value, 5) == value / 32,
        forall|value: int| #[trigger] upper(value, 6) == value / 64,
        forall|value: int| #[trigger] upper(value, 7) == value / 128,
{
    assert forall|value: int| #[trigger] upper(value, 1) == value / 2 by {
        assert(upper(value / 2, 0) == value / 2);
    }
    assert forall|value: int| #[trigger] upper(value, 2) == value / 4 by {
        assert(upper(value / 2, 1) == value / 2 / 2);
    }
    assert forall|value: int| #[trigger] upper(value, 3) == value / 8 by {
        assert(upper(value / 2, 2) == value / 2 / 4);
    }
    assert forall|value: int| #[trigger] upper(value, 4) == value / 16 by {
        assert(upper(value / 2, 3) == value / 2 / 8);
    }
    assert forall|value: int| #[trigger] upper(value, 5) == value / 32 by {
        assert(upper(value / 2, 4) == value / 2 / 16);
    }
    assert forall|value: int| #[trigger] upper(value, 6) == value / 64 by {
        assert(upper(value / 2, 5) == value / 2 / 32);
    }
    assert forall|value: int| #[trigger] upper(value, 7) == value / 128 by {
        assert(upper(value / 2, 6) == value / 2 / 64);
    }
}

/// Where no code word begins with another one, a code word that the bits begin with is the one
/// that is read: its symbol comes out, and the reader stands behind its last bit.
pub proof fn lemma_code_word_decodes(
    cursor: BitCursor,
    syntax: &'static str,
    codes: Seq<VlcCode>,
    index: int,
)
    requires
        prefix_free(codes),
        0 <= index < codes.len(),
        vlc::begins_with(cursor, codes[index]),
    ensures
        vlc::symbol_at(cursor, syntax, codes) == (
            Ok::<u8, EntropyError>(codes[index].symbol),
            cursor.moved(cursor.position + codes[index].length),
        ),
{
    assert forall|other: int|
        0 <= other < codes.len() && vlc::begins_with(
            cursor,
            #[trigger] codes[other],
        ) implies other == index by {
        let (longer, shorter) = if codes[other].length <= codes[index].length {
            (codes[index], codes[other])
        } else {
            (codes[other], codes[index])
        };
        lemma_upper_bits(
            cursor.bytes,
            cursor.position as int,
            shorter.length as nat,
            (longer.length - shorter.length) as nat,
        );
        assert((shorter.length + (longer.length - shorter.length)) as nat == longer.length as nat);
        assert(starts(longer, shorter));
    }
    assert(vlc::selects(cursor, codes, index));
    let chosen = choose|chosen: int| vlc::selects(cursor, codes, chosen);
    assert(vlc::begins_with(cursor, codes[chosen]));
}

/// Where every string of bits begins with a code word, a symbol comes out of every packet that
/// still holds as many bits as the longest code word.
pub proof fn lemma_complete_code_decodes(
    cursor: BitCursor,
    syntax: &'static str,
    codes: Seq<VlcCode>,
)
    requires
        complete(codes, vlc::longest(codes) as nat),
        cursor.position + vlc::longest(codes) <= cursor.limit,
    ensures
        vlc::symbol_at(cursor, syntax, codes).0 is Ok,
{
    let length = vlc::longest(codes) as nat;
    let value = bits::bits_value(cursor.bytes, cursor.position as int, length) as int;
    bits::lemma_bits_value_bound(cursor.bytes, cursor.position as int, length);
    assert(covered(value, length, codes));
    let index = choose|index: int|
        0 <= index < codes.len() && #[trigger] matched(value, length, codes[index]);
    lemma_upper_bits(
        cursor.bytes,
        cursor.position as int,
        codes[index].length as nat,
        (length - codes[index].length) as nat,
    );
    assert((codes[index].length + (length - codes[index].length)) as nat == length);
    assert(vlc::begins_with(cursor, codes[index]));
    lemma_first_is_selected(cursor, codes, codes.len());
}

/// Among the first entries that the bits begin with, one is the first of the shortest.
proof fn lemma_first_is_selected(cursor: BitCursor, codes: Seq<VlcCode>, count: nat)
    requires
        count <= codes.len(),
        exists|index: int| 0 <= index < count && vlc::begins_with(cursor, #[trigger] codes[index]),
    ensures
        exists|index: int| #[trigger] vlc::selects(cursor, codes.take(count as int), index),
        count == codes.len() ==> exists|index: int| #[trigger] vlc::selects(cursor, codes, index),
    decreases count,
{
    let head = codes.take(count as int);
    let last = count - 1;
    let rest = codes.take(last);
    if exists|index: int| 0 <= index < last && vlc::begins_with(cursor, #[trigger] codes[index]) {
        lemma_first_is_selected(cursor, codes, last as nat);
        let chosen = choose|chosen: int| #[trigger] vlc::selects(cursor, rest, chosen);
        assert forall|other: int| 0 <= other < last implies head[other] == rest[other] by {}
        if vlc::begins_with(cursor, codes[last]) && codes[last].length < codes[chosen].length {
            assert forall|other: int|
                #![trigger head[other]]
                0 <= other < head.len() && vlc::begins_with(cursor, head[other]) implies head[last].length
                < head[other].length || (head[last].length == head[other].length && last
                <= other) by {
                if other < last {
                    assert(rest[other] == head[other]);
                }
            }
            assert(vlc::selects(cursor, head, last));
        } else {
            assert forall|other: int|
                #![trigger head[other]]
                0 <= other < head.len() && vlc::begins_with(
                    cursor,
                    head[other],
                ) implies head[chosen].length < head[other].length || (head[chosen].length
                == head[other].length && chosen <= other) by {
                if other < last {
                    assert(rest[other] == head[other]);
                }
            }
            assert(vlc::selects(cursor, head, chosen));
        }
    } else {
        assert(vlc::selects(cursor, head, last));
    }
    if count == codes.len() {
        assert(head =~= codes);
    }
}

proof fn lemma_first_abs_level_table(table: int)
    requires
        table == 0,
    ensures
        prefix_free(vlc::abs_level_table(table)),
        complete(vlc::abs_level_table(table), vlc::longest(vlc::abs_level_table(table)) as nat),
{
    lemma2_to64();
    lemma_upper();
    let codes = vlc::abs_level_table(table);
    assert(vlc::longest(codes) == 5) by {
        reveal_with_fuel(vlc::longest, 8);
    }
    assert forall|value: int| 0 <= value < pow2(5) implies #[trigger] covered(value, 5, codes) by {
        assert({
            ||| matched(value, 5, codes[0])
            ||| matched(value, 5, codes[1])
            ||| matched(value, 5, codes[2])
            ||| matched(value, 5, codes[3])
            ||| matched(value, 5, codes[4])
            ||| matched(value, 5, codes[5])
            ||| matched(value, 5, codes[6])
        });
    }
}

proof fn lemma_second_abs_level_table(table: int)
    requires
        table != 0,
    ensures
        prefix_free(vlc::abs_level_table(table)),
        complete(vlc::abs_level_table(table), vlc::longest(vlc::abs_level_table(table)) as nat),
{
    lemma2_to64();
    lemma_upper();
    let codes = vlc::abs_level_table(table);
    assert(vlc::longest(codes) == 6) by {
        reveal_with_fuel(vlc::longest, 8);
    }
    assert forall|value: int| 0 <= value < pow2(6) implies #[trigger] covered(value, 6, codes) by {
        assert({
            ||| matched(value, 6, codes[0])
            ||| matched(value, 6, codes[1])
            ||| matched(value, 6, codes[2])
            ||| matched(value, 6, codes[3])
            ||| matched(value, 6, codes[4])
            ||| matched(value, 6, codes[5])
            ||| matched(value, 6, codes[6])
        });
    }
}

proof fn lemma_abs_level_table(table: int)
    ensures
        prefix_free(vlc::abs_level_table(table)),
        complete(vlc::abs_level_table(table), vlc::longest(vlc::abs_level_table(table)) as nat),
{
    if table == 0 {
        lemma_first_abs_level_table(table);
    } else {
        lemma_second_abs_level_table(table);
    }
}

proof fn lemma_run_value_2_table()
    ensures
        prefix_free(vlc::run_value_2_table()),
        complete(vlc::run_value_2_table(), vlc::longest(vlc::run_value_2_table()) as nat),
{
    lemma2_to64();
    lemma_upper();
    let codes = vlc::run_value_2_table();
    assert(vlc::longest(codes) == 1) by {
        reveal_with_fuel(vlc::longest, 3);
    }
    assert forall|value: int| 0 <= value < pow2(1) implies #[trigger] covered(value, 1, codes) by {
        assert({
            ||| matched(value, 1, codes[0])
            ||| matched(value, 1, codes[1])
        });
    }
}

proof fn lemma_run_value_3_table()
    ensures
        prefix_free(vlc::run_value_3_table()),
        complete(vlc::run_value_3_table(), vlc::longest(vlc::run_value_3_table()) as nat),
{
    lemma2_to64();
    lemma_upper();
    let codes = vlc::run_value_3_table();
    assert(vlc::longest(codes) == 2) by {
        reveal_with_fuel(vlc::longest, 4);
    }
    assert forall|value: int| 0 <= value < pow2(2) implies #[trigger] covered(value, 2, codes) by {
        assert({
            ||| matched(value, 2, codes[0])
            ||| matched(value, 2, codes[1])
            ||| matched(value, 2, codes[2])
        });
    }
}

proof fn lemma_run_value_4_table()
    ensures
        prefix_free(vlc::run_value_4_table()),
        complete(vlc::run_value_4_table(), vlc::longest(vlc::run_value_4_table()) as nat),
{
    lemma2_to64();
    lemma_upper();
    let codes = vlc::run_value_4_table();
    assert(vlc::longest(codes) == 3) by {
        reveal_with_fuel(vlc::longest, 5);
    }
    assert forall|value: int| 0 <= value < pow2(3) implies #[trigger] covered(value, 3, codes) by {
        assert({
            ||| matched(value, 3, codes[0])
            ||| matched(value, 3, codes[1])
            ||| matched(value, 3, codes[2])
            ||| matched(value, 3, codes[3])
        });
    }
}

proof fn lemma_run_index_table()
    ensures
        prefix_free(vlc::run_index_table()),
        complete(vlc::run_index_table(), vlc::longest(vlc::run_index_table()) as nat),
{
    lemma2_to64();
    lemma_upper();
    let codes = vlc::run_index_table();
    assert(vlc::longest(codes) == 4) by {
        reveal_with_fuel(vlc::longest, 6);
    }
    assert forall|value: int| 0 <= value < pow2(4) implies #[trigger] covered(value, 4, codes) by {
        assert({
            ||| matched(value, 4, codes[0])
            ||| matched(value, 4, codes[1])
            ||| matched(value, 4, codes[2])
            ||| matched(value, 4, codes[3])
            ||| matched(value, 4, codes[4])
        });
    }
}

proof fn lemma_first_index_a_table(table: int)
    requires
        table == 0,
    ensures
        prefix_free(vlc::index_a_table(table)),
        complete(vlc::index_a_table(table), vlc::longest(vlc::index_a_table(table)) as nat),
{
    lemma2_to64();
    lemma_upper();
    let codes = vlc::index_a_table(table);
    assert(vlc::longest(codes) == 5) by {
        reveal_with_fuel(vlc::longest, 7);
    }
    assert forall|value: int| 0 <= value < pow2(5) implies #[trigger] covered(value, 5, codes) by {
        assert({
            ||| matched(value, 5, codes[0])
            ||| matched(value, 5, codes[1])
            ||| matched(value, 5, codes[2])
            ||| matched(value, 5, codes[3])
            ||| matched(value, 5, codes[4])
            ||| matched(value, 5, codes[5])
        });
    }
}

proof fn lemma_second_index_a_table(table: int)
    requires
        table == 1,
    ensures
        prefix_free(vlc::index_a_table(table)),
        complete(vlc::index_a_table(table), vlc::longest(vlc::index_a_table(table)) as nat),
{
    lemma2_to64();
    lemma_upper();
    let codes = vlc::index_a_table(table);
    assert(vlc::longest(codes) == 4) by {
        reveal_with_fuel(vlc::longest, 7);
    }
    assert forall|value: int| 0 <= value < pow2(4) implies #[trigger] covered(value, 4, codes) by {
        assert({
            ||| matched(value, 4, codes[0])
            ||| matched(value, 4, codes[1])
            ||| matched(value, 4, codes[2])
            ||| matched(value, 4, codes[3])
            ||| matched(value, 4, codes[4])
            ||| matched(value, 4, codes[5])
        });
    }
}

proof fn lemma_third_index_a_table(table: int)
    requires
        table == 2,
    ensures
        prefix_free(vlc::index_a_table(table)),
        complete(vlc::index_a_table(table), vlc::longest(vlc::index_a_table(table)) as nat),
{
    lemma2_to64();
    lemma_upper();
    let codes = vlc::index_a_table(table);
    assert(vlc::longest(codes) == 4) by {
        reveal_with_fuel(vlc::longest, 7);
    }
    assert forall|value: int| 0 <= value < pow2(4) implies #[trigger] covered(value, 4, codes) by {
        assert({
            ||| matched(value, 4, codes[0])
            ||| matched(value, 4, codes[1])
            ||| matched(value, 4, codes[2])
            ||| matched(value, 4, codes[3])
            ||| matched(value, 4, codes[4])
            ||| matched(value, 4, codes[5])
        });
    }
}

proof fn lemma_fourth_index_a_table(table: int)
    requires
        table != 0 && table != 1 && table != 2,
    ensures
        prefix_free(vlc::index_a_table(table)),
        complete(vlc::index_a_table(table), vlc::longest(vlc::index_a_table(table)) as nat),
{
    lemma2_to64();
    lemma_upper();
    let codes = vlc::index_a_table(table);
    assert(vlc::longest(codes) == 5) by {
        reveal_with_fuel(vlc::longest, 7);
    }
    assert forall|value: int| 0 <= value < pow2(5) implies #[trigger] covered(value, 5, codes) by {
        assert({
            ||| matched(value, 5, codes[0])
            ||| matched(value, 5, codes[1])
            ||| matched(value, 5, codes[2])
            ||| matched(value, 5, codes[3])
            ||| matched(value, 5, codes[4])
            ||| matched(value, 5, codes[5])
        });
    }
}

proof fn lemma_index_a_table(table: int)
    ensures
        prefix_free(vlc::index_a_table(table)),
        complete(vlc::index_a_table(table), vlc::longest(vlc::index_a_table(table)) as nat),
{
    if table == 0 {
        lemma_first_index_a_table(table);
    } else if table == 1 {
        lemma_second_index_a_table(table);
    } else if table == 2 {
        lemma_third_index_a_table(table);
    } else {
        lemma_fourth_index_a_table(table);
    }
}

proof fn lemma_index_b_table()
    ensures
        prefix_free(vlc::index_b_table()),
        complete(vlc::index_b_table(), vlc::longest(vlc::index_b_table()) as nat),
{
    lemma2_to64();
    lemma_upper();
    let codes = vlc::index_b_table();
    assert(vlc::longest(codes) == 3) by {
        reveal_with_fuel(vlc::longest, 5);
    }
    assert forall|value: int| 0 <= value < pow2(3) implies #[trigger] covered(value, 3, codes) by {
        assert({
            ||| matched(value, 3, codes[0])
            ||| matched(value, 3, codes[1])
            ||| matched(value, 3, codes[2])
            ||| matched(value, 3, codes[3])
        });
    }
}

proof fn lemma_first_first_index_table(table: int)
    requires
        table == 0,
    ensures
        prefix_free(vlc::first_index_table(table)),
        complete(vlc::first_index_table(table), vlc::longest(vlc::first_index_table(table)) as nat),
{
    lemma2_to64();
    lemma_upper();
    let codes = vlc::first_index_table(table);
    assert(vlc::longest(codes) == 7) by {
        reveal_with_fuel(vlc::longest, 13);
    }
    assert forall|value: int| 0 <= value < pow2(7) implies #[trigger] covered(value, 7, codes) by {
        assert({
            ||| matched(value, 7, codes[0])
            ||| matched(value, 7, codes[1])
            ||| matched(value, 7, codes[2])
            ||| matched(value, 7, codes[3])
            ||| matched(value, 7, codes[4])
            ||| matched(value, 7, codes[5])
            ||| matched(value, 7, codes[6])
            ||| matched(value, 7, codes[7])
            ||| matched(value, 7, codes[8])
            ||| matched(value, 7, codes[9])
            ||| matched(value, 7, codes[10])
            ||| matched(value, 7, codes[11])
        });
    }
}

proof fn lemma_second_first_index_table(table: int)
    requires
        table == 1,
    ensures
        prefix_free(vlc::first_index_table(table)),
        complete(vlc::first_index_table(table), vlc::longest(vlc::first_index_table(table)) as nat),
{
    lemma2_to64();
    lemma_upper();
    let codes = vlc::first_index_table(table);
    assert(vlc::longest(codes) == 6) by {
        reveal_with_fuel(vlc::longest, 13);
    }
    assert forall|value: int| 0 <= value < pow2(6) implies #[trigger] covered(value, 6, codes) by {
        assert({
            ||| matched(value, 6, codes[0])
            ||| matched(value, 6, codes[1])
            ||| matched(value, 6, codes[2])
            ||| matched(value, 6, codes[3])
            ||| matched(value, 6, codes[4])
            ||| matched(value, 6, codes[5])
            ||| matched(value, 6, codes[6])
            ||| matched(value, 6, codes[7])
            ||| matched(value, 6, codes[8])
            ||| matched(value, 6, codes[9])
            ||| matched(value, 6, codes[10])
            ||| matched(value, 6, codes[11])
        });
    }
}

proof fn lemma_third_first_index_table(table: int)
    requires
        table == 2,
    ensures
        prefix_free(vlc::first_index_table(table)),
        complete(vlc::first_index_table(table), vlc::longest(vlc::first_index_table(table)) as nat),
{
    lemma2_to64();
    lemma_upper();
    let codes = vlc::first_index_table(table);
    assert(vlc::longest(codes) == 7) by {
        reveal_with_fuel(vlc::longest, 13);
    }
    assert forall|value: int| 0 <= value < pow2(7) implies #[trigger] covered(value, 7, codes) by {
        assert({
            ||| matched(value, 7, codes[0])
            ||| matched(value, 7, codes[1])
            ||| matched(value, 7, codes[2])
            ||| matched(value, 7, codes[3])
            ||| matched(value, 7, codes[4])
            ||| matched(value, 7, codes[5])
            ||| matched(value, 7, codes[6])
            ||| matched(value, 7, codes[7])
            ||| matched(value, 7, codes[8])
            ||| matched(value, 7, codes[9])
            ||| matched(value, 7, codes[10])
            ||| matched(value, 7, codes[11])
        });
    }
}

proof fn lemma_fourth_first_index_table(table: int)
    requires
        table == 3,
    ensures
        prefix_free(vlc::first_index_table(table)),
        complete(vlc::first_index_table(table), vlc::longest(vlc::first_index_table(table)) as nat),
{
    lemma2_to64();
    lemma_upper();
    let codes = vlc::first_index_table(table);
    assert(vlc::longest(codes) == 7) by {
        reveal_with_fuel(vlc::longest, 13);
    }
    assert forall|value: int| 0 <= value < pow2(7) implies #[trigger] covered(value, 7, codes) by {
        assert({
            ||| matched(value, 7, codes[0])
            ||| matched(value, 7, codes[1])
            ||| matched(value, 7, codes[2])
            ||| matched(value, 7, codes[3])
            ||| matched(value, 7, codes[4])
            ||| matched(value, 7, codes[5])
            ||| matched(value, 7, codes[6])
            ||| matched(value, 7, codes[7])
            ||| matched(value, 7, codes[8])
            ||| matched(value, 7, codes[9])
            ||| matched(value, 7, codes[10])
            ||| matched(value, 7, codes[11])
        });
    }
}

proof fn lemma_fifth_first_index_table(table: int)
    requires
        table != 0 && table != 1 && table != 2 && table != 3,
    ensures
        prefix_free(vlc::first_index_table(table)),
        complete(vlc::first_index_table(table), vlc::longest(vlc::first_index_table(table)) as nat),
{
    lemma2_to64();
    lemma_upper();
    let codes = vlc::first_index_table(table);
    assert(vlc::longest(codes) == 8) by {
        reveal_with_fuel(vlc::longest, 13);
    }
    assert forall|value: int| 0 <= value < pow2(8) implies #[trigger] covered(value, 8, codes) by {
        assert({
            ||| matched(value, 8, codes[0])
            ||| matched(value, 8, codes[1])
            ||| matched(value, 8, codes[2])
            ||| matched(value, 8, codes[3])
            ||| matched(value, 8, codes[4])
            ||| matched(value, 8, codes[5])
            ||| matched(value, 8, codes[6])
            ||| matched(value, 8, codes[7])
            ||| matched(value, 8, codes[8])
            ||| matched(value, 8, codes[9])
            ||| matched(value, 8, codes[10])
            ||| matched(value, 8, codes[11])
        });
    }
}

proof fn lemma_first_index_table(table: int)
    ensures
        prefix_free(vlc::first_index_table(table)),
        complete(vlc::first_index_table(table), vlc::longest(vlc::first_index_table(table)) as nat),
{
    if table == 0 {
        lemma_first_first_index_table(table);
    } else if table == 1 {
        lemma_second_first_index_table(table);
    } else if table == 2 {
        lemma_third_first_index_table(table);
    } else if table == 3 {
        lemma_fourth_first_index_table(table);
    } else {
        lemma_fifth_first_index_table(table);
    }
}

/// In every table that the decoder reads with, no code word begins with another one.
pub proof fn lemma_tables_are_prefix_free(codes: Seq<VlcCode>)
    requires
        is_table(codes),
    ensures
        prefix_free(codes),
{
    lemma_table(codes);
}

/// A symbol comes out of every packet that still holds as many bits as the longest code word of
/// the table: no bits are left without a meaning.
pub proof fn lemma_tables_are_complete(cursor: BitCursor, syntax: &'static str, codes: Seq<VlcCode>)
    requires
        is_table(codes),
        cursor.position + vlc::longest(codes) <= cursor.limit,
    ensures
        vlc::symbol_at(cursor, syntax, codes).0 is Ok,
{
    lemma_table(codes);
    lemma_complete_code_decodes(cursor, syntax, codes);
}

proof fn lemma_table(codes: Seq<VlcCode>)
    requires
        is_table(codes),
    ensures
        prefix_free(codes),
        complete(codes, vlc::longest(codes) as nat),
{
    if exists|table: int| codes == #[trigger] vlc::abs_level_table(table) {
        let table = choose|table: int| codes == #[trigger] vlc::abs_level_table(table);
        lemma_abs_level_table(table);
    } else if exists|table: int| codes == #[trigger] vlc::index_a_table(table) {
        let table = choose|table: int| codes == #[trigger] vlc::index_a_table(table);
        lemma_index_a_table(table);
    } else if exists|table: int| codes == #[trigger] vlc::first_index_table(table) {
        let table = choose|table: int| codes == #[trigger] vlc::first_index_table(table);
        lemma_first_index_table(table);
    } else {
        lemma_run_value_2_table();
        lemma_run_value_3_table();
        lemma_run_value_4_table();
        lemma_run_index_table();
        lemma_index_b_table();
    }
}

} // verus!

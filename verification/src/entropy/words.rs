//! The code words of the coefficient syntax, and that reading finds them.

use super::bit_reader::BitCursor;
use super::code_laws;
use super::error::EntropyError;
use super::vlc;
use crate::bits;
use vstd::prelude::*;

verus! {

/// Some bits, as a number with the first bit most significant.
pub struct Word {
    /// The number.
    pub bits: int,
    /// How many bits there are.
    pub length: nat,
}

/// Whether the bits at the cursor begin with a word.
pub open spec fn begins(cursor: BitCursor, word: Word) -> bool {
    &&& cursor.position + word.length <= cursor.limit
    &&& bits::bits_value(cursor.bytes, cursor.position as int, word.length) == word.bits
}

/// The cursor behind so many bits.
pub open spec fn behind(cursor: BitCursor, length: int) -> BitCursor {
    cursor.moved(cursor.position + length)
}

/// The code word of an absolute-level symbol.
#[verifier::opaque]
pub open spec fn level_word(table: int, symbol: int) -> Word {
    if table == 0 {
        if symbol == 0 {
            Word { bits: 0b01, length: 2 }
        } else if symbol == 1 {
            Word { bits: 0b10, length: 2 }
        } else if symbol == 2 {
            Word { bits: 0b11, length: 2 }
        } else if symbol == 3 {
            Word { bits: 0b001, length: 3 }
        } else if symbol == 4 {
            Word { bits: 0b0001, length: 4 }
        } else if symbol == 5 {
            Word { bits: 0b00000, length: 5 }
        } else {
            Word { bits: 0b00001, length: 5 }
        }
    } else {
        if symbol == 0 {
            Word { bits: 0b1, length: 1 }
        } else if symbol == 1 {
            Word { bits: 0b01, length: 2 }
        } else if symbol == 2 {
            Word { bits: 0b001, length: 3 }
        } else if symbol == 3 {
            Word { bits: 0b0001, length: 4 }
        } else if symbol == 4 {
            Word { bits: 0b00001, length: 5 }
        } else if symbol == 5 {
            Word { bits: 0b000000, length: 6 }
        } else {
            Word { bits: 0b000001, length: 6 }
        }
    }
}

/// The code word of a run where there is room for two zeros.
pub open spec fn run_word_of_2(symbol: int) -> Word {
    if symbol == 1 {
        Word { bits: 0b1, length: 1 }
    } else {
        Word { bits: 0b0, length: 1 }
    }
}

/// The code word of a run where there is room for three zeros.
pub open spec fn run_word_of_3(symbol: int) -> Word {
    if symbol == 1 {
        Word { bits: 0b1, length: 1 }
    } else if symbol == 2 {
        Word { bits: 0b01, length: 2 }
    } else {
        Word { bits: 0b00, length: 2 }
    }
}

/// The code word of a run where there is room for four zeros.
pub open spec fn run_word_of_4(symbol: int) -> Word {
    if symbol == 1 {
        Word { bits: 0b1, length: 1 }
    } else if symbol == 2 {
        Word { bits: 0b01, length: 2 }
    } else if symbol == 3 {
        Word { bits: 0b001, length: 3 }
    } else {
        Word { bits: 0b000, length: 3 }
    }
}

/// The code word of a run index.
pub open spec fn run_index_word(symbol: int) -> Word {
    if symbol == 0 {
        Word { bits: 0b1, length: 1 }
    } else if symbol == 1 {
        Word { bits: 0b01, length: 2 }
    } else if symbol == 2 {
        Word { bits: 0b001, length: 3 }
    } else if symbol == 3 {
        Word { bits: 0b0000, length: 4 }
    } else {
        Word { bits: 0b0001, length: 4 }
    }
}

/// The code word of an index symbol before the last two locations.
#[verifier::opaque]
pub open spec fn index_word(table: int, symbol: int) -> Word {
    if table == 0 {
        if symbol == 0 {
            Word { bits: 0b1, length: 1 }
        } else if symbol == 1 {
            Word { bits: 0b00000, length: 5 }
        } else if symbol == 2 {
            Word { bits: 0b001, length: 3 }
        } else if symbol == 3 {
            Word { bits: 0b00001, length: 5 }
        } else if symbol == 4 {
            Word { bits: 0b01, length: 2 }
        } else {
            Word { bits: 0b0001, length: 4 }
        }
    } else if table == 1 {
        if symbol == 0 {
            Word { bits: 0b01, length: 2 }
        } else if symbol == 1 {
            Word { bits: 0b0000, length: 4 }
        } else if symbol == 2 {
            Word { bits: 0b10, length: 2 }
        } else if symbol == 3 {
            Word { bits: 0b0001, length: 4 }
        } else if symbol == 4 {
            Word { bits: 0b11, length: 2 }
        } else {
            Word { bits: 0b001, length: 3 }
        }
    } else if table == 2 {
        if symbol == 0 {
            Word { bits: 0b0000, length: 4 }
        } else if symbol == 1 {
            Word { bits: 0b0001, length: 4 }
        } else if symbol == 2 {
            Word { bits: 0b01, length: 2 }
        } else if symbol == 3 {
            Word { bits: 0b10, length: 2 }
        } else if symbol == 4 {
            Word { bits: 0b11, length: 2 }
        } else {
            Word { bits: 0b001, length: 3 }
        }
    } else {
        if symbol == 0 {
            Word { bits: 0b00000, length: 5 }
        } else if symbol == 1 {
            Word { bits: 0b00001, length: 5 }
        } else if symbol == 2 {
            Word { bits: 0b01, length: 2 }
        } else if symbol == 3 {
            Word { bits: 0b1, length: 1 }
        } else if symbol == 4 {
            Word { bits: 0b0001, length: 4 }
        } else {
            Word { bits: 0b001, length: 3 }
        }
    }
}

/// The code word of an index symbol at the last but one location.
pub open spec fn late_index_word(symbol: int) -> Word {
    if symbol == 0 {
        Word { bits: 0b0, length: 1 }
    } else if symbol == 1 {
        Word { bits: 0b110, length: 3 }
    } else if symbol == 2 {
        Word { bits: 0b10, length: 2 }
    } else {
        Word { bits: 0b111, length: 3 }
    }
}

/// The code word of a first-index symbol.
#[verifier::opaque]
pub open spec fn first_index_word(table: int, symbol: int) -> Word {
    if table == 0 {
        if symbol == 0 {
            Word { bits: 0b00001, length: 5 }
        } else if symbol == 1 {
            Word { bits: 0b000001, length: 6 }
        } else if symbol == 2 {
            Word { bits: 0b0000000, length: 7 }
        } else if symbol == 3 {
            Word { bits: 0b0000001, length: 7 }
        } else if symbol == 4 {
            Word { bits: 0b00100, length: 5 }
        } else if symbol == 5 {
            Word { bits: 0b010, length: 3 }
        } else if symbol == 6 {
            Word { bits: 0b00101, length: 5 }
        } else if symbol == 7 {
            Word { bits: 0b1, length: 1 }
        } else if symbol == 8 {
            Word { bits: 0b00110, length: 5 }
        } else if symbol == 9 {
            Word { bits: 0b0001, length: 4 }
        } else if symbol == 10 {
            Word { bits: 0b00111, length: 5 }
        } else {
            Word { bits: 0b011, length: 3 }
        }
    } else if table == 1 {
        if symbol == 0 {
            Word { bits: 0b0010, length: 4 }
        } else if symbol == 1 {
            Word { bits: 0b00010, length: 5 }
        } else if symbol == 2 {
            Word { bits: 0b000000, length: 6 }
        } else if symbol == 3 {
            Word { bits: 0b000001, length: 6 }
        } else if symbol == 4 {
            Word { bits: 0b0011, length: 4 }
        } else if symbol == 5 {
            Word { bits: 0b010, length: 3 }
        } else if symbol == 6 {
            Word { bits: 0b00011, length: 5 }
        } else if symbol == 7 {
            Word { bits: 0b11, length: 2 }
        } else if symbol == 8 {
            Word { bits: 0b011, length: 3 }
        } else if symbol == 9 {
            Word { bits: 0b100, length: 3 }
        } else if symbol == 10 {
            Word { bits: 0b00001, length: 5 }
        } else {
            Word { bits: 0b101, length: 3 }
        }
    } else if table == 2 {
        if symbol == 0 {
            Word { bits: 0b11, length: 2 }
        } else if symbol == 1 {
            Word { bits: 0b001, length: 3 }
        } else if symbol == 2 {
            Word { bits: 0b0000000, length: 7 }
        } else if symbol == 3 {
            Word { bits: 0b0000001, length: 7 }
        } else if symbol == 4 {
            Word { bits: 0b00001, length: 5 }
        } else if symbol == 5 {
            Word { bits: 0b010, length: 3 }
        } else if symbol == 6 {
            Word { bits: 0b0000010, length: 7 }
        } else if symbol == 7 {
            Word { bits: 0b011, length: 3 }
        } else if symbol == 8 {
            Word { bits: 0b100, length: 3 }
        } else if symbol == 9 {
            Word { bits: 0b101, length: 3 }
        } else if symbol == 10 {
            Word { bits: 0b0000011, length: 7 }
        } else {
            Word { bits: 0b0001, length: 4 }
        }
    } else if table == 3 {
        if symbol == 0 {
            Word { bits: 0b001, length: 3 }
        } else if symbol == 1 {
            Word { bits: 0b11, length: 2 }
        } else if symbol == 2 {
            Word { bits: 0b0000000, length: 7 }
        } else if symbol == 3 {
            Word { bits: 0b00001, length: 5 }
        } else if symbol == 4 {
            Word { bits: 0b00010, length: 5 }
        } else if symbol == 5 {
            Word { bits: 0b010, length: 3 }
        } else if symbol == 6 {
            Word { bits: 0b0000001, length: 7 }
        } else if symbol == 7 {
            Word { bits: 0b011, length: 3 }
        } else if symbol == 8 {
            Word { bits: 0b00011, length: 5 }
        } else if symbol == 9 {
            Word { bits: 0b100, length: 3 }
        } else if symbol == 10 {
            Word { bits: 0b000001, length: 6 }
        } else {
            Word { bits: 0b101, length: 3 }
        }
    } else {
        if symbol == 0 {
            Word { bits: 0b010, length: 3 }
        } else if symbol == 1 {
            Word { bits: 0b1, length: 1 }
        } else if symbol == 2 {
            Word { bits: 0b0000001, length: 7 }
        } else if symbol == 3 {
            Word { bits: 0b0001, length: 4 }
        } else if symbol == 4 {
            Word { bits: 0b0000010, length: 7 }
        } else if symbol == 5 {
            Word { bits: 0b011, length: 3 }
        } else if symbol == 6 {
            Word { bits: 0b00000000, length: 8 }
        } else if symbol == 7 {
            Word { bits: 0b0010, length: 4 }
        } else if symbol == 8 {
            Word { bits: 0b0000011, length: 7 }
        } else if symbol == 9 {
            Word { bits: 0b0011, length: 4 }
        } else if symbol == 10 {
            Word { bits: 0b00000001, length: 8 }
        } else {
            Word { bits: 0b00001, length: 5 }
        }
    }
}

/// The code word of an absolute-level symbol is read as that symbol.
pub proof fn lemma_level_word(cursor: BitCursor, syntax: &'static str, table: int, symbol: int)
    requires
        0 <= symbol < 7,
        begins(cursor, level_word(table, symbol)),
    ensures
        vlc::symbol_at(cursor, syntax, vlc::abs_level_table(table)) == (
            Ok::<u8, EntropyError>(symbol as u8),
            behind(cursor, level_word(table, symbol).length as int),
        ),
{
    reveal(level_word);
    let codes = vlc::abs_level_table(table);
    code_laws::lemma_tables_are_prefix_free(codes);
    let index = symbol;
    assert(codes[index].symbol == symbol);
    code_laws::lemma_code_word_decodes(cursor, syntax, codes, index);
}

/// The code word of a run is read as that run.
pub proof fn lemma_run_word_of_2(cursor: BitCursor, syntax: &'static str, symbol: int)
    requires
        1 <= symbol < 3,
        begins(cursor, run_word_of_2(symbol)),
    ensures
        vlc::symbol_at(cursor, syntax, vlc::run_value_2_table()) == (
            Ok::<u8, EntropyError>(symbol as u8),
            behind(cursor, run_word_of_2(symbol).length as int),
        ),
{
    let codes = vlc::run_value_2_table();
    code_laws::lemma_tables_are_prefix_free(codes);
    let index = symbol - 1;
    assert(codes[index].symbol == symbol);
    code_laws::lemma_code_word_decodes(cursor, syntax, codes, index);
}

/// The code word of a run is read as that run.
pub proof fn lemma_run_word_of_3(cursor: BitCursor, syntax: &'static str, symbol: int)
    requires
        1 <= symbol < 4,
        begins(cursor, run_word_of_3(symbol)),
    ensures
        vlc::symbol_at(cursor, syntax, vlc::run_value_3_table()) == (
            Ok::<u8, EntropyError>(symbol as u8),
            behind(cursor, run_word_of_3(symbol).length as int),
        ),
{
    let codes = vlc::run_value_3_table();
    code_laws::lemma_tables_are_prefix_free(codes);
    let index = symbol - 1;
    assert(codes[index].symbol == symbol);
    code_laws::lemma_code_word_decodes(cursor, syntax, codes, index);
}

/// The code word of a run is read as that run.
pub proof fn lemma_run_word_of_4(cursor: BitCursor, syntax: &'static str, symbol: int)
    requires
        1 <= symbol < 5,
        begins(cursor, run_word_of_4(symbol)),
    ensures
        vlc::symbol_at(cursor, syntax, vlc::run_value_4_table()) == (
            Ok::<u8, EntropyError>(symbol as u8),
            behind(cursor, run_word_of_4(symbol).length as int),
        ),
{
    let codes = vlc::run_value_4_table();
    code_laws::lemma_tables_are_prefix_free(codes);
    let index = symbol - 1;
    assert(codes[index].symbol == symbol);
    code_laws::lemma_code_word_decodes(cursor, syntax, codes, index);
}

/// The code word of a run index is read as that index.
pub proof fn lemma_run_index_word(cursor: BitCursor, syntax: &'static str, symbol: int)
    requires
        0 <= symbol < 5,
        begins(cursor, run_index_word(symbol)),
    ensures
        vlc::symbol_at(cursor, syntax, vlc::run_index_table()) == (
            Ok::<u8, EntropyError>(symbol as u8),
            behind(cursor, run_index_word(symbol).length as int),
        ),
{
    let codes = vlc::run_index_table();
    code_laws::lemma_tables_are_prefix_free(codes);
    let index = symbol;
    assert(codes[index].symbol == symbol);
    code_laws::lemma_code_word_decodes(cursor, syntax, codes, index);
}

/// The code word of an index symbol is read as that symbol.
pub proof fn lemma_index_word(cursor: BitCursor, syntax: &'static str, table: int, symbol: int)
    requires
        0 <= symbol < 6,
        begins(cursor, index_word(table, symbol)),
    ensures
        vlc::symbol_at(cursor, syntax, vlc::index_a_table(table)) == (
            Ok::<u8, EntropyError>(symbol as u8),
            behind(cursor, index_word(table, symbol).length as int),
        ),
{
    reveal(index_word);
    let codes = vlc::index_a_table(table);
    code_laws::lemma_tables_are_prefix_free(codes);
    let index = symbol;
    assert(codes[index].symbol == symbol);
    code_laws::lemma_code_word_decodes(cursor, syntax, codes, index);
}

/// The code word of a late index symbol is read as that symbol.
pub proof fn lemma_late_index_word(cursor: BitCursor, syntax: &'static str, symbol: int)
    requires
        0 <= symbol < 4,
        begins(cursor, late_index_word(symbol)),
    ensures
        vlc::symbol_at(cursor, syntax, vlc::index_b_table()) == (
            Ok::<u8, EntropyError>(symbol as u8),
            behind(cursor, late_index_word(symbol).length as int),
        ),
{
    let codes = vlc::index_b_table();
    code_laws::lemma_tables_are_prefix_free(codes);
    let index = if symbol == 1 {
        2int
    } else if symbol == 2 {
        1
    } else {
        symbol
    };
    assert(codes[index].symbol == symbol);
    code_laws::lemma_code_word_decodes(cursor, syntax, codes, index);
}

/// The code word of a first-index symbol is read as that symbol.
pub proof fn lemma_first_index_word(cursor: BitCursor, syntax: &'static str, table: int, symbol: int)
    requires
        0 <= symbol < 12,
        begins(cursor, first_index_word(table, symbol)),
    ensures
        vlc::symbol_at(cursor, syntax, vlc::first_index_table(table)) == (
            Ok::<u8, EntropyError>(symbol as u8),
            behind(cursor, first_index_word(table, symbol).length as int),
        ),
{
    reveal(first_index_word);
    let codes = vlc::first_index_table(table);
    code_laws::lemma_tables_are_prefix_free(codes);
    let index = symbol;
    assert(codes[index].symbol == symbol);
    code_laws::lemma_code_word_decodes(cursor, syntax, codes, index);
}

} // verus!

//! Text of error messages.

use vstd::prelude::*;

verus! {

/// Part of a message.
#[derive(Debug, Clone, Copy, PartialEq, Eq)]
pub enum Piece {
    /// Text as it stands.
    Words(&'static str),
    /// A number in decimal digits, behind a minus sign where it is negative.
    Number(i128),
    /// A tag as `0x` and four upper-case hexadecimal digits.
    Tag(u16),
}

/// Digit of a value below sixteen.
pub open spec fn digit(value: int) -> char {
    if value == 0 {
        '0'
    } else if value == 1 {
        '1'
    } else if value == 2 {
        '2'
    } else if value == 3 {
        '3'
    } else if value == 4 {
        '4'
    } else if value == 5 {
        '5'
    } else if value == 6 {
        '6'
    } else if value == 7 {
        '7'
    } else if value == 8 {
        '8'
    } else if value == 9 {
        '9'
    } else if value == 10 {
        'A'
    } else if value == 11 {
        'B'
    } else if value == 12 {
        'C'
    } else if value == 13 {
        'D'
    } else if value == 14 {
        'E'
    } else {
        'F'
    }
}

/// Decimal digits of a natural number, the most significant first and without leading zeros.
pub open spec fn decimal(value: nat) -> Seq<char>
    decreases value,
{
    if value < 10 {
        seq![digit(value as int)]
    } else {
        decimal(value / 10).push(digit((value % 10) as int))
    }
}

/// Four hexadecimal digits of a tag.
pub open spec fn hexadecimal(value: u16) -> Seq<char> {
    seq![
        digit((value / 4096) as int),
        digit((value / 256 % 16) as int),
        digit((value / 16 % 16) as int),
        digit((value % 16) as int),
    ]
}

/// Characters of one part of a message.
pub open spec fn characters(piece: Piece) -> Seq<char> {
    match piece {
        Piece::Words(words) => words@,
        Piece::Number(value) => if value < 0 {
            seq!['-'] + decimal((-value) as nat)
        } else {
            decimal(value as nat)
        },
        Piece::Tag(value) => seq!['0', 'x'] + hexadecimal(value),
    }
}

/// Characters of a message: those of its parts, one behind the other.
pub open spec fn written(pieces: Seq<Piece>) -> Seq<char>
    decreases pieces.len(),
{
    if pieces.len() == 0 {
        Seq::empty()
    } else {
        written(pieces.drop_last()) + characters(pieces.last())
    }
}

/// The digit of a value below sixteen as text.
fn digit_text(value: u64) -> (text: &'static str)
    requires
        value < 16,
    ensures
        text@ == seq![digit(value as int)],
{
    proof {
        reveal_strlit("0");
        reveal_strlit("1");
        reveal_strlit("2");
        reveal_strlit("3");
        reveal_strlit("4");
        reveal_strlit("5");
        reveal_strlit("6");
        reveal_strlit("7");
        reveal_strlit("8");
        reveal_strlit("9");
        reveal_strlit("A");
        reveal_strlit("B");
        reveal_strlit("C");
        reveal_strlit("D");
        reveal_strlit("E");
        reveal_strlit("F");
    }
    if value == 0 {
        "0"
    } else if value == 1 {
        "1"
    } else if value == 2 {
        "2"
    } else if value == 3 {
        "3"
    } else if value == 4 {
        "4"
    } else if value == 5 {
        "5"
    } else if value == 6 {
        "6"
    } else if value == 7 {
        "7"
    } else if value == 8 {
        "8"
    } else if value == 9 {
        "9"
    } else if value == 10 {
        "A"
    } else if value == 11 {
        "B"
    } else if value == 12 {
        "C"
    } else if value == 13 {
        "D"
    } else if value == 14 {
        "E"
    } else {
        "F"
    }
}

/// Append the decimal digits of a number.
fn append_decimal(text: &mut String, value: u128)
    ensures
        final(text)@ == old(text)@ + decimal(value as nat),
    decreases value,
{
    if value >= 10 {
        append_decimal(text, value / 10);
    }
    let last: u64 = (value % 10) as u64;
    text.append(digit_text(last));
    assert(text@ =~= old(text)@ + decimal(value as nat));
}

/// Append the hexadecimal digits of a tag.
fn append_hexadecimal(text: &mut String, value: u16)
    ensures
        final(text)@ == old(text)@ + hexadecimal(value),
{
    text.append(digit_text((value / 4096) as u64));
    text.append(digit_text((value / 256 % 16) as u64));
    text.append(digit_text((value / 16 % 16) as u64));
    text.append(digit_text((value % 16) as u64));
    assert(text@ =~= old(text)@ + hexadecimal(value));
}

/// Append one part of a message.
fn append_piece(text: &mut String, piece: Piece)
    ensures
        final(text)@ == old(text)@ + characters(piece),
{
    match piece {
        Piece::Words(words) => text.append(words),
        Piece::Number(value) => {
            if value < 0 {
                proof {
                    reveal_strlit("-");
                }
                text.append("-");
                let magnitude: u128 = if value == i128::MIN {
                    0x8000_0000_0000_0000_0000_0000_0000_0000
                } else {
                    (-value) as u128
                };
                append_decimal(text, magnitude);
            } else {
                append_decimal(text, value as u128);
            }
            assert(text@ =~= old(text)@ + characters(piece));
        },
        Piece::Tag(value) => {
            proof {
                reveal_strlit("0x");
            }
            text.append("0x");
            append_hexadecimal(text, value);
            assert(text@ =~= old(text)@ + characters(piece));
        },
    }
}

/// Text of a message.
pub fn write_message(pieces: &[Piece]) -> (text: String)
    ensures
        text@ == written(pieces@),
{
    let mut text = String::new();
    let mut index: usize = 0;
    assert(pieces@.take(0) =~= Seq::empty());
    while index < pieces.len()
        invariant
            index <= pieces.len(),
            text@ == written(pieces@.take(index as int)),
        decreases pieces.len() - index,
    {
        assert(pieces@.take(index + 1).drop_last() =~= pieces@.take(index as int));
        append_piece(&mut text, pieces[index]);
        index += 1;
    }
    assert(pieces@.take(index as int) =~= pieces@);
    text
}

} // verus!

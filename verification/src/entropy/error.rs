//! Errors produced while decoding a tile packet.

use crate::text::{self, Piece};
use vstd::prelude::*;

verus! {

/// Error returned by an entropy decoding primitive.
#[derive(Debug, Clone, PartialEq, Eq)]
#[non_exhaustive]
pub enum EntropyError {
    /// The packet ended before the requested bits were available.
    UnexpectedEnd {
        /// Bit offset of the failed read.
        bit_position: usize,
        /// Number of bits requested.
        requested_bits: u8,
        /// Number of bits in the bounded packet view.
        bit_length: usize,
    },
    /// A packet bit length exceeds its backing byte slice.
    InvalidBitLength {
        /// Requested packet length in bits.
        bit_length: usize,
        /// Available backing length in bits.
        available_bits: usize,
    },
    /// A bit prefix does not occur in the selected code table.
    InvalidVlc {
        /// Name of the syntax element being decoded.
        syntax: &'static str,
        /// Bit offset at which the prefix began.
        bit_position: usize,
    },
    /// A caller supplied a value outside a syntax primitive's domain.
    InvalidParameter {
        /// Parameter name.
        parameter: &'static str,
        /// Supplied value.
        value: i64,
    },
    /// Coefficient arithmetic exceeded the supported signed representation.
    CoefficientOverflow,
}

impl EntropyError {
    /// Parts of the message.
    pub open spec fn pieces(self) -> Seq<Piece> {
        match self {
            EntropyError::UnexpectedEnd { bit_position, requested_bits, bit_length } => seq![
                Piece::Words("tile packet ended at bit "),
                Piece::Number(bit_position as i128),
                Piece::Words(" while reading "),
                Piece::Number(requested_bits as i128),
                Piece::Words(" bits (packet has "),
                Piece::Number(bit_length as i128),
                Piece::Words(" bits)"),
            ],
            EntropyError::InvalidBitLength { bit_length, available_bits } => seq![
                Piece::Words("tile packet bit length "),
                Piece::Number(bit_length as i128),
                Piece::Words(" exceeds its "),
                Piece::Number(available_bits as i128),
                Piece::Words("-bit backing slice"),
            ],
            EntropyError::InvalidVlc { syntax, bit_position } => seq![
                Piece::Words("invalid "),
                Piece::Words(syntax),
                Piece::Words(" VLC prefix at tile packet bit "),
                Piece::Number(bit_position as i128),
            ],
            EntropyError::InvalidParameter { parameter, value } => seq![
                Piece::Words("invalid "),
                Piece::Words(parameter),
                Piece::Words(" value "),
                Piece::Number(value as i128),
            ],
            EntropyError::CoefficientOverflow => seq![Piece::Words("decoded coefficient overflow")],
        }
    }

    /// Message for people.
    pub fn message(&self) -> (message: String)
        ensures
            message@ == text::written(self.pieces()),
    {
        let pieces: Vec<Piece> = match *self {
            EntropyError::UnexpectedEnd { bit_position, requested_bits, bit_length } => vec![
                Piece::Words("tile packet ended at bit "),
                Piece::Number(bit_position as i128),
                Piece::Words(" while reading "),
                Piece::Number(requested_bits as i128),
                Piece::Words(" bits (packet has "),
                Piece::Number(bit_length as i128),
                Piece::Words(" bits)"),
            ],
            EntropyError::InvalidBitLength { bit_length, available_bits } => vec![
                Piece::Words("tile packet bit length "),
                Piece::Number(bit_length as i128),
                Piece::Words(" exceeds its "),
                Piece::Number(available_bits as i128),
                Piece::Words("-bit backing slice"),
            ],
            EntropyError::InvalidVlc { syntax, bit_position } => vec![
                Piece::Words("invalid "),
                Piece::Words(syntax),
                Piece::Words(" VLC prefix at tile packet bit "),
                Piece::Number(bit_position as i128),
            ],
            EntropyError::InvalidParameter { parameter, value } => vec![
                Piece::Words("invalid "),
                Piece::Words(parameter),
                Piece::Words(" value "),
                Piece::Number(value as i128),
            ],
            EntropyError::CoefficientOverflow => vec![Piece::Words("decoded coefficient overflow")],
        };
        assert(pieces@ =~= self.pieces());
        text::write_message(pieces.as_slice())
    }
}

} // verus!

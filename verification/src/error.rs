//! Errors of the parser.

use crate::text::{self, Piece};
use vstd::prelude::*;

verus! {

/// Error returned while parsing or decoding JPEG XR data.
#[derive(Debug, Clone, Copy, PartialEq, Eq)]
#[non_exhaustive]
pub enum NativeError {
    /// The input does not begin with a supported JPEG XR signature.
    InvalidSignature,
    /// A parsed syntax combination violates an invariant of the format.
    InvalidSyntax {
        /// Stable name of the violated invariant.
        field: &'static str,
    },
    /// The input ended before a complete syntax element was available.
    Truncated {
        /// Bit position at which the read was attempted.
        bit_position: usize,
        /// Number of bits requested.
        requested_bits: u8,
    },
    /// A syntax field used a reserved value that changes decoding semantics.
    ReservedValue {
        /// Field name.
        field: &'static str,
        /// Parsed value.
        value: u64,
    },
    /// Checked integer arithmetic overflowed.
    IntegerOverflow {
        /// Operation being evaluated.
        operation: &'static str,
    },
    /// A byte range points outside the supplied input.
    RangeOutsideInput {
        /// Field that supplied the range.
        field: &'static str,
        /// Requested byte offset.
        offset: usize,
        /// Requested byte length.
        length: usize,
        /// Available input length.
        input_length: usize,
    },
    /// A required Annex-A directory entry was absent.
    MissingAnnexAField {
        /// Missing field tag.
        tag: u16,
    },
    /// An Annex-A entry has an invalid element type or element count.
    InvalidAnnexAEntry {
        /// Entry tag.
        tag: u16,
        /// Element type.
        element_type: u16,
        /// Element count.
        count: u32,
    },
    /// Annex-A directory tags were not strictly increasing.
    UnsortedAnnexATags {
        /// Previous tag.
        previous: u16,
        /// Current tag.
        current: u16,
    },
    /// A byte-alignment padding bit was non-zero.
    NonZeroAlignmentBit {
        /// Position of the invalid padding bit.
        bit_position: usize,
    },
    /// The stream uses syntax not implemented by the current decoder stage.
    Unsupported {
        /// Stable description of the unsupported syntax.
        feature: &'static str,
    },
}

/// End of a range, or the largest offset where it lies beyond that.
#[verifier::allow_in_spec]
pub fn range_end(offset: usize, length: usize) -> usize
    returns
        (if offset + length <= usize::MAX {
            (offset + length) as usize
        } else {
            usize::MAX
        }),
{
    offset.saturating_add(length)
}

impl NativeError {
    /// Parts of the message.
    pub open spec fn pieces(self) -> Seq<Piece> {
        match self {
            NativeError::InvalidSignature => seq![Piece::Words("invalid JPEG XR signature")],
            NativeError::InvalidSyntax { field } => seq![
                Piece::Words("invalid JPEG XR syntax for "),
                Piece::Words(field),
            ],
            NativeError::Truncated { bit_position, requested_bits } => seq![
                Piece::Words("truncated JPEG XR input at bit "),
                Piece::Number(bit_position as i128),
                Piece::Words(" while reading "),
                Piece::Number(requested_bits as i128),
                Piece::Words(" bits"),
            ],
            NativeError::ReservedValue { field, value } => seq![
                Piece::Words("reserved value "),
                Piece::Number(value as i128),
                Piece::Words(" for JPEG XR field "),
                Piece::Words(field),
            ],
            NativeError::IntegerOverflow { operation } => seq![
                Piece::Words("integer overflow while "),
                Piece::Words(operation),
            ],
            NativeError::RangeOutsideInput { field, offset, length, input_length } => seq![
                Piece::Words(field),
                Piece::Words(" range "),
                Piece::Number(offset as i128),
                Piece::Words(".."),
                Piece::Number(range_end(offset, length) as i128),
                Piece::Words(" exceeds input length "),
                Piece::Number(input_length as i128),
            ],
            NativeError::MissingAnnexAField { tag } => seq![
                Piece::Words("missing required Annex-A tag "),
                Piece::Tag(tag),
            ],
            NativeError::InvalidAnnexAEntry { tag, element_type, count } => seq![
                Piece::Words("invalid Annex-A tag "),
                Piece::Tag(tag),
                Piece::Words(" type "),
                Piece::Number(element_type as i128),
                Piece::Words(" count "),
                Piece::Number(count as i128),
            ],
            NativeError::UnsortedAnnexATags { previous, current } => seq![
                Piece::Words("Annex-A tags are not strictly increasing: "),
                Piece::Tag(previous),
                Piece::Words(", "),
                Piece::Tag(current),
            ],
            NativeError::NonZeroAlignmentBit { bit_position } => seq![
                Piece::Words("non-zero alignment bit at position "),
                Piece::Number(bit_position as i128),
            ],
            NativeError::Unsupported { feature } => seq![
                Piece::Words("unsupported JPEG XR feature: "),
                Piece::Words(feature),
            ],
        }
    }

    /// Message for people.
    pub fn message(&self) -> (message: String)
        ensures
            message@ == text::written(self.pieces()),
    {
        let pieces: Vec<Piece> = match *self {
            NativeError::InvalidSignature => vec![Piece::Words("invalid JPEG XR signature")],
            NativeError::InvalidSyntax { field } => vec![
                Piece::Words("invalid JPEG XR syntax for "),
                Piece::Words(field),
            ],
            NativeError::Truncated { bit_position, requested_bits } => vec![
                Piece::Words("truncated JPEG XR input at bit "),
                Piece::Number(bit_position as i128),
                Piece::Words(" while reading "),
                Piece::Number(requested_bits as i128),
                Piece::Words(" bits"),
            ],
            NativeError::ReservedValue { field, value } => vec![
                Piece::Words("reserved value "),
                Piece::Number(value as i128),
                Piece::Words(" for JPEG XR field "),
                Piece::Words(field),
            ],
            NativeError::IntegerOverflow { operation } => vec![
                Piece::Words("integer overflow while "),
                Piece::Words(operation),
            ],
            NativeError::RangeOutsideInput { field, offset, length, input_length } => vec![
                Piece::Words(field),
                Piece::Words(" range "),
                Piece::Number(offset as i128),
                Piece::Words(".."),
                Piece::Number(range_end(offset, length) as i128),
                Piece::Words(" exceeds input length "),
                Piece::Number(input_length as i128),
            ],
            NativeError::MissingAnnexAField { tag } => vec![
                Piece::Words("missing required Annex-A tag "),
                Piece::Tag(tag),
            ],
            NativeError::InvalidAnnexAEntry { tag, element_type, count } => vec![
                Piece::Words("invalid Annex-A tag "),
                Piece::Tag(tag),
                Piece::Words(" type "),
                Piece::Number(element_type as i128),
                Piece::Words(" count "),
                Piece::Number(count as i128),
            ],
            NativeError::UnsortedAnnexATags { previous, current } => vec![
                Piece::Words("Annex-A tags are not strictly increasing: "),
                Piece::Tag(previous),
                Piece::Words(", "),
                Piece::Tag(current),
            ],
            NativeError::NonZeroAlignmentBit { bit_position } => vec![
                Piece::Words("non-zero alignment bit at position "),
                Piece::Number(bit_position as i128),
            ],
            NativeError::Unsupported { feature } => vec![
                Piece::Words("unsupported JPEG XR feature: "),
                Piece::Words(feature),
            ],
        };
        assert(pieces@ =~= self.pieces());
        text::write_message(pieces.as_slice())
    }
}

} // verus!

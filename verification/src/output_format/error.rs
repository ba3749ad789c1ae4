//! Output-formatting failures.

use crate::text::{self, Piece};
use vstd::prelude::*;

verus! {

/// Failure while converting reconstructed samples to their declared output representation.
#[derive(Clone, Copy, Debug, PartialEq, Eq)]
pub enum OutputFormatError {
    /// The requested input/output colour, depth, or storage combination is not implemented.
    UnsupportedCombination {
        /// Stable description of the unsupported combination.
        combination: &'static str,
    },
    /// The number of supplied reconstructed planes does not match the internal colour format.
    ComponentCount {
        /// Required number of primary component planes.
        expected: usize,
        /// Supplied number of primary component planes.
        actual: usize,
    },
    /// A plane's dimensions, stride, or backing slice are invalid.
    InvalidPlane {
        /// Index of the invalid primary plane, or `None` for the alpha plane.
        component: Option<usize>,
        /// Stable description of the violated plane invariant.
        reason: &'static str,
    },
    /// The requested crop extends outside a required plane.
    CropOutsidePlane {
        /// Index of the primary plane, or `None` for the alpha plane.
        component: Option<usize>,
    },
    /// A layout requiring alpha was requested without an alpha plane, or vice versa.
    AlphaMismatch,
    /// A checked sample or allocation calculation overflowed.
    ArithmeticOverflow {
        /// Stable description of the operation that overflowed.
        operation: &'static str,
    },
    /// A reconstructed sample cannot be represented by the declared floating-point syntax.
    InvalidFloatingPointSample,
}

impl OutputFormatError {
    /// The error of an operation that overflowed.
    #[verifier::allow_in_spec]
    pub fn arithmetic(operation: &'static str) -> OutputFormatError
        returns
            (OutputFormatError::ArithmeticOverflow { operation }),
    {
        OutputFormatError::ArithmeticOverflow { operation }
    }

    /// The error of a combination that is not implemented.
    #[verifier::allow_in_spec]
    pub fn unsupported(combination: &'static str) -> OutputFormatError
        returns
            (OutputFormatError::UnsupportedCombination { combination }),
    {
        OutputFormatError::UnsupportedCombination { combination }
    }
}

impl OutputFormatError {
    /// Parts of the message.
    pub open spec fn pieces(self) -> Seq<Piece> {
        match self {
            OutputFormatError::UnsupportedCombination { combination } => seq![
                Piece::Words("unsupported JPEG XR output combination: "),
                Piece::Words(combination),
            ],
            OutputFormatError::ComponentCount { expected, actual } => seq![
                Piece::Words("expected "),
                Piece::Number(expected as i128),
                Piece::Words(" component planes, received "),
                Piece::Number(actual as i128),
            ],
            OutputFormatError::InvalidPlane { component: Some(component), reason } => seq![
                Piece::Words("invalid component plane "),
                Piece::Number(component as i128),
                Piece::Words(": "),
                Piece::Words(reason),
            ],
            OutputFormatError::InvalidPlane { component: None, reason } => seq![
                Piece::Words("invalid alpha plane: "),
                Piece::Words(reason),
            ],
            OutputFormatError::CropOutsidePlane { component: Some(component) } => seq![
                Piece::Words("crop extends outside component plane "),
                Piece::Number(component as i128),
            ],
            OutputFormatError::CropOutsidePlane { component: None } => seq![
                Piece::Words("crop extends outside alpha plane"),
            ],
            OutputFormatError::AlphaMismatch => seq![
                Piece::Words("output channel layout does not match alpha input"),
            ],
            OutputFormatError::ArithmeticOverflow { operation } => seq![
                Piece::Words("overflow while "),
                Piece::Words(operation),
            ],
            OutputFormatError::InvalidFloatingPointSample => seq![
                Piece::Words("sample is outside the declared floating-point representation"),
            ],
        }
    }

    /// Message for people.
    pub fn message(&self) -> (message: String)
        ensures
            message@ == text::written(self.pieces()),
    {
        let pieces: Vec<Piece> = match *self {
            OutputFormatError::UnsupportedCombination { combination } => vec![
                Piece::Words("unsupported JPEG XR output combination: "),
                Piece::Words(combination),
            ],
            OutputFormatError::ComponentCount { expected, actual } => vec![
                Piece::Words("expected "),
                Piece::Number(expected as i128),
                Piece::Words(" component planes, received "),
                Piece::Number(actual as i128),
            ],
            OutputFormatError::InvalidPlane { component: Some(component), reason } => vec![
                Piece::Words("invalid component plane "),
                Piece::Number(component as i128),
                Piece::Words(": "),
                Piece::Words(reason),
            ],
            OutputFormatError::InvalidPlane { component: None, reason } => vec![
                Piece::Words("invalid alpha plane: "),
                Piece::Words(reason),
            ],
            OutputFormatError::CropOutsidePlane { component: Some(component) } => vec![
                Piece::Words("crop extends outside component plane "),
                Piece::Number(component as i128),
            ],
            OutputFormatError::CropOutsidePlane { component: None } => vec![
                Piece::Words("crop extends outside alpha plane"),
            ],
            OutputFormatError::AlphaMismatch => vec![
                Piece::Words("output channel layout does not match alpha input"),
            ],
            OutputFormatError::ArithmeticOverflow { operation } => vec![
                Piece::Words("overflow while "),
                Piece::Words(operation),
            ],
            OutputFormatError::InvalidFloatingPointSample => vec![
                Piece::Words("sample is outside the declared floating-point representation"),
            ],
        };
        assert(pieces@ =~= self.pieces());
        text::write_message(pieces.as_slice())
    }
}

} // verus!

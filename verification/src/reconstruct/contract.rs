//! Input, output, and failure contracts for scalar reconstruction.

use crate::text::{self, Piece};
use crate::types::{BandPresence, OverlapMode, QuantizerSet};
use vstd::prelude::*;

verus! {

/// Quantized coefficients for one full-resolution component macroblock.
///
/// `dc_low_pass` is the 4-by-4 DC/LP array in raster order. `high_pass` contains sixteen
/// consecutive 4-by-4 coefficient blocks in raster block order; element zero of each block is
/// ignored because it is supplied by `dc_low_pass`.
#[derive(Debug, Clone, Copy, PartialEq, Eq)]
pub struct QuantizedMacroblock {
    /// Prediction-resolved DC and low-pass coefficients.
    pub dc_low_pass: [i32; 16],
    /// Prediction-resolved high-pass coefficients.
    pub high_pass: [i32; 256],
    /// Quantization steps selected for this macroblock.
    pub quantizers: QuantizerSet,
    /// Bands present in the codestream.
    pub bands: BandPresence,
}

/// Macroblock tile partition used to select soft- or hard-edge overlap behavior.
#[derive(Debug, PartialEq, Eq)]
pub struct TilePartition {
    /// Monotonic macroblock x coordinates, including zero and the plane width.
    pub column_boundaries: Vec<u32>,
    /// Monotonic macroblock y coordinates, including zero and the plane height.
    pub row_boundaries: Vec<u32>,
    /// Whether tile boundaries use independent boundary operators.
    pub hard_boundaries: bool,
}

/// Macroblock tile partition used to select soft- or hard-edge overlap behavior.
pub struct PartitionModel {
    /// Macroblock x coordinates.
    pub column_boundaries: Seq<u32>,
    /// Macroblock y coordinates.
    pub row_boundaries: Seq<u32>,
    /// Whether tile boundaries use independent boundary operators.
    pub hard_boundaries: bool,
}

impl View for TilePartition {
    type V = PartitionModel;

    open spec fn view(&self) -> PartitionModel {
        PartitionModel {
            column_boundaries: self.column_boundaries@,
            row_boundaries: self.row_boundaries@,
            hard_boundaries: self.hard_boundaries,
        }
    }
}

impl Clone for TilePartition {
    fn clone(&self) -> (partition: Self)
        ensures
            partition@ == self@,
    {
        let partition = TilePartition {
            column_boundaries: self.column_boundaries.clone(),
            row_boundaries: self.row_boundaries.clone(),
            hard_boundaries: self.hard_boundaries,
        };
        assert(partition.column_boundaries@ =~= self.column_boundaries@);
        assert(partition.row_boundaries@ =~= self.row_boundaries@);
        partition
    }
}

impl TilePartition {
    /// Construct a single tile covering the plane.
    pub fn single(macroblocks_x: u32, macroblocks_y: u32) -> (partition: Self)
        ensures
            partition@ == (PartitionModel {
                column_boundaries: seq![0, macroblocks_x],
                row_boundaries: seq![0, macroblocks_y],
                hard_boundaries: false,
            }),
    {
        let mut column_boundaries: Vec<u32> = Vec::new();
        column_boundaries.push(0);
        column_boundaries.push(macroblocks_x);
        let mut row_boundaries: Vec<u32> = Vec::new();
        row_boundaries.push(0);
        row_boundaries.push(macroblocks_y);
        assert(column_boundaries@ =~= seq![0, macroblocks_x]);
        assert(row_boundaries@ =~= seq![0, macroblocks_y]);
        TilePartition { column_boundaries, row_boundaries, hard_boundaries: false }
    }
}

/// Reconstruction geometry and overlap policy for a full-resolution luma plane.
#[derive(Debug, PartialEq, Eq)]
pub struct ReconstructionConfig {
    /// First macroblock column represented by the input slice.
    pub macroblock_origin_x: u32,
    /// First macroblock row represented by the input slice.
    pub macroblock_origin_y: u32,
    /// Plane width in macroblocks, including coded margins.
    pub macroblocks_x: u32,
    /// Plane height in macroblocks, including coded margins.
    pub macroblocks_y: u32,
    /// Number of 4-sample transform blocks across each component macroblock.
    pub block_columns: u8,
    /// Number of 4-sample transform blocks down each component macroblock.
    pub block_rows: u8,
    /// Apply the post-first-transform chroma factor for scaled streams.
    pub scale_after_first_transform: bool,
    /// Overlap-filtering mode.
    pub overlap: OverlapMode,
    /// Tile boundaries and hard/soft policy.
    pub tiles: TilePartition,
}

/// Reconstruction geometry and overlap policy.
pub struct ConfigModel {
    /// First macroblock column.
    pub macroblock_origin_x: u32,
    /// First macroblock row.
    pub macroblock_origin_y: u32,
    /// Plane width in macroblocks.
    pub macroblocks_x: u32,
    /// Plane height in macroblocks.
    pub macroblocks_y: u32,
    /// Transform blocks across each macroblock.
    pub block_columns: u8,
    /// Transform blocks down each macroblock.
    pub block_rows: u8,
    /// Whether coefficients are doubled after the first transform.
    pub scale_after_first_transform: bool,
    /// Overlap-filtering mode.
    pub overlap: OverlapMode,
    /// Tile boundaries and hard/soft policy.
    pub tiles: PartitionModel,
}

impl View for ReconstructionConfig {
    type V = ConfigModel;

    open spec fn view(&self) -> ConfigModel {
        ConfigModel {
            macroblock_origin_x: self.macroblock_origin_x,
            macroblock_origin_y: self.macroblock_origin_y,
            macroblocks_x: self.macroblocks_x,
            macroblocks_y: self.macroblocks_y,
            block_columns: self.block_columns,
            block_rows: self.block_rows,
            scale_after_first_transform: self.scale_after_first_transform,
            overlap: self.overlap,
            tiles: self.tiles@,
        }
    }
}

/// Reconstructed signed samples before bias, post-scaling, clipping, and packing.
#[derive(Debug, PartialEq, Eq)]
pub struct PlanarSamples {
    /// Horizontal origin in the extended plane's sample coordinates.
    pub origin_x: u32,
    /// Vertical origin in the extended plane's sample coordinates.
    pub origin_y: u32,
    /// Plane width in samples.
    pub width: u32,
    /// Plane height in samples.
    pub height: u32,
    /// Row-major signed samples.
    pub samples: Vec<i32>,
}

/// Reconstructed signed samples.
pub struct PlaneSamples {
    /// Horizontal origin.
    pub origin_x: u32,
    /// Vertical origin.
    pub origin_y: u32,
    /// Width.
    pub width: u32,
    /// Height.
    pub height: u32,
    /// Samples, row by row.
    pub samples: Seq<i32>,
}

impl View for PlanarSamples {
    type V = PlaneSamples;

    open spec fn view(&self) -> PlaneSamples {
        PlaneSamples {
            origin_x: self.origin_x,
            origin_y: self.origin_y,
            width: self.width,
            height: self.height,
            samples: self.samples@,
        }
    }
}

impl Clone for PlanarSamples {
    fn clone(&self) -> (plane: Self)
        ensures
            plane@ == self@,
    {
        let plane = PlanarSamples {
            origin_x: self.origin_x,
            origin_y: self.origin_y,
            width: self.width,
            height: self.height,
            samples: self.samples.clone(),
        };
        assert(plane.samples@ =~= self.samples@);
        plane
    }
}

/// Failure returned by the scalar reconstruction stages.
#[derive(Debug, Clone, Copy, PartialEq, Eq)]
pub enum ReconstructionError {
    /// A checked size or coefficient operation overflowed.
    ArithmeticOverflow(&'static str),
    /// The requested reconstruction syntax has no implemented exact operator.
    Unsupported(&'static str),
    /// Plane dimensions do not match the declared sampling geometry.
    InvalidPlaneGeometry(&'static str),
    /// Coefficient count does not match reconstruction geometry.
    MacroblockCount {
        /// Count implied by plane geometry.
        expected: usize,
        /// Count supplied by the entropy/prediction stage.
        actual: usize,
    },
    /// A quantization step was zero.
    ZeroQuantizer(&'static str),
    /// Tile coordinates did not form a complete, strictly increasing partition.
    InvalidTilePartition(&'static str),
    /// A crop extends beyond the reconstructed plane.
    CropOutsidePlane,
    /// A destination has insufficient elements for the requested crop.
    BufferTooSmall {
        /// Minimum number of required elements.
        required: usize,
        /// Number of available elements.
        available: usize,
    },
}

impl ReconstructionError {
    /// Parts of the message.
    pub open spec fn pieces(self) -> Seq<Piece> {
        match self {
            ReconstructionError::ArithmeticOverflow(operation) => seq![
                Piece::Words("overflow during "),
                Piece::Words(operation),
            ],
            ReconstructionError::Unsupported(feature) => seq![
                Piece::Words("unsupported reconstruction: "),
                Piece::Words(feature),
            ],
            ReconstructionError::InvalidPlaneGeometry(reason) => seq![
                Piece::Words("invalid plane geometry: "),
                Piece::Words(reason),
            ],
            ReconstructionError::MacroblockCount { expected, actual } => seq![
                Piece::Words("expected "),
                Piece::Number(expected as i128),
                Piece::Words(" macroblocks, received "),
                Piece::Number(actual as i128),
            ],
            ReconstructionError::ZeroQuantizer(band) => seq![
                Piece::Words("zero "),
                Piece::Words(band),
                Piece::Words(" quantization step"),
            ],
            ReconstructionError::InvalidTilePartition(axis) => seq![
                Piece::Words("invalid "),
                Piece::Words(axis),
                Piece::Words(" tile partition"),
            ],
            ReconstructionError::CropOutsidePlane => seq![
                Piece::Words("crop extends outside reconstructed plane"),
            ],
            ReconstructionError::BufferTooSmall { required, available } => seq![
                Piece::Words("destination needs "),
                Piece::Number(required as i128),
                Piece::Words(" elements, has "),
                Piece::Number(available as i128),
            ],
        }
    }

    /// Message for people.
    pub fn message(&self) -> (message: String)
        ensures
            message@ == text::written(self.pieces()),
    {
        let pieces: Vec<Piece> = match *self {
            ReconstructionError::ArithmeticOverflow(operation) => vec![
                Piece::Words("overflow during "),
                Piece::Words(operation),
            ],
            ReconstructionError::Unsupported(feature) => vec![
                Piece::Words("unsupported reconstruction: "),
                Piece::Words(feature),
            ],
            ReconstructionError::InvalidPlaneGeometry(reason) => vec![
                Piece::Words("invalid plane geometry: "),
                Piece::Words(reason),
            ],
            ReconstructionError::MacroblockCount { expected, actual } => vec![
                Piece::Words("expected "),
                Piece::Number(expected as i128),
                Piece::Words(" macroblocks, received "),
                Piece::Number(actual as i128),
            ],
            ReconstructionError::ZeroQuantizer(band) => vec![
                Piece::Words("zero "),
                Piece::Words(band),
                Piece::Words(" quantization step"),
            ],
            ReconstructionError::InvalidTilePartition(axis) => vec![
                Piece::Words("invalid "),
                Piece::Words(axis),
                Piece::Words(" tile partition"),
            ],
            ReconstructionError::CropOutsidePlane => vec![
                Piece::Words("crop extends outside reconstructed plane"),
            ],
            ReconstructionError::BufferTooSmall { required, available } => vec![
                Piece::Words("destination needs "),
                Piece::Number(required as i128),
                Piece::Words(" elements, has "),
                Piece::Number(available as i128),
            ],
        };
        assert(pieces@ =~= self.pieces());
        text::write_message(pieces.as_slice())
    }
}

} // verus!

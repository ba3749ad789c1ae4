//! Coefficients that entropy decoding hands to reconstruction.

use crate::types::{BandPresence, JxrError, QuantizerSet};
use vstd::prelude::*;

verus! {

/// Where high-pass coefficients are predicted from.
#[derive(Debug, Clone, Copy, PartialEq, Eq, Structural)]
pub enum PredictionMode {
    /// Nowhere.
    Unpredicted,
    /// The block to the left.
    FromLeft,
    /// The block above.
    FromTop,
    /// The blocks to the left and above.
    FromTopLeft,
}

/// Macroblocks of one component.
#[derive(Debug, Clone, Copy, PartialEq, Eq, Structural)]
pub struct CoefficientPlane {
    /// Macroblocks before the first one of the component.
    pub macroblock_offset: usize,
    /// Macroblocks of the component.
    pub macroblock_count: usize,
    /// Transform blocks across each macroblock.
    pub block_columns: u8,
    /// Transform blocks down each macroblock.
    pub block_rows: u8,
}

/// What is known of each macroblock.
#[derive(Debug, PartialEq, Eq)]
pub struct MacroblockMetadata {
    /// Macroblock column.
    pub coded_x: Vec<u32>,
    /// Macroblock row.
    pub coded_y: Vec<u32>,
    /// First coefficient.
    pub coefficient_offsets: Vec<u32>,
    /// Bands that have coefficients.
    pub bands: Vec<BandPresence>,
    /// Prediction of the high-pass coefficients.
    pub hp_predictions: Vec<PredictionMode>,
    /// Quantization steps.
    pub quantizers: Vec<QuantizerSet>,
}

/// Coefficients of all components.
#[derive(Debug, PartialEq, Eq)]
pub struct CoefficientArena {
    /// Coefficients, macroblock by macroblock.
    pub coefficients: Vec<i32>,
    /// What is known of each macroblock.
    pub macroblocks: MacroblockMetadata,
    /// Macroblocks of each component.
    pub planes: Vec<CoefficientPlane>,
}

/// Coefficients of all components that are stored elsewhere.
#[derive(Debug, PartialEq, Eq)]
pub struct CoefficientArenaDescriptor {
    /// What is known of each macroblock.
    pub macroblocks: MacroblockMetadata,
    /// Macroblocks of each component.
    pub planes: Vec<CoefficientPlane>,
}

/// What is known of each macroblock.
pub struct MacroblocksModel {
    /// Macroblock column.
    pub coded_x: Seq<u32>,
    /// Macroblock row.
    pub coded_y: Seq<u32>,
    /// First coefficient.
    pub coefficient_offsets: Seq<u32>,
    /// Bands that have coefficients.
    pub bands: Seq<BandPresence>,
    /// Prediction of the high-pass coefficients.
    pub hp_predictions: Seq<PredictionMode>,
    /// Quantization steps.
    pub quantizers: Seq<QuantizerSet>,
}

/// Coefficients of all components.
pub struct ArenaModel {
    /// Coefficients, macroblock by macroblock.
    pub coefficients: Seq<i32>,
    /// What is known of each macroblock.
    pub macroblocks: MacroblocksModel,
    /// Macroblocks of each component.
    pub planes: Seq<CoefficientPlane>,
}

impl View for MacroblockMetadata {
    type V = MacroblocksModel;

    open spec fn view(&self) -> MacroblocksModel {
        MacroblocksModel {
            coded_x: self.coded_x@,
            coded_y: self.coded_y@,
            coefficient_offsets: self.coefficient_offsets@,
            bands: self.bands@,
            hp_predictions: self.hp_predictions@,
            quantizers: self.quantizers@,
        }
    }
}

impl View for CoefficientArena {
    type V = ArenaModel;

    open spec fn view(&self) -> ArenaModel {
        ArenaModel {
            coefficients: self.coefficients@,
            macroblocks: self.macroblocks@,
            planes: self.planes@,
        }
    }
}

impl CoefficientArenaDescriptor {
    /// The arena with coefficients from elsewhere.
    pub open spec fn with_coefficients(self, coefficients: Seq<i32>) -> ArenaModel {
        ArenaModel { coefficients, macroblocks: self.macroblocks@, planes: self.planes@ }
    }
}

impl ArenaModel {
    /// Whether everything is known of every macroblock of a component.
    pub open spec fn describes(self, plane: CoefficientPlane) -> bool {
        let end = plane.macroblock_offset + plane.macroblock_count;
        &&& end <= self.macroblocks.coded_x.len()
        &&& end <= self.macroblocks.coded_y.len()
        &&& end <= self.macroblocks.coefficient_offsets.len()
        &&& end <= self.macroblocks.bands.len()
        &&& end <= self.macroblocks.hp_predictions.len()
        &&& end <= self.macroblocks.quantizers.len()
    }

    /// Whether everything is known of every macroblock of every component, and no component has
    /// more transform blocks than a macroblock has place for.
    pub open spec fn wf(self) -> bool {
        forall|index: int|
            0 <= index < self.planes.len() ==> self.describes(#[trigger] self.planes[index])
                && self.planes[index].block_columns * self.planes[index].block_rows <= 16
    }
}

impl CoefficientArena {
    /// Creates an arena without coefficients.
    pub fn new() -> (arena: Self)
        ensures
            arena@.coefficients.len() == 0,
            arena@.planes.len() == 0,
            arena@.wf(),
    {
        CoefficientArena {
            coefficients: Vec::new(),
            macroblocks: MacroblockMetadata {
                coded_x: Vec::new(),
                coded_y: Vec::new(),
                coefficient_offsets: Vec::new(),
                bands: Vec::new(),
                hp_predictions: Vec::new(),
                quantizers: Vec::new(),
            },
            planes: Vec::new(),
        }
    }
}

/// Whether a check of arenas can be run, and lets well-formed arenas through only.
pub open spec fn guards<V: Fn(&CoefficientArena) -> Result<(), JxrError>>(check: V) -> bool {
    &&& forall|arena: &CoefficientArena| call_requires(check, (arena,))
    &&& forall|arena: &CoefficientArena, answer: Result<(), JxrError>| #[trigger]
        call_ensures(check, (arena,), answer) && answer is Ok ==> arena@.wf()
}

/// Whether the executable check answers as the rule does.
pub open spec fn examines<V: Fn(&CoefficientArena) -> Result<(), JxrError>>(
    check: V,
    rule: spec_fn(ArenaModel) -> Result<(), JxrError>,
) -> bool {
    forall|arena: &CoefficientArena, answer: Result<(), JxrError>| #[trigger]
        call_ensures(check, (arena,), answer) ==> answer == rule(arena@)
}

} // verus!

//! Bounds-checked entropy decoding primitives.

pub mod adaptive;
pub mod bit_reader;
pub mod block_laws;
pub mod code_laws;
pub mod coding_laws;
pub mod coefficients;
pub mod error;
pub mod model;
pub mod refinement;
pub mod scan;
pub mod state_laws;
pub mod vlc;
pub mod words;

pub use adaptive::{AcVlcState, DcVlcState, TileEntropyState};
pub use bit_reader::PacketBitReader;
pub use coefficients::{
    decode_ac_block, decode_dc_coefficient, ComponentClass, DecodedBlock, FrequencyBand, RunLevel,
};
pub use error::EntropyError;
pub use model::{CoefficientModel, ColourModel};
pub use refinement::{
    decode_flex, decode_flex_block, decode_lp_refinement, decode_lp_refinement_at,
};
pub use scan::{AdaptiveHpScan, AdaptiveLpScan, HpScanDirection};

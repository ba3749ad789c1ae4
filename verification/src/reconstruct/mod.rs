//! Scalar component reconstruction.
//!
//! This module owns the transform pipeline after entropy decoding and DC/LP prediction. Each
//! full-resolution component uses the same exact scalar operators; chroma interpolation and output
//! colour conversion remain focused stages at the edge of the pipeline.

pub mod chroma;
pub mod chroma_laws;
pub mod contract;
pub mod dequant;
pub mod kernels;
pub mod macroblock_laws;
pub mod overlap;
pub mod overlap_laws;
pub mod packing;
pub mod pipeline;
pub mod raster;
pub mod sample_laws;
pub mod subsampled_overlap;
pub mod transform;

pub use crate::types::CropWindow;
pub use chroma::{reconstruct_chroma_444, ChromaReconstructionConfig};
pub use contract::{
    PlanarSamples, QuantizedMacroblock, ReconstructionConfig, ReconstructionError, TilePartition,
};
pub use kernels::Kernel;
pub use packing::{pack_luma_u16, pack_luma_u8};
pub use pipeline::reconstruct_luma;

//! Scalar output formatting from reconstructed signed component planes.
//!
//! Chroma upsampling is intentionally outside this module: callers must supply full-resolution
//! YUV444 planes when requesting RGB output.

pub mod acceptance_laws;
pub mod bit_packing;
pub mod channel_laws;
pub mod color;
pub mod crop_laws;
pub mod error;
pub mod laws;
pub mod number_laws;
pub mod packing;
pub mod pixels;
pub mod planar;
pub mod planar_laws;
pub mod premultiply;
pub mod request;
pub mod samples;
pub mod scaling;
pub mod simd_pack;
pub mod validate;

pub use error::OutputFormatError;
pub use packing::format_components;
pub use request::{AlphaFormatRequest, ComponentPlane, OutputBitDepth, OutputFormatRequest};
pub use samples::DecodedSamples;
pub use validate::validate_output_policy;

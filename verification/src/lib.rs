//! JPEG XR parsing, entropy decoding, reconstruction and output formatting, with machine-checked
//! contracts.

pub mod accelerator;
pub mod annex_a;
pub mod bits;
pub mod bit_reader;
pub mod codestream;
pub mod coefficient;
pub mod cpu;
pub mod decode;
pub mod entropy;
pub mod error;
pub mod header;
pub mod metadata;
pub mod output_format;
pub mod pixel_format;
pub mod pixel_format_laws;
pub mod plan;
pub mod prepare;
pub mod reconstruct;
pub mod tail;
pub mod tail_laws;
pub mod text;
pub mod types;

pub use accelerator::{
    prepare_accelerator_coefficients, AcceleratorCoefficients, PreparedAlphaCoefficients,
};
pub use annex_a::{parse_annex_a, write_annex_a, AnnexAImage, AnnexAMetadata, AnnexAWriteOptions};
pub use codestream::{parse_codestream, ParsedCodestream};
pub use coefficient::{coefficient_count, decode_coefficients, decode_coefficients_into};
pub use cpu::CpuCapabilities;
pub use decode::{
    decode_cpu, decode_cpu_into_with_workspace, decode_cpu_u8_into_with_workspace,
    decode_cpu_with_workspace, prepare_output_format, CpuDecodeIntoOutput, CpuDecodeWorkspace,
};
pub use error::NativeError;
pub use header::{
    parse_codestream_headers, CodestreamHeader, HeaderFlags, ImagePlaneHeader, ParsedHeaders,
    QuantizerSet,
};
pub use metadata::image_info;
pub use pixel_format::classify_annex_a_pixel_format;
pub use prepare::prepare_plan;
pub use tail::{CodestreamDirectory, ProfileLevel};

//! Connected scalar decode pipeline from prepared tile packets to typed output.

pub mod alpha;
pub mod arena;
pub mod output;
pub mod placement;
pub mod policy;
pub mod reconstruction;
pub mod report;
pub mod report_laws;
pub mod route;
pub mod stage_laws;
pub mod unpack;
pub mod window;

pub use output::{CpuDecodeIntoOutput, DecodedImage};
pub use policy::prepare_output_format;
pub use route::{
    decode_cpu, decode_cpu_into_with_workspace, decode_cpu_u8_into_with_workspace,
    decode_cpu_with_workspace, CpuDecodeWorkspace,
};

//! Decode requests and the plans made from them.

use crate::metadata::{ImageInfo, InfoModel};
use crate::types::{
    AlphaHandling, BackendRequest, ByteRange, DecodeScale, JxrError, OverlapMode, PixelFormat, Rect,
};
use vstd::prelude::*;

verus! {

/// What to decode, and how.
#[derive(Debug, Clone, Copy, PartialEq, Eq, Structural)]
pub struct DecodeRequest {
    /// Storage of the decoded pixels.
    pub output: PixelFormat,
    /// Part of the image, or all of it.
    pub region: Option<Rect>,
    /// Resolution.
    pub scale: DecodeScale,
    /// What to do with alpha.
    pub alpha: AlphaHandling,
    /// Backend.
    pub backend: BackendRequest,
}

/// Question to the resource limits of a caller.
#[derive(Debug, Clone, Copy, PartialEq, Eq, Structural)]
pub enum PlanLimit {
    /// May the input have this many bytes?
    CompressedBytes(usize),
    /// May the image have this width and height?
    Dimensions(u32, u32),
    /// May the primary plane have this many components?
    Components(u16),
    /// May there be this many tiles?
    Tiles(usize),
    /// May the decoded pixels take this many bytes?
    HostAllocationBytes(usize),
    /// May the coefficients take this many bytes?
    CoefficientBytes(usize),
}

/// Whether the executable limits answer as the rule does.
pub open spec fn limited<L: Fn(PlanLimit) -> Result<(), JxrError>>(
    limits: L,
    rule: spec_fn(PlanLimit) -> Result<(), JxrError>,
) -> bool {
    forall|limit: PlanLimit, answer: Result<(), JxrError>| #[trigger]
        call_ensures(limits, (limit,), answer) ==> answer == rule(limit)
}

/// Limits that refuse nothing.
pub open spec fn unlimited() -> spec_fn(PlanLimit) -> Result<(), JxrError> {
    |limit: PlanLimit| Ok(())
}

/// Plan of one tile.
#[derive(Debug, Clone, Copy, PartialEq, Eq, Structural)]
pub struct TilePlan {
    /// Bytes of the tile's packets.
    pub packet_range: ByteRange,
    /// Pixels that the tile covers.
    pub output_region: Rect,
    /// Macroblocks in earlier tiles.
    pub macroblock_start: u32,
    /// Macroblocks in the tile.
    pub macroblock_count: u32,
    /// Whether overlap filtering stops at the tile's boundaries.
    pub hard_boundaries: bool,
    /// Whether the requested region depends on the tile.
    pub required_for_reconstruction: bool,
}

/// Plan of one plane.
#[derive(Debug, Clone, Copy, PartialEq, Eq, Structural)]
pub struct PlanePlan {
    /// Width.
    pub width: u32,
    /// Height.
    pub height: u32,
    /// Macroblocks in a row.
    pub macroblocks_x: u32,
    /// Macroblocks in a column.
    pub macroblocks_y: u32,
    /// Overlap stages.
    pub overlap: OverlapMode,
    /// First coefficient plane.
    pub coefficient_plane: usize,
}

/// Geometry of a decode.
#[derive(Debug, PartialEq, Eq)]
pub struct PreparedPlan {
    /// Description of the image.
    pub info: ImageInfo,
    /// Bytes of the codestream.
    pub codestream_range: ByteRange,
    /// Plan of the primary plane.
    pub primary: PlanePlan,
    /// Plan of the alpha plane, if it is decoded.
    pub alpha: Option<PlanePlan>,
    /// Plans of the tiles, row by row.
    pub tiles: Vec<TilePlan>,
    /// Pixels that must be reconstructed.
    pub reconstruction_region: Rect,
    /// Requested pixels.
    pub output_region: Rect,
    /// Requested pixels at the requested resolution.
    pub decoded_region: Rect,
    /// Resolution.
    pub scale: DecodeScale,
    /// Bytes of the coefficients.
    pub coefficient_bytes: usize,
}

/// Geometry of a decode.
pub struct PlanModel {
    /// Description of the image.
    pub info: InfoModel,
    /// Bytes of the codestream.
    pub codestream_range: ByteRange,
    /// Plan of the primary plane.
    pub primary: PlanePlan,
    /// Plan of the alpha plane, if it is decoded.
    pub alpha: Option<PlanePlan>,
    /// Plans of the tiles, row by row.
    pub tiles: Seq<TilePlan>,
    /// Pixels that must be reconstructed.
    pub reconstruction_region: Rect,
    /// Requested pixels.
    pub output_region: Rect,
    /// Requested pixels at the requested resolution.
    pub decoded_region: Rect,
    /// Resolution.
    pub scale: DecodeScale,
    /// Bytes of the coefficients.
    pub coefficient_bytes: usize,
}

impl View for PreparedPlan {
    type V = PlanModel;

    open spec fn view(&self) -> PlanModel {
        PlanModel {
            info: self.info@,
            codestream_range: self.codestream_range,
            primary: self.primary,
            alpha: self.alpha,
            tiles: self.tiles@,
            reconstruction_region: self.reconstruction_region,
            output_region: self.output_region,
            decoded_region: self.decoded_region,
            scale: self.scale,
            coefficient_bytes: self.coefficient_bytes,
        }
    }
}

impl Clone for PreparedPlan {
    fn clone(&self) -> (plan: Self)
        ensures
            plan@ == self@,
            plan.info.metadata == self.info.metadata,
    {
        let plan = PreparedPlan {
            info: self.info.clone(),
            codestream_range: self.codestream_range,
            primary: self.primary,
            alpha: self.alpha,
            tiles: self.tiles.clone(),
            reconstruction_region: self.reconstruction_region,
            output_region: self.output_region,
            decoded_region: self.decoded_region,
            scale: self.scale,
            coefficient_bytes: self.coefficient_bytes,
        };
        assert(plan.tiles@ =~= self.tiles@);
        plan
    }
}

} // verus!

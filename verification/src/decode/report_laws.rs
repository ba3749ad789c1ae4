//! What a decoded image says of its planes and of its decode.

use crate::codestream::ParsedModel;
use crate::coefficient;
use crate::coefficient::{TileDecodeError, TileFailure};
use crate::cpu::CpuCapabilities;
use crate::decode::output;
use crate::decode::output::DecodedModel;
use crate::decode::policy;
use crate::decode::reconstruction;
use crate::decode::report;
use crate::decode::report::{BackendKind, DecodeStage, FallbackReason, StageExecutor};
use crate::decode::route;
use crate::decode::stage_laws;
use crate::output_format::error::OutputFormatError;
use crate::output_format::laws;
use crate::output_format::planar;
use crate::output_format::planar::WindowView;
use crate::output_format::premultiply::PixelOperator;
use crate::output_format::request::{OutputBitDepth, OutputFormatRequest};
use crate::plan::{DecodeRequest, PlanLimit, PlanModel};
use crate::prepare::size_laws;
use crate::reconstruct::contract::{PlaneSamples, ReconstructionError};
use crate::types::{BackendRequest, ChannelLayout, JxrError, JxrErrorKind, PixelFormat};
use vstd::prelude::*;

verus! {

/// The number of a stage in the order in which stages run.
pub open spec fn stage_number(stage: DecodeStage) -> int {
    match stage {
        DecodeStage::Parse => 0,
        DecodeStage::EntropyDecode => 1,
        DecodeStage::InverseScan => 2,
        DecodeStage::CoefficientRemap => 3,
        DecodeStage::DcLowPassPrediction => 4,
        DecodeStage::DequantizeAndFirstInverseTransform => 5,
        DecodeStage::FirstOverlap => 6,
        DecodeStage::HighPassPrediction => 7,
        DecodeStage::SecondInverseTransform => 8,
        DecodeStage::SecondOverlap => 9,
        DecodeStage::ChromaReconstruction => 10,
        DecodeStage::ColorAndAlphaConversion => 11,
        DecodeStage::CropClipAndPack => 12,
        DecodeStage::HostReadback => 13,
    }
}

/// A report names every stage once, in the order in which stages run, and says of packing and of
/// dequantization alone that vector units ran them, where they did; and it gives a reason for the
/// portable decoder only where any backend was asked for.
pub proof fn lemma_report_names_every_stage(
    requested: BackendRequest,
    simd_output: bool,
    simd_reconstruction: bool,
    stage: DecodeStage,
)
    ensures
        ({
            let report = report::report_of(requested, simd_output, simd_reconstruction);
            let entry = report.stages[stage_number(stage)];
            &&& report.requested == requested
            &&& report.selected == BackendKind::Cpu
            &&& report.fallback == Some(FallbackReason::PipelineIncomplete) <==> requested
                == BackendRequest::Auto
            &&& report.stages.len() == 14
            &&& entry.stage == stage
            &&& entry.executor == StageExecutor::CpuSimd <==> (stage_number(stage) == 12
                && simd_output) || (stage_number(stage) == 5 && simd_reconstruction)
        }),
{
}

/// A request for a device is refused as unavailable, and no other request is.
pub proof fn lemma_devices_are_refused(backend: BackendRequest)
    ensures
        route::route_error(backend) is None <==> backend == BackendRequest::Auto || backend
            == BackendRequest::Cpu,
        route::route_error(backend) matches Some(error) ==> error.kind
            == JxrErrorKind::BackendUnavailable,
{
}

/// Every failure of a stage stays a failure of its kind: what does not fit is an overflow, what is
/// not offered is unsupported, what lies outside the input is truncated, and what breaks a promise
/// between stages is an internal error; all else is the fault of the input, but for alpha that the
/// request and the input do not agree on.
pub proof fn lemma_failures_keep_their_kind(
    tile: TileDecodeError,
    sample: ReconstructionError,
    pixel: OutputFormatError,
)
    ensures
        coefficient::map_tile_error(tile).operation == tile.operation,
        coefficient::map_tile_error(tile).kind == (if tile.failure
            == TileFailure::ArithmeticOverflow {
            JxrErrorKind::ArithmeticOverflow
        } else if tile.failure == TileFailure::Unsupported {
            JxrErrorKind::Unsupported
        } else if tile.failure == TileFailure::PacketRangeOutsideInput {
            JxrErrorKind::Truncated
        } else if tile.failure == TileFailure::InvalidPlan {
            JxrErrorKind::InternalInvariant
        } else {
            JxrErrorKind::InvalidSyntax
        }),
        reconstruction::map_reconstruction_error(sample).kind == (
        if sample is ArithmeticOverflow {
            JxrErrorKind::ArithmeticOverflow
        } else if sample is Unsupported {
            JxrErrorKind::Unsupported
        } else if sample is BufferTooSmall {
            JxrErrorKind::BufferTooSmall {
                required: sample->required,
                available: sample->available,
            }
        } else {
            JxrErrorKind::InvalidSyntax
        }),
        policy::map_output_error(pixel).kind == (if pixel is ArithmeticOverflow {
            JxrErrorKind::ArithmeticOverflow
        } else if pixel is UnsupportedCombination {
            JxrErrorKind::Unsupported
        } else if pixel is AlphaMismatch {
            JxrErrorKind::InvalidRequest
        } else if pixel is InvalidFloatingPointSample {
            JxrErrorKind::InvalidSyntax
        } else {
            JxrErrorKind::InternalInvariant
        }),
{
}

/// The planes of a decoded image lie one behind the other and fill its samples, and the image has
/// the region and format that were asked for.
pub proof fn lemma_planes_fill_the_image(
    parsed: ParsedModel,
    plan: PlanModel,
    request: DecodeRequest,
    reconstruction: Seq<PlaneSamples>,
    alpha: Option<PlaneSamples>,
    cpu: CpuCapabilities,
    rule: spec_fn(PixelOperator, Seq<int>) -> Option<int>,
    limits: spec_fn(PlanLimit) -> Result<(), JxrError>,
    layout: spec_fn(DecodedModel) -> Result<(), JxrError>,
)
    requires
        request.output matches PixelFormat::BitPacked(layout) ==> layout == ChannelLayout::Luma,
    ensures
        output::image_of(
            parsed,
            plan,
            request,
            reconstruction,
            alpha,
            cpu,
            rule,
            limits,
            layout,
        ) matches Ok(image) ==> {
            let last = image.planes.last();
            let first = image.planes[0];
            &&& image.info == plan.info
            &&& image.decoded_region == plan.decoded_region
            &&& image.format == request.output
            &&& image.report.requested == request.backend
            &&& image.planes.len() >= 1
            &&& first.byte_offset == 0
            &&& first.width == plan.decoded_region.w
            &&& first.height == plan.decoded_region.h
            &&& last.byte_offset + last.height * last.row_stride_bytes == image.samples.values.len()
                * size_laws::element_bytes(image.samples.storage)
            &&& forall|index: int|
                0 <= index < image.planes.len() - 1 ==> #[trigger] image.planes[index].byte_offset
                    + image.planes[index].height * image.planes[index].row_stride_bytes
                    == image.planes[index + 1].byte_offset
        },
{
    if let Ok(image) = output::image_of(
        parsed,
        plan,
        request,
        reconstruction,
        alpha,
        cpu,
        rule,
        limits,
        layout,
    ) {
        stage_laws::lemma_policy_follows_headers(parsed, plan, request);
        let policy = policy::policy_of(parsed, plan, request)->Ok_0;
        let planes = output::views_of(reconstruction);
        let beside = output::alpha_view(alpha);
        if planar::is_planar(policy.output_color) {
            let windows = planar::windows_of(planes, beside, policy);
            let vectors = policy.bit_depth == OutputBitDepth::U8;
            planar::lemma_planes_are_consecutive(windows, policy, vectors, windows.len());
            lemma_first_plane(windows, policy, vectors, windows.len());
            assert(planar::sample_bytes(policy.bit_depth) == size_laws::element_bytes(
                image.samples.storage,
            ));
        } else {
            laws::lemma_formatted_size(planes, beside, policy, rule);
            size_laws::lemma_row_fills(policy, plan.decoded_region);
        }
    }
}

proof fn lemma_first_plane(
    windows: Seq<WindowView>,
    request: OutputFormatRequest,
    vectors: bool,
    count: nat,
)
    requires
        planar::packed_planes(windows, request, vectors, count) is Ok,
        count >= 1,
    ensures
        ({
            let planes = planar::packed_planes(windows, request, vectors, count)->Ok_0.planes;
            &&& planes.len() == count
            &&& planes[0].byte_offset == 0
            &&& planes[0].width == windows[0].crop.width
            &&& planes[0].height == windows[0].crop.height
        }),
    decreases count,
{
    if count > 1 {
        lemma_first_plane(windows, request, vectors, (count - 1) as nat);
    } else {
        assert(planar::packed_planes(windows, request, vectors, 0) is Ok);
    }
}

} // verus!

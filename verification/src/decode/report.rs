//! Which executor ran which decode stage.

use crate::types::BackendRequest;
use vstd::prelude::*;

verus! {

/// Stage of a decode.
#[derive(Debug, Clone, Copy, PartialEq, Eq, Structural)]
pub enum DecodeStage {
    /// Headers and directories.
    Parse,
    /// Entropy decoding.
    EntropyDecode,
    /// Inverse coefficient scan.
    InverseScan,
    /// Coefficient remapping.
    CoefficientRemap,
    /// Prediction of DC and low-pass coefficients.
    DcLowPassPrediction,
    /// Dequantization and the first inverse transform.
    DequantizeAndFirstInverseTransform,
    /// First overlap filter.
    FirstOverlap,
    /// Prediction of high-pass coefficients.
    HighPassPrediction,
    /// Second inverse transform.
    SecondInverseTransform,
    /// Second overlap filter.
    SecondOverlap,
    /// Chroma interpolation.
    ChromaReconstruction,
    /// Colour and alpha conversion.
    ColorAndAlphaConversion,
    /// Cropping, clipping and packing.
    CropClipAndPack,
    /// Hand-over to the host.
    HostReadback,
}

/// What ran a stage.
#[derive(Debug, Clone, Copy, PartialEq, Eq, Structural)]
pub enum StageExecutor {
    /// Scalar code.
    CpuScalar,
    /// Vector units.
    CpuSimd,
}

/// Backend that ran a decode.
#[derive(Debug, Clone, Copy, PartialEq, Eq, Structural)]
pub enum BackendKind {
    /// The portable decoder.
    Cpu,
}

/// Why a decode did not run on a device.
#[derive(Debug, Clone, Copy, PartialEq, Eq, Structural)]
pub enum FallbackReason {
    /// No device runs every stage.
    PipelineIncomplete,
}

/// Executor of one stage.
#[derive(Debug, Clone, Copy, PartialEq, Eq, Structural)]
pub struct StageReport {
    /// Stage.
    pub stage: DecodeStage,
    /// What ran it.
    pub executor: StageExecutor,
}

/// Route of a decode.
#[derive(Debug, PartialEq, Eq)]
pub struct DecodeReport {
    /// Requested backend.
    pub requested: BackendRequest,
    /// Backend that ran.
    pub selected: BackendKind,
    /// Why it was not a device, where any backend was allowed.
    pub fallback: Option<FallbackReason>,
    /// Executors of all stages, in the order in which they run.
    pub stages: Vec<StageReport>,
}

/// Route of a decode.
pub struct ReportModel {
    /// Requested backend.
    pub requested: BackendRequest,
    /// Backend that ran.
    pub selected: BackendKind,
    /// Why it was not a device.
    pub fallback: Option<FallbackReason>,
    /// Executors of all stages.
    pub stages: Seq<StageReport>,
}

impl View for DecodeReport {
    type V = ReportModel;

    open spec fn view(&self) -> ReportModel {
        ReportModel {
            requested: self.requested,
            selected: self.selected,
            fallback: self.fallback,
            stages: self.stages@,
        }
    }
}

/// The stages of a decode, in the order in which they run.
pub const STAGES: [DecodeStage; 14] = [
    DecodeStage::Parse,
    DecodeStage::EntropyDecode,
    DecodeStage::InverseScan,
    DecodeStage::CoefficientRemap,
    DecodeStage::DcLowPassPrediction,
    DecodeStage::DequantizeAndFirstInverseTransform,
    DecodeStage::FirstOverlap,
    DecodeStage::HighPassPrediction,
    DecodeStage::SecondInverseTransform,
    DecodeStage::SecondOverlap,
    DecodeStage::ChromaReconstruction,
    DecodeStage::ColorAndAlphaConversion,
    DecodeStage::CropClipAndPack,
    DecodeStage::HostReadback,
];

/// What runs a stage. Vector units run packing and dequantization only, and only where they were
/// used.
#[verifier::allow_in_spec]
pub fn executor_of(stage: DecodeStage, simd_output: bool, simd_reconstruction: bool) -> StageExecutor
    returns
        (if (simd_output && stage == DecodeStage::CropClipAndPack) || (simd_reconstruction && stage
            == DecodeStage::DequantizeAndFirstInverseTransform) {
            StageExecutor::CpuSimd
        } else {
            StageExecutor::CpuScalar
        }),
{
    if (simd_output && stage == DecodeStage::CropClipAndPack) || (simd_reconstruction && stage
        == DecodeStage::DequantizeAndFirstInverseTransform) {
        StageExecutor::CpuSimd
    } else {
        StageExecutor::CpuScalar
    }
}

/// The route of a decode on the portable decoder.
pub open spec fn report_of(
    requested: BackendRequest,
    simd_output: bool,
    simd_reconstruction: bool,
) -> ReportModel {
    ReportModel {
        requested,
        selected: BackendKind::Cpu,
        fallback: if requested == BackendRequest::Auto {
            Some(FallbackReason::PipelineIncomplete)
        } else {
            None
        },
        stages: Seq::new(
            14,
            |index: int|
                StageReport {
                    stage: STAGES@[index],
                    executor: executor_of(STAGES@[index], simd_output, simd_reconstruction),
                },
        ),
    }
}

/// Returns the route of a decode on the portable decoder.
pub fn cpu_report(requested: BackendRequest, simd_output: bool, simd_reconstruction: bool) -> (
report: DecodeReport)
    ensures
        report@ == report_of(requested, simd_output, simd_reconstruction),
{
    let all: [DecodeStage; 14] = STAGES;
    let ghost expected = report_of(requested, simd_output, simd_reconstruction).stages;
    let mut stages: Vec<StageReport> = Vec::new();
    for index in 0..14usize
        invariant
            all == STAGES,
            expected == report_of(requested, simd_output, simd_reconstruction).stages,
            stages@ == expected.take(index as int),
    {
        stages.push(
            StageReport {
                stage: all[index],
                executor: executor_of(all[index], simd_output, simd_reconstruction),
            },
        );
        assert(stages@ =~= expected.take(index + 1));
    }
    assert(stages@ =~= expected);
    let fallback: Option<FallbackReason> = if requested == BackendRequest::Auto {
        Some(FallbackReason::PipelineIncomplete)
    } else {
        None
    };
    DecodeReport { requested, selected: BackendKind::Cpu, fallback, stages }
}

impl DecodeReport {
    /// Returns what ran a stage, if the stage was run.
    pub fn executor_for(&self, stage: DecodeStage) -> (executor: Option<StageExecutor>)
        ensures
            match executor {
                Some(executor) => exists|index: int|
                    0 <= index < self@.stages.len() && #[trigger] self@.stages[index] == (
                    StageReport { stage, executor }) && forall|earlier: int|
                        0 <= earlier < index ==> (#[trigger] self@.stages[earlier]).stage != stage,
                None => forall|index: int|
                    0 <= index < self@.stages.len() ==> (#[trigger] self@.stages[index]).stage
                        != stage,
            },
    {
        for index in 0..self.stages.len()
            invariant
                forall|earlier: int|
                    0 <= earlier < index ==> (#[trigger] self.stages@[earlier]).stage != stage,
        {
            let report: StageReport = self.stages[index];
            if report.stage == stage {
                assert(self@.stages[index as int] == (StageReport {
                    stage,
                    executor: report.executor,
                }));
                return Some(report.executor);
            }
        }
        None
    }
}

} // verus!

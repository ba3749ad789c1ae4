//! Alpha policy, reports and reconstruction windows.

use jxr_native::decode::alpha::{alpha_action, luma_output};
use jxr_native::decode::report::{cpu_report, DecodeStage, StageExecutor};
use jxr_native::decode::window::clipped_boundaries;
use jxr_native::types::{
    AlphaHandling, AlphaMode, BackendRequest, ChannelLayout, JxrErrorKind, PixelFormat,
};

#[test]
fn separate_alpha_policy_drops_preserves_and_premultiplies() {
    assert!(!alpha_action(AlphaMode::Separate, AlphaHandling::Drop));
    assert!(alpha_action(AlphaMode::Separate, AlphaHandling::Preserve));
    assert!(alpha_action(
        AlphaMode::Separate,
        AlphaHandling::Premultiply
    ));
}

#[test]
fn integrated_alpha_policy_matches_separate_alpha() {
    assert!(!alpha_action(AlphaMode::Integrated, AlphaHandling::Drop));
    assert!(alpha_action(AlphaMode::Integrated, AlphaHandling::Preserve));
    assert!(alpha_action(
        AlphaMode::Integrated,
        AlphaHandling::Premultiply
    ));
}

#[test]
fn alpha_planning_preserves_storage_but_uses_luma_layout() {
    assert_eq!(
        luma_output(PixelFormat::U16(ChannelLayout::Rgba)).unwrap(),
        PixelFormat::U16(ChannelLayout::Luma)
    );
    assert!(luma_output(PixelFormat::Rgb565).is_err());
}

#[test]
fn report_marks_only_the_stages_that_used_simd() {
    let report = cpu_report(BackendRequest::Cpu, true, true);
    assert_eq!(
        report.executor_for(DecodeStage::DequantizeAndFirstInverseTransform),
        Some(StageExecutor::CpuSimd)
    );
    assert_eq!(
        report.executor_for(DecodeStage::CropClipAndPack),
        Some(StageExecutor::CpuSimd)
    );
    assert_eq!(
        report.executor_for(DecodeStage::SecondInverseTransform),
        Some(StageExecutor::CpuScalar)
    );
}

#[test]
fn regional_tile_boundaries_are_rebased_and_clipped() {
    assert_eq!(
        clipped_boundaries(&vec![2, 3, 1], 6, 1, 5, "test boundaries").unwrap(),
        [0, 1, 4]
    );
}

#[test]
fn tile_sizes_that_do_not_fill_the_plane_are_refused() {
    let error = clipped_boundaries(&vec![2, 3], 6, 1, 5, "test boundaries").unwrap_err();
    assert_eq!(error.kind, JxrErrorKind::InternalInvariant);
    let error = clipped_boundaries(&vec![u32::MAX, 1], 6, 1, 5, "test boundaries").unwrap_err();
    assert_eq!(error.kind, JxrErrorKind::ArithmeticOverflow);
}

//! Overlap filters, transforms, chroma interpolation and dequantization.

use jxr_native::reconstruct::dequant::{scale_coefficients, Quantizer};
use jxr_native::reconstruct::overlap::apply_overlap;
use jxr_native::reconstruct::pipeline::{
    reconstruct_luma_impl, reconstruct_luma_scaled, reconstruct_luma_scaled_with_cpu,
    ReconstructionPipelineWorkspace,
};
use jxr_native::reconstruct::subsampled_overlap::apply_subsampled_first_overlap;
use jxr_native::reconstruct::{
    pack_luma_u16, pack_luma_u8, reconstruct_chroma_444, reconstruct_luma,
    ChromaReconstructionConfig, CropWindow, Kernel, PlanarSamples, QuantizedMacroblock,
    ReconstructionConfig, ReconstructionError, TilePartition,
};
use jxr_native::types::{BandPresence, ChromaSampling, DecodeScale, OverlapMode, QuantizerSet};
use jxr_native::CpuCapabilities;

fn rotate(values: &mut [i32; 16], first: usize, second: usize) {
    values[first] -= (values[second] + 1) >> 1;
    values[second] += (values[first] + 1) >> 1;
}

fn rescale(values: &mut [i32; 16], first: usize, second: usize) {
    let mut a = values[first] + values[second];
    let mut b = (a >> 1) - values[second];
    a += (b * 3) >> 3;
    b -= a >> 10;
    b += a >> 7;
    b += (a * 3) >> 4;
    values[first] = a;
    values[second] = b;
}

fn butterfly(values: &mut [i32; 16], places: [usize; 4]) {
    let [mut a, mut b, mut c, mut d] = places.map(|place| values[place]);
    a += d;
    b -= c;
    let half = (a - b) >> 1;
    let kept = c;
    c = half - d;
    d = half - kept;
    a -= d;
    b += c;
    for (place, value) in places.into_iter().zip([a, b, c, d]) {
        values[place] = value;
    }
}

fn rescaling_butterfly(values: &mut [i32; 16], places: [usize; 4]) {
    let [mut a, mut b, c, mut d] = places.map(|place| values[place]);
    b -= c;
    a += (d * 3 + 4) >> 3;
    d -= b >> 1;
    let last = ((a - b) >> 1) - c;
    for (place, value) in places.into_iter().zip([a - last, b + d, d, last]) {
        values[place] = value;
    }
}

fn odd_corner(values: &mut [i32; 16], places: [usize; 4]) {
    let [mut a, mut b, mut c, mut d] = places.map(|place| values[place]);
    d += a;
    c -= b;
    let half_d = d >> 1;
    let half_c = c >> 1;
    a -= half_d;
    b += half_c;
    a -= (b * 3 + 6) >> 3;
    b += (a * 3 + 2) >> 2;
    a -= (b * 3 + 4) >> 3;
    b -= half_c;
    a += half_d;
    c += b;
    d -= a;
    for (place, value) in places.into_iter().zip([a, b, c, d]) {
        values[place] = value;
    }
}

fn filter_line(values: &mut [i32; 16]) {
    values[0] += values[3];
    values[1] += values[2];
    values[3] -= (values[0] + 1) >> 1;
    values[2] -= (values[1] + 1) >> 1;
    rescale(values, 0, 3);
    rescale(values, 1, 2);
    values[0] += (values[3] * 3 + 4) >> 3;
    values[1] += (values[2] * 3 + 4) >> 3;
    values[3] -= values[0] >> 1;
    values[2] -= values[1] >> 1;
    values[0] += values[3];
    values[1] += values[2];
    values[3] = -values[3];
    values[2] = -values[2];
    rotate(values, 2, 3);
    values[3] += (values[0] + 1) >> 1;
    values[2] += (values[1] + 1) >> 1;
    values[0] -= values[3];
    values[1] -= values[2];
}

const SQUARES: [[usize; 4]; 4] = [
    [0, 3, 12, 15],
    [1, 2, 13, 14],
    [4, 7, 8, 11],
    [5, 6, 9, 10],
];

fn filter_square(values: &mut [i32; 16]) {
    for places in SQUARES {
        butterfly(values, places);
    }
    odd_corner(values, [10, 11, 14, 15]);
    for (first, second) in [(13, 12), (9, 8), (7, 3), (6, 2)] {
        rotate(values, first, second);
    }
    for (first, second) in [(0, 15), (1, 14), (4, 11), (5, 10)] {
        rescale(values, first, second);
    }
    for places in SQUARES {
        rescaling_butterfly(values, places);
    }
}

/// Exact overlap filters; transforms of blocks that hold a DC coefficient only; and interpolation
/// for chroma samples in the places of the even luma samples.
fn kernels(kernel: Kernel, values: [i32; 16]) -> Option<[i32; 16]> {
    let mut output = values;
    match kernel {
        Kernel::CoreTransform => {
            if values[1..].iter().any(|&value| value != 0) {
                return None;
            }
            output = [values[0] >> 2; 16];
        }
        Kernel::Overlap4 => filter_line(&mut output),
        Kernel::Overlap4x4 => filter_square(&mut output),
        Kernel::Overlap2 | Kernel::Overlap2x2 => {
            if values.iter().any(|&value| value != 0) {
                return None;
            }
        }
        Kernel::KnownCentering(centering) | Kernel::UpsampleChroma(centering) if centering > 4 => {
            return None
        }
        Kernel::KnownCentering(_) => {}
        Kernel::UpsampleChroma(_) => {
            output = [0; 16];
            output[0] = values[1];
            output[1] = (values[1] + values[2] + 1) >> 1;
        }
        Kernel::ChromaTransform420 | Kernel::ChromaTransform422 => return None,
    }
    Some(output)
}

fn plane(width: u32, height: u32, samples: &[i32]) -> PlanarSamples {
    PlanarSamples {
        origin_x: 0,
        origin_y: 0,
        width,
        height,
        samples: samples.to_vec(),
    }
}

#[test]
fn reconstructs_422_horizontally_with_clamped_edges() {
    let input = plane(2, 1, &[8, 16]);
    let [u, v] = reconstruct_chroma_444(
        &input,
        &input,
        ChromaReconstructionConfig {
            sampling: ChromaSampling::Cs422,
            full_width: 4,
            full_height: 1,
            centering_x: 0,
            centering_y: 0,
        },
        &kernels,
    )
    .unwrap();
    assert_eq!(u.samples, [8, 12, 16, 16]);
    assert_eq!(v, u);
}

#[test]
fn reconstructs_420_vertically_then_horizontally() {
    let input = plane(1, 2, &[0, 16]);
    let [u, _] = reconstruct_chroma_444(
        &input,
        &input,
        ChromaReconstructionConfig {
            sampling: ChromaSampling::Cs420,
            full_width: 2,
            full_height: 4,
            centering_x: 0,
            centering_y: 0,
        },
        &kernels,
    )
    .unwrap();
    assert_eq!(u.samples, [0, 0, 8, 8, 16, 16, 16, 16]);
}

#[test]
fn rejects_unknown_centering_and_mismatched_geometry() {
    let input = plane(1, 1, &[0]);
    let mut config = ChromaReconstructionConfig {
        sampling: ChromaSampling::Cs422,
        full_width: 2,
        full_height: 1,
        centering_x: 7,
        centering_y: 0,
    };
    assert!(reconstruct_chroma_444(&input, &input, config, &kernels).is_err());
    config.centering_x = 0;
    config.full_width = 3;
    assert!(reconstruct_chroma_444(&input, &input, config, &kernels).is_err());
}

#[test]
fn overlap_operators_preserve_zero() {
    let mut four = vec![0; 16];
    apply_overlap(&mut four, 4, 4, &[0, 4], &[0, 4], false, &kernels).unwrap();
    assert_eq!(four, [0; 16]);
    let mut sixteen = vec![0; 64];
    apply_overlap(&mut sixteen, 8, 8, &[0, 8], &[0, 8], false, &kernels).unwrap();
    assert_eq!(sixteen, [0; 64]);
}

#[test]
fn hard_boundary_uses_independent_edge_operators() {
    let source = vec![
        1, 1, 1, 1, 9, 9, 9, 9, 1, 1, 1, 1, 9, 9, 9, 9, 1, 1, 1, 1, 9, 9, 9, 9, 1, 1, 1, 1, 9,
        9, 9, 9,
    ];
    let mut soft = source.clone();
    apply_overlap(&mut soft, 8, 4, &[0, 4, 8], &[0, 4], false, &kernels).unwrap();
    let mut hard = source;
    apply_overlap(&mut hard, 8, 4, &[0, 4, 8], &[0, 4], true, &kernels).unwrap();
    assert_eq!(
        soft,
        [
            1, 1, 3, 6, 8, 11, 11, 12, 1, 1, 3, 6, 8, 11, 13, 14, 1, 1, 3, 6, 8, 11, 11, 12, 1,
            1, 3, 6, 8, 11, 13, 14,
        ]
    );
    assert_eq!(
        hard,
        [
            1, 1, 1, 1, 11, 12, 11, 12, 1, 1, 1, 1, 13, 14, 13, 14, 1, 1, 1, 1, 11, 12, 11, 12,
            1, 1, 1, 1, 13, 14, 13, 14,
        ]
    );
}

#[test]
fn full_plane_operators_cover_the_two_sample_image_edges() {
    const ROWS: [[i32; 16]; 4] = [
        [
            -88, -88, -88, -88, -87, -87, -88, -88, -87, -87, -88, -88, -87, -87, -88, -88,
        ],
        [
            -87, -87, -88, -88, -87, -87, -88, -88, -87, -87, -88, -88, -87, -87, -87, -87,
        ],
        [
            -88, -88, -87, -87, -88, -88, -87, -87, -88, -88, -87, -87, -88, -88, -88, -88,
        ],
        [
            -87, -87, -88, -88, -88, -88, -88, -88, -88, -88, -88, -88, -88, -88, -87, -87,
        ],
    ];
    const ROW_ORDER: [usize; 16] = [0, 1, 2, 2, 3, 3, 2, 2, 3, 3, 2, 2, 3, 3, 0, 1];
    let mut samples = Vec::with_capacity(16 * 16);
    for row in ROW_ORDER {
        samples.extend_from_slice(&ROWS[row]);
    }
    apply_overlap(&mut samples, 16, 16, &[0, 16], &[0, 16], false, &kernels).unwrap();
    assert_eq!(samples, vec![-128; 16 * 16]);
}

#[test]
fn failing_filter_is_reported_as_overflow() {
    let refuse = |_: Kernel, _: [i32; 16]| -> Option<[i32; 16]> { None };
    let mut samples = vec![0; 16];
    assert_eq!(
        apply_overlap(&mut samples, 4, 4, &[0, 4], &[0, 4], false, &refuse),
        Err(ReconstructionError::ArithmeticOverflow("overlap postfilter"))
    );
}

#[test]
fn luma_u8_crop_clips_both_bounds() {
    let plane = PlanarSamples {
        origin_x: 0,
        origin_y: 0,
        width: 4,
        height: 2,
        samples: vec![-1, 1, 2, 3, 4, 255, 256, 7],
    };
    let crop = CropWindow {
        x: 1,
        y: 0,
        width: 2,
        height: 2,
    };
    assert_eq!(pack_luma_u8(&plane, crop).unwrap(), [1, 2, 255, 255]);
}

#[test]
fn luma_u16_crop_clips_and_preserves_row_order() {
    let plane = PlanarSamples {
        origin_x: 0,
        origin_y: 0,
        width: 3,
        height: 2,
        samples: vec![9, -2, 70_000, 8, 42, 43],
    };
    let crop = CropWindow {
        x: 1,
        y: 0,
        width: 2,
        height: 2,
    };
    assert_eq!(pack_luma_u16(&plane, crop).unwrap(), [0, 65_535, 42, 43]);
}

#[test]
fn crop_outside_plane_is_rejected() {
    let plane = PlanarSamples {
        origin_x: 0,
        origin_y: 0,
        width: 1,
        height: 1,
        samples: vec![0],
    };
    let crop = CropWindow {
        x: 1,
        y: 0,
        width: 1,
        height: 1,
    };
    assert!(pack_luma_u8(&plane, crop).is_err());
}

fn dc_macroblock(value: i32, step: u32) -> QuantizedMacroblock {
    let mut dc_low_pass = [0; 16];
    dc_low_pass[0] = value;
    QuantizedMacroblock {
        dc_low_pass,
        high_pass: [0; 256],
        quantizers: QuantizerSet {
            dc: step,
            low_pass: 1,
            high_pass: 1,
        },
        bands: BandPresence::DcOnly,
    }
}

fn luma_config(overlap: OverlapMode) -> ReconstructionConfig {
    ReconstructionConfig {
        macroblock_origin_x: 2,
        macroblock_origin_y: 3,
        macroblocks_x: 1,
        macroblocks_y: 1,
        block_columns: 4,
        block_rows: 4,
        scale_after_first_transform: false,
        overlap,
        tiles: TilePartition::single(1, 1),
    }
}

#[test]
fn dc_only_macroblock_reconstructs_constant_plane() {
    let config = luma_config(OverlapMode::Off);
    let plane = reconstruct_luma(&[dc_macroblock(256, 1)], &config, &kernels).unwrap();
    assert_eq!((plane.origin_x, plane.origin_y), (32, 48));
    assert_eq!((plane.width, plane.height), (16, 16));
    assert_eq!(plane.samples, vec![16; 256]);
}

#[test]
fn native_quarter_reconstruction_stops_after_the_first_inverse_transform() {
    let config = luma_config(OverlapMode::Two);
    let mut macroblock = dc_macroblock(16, 1);
    macroblock.bands = BandPresence::NoHighPass;
    let plane =
        reconstruct_luma_scaled(&[macroblock], &config, DecodeScale::Quarter, &kernels).unwrap();
    assert_eq!((plane.origin_x, plane.origin_y), (8, 12));
    assert_eq!((plane.width, plane.height), (4, 4));
    assert_eq!(plane.samples, vec![4; 16]);
}

#[test]
fn native_sixteenth_reconstruction_applies_both_dc_gain_steps_without_expansion() {
    let config = luma_config(OverlapMode::Two);
    let plane = reconstruct_luma_scaled(
        &[dc_macroblock(256, 1)],
        &config,
        DecodeScale::Sixteenth,
        &kernels,
    )
    .unwrap();
    assert_eq!((plane.origin_x, plane.origin_y), (2, 3));
    assert_eq!((plane.width, plane.height), (1, 1));
    assert_eq!(plane.samples, vec![16]);
}

#[test]
fn macroblock_count_is_checked_before_allocation() {
    let config = ReconstructionConfig {
        macroblock_origin_x: 0,
        macroblock_origin_y: 0,
        macroblocks_x: 2,
        macroblocks_y: 1,
        block_columns: 4,
        block_rows: 4,
        scale_after_first_transform: false,
        overlap: OverlapMode::Off,
        tiles: TilePartition::single(2, 1),
    };
    assert!(reconstruct_luma(&[dc_macroblock(1, 1)], &config, &kernels).is_err());
}

#[test]
fn quantization_steps_scale_coefficients_and_must_not_be_zero() {
    let config = luma_config(OverlapMode::Off);
    let plane = reconstruct_luma(&[dc_macroblock(32, 8)], &config, &kernels).unwrap();
    assert_eq!(plane.samples, vec![16; 256]);
    assert_eq!(
        reconstruct_luma(&[dc_macroblock(32, 0)], &config, &kernels),
        Err(ReconstructionError::ZeroQuantizer("DC"))
    );
}

#[test]
fn incomplete_tile_partition_is_rejected() {
    let mut config = luma_config(OverlapMode::Off);
    config.tiles = TilePartition::single(2, 1);
    assert!(matches!(
        reconstruct_luma(&[dc_macroblock(32, 1)], &config, &kernels),
        Err(ReconstructionError::InvalidTilePartition(_))
    ));
}

#[test]
fn repeated_full_reconstruction_reuses_transform_and_output_scratch() {
    let config = ReconstructionConfig {
        macroblock_origin_x: 0,
        macroblock_origin_y: 0,
        macroblocks_x: 1,
        macroblocks_y: 1,
        block_columns: 4,
        block_rows: 4,
        scale_after_first_transform: false,
        overlap: OverlapMode::Two,
        tiles: TilePartition::single(1, 1),
    };
    let spread = |kernel: Kernel, values: [i32; 16]| -> Option<[i32; 16]> {
        if kernel == Kernel::CoreTransform {
            Some([values[0] >> 2; 16])
        } else {
            kernels(kernel, values)
        }
    };
    let macroblocks = [dc_macroblock(256, 1)];
    let mut workspace = ReconstructionPipelineWorkspace::new();

    let first = reconstruct_luma_scaled_with_cpu(
        &macroblocks,
        &config,
        DecodeScale::Full,
        CpuCapabilities::detect(),
        &mut workspace,
        &spread,
    )
    .unwrap();
    let first_reuses = workspace.reuses();
    let expected_samples = first.samples.clone();
    workspace.recycle_samples(first.samples);
    let retained_bytes = workspace.retained_bytes();
    let retained_output_bytes = workspace.retained_output_bytes();
    let second = reconstruct_luma_scaled_with_cpu(
        &macroblocks,
        &config,
        DecodeScale::Full,
        CpuCapabilities::detect(),
        &mut workspace,
        &spread,
    )
    .unwrap();

    assert_eq!(second.samples, expected_samples);
    assert_eq!(first_reuses, 0);
    assert!(workspace.reuses() > first_reuses);
    assert!(retained_bytes > 0);
    assert!(retained_output_bytes > 0);
    assert_eq!(workspace.output_reuses(), 1);
    workspace.recycle_samples(second.samples);
    assert_eq!(workspace.retained_output_bytes(), retained_output_bytes);
    assert_eq!(workspace.retained_bytes(), retained_bytes);
}

#[test]
fn selected_level_matches_exact_scalar_dequantization() {
    let input: Vec<_> = (-128..128).collect();
    let quantizer = Quantizer::new(37).unwrap();
    let mut output = vec![0; input.len()];
    scale_coefficients(CpuCapabilities::detect(), quantizer, &input, &mut output).unwrap();
    let expected: Vec<_> = input
        .iter()
        .map(|&value| quantizer.dequantize(value).unwrap())
        .collect();
    assert_eq!(output, expected);
}

#[test]
fn validation_rejects_overflow_before_vector_arithmetic() {
    let input = vec![i32::MAX; 64];
    let mut output = vec![0; input.len()];
    assert!(scale_coefficients(
        CpuCapabilities::detect(),
        Quantizer::new(2).unwrap(),
        &input,
        &mut output,
    )
    .is_err());
}

#[test]
fn zero_plane_is_stable_for_both_subsampled_geometries() {
    let mut yuv420 = vec![0; 16];
    apply_subsampled_first_overlap(&mut yuv420, 4, 4, &[0, 4], &[0, 4], false, &kernels).unwrap();
    assert_eq!(yuv420, [0; 16]);

    let mut yuv422 = vec![0; 32];
    apply_subsampled_first_overlap(&mut yuv422, 4, 8, &[0, 4], &[0, 8], false, &kernels).unwrap();
    assert_eq!(yuv422, [0; 32]);
}

#[test]
fn recycled_plane_is_kept_only_if_it_has_more_room() {
    let mut workspace = ReconstructionPipelineWorkspace::new();
    assert_eq!(workspace.retained_output_bytes(), 0);
    workspace.recycle_samples(vec![7; 100]);
    let retained = workspace.retained_output_bytes();
    assert!(retained >= 400);
    workspace.recycle_samples(vec![7; 10]);
    assert_eq!(workspace.retained_output_bytes(), retained);
    workspace.recycle_samples(vec![7; 1_000]);
    assert!(workspace.retained_output_bytes() >= 4_000);
}

#[test]
fn failed_sixteenth_reconstruction_keeps_the_output_plane() {
    let config = luma_config(OverlapMode::Off);
    let mut workspace = ReconstructionPipelineWorkspace::new();
    workspace.recycle_samples(vec![7; 100]);
    let retained = workspace.retained_output_bytes();
    let error = reconstruct_luma_scaled_with_cpu(
        &[dc_macroblock(1, 0)],
        &config,
        DecodeScale::Sixteenth,
        CpuCapabilities::detect(),
        &mut workspace,
        &kernels,
    )
    .err();
    assert_eq!(error, Some(ReconstructionError::ZeroQuantizer("DC")));
    assert_eq!(workspace.retained_output_bytes(), retained);
    assert_eq!(workspace.reuses(), 0);
    let plane = reconstruct_luma_scaled_with_cpu(
        &[dc_macroblock(64, 1)],
        &config,
        DecodeScale::Sixteenth,
        CpuCapabilities::detect(),
        &mut workspace,
        &kernels,
    )
    .unwrap();
    assert_eq!(plane.samples, [4]);
    assert_eq!(workspace.output_reuses(), 1);
    assert_eq!(workspace.reuses(), 1);
    assert_eq!(workspace.retained_output_bytes(), 0);
}

#[test]
fn quarter_reconstruction_gives_its_plane_away_before_the_origin_is_looked_at() {
    let spread = |kernel: Kernel, values: [i32; 16]| -> Option<[i32; 16]> {
        if kernel == Kernel::CoreTransform {
            Some([values[0] >> 2; 16])
        } else {
            kernels(kernel, values)
        }
    };
    let mut config = luma_config(OverlapMode::Off);
    let macroblocks = [dc_macroblock(256, 1)];
    let cpu = CpuCapabilities::detect();
    let mut workspace = ReconstructionPipelineWorkspace::new();
    let plane = reconstruct_luma_scaled_with_cpu(
        &macroblocks,
        &config,
        DecodeScale::Quarter,
        cpu,
        &mut workspace,
        &spread,
    )
    .unwrap();
    assert_eq!(workspace.reuses(), 0);
    assert!(workspace.retained_bytes() >= 64);
    workspace.recycle_samples(plane.samples);
    assert!(workspace.retained_output_bytes() >= 64);
    config.macroblock_origin_x = u32::MAX;
    let error = reconstruct_luma_scaled_with_cpu(
        &macroblocks,
        &config,
        DecodeScale::Quarter,
        cpu,
        &mut workspace,
        &spread,
    )
    .err();
    assert_eq!(
        error,
        Some(ReconstructionError::ArithmeticOverflow("quarter-resolution x origin"))
    );
    assert_eq!(workspace.retained_output_bytes(), 0);
    assert_eq!(workspace.output_reuses(), 1);
    assert_eq!(workspace.reuses(), 2);
}

#[test]
fn full_reconstruction_keeps_its_plane_if_the_origin_is_out_of_range() {
    let mut config = luma_config(OverlapMode::Off);
    config.macroblock_origin_y = u32::MAX;
    let mut workspace = ReconstructionPipelineWorkspace::new();
    let spread = |_: Kernel, values: [i32; 16]| -> Option<[i32; 16]> { Some(values) };
    let error = reconstruct_luma_scaled_with_cpu(
        &[dc_macroblock(256, 1)],
        &config,
        DecodeScale::Full,
        CpuCapabilities::detect(),
        &mut workspace,
        &spread,
    )
    .err();
    assert_eq!(
        error,
        Some(ReconstructionError::ArithmeticOverflow("output y origin"))
    );
    assert!(workspace.retained_output_bytes() >= 1_024);
    assert!(workspace.retained_bytes() >= 64 + 1_024 + 64 + 1_024);
    assert_eq!(workspace.reuses(), 0);
}

#[test]
fn larger_components_do_not_count_as_reuses() {
    let spread = |_: Kernel, values: [i32; 16]| -> Option<[i32; 16]> { Some(values) };
    let cpu = CpuCapabilities::detect();
    let mut workspace = ReconstructionPipelineWorkspace::new();
    let mut reuses = Vec::new();
    for count in [5, 50, 50, 2] {
        let mut config = luma_config(OverlapMode::Off);
        config.macroblocks_x = count;
        config.tiles = TilePartition::single(count, 1);
        let macroblocks = vec![dc_macroblock(256, 1); count as usize];
        let plane = reconstruct_luma_scaled_with_cpu(
            &macroblocks,
            &config,
            DecodeScale::Quarter,
            cpu,
            &mut workspace,
            &spread,
        )
        .unwrap();
        workspace.recycle_samples(plane.samples);
        reuses.push(workspace.reuses());
    }
    assert_eq!(reuses, [0, 0, 2, 4]);
}

fn counting(_: Kernel, values: [i32; 16]) -> Option<[i32; 16]> {
    Some(values.map(|value| value + 1))
}

#[test]
fn overlap_covers_planes_that_are_not_whole_blocks() {
    let touched = [1, 1, 1, 1, 2, 2];
    let mut expected = Vec::new();
    for row in touched {
        expected.extend(touched.map(|column| row * column));
    }
    let mut samples = vec![0; 36];
    apply_overlap(&mut samples, 6, 6, &[], &[], false, &counting).unwrap();
    assert_eq!(samples, expected);

    let mut smallest = vec![0; 4];
    apply_overlap(&mut smallest, 2, 2, &[], &[], false, &counting).unwrap();
    assert_eq!(smallest, [4; 4]);

    let mut tiles = vec![0; 16];
    apply_overlap(&mut tiles, 4, 4, &[0, 2, 4], &[0, 4], true, &counting).unwrap();
    assert_eq!(tiles, [2; 16]);
}

#[test]
fn subsampled_overlap_covers_planes_of_odd_size() {
    let mut samples = vec![0; 9];
    apply_subsampled_first_overlap(&mut samples, 3, 3, &[], &[], false, &counting).unwrap();
    assert_eq!(samples, [1, 1, 2, 1, 1, 2, 3, 2, 5]);
}

#[test]
fn first_coefficient_and_earlier_contents_never_show() {
    let config = luma_config(OverlapMode::Off);
    let plain = QuantizedMacroblock {
        bands: BandPresence::All,
        ..dc_macroblock(256, 1)
    };
    let mut marked = plain.clone();
    for block in 0..16 {
        marked.high_pass[16 * block] = 77;
    }
    let mut fresh = ReconstructionPipelineWorkspace::new();
    let expected = reconstruct_luma_impl(&[plain], &config, None, &mut fresh, &kernels).unwrap();
    assert_eq!(expected.samples, vec![16; 256]);

    let mut retained = ReconstructionPipelineWorkspace::new();
    reconstruct_luma_impl(
        &[dc_macroblock(-512, 1)],
        &config,
        None,
        &mut retained,
        &kernels,
    )
    .unwrap();
    for cpu in [None, Some(CpuCapabilities::detect())] {
        let plane =
            reconstruct_luma_impl(&[marked.clone()], &config, cpu, &mut retained, &kernels)
                .unwrap();
        assert_eq!(plane, expected);
    }
}

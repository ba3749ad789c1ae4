//! Output formatting of component planes.

use jxr_native::output_format::color::convert;
use jxr_native::output_format::packing::{
    format_components_into_with_cpu, format_components_u8_into_with_cpu,
    format_components_with_cpu,
};
use jxr_native::output_format::planar::{format_planar_yuv, format_planar_yuv_into};
use jxr_native::output_format::premultiply::PixelOperator;
use jxr_native::output_format::scaling::{float16_bits, float32_bits, scale_integer_component};
use jxr_native::output_format::simd_pack::append_u8;
use jxr_native::output_format::{
    format_components, validate_output_policy, AlphaFormatRequest, ComponentPlane, DecodedSamples,
    OutputBitDepth, OutputFormatError, OutputFormatRequest,
};
use jxr_native::reconstruct::CropWindow;
use jxr_native::types::{ChannelLayout, ChromaSampling, ColorFormat, PixelFormat};
use jxr_native::CpuCapabilities;

/// Rounded products, and words with a shared exponent.
fn operators(operator: PixelOperator, values: [i64; 3]) -> Option<i64> {
    match operator {
        PixelOperator::PremultiplyUnsigned(one) => {
            let one = i64::from(one);
            Some((values[0] * values[1] + one / 2) / one)
        }
        PixelOperator::PremultiplySigned(one) => {
            let one = i64::from(one);
            Some((values[0] * values[1] / one).clamp(-1 - one, one))
        }
        PixelOperator::PremultiplySignMagnitude => Some(values[0]),
        PixelOperator::PremultiplyFloat => {
            let color = f32::from_bits(u32::try_from(values[0]).ok()?);
            let alpha = f32::from_bits(u32::try_from(values[1]).ok()?);
            Some(i64::from((color * alpha).to_bits()))
        }
        PixelOperator::PackRgbe => {
            let parts = values.map(|value| {
                if value <= 0 {
                    (0, 0)
                } else if value >> 7 > 1 {
                    (value >> 7, (value & 0x7f) | 0x80)
                } else {
                    (1, value)
                }
            });
            let exponent = parts[0].0.max(parts[1].0).max(parts[2].0);
            let [red, green, blue] =
                parts.map(|(own, mantissa)| (mantissa >> (exponent - own)).clamp(0, 255));
            Some(red | green << 8 | blue << 16 | exponent.clamp(0, 255) << 24)
        }
    }
}

fn request(
    internal_color: ColorFormat,
    output_color: ColorFormat,
    bit_depth: OutputBitDepth,
    pixel_format: PixelFormat,
) -> OutputFormatRequest {
    OutputFormatRequest {
        internal_color,
        output_color,
        bit_depth,
        pixel_format,
        scaled: false,
        alpha_format: None,
        red_blue_not_swapped: true,
        premultiply_alpha: false,
        crop: CropWindow {
            x: 0,
            y: 0,
            width: 2,
            height: 1,
        },
    }
}

#[test]
fn yuv420_output_keeps_native_plane_geometry() {
    let y = [-128, -127, -126, -125, -124, -123, -122, -121];
    let u = [0, 1];
    let v = [2, 3];
    let planes = [
        ComponentPlane::tightly_packed(4, 2, &y),
        ComponentPlane::tightly_packed(2, 1, &u),
        ComponentPlane::tightly_packed(2, 1, &v),
    ];
    let mut output = request(
        ColorFormat::Yuv(ChromaSampling::Cs420),
        ColorFormat::Yuv(ChromaSampling::Cs420),
        OutputBitDepth::U8,
        PixelFormat::U8(ChannelLayout::Yuv(ChromaSampling::Cs420)),
    );
    output.crop.width = 4;
    output.crop.height = 2;
    let decoded = format_planar_yuv(&planes, None, output, CpuCapabilities::detect()).unwrap();
    assert_eq!(
        decoded.samples,
        DecodedSamples::U8(vec![0, 1, 2, 3, 4, 5, 6, 7, 128, 129, 130, 131])
    );
    assert_eq!(decoded.planes.len(), 3);
    assert_eq!(
        (decoded.planes[0].byte_offset, decoded.planes[0].width),
        (0, 4)
    );
    assert_eq!(
        (decoded.planes[1].byte_offset, decoded.planes[1].width),
        (8, 2)
    );
    assert_eq!(
        (decoded.planes[2].byte_offset, decoded.planes[2].width),
        (10, 2)
    );
    assert!(decoded.planes.iter().all(|plane| plane.channels == 1));
}

#[test]
fn yuv422_alpha_is_a_full_resolution_fourth_plane() {
    let y = [0; 8];
    let u = [0; 4];
    let v = [0; 4];
    let alpha = [-128, -96, -64, -32, 0, 32, 64, 127];
    let planes = [
        ComponentPlane::tightly_packed(4, 2, &y),
        ComponentPlane::tightly_packed(2, 2, &u),
        ComponentPlane::tightly_packed(2, 2, &v),
    ];
    let mut output = request(
        ColorFormat::Yuv(ChromaSampling::Cs422),
        ColorFormat::Yuv(ChromaSampling::Cs422),
        OutputBitDepth::U8,
        PixelFormat::U8(ChannelLayout::Yuva(ChromaSampling::Cs422)),
    );
    output.crop.width = 4;
    output.crop.height = 2;
    let decoded = format_planar_yuv(
        &planes,
        Some(ComponentPlane::tightly_packed(4, 2, &alpha)),
        output,
        CpuCapabilities::detect(),
    )
    .unwrap();
    assert_eq!(decoded.planes.len(), 4);
    assert_eq!(
        decoded
            .planes
            .iter()
            .map(|plane| (plane.byte_offset, plane.width, plane.height))
            .collect::<Vec<_>>(),
        [(0, 4, 2), (8, 2, 2), (12, 2, 2), (16, 4, 2)]
    );
    let DecodedSamples::U8(samples) = decoded.samples else {
        panic!("expected u8 planar output")
    };
    assert_eq!(&samples[16..], &[0, 32, 64, 96, 128, 160, 192, 255]);
}

#[test]
fn yuv422_u10_uses_one_typed_word_per_planar_sample() {
    let y = [-512, 511];
    let u = [0];
    let v = [600];
    let planes = [
        ComponentPlane::tightly_packed(2, 1, &y),
        ComponentPlane::tightly_packed(1, 1, &u),
        ComponentPlane::tightly_packed(1, 1, &v),
    ];
    let output = request(
        ColorFormat::Yuv(ChromaSampling::Cs422),
        ColorFormat::Yuv(ChromaSampling::Cs422),
        OutputBitDepth::U10,
        PixelFormat::U16(ChannelLayout::Yuv(ChromaSampling::Cs422)),
    );
    let decoded = format_planar_yuv(&planes, None, output, CpuCapabilities::detect()).unwrap();
    assert_eq!(
        decoded.samples,
        DecodedSamples::U16(vec![0, 1023, 512, 1023])
    );
    assert_eq!(decoded.planes[1].byte_offset, 4);
    assert_eq!(decoded.planes[2].byte_offset, 6);
}

#[test]
fn direct_planar_destination_matches_owned_typed_packing() {
    let y = [-512, 511];
    let u = [0];
    let v = [600];
    let planes = [
        ComponentPlane::tightly_packed(2, 1, &y),
        ComponentPlane::tightly_packed(1, 1, &u),
        ComponentPlane::tightly_packed(1, 1, &v),
    ];
    let output = request(
        ColorFormat::Yuv(ChromaSampling::Cs422),
        ColorFormat::Yuv(ChromaSampling::Cs422),
        OutputBitDepth::U10,
        PixelFormat::U16(ChannelLayout::Yuv(ChromaSampling::Cs422)),
    );
    let expected = format_planar_yuv(&planes, None, output, CpuCapabilities::detect()).unwrap();
    let mut direct = DecodedSamples::U16(vec![0_u16; 4]);
    let actual = format_planar_yuv_into(&planes, None, output, &mut direct).unwrap();
    assert_eq!(expected.samples, direct);
    assert_eq!(expected.planes, actual.planes);
}

#[test]
fn luma_u8_biases_and_clips() {
    let samples = [-129, 127];
    let planes = [ComponentPlane::tightly_packed(2, 1, &samples)];
    let decoded = format_components(
        &planes,
        None,
        request(
            ColorFormat::Luma,
            ColorFormat::Luma,
            OutputBitDepth::U8,
            PixelFormat::U8(ChannelLayout::Luma),
        ),
        &operators,
    )
    .unwrap();
    assert_eq!(decoded, DecodedSamples::U8(vec![0, 255]));
}

#[test]
fn session_selected_u8_path_is_bit_identical_to_scalar_formula() {
    let samples: Vec<_> = (-80..80).map(|value| value * 11).collect();
    let planes = [ComponentPlane::tightly_packed(160, 1, &samples)];
    let mut output = request(
        ColorFormat::Luma,
        ColorFormat::Luma,
        OutputBitDepth::U8,
        PixelFormat::U8(ChannelLayout::Luma),
    );
    output.crop.width = 160;
    let (decoded, _) =
        format_components_with_cpu(&planes, None, output, CpuCapabilities::detect(), &operators).unwrap();
    assert_eq!(
        decoded,
        DecodedSamples::U8(
            samples
                .iter()
                .map(|&sample| {
                    u8::try_from((sample + 128).clamp(0, 255)).expect("sample is clipped to u8")
                })
                .collect()
        )
    );
}

#[test]
fn yuv444_to_rgba_formats_alpha_independently() {
    let y = [0, 1];
    let u = [0, 0];
    let v = [0, 0];
    let a = [-128, 127];
    let planes = [
        ComponentPlane::tightly_packed(2, 1, &y),
        ComponentPlane::tightly_packed(2, 1, &u),
        ComponentPlane::tightly_packed(2, 1, &v),
    ];
    let decoded = format_components(
        &planes,
        Some(ComponentPlane::tightly_packed(2, 1, &a)),
        request(
            ColorFormat::Yuv(ChromaSampling::Cs444),
            ColorFormat::Rgb,
            OutputBitDepth::U8,
            PixelFormat::U8(ChannelLayout::Rgba),
        ),
        &operators,
    )
    .unwrap();
    assert_eq!(
        decoded,
        DecodedSamples::U8(vec![128, 128, 128, 0, 129, 129, 129, 255])
    );
}

#[test]
fn alpha_uses_its_plane_local_scaled_flag() {
    let color = [0];
    let alpha = [8];
    let planes = [ComponentPlane::tightly_packed(1, 1, &color)];
    let mut output = request(
        ColorFormat::Luma,
        ColorFormat::Rgb,
        OutputBitDepth::U8,
        PixelFormat::U8(ChannelLayout::Rgba),
    );
    output.crop.width = 1;
    output.alpha_format = Some(AlphaFormatRequest {
        bit_depth: OutputBitDepth::U8,
        scaled: true,
    });
    let decoded = format_components(
        &planes,
        Some(ComponentPlane::tightly_packed(1, 1, &alpha)),
        output,
        &operators,
    )
    .unwrap();
    assert_eq!(decoded, DecodedSamples::U8(vec![128, 128, 128, 129]));
}

#[test]
fn packed_rgb_matches_normative_bit_positions() {
    let y = [-17, 15];
    let planes = [ComponentPlane::tightly_packed(2, 1, &y)];
    let decoded = format_components(
        &planes,
        None,
        request(
            ColorFormat::Luma,
            ColorFormat::Rgb,
            OutputBitDepth::Rgb555,
            PixelFormat::Rgb555,
        ),
        &operators,
    )
    .unwrap();
    assert_eq!(decoded, DecodedSamples::Rgb555(vec![0, 0x7fff]));
}

#[test]
fn packed_rgb_places_blue_in_the_low_field_and_red_in_the_high_field() {
    let y = [10, 10];
    let u = [3, 3];
    let v = [5, 5];
    let planes = [
        ComponentPlane::tightly_packed(2, 1, &y),
        ComponentPlane::tightly_packed(2, 1, &u),
        ComponentPlane::tightly_packed(2, 1, &v),
    ];
    let decoded = format_components(
        &planes,
        None,
        request(
            ColorFormat::Yuv(ChromaSampling::Cs444),
            ColorFormat::Rgb,
            OutputBitDepth::Rgb555,
            PixelFormat::Rgb555,
        ),
        &operators,
    )
    .unwrap();
    assert_eq!(decoded, DecodedSamples::Rgb555(vec![0x5b9b; 2]));
}

#[test]
fn luma_typed_outputs_apply_exact_postscaling() {
    let samples = [-1, 1];
    let planes = [ComponentPlane::tightly_packed(2, 1, &samples)];
    let cases = [
        (
            OutputBitDepth::U16 { shift_bits: 1 },
            PixelFormat::U16(ChannelLayout::Luma),
            DecodedSamples::U16(vec![32_766, 32_770]),
        ),
        (
            OutputBitDepth::I16 { shift_bits: 2 },
            PixelFormat::I16(ChannelLayout::Luma),
            DecodedSamples::I16(vec![-4, 4]),
        ),
        (
            OutputBitDepth::I32 { shift_bits: 3 },
            PixelFormat::I32(ChannelLayout::Luma),
            DecodedSamples::I32(vec![-8, 8]),
        ),
        (
            OutputBitDepth::F16,
            PixelFormat::F16(ChannelLayout::Luma),
            DecodedSamples::F16(vec![0x8001, 1]),
        ),
    ];
    for (depth, format, expected) in cases {
        let decoded = format_components(
            &planes,
            None,
            request(ColorFormat::Luma, ColorFormat::Luma, depth, format),
            &operators,
        )
        .unwrap();
        assert_eq!(decoded, expected);
    }

    let float_samples = [-(1 << 4), 1 << 4];
    let float_planes = [ComponentPlane::tightly_packed(2, 1, &float_samples)];
    let decoded = format_components(
        &float_planes,
        None,
        request(
            ColorFormat::Luma,
            ColorFormat::Luma,
            OutputBitDepth::F32 {
                mantissa_length: 4,
                exponent_bias: 1,
            },
            PixelFormat::F32(ChannelLayout::Luma),
        ),
        &operators,
    )
    .unwrap();
    let DecodedSamples::F32(values) = decoded else {
        panic!("expected f32 output")
    };
    assert_eq!(values, [(-1.0_f32).to_bits(), 1.0_f32.to_bits()]);
}

#[test]
fn yuv444_to_rgb_u16_preserves_inverse_transform_values() {
    let y = [0, 10];
    let u = [0, 3];
    let v = [0, 5];
    let planes = [
        ComponentPlane::tightly_packed(2, 1, &y),
        ComponentPlane::tightly_packed(2, 1, &u),
        ComponentPlane::tightly_packed(2, 1, &v),
    ];
    let decoded = format_components(
        &planes,
        None,
        request(
            ColorFormat::Yuv(ChromaSampling::Cs444),
            ColorFormat::Rgb,
            OutputBitDepth::U16 { shift_bits: 0 },
            PixelFormat::U16(ChannelLayout::Rgb),
        ),
        &operators,
    )
    .unwrap();
    assert_eq!(
        decoded,
        DecodedSamples::U16(vec![32_768, 32_768, 32_768, 32_774, 32_780, 32_779])
    );
}

#[test]
fn direct_typed_destinations_match_owned_component_packing() {
    let values = [-17, 23];
    let planes = [ComponentPlane::tightly_packed(2, 1, &values)];

    let u16_request = request(
        ColorFormat::Luma,
        ColorFormat::Luma,
        OutputBitDepth::U16 { shift_bits: 0 },
        PixelFormat::U16(ChannelLayout::Luma),
    );
    let expected = format_components(&planes, None, u16_request, &operators).unwrap();
    let mut direct = DecodedSamples::U16(vec![0_u16; 2]);
    format_components_into_with_cpu(
        &planes,
        None,
        u16_request,
        CpuCapabilities::detect(),
        &mut direct,
        &operators,
    )
    .unwrap();
    assert_eq!(expected, direct);

    let f32_request = request(
        ColorFormat::Luma,
        ColorFormat::Luma,
        OutputBitDepth::F32 {
            mantissa_length: 4,
            exponent_bias: 1,
        },
        PixelFormat::F32(ChannelLayout::Luma),
    );
    let expected = format_components(&planes, None, f32_request, &operators).unwrap();
    let mut direct = DecodedSamples::F32(vec![0_u32; 2]);
    format_components_into_with_cpu(
        &planes,
        None,
        f32_request,
        CpuCapabilities::detect(),
        &mut direct,
        &operators,
    )
    .unwrap();
    assert_eq!(expected, direct);
}

#[test]
fn direct_packed_destinations_match_owned_component_packing() {
    let y = [176, 176];
    let u = [160, 160];
    let v = [-64, -64];
    let planes = [
        ComponentPlane::tightly_packed(2, 1, &y),
        ComponentPlane::tightly_packed(2, 1, &u),
        ComponentPlane::tightly_packed(2, 1, &v),
    ];
    let output = request(
        ColorFormat::Yuv(ChromaSampling::Cs444),
        ColorFormat::Rgbe,
        OutputBitDepth::U8,
        PixelFormat::Rgbe,
    );
    let expected = format_components(&planes, None, output, &operators).unwrap();
    let mut direct = DecodedSamples::Rgbe(vec![0_u32; 2]);
    format_components_into_with_cpu(
        &planes,
        None,
        output,
        CpuCapabilities::detect(),
        &mut direct,
        &operators,
    )
    .unwrap();
    assert_eq!(expected, direct);
}

#[test]
fn rgbx_typed_output_writes_a_zero_padding_component() {
    let y = [0, 10];
    let u = [0, 3];
    let v = [0, 5];
    let planes = [
        ComponentPlane::tightly_packed(2, 1, &y),
        ComponentPlane::tightly_packed(2, 1, &u),
        ComponentPlane::tightly_packed(2, 1, &v),
    ];
    let decoded = format_components(
        &planes,
        None,
        request(
            ColorFormat::Yuv(ChromaSampling::Cs444),
            ColorFormat::Rgb,
            OutputBitDepth::U16 { shift_bits: 0 },
            PixelFormat::U16(ChannelLayout::Rgbx),
        ),
        &operators,
    )
    .unwrap();
    assert_eq!(
        decoded,
        DecodedSamples::U16(vec![32_768, 32_768, 32_768, 0, 32_774, 32_780, 32_779, 0,])
    );
}

#[test]
fn bgrx_typed_output_reorders_color_and_writes_zero_padding() {
    let y = [10];
    let u = [3];
    let v = [5];
    let planes = [
        ComponentPlane::tightly_packed(1, 1, &y),
        ComponentPlane::tightly_packed(1, 1, &u),
        ComponentPlane::tightly_packed(1, 1, &v),
    ];
    let mut output = request(
        ColorFormat::Yuv(ChromaSampling::Cs444),
        ColorFormat::Rgb,
        OutputBitDepth::U16 { shift_bits: 0 },
        PixelFormat::U16(ChannelLayout::Bgrx),
    );
    output.crop.width = 1;
    let decoded = format_components(&planes, None, output, &operators).unwrap();
    assert_eq!(
        decoded,
        DecodedSamples::U16(vec![32_779, 32_780, 32_774, 0])
    );
}

#[test]
fn bit_packing_is_msb_first_and_black_mode_inverts() {
    let samples = [0, 1];
    let planes = [ComponentPlane::tightly_packed(2, 1, &samples)];
    let mut req = request(
        ColorFormat::Luma,
        ColorFormat::Luma,
        OutputBitDepth::Bit1Black,
        PixelFormat::BitPacked(ChannelLayout::Luma),
    );
    let decoded = format_components(&planes, None, req, &operators).unwrap();
    assert_eq!(decoded, DecodedSamples::BitPacked(vec![0x80]));
    req.bit_depth = OutputBitDepth::Bit1White;
    let decoded = format_components(&planes, None, req, &operators).unwrap();
    assert_eq!(decoded, DecodedSamples::BitPacked(vec![0x40]));
}

#[test]
fn cmyk_bias_uses_opposite_black_direction() {
    let y = [0, 0];
    let u = [0, 0];
    let v = [0, 0];
    let k = [0, 0];
    let planes = [
        ComponentPlane::tightly_packed(2, 1, &y),
        ComponentPlane::tightly_packed(2, 1, &u),
        ComponentPlane::tightly_packed(2, 1, &v),
        ComponentPlane::tightly_packed(2, 1, &k),
    ];
    let decoded = format_components(
        &planes,
        None,
        request(
            ColorFormat::YuvK,
            ColorFormat::Cmyk,
            OutputBitDepth::U8,
            PixelFormat::U8(ChannelLayout::Cmyk),
        ),
        &operators,
    )
    .unwrap();
    assert_eq!(
        decoded,
        DecodedSamples::U8(vec![64, 64, 64, 0, 64, 64, 64, 0])
    );
}

#[test]
fn ncomponent_output_interleaves_more_than_four_planes() {
    let values = [[-128, -127], [-1, 0], [1, 2], [126, 127], [200, -200]];
    let planes = values
        .iter()
        .map(|samples| ComponentPlane::tightly_packed(2, 1, samples))
        .collect::<Vec<_>>();
    let decoded = format_components(
        &planes,
        None,
        request(
            ColorFormat::NComponent(5),
            ColorFormat::NComponent(5),
            OutputBitDepth::U8,
            PixelFormat::U8(ChannelLayout::NComponent(5)),
        ),
        &operators,
    )
    .unwrap();
    assert_eq!(
        decoded,
        DecodedSamples::U8(vec![0, 127, 129, 254, 255, 1, 128, 130, 255, 0])
    );
}

#[test]
fn cmyk_direct_alpha_uses_a_five_channel_layout() {
    let component = [0];
    let alpha = [-128];
    let planes = [
        ComponentPlane::tightly_packed(1, 1, &component),
        ComponentPlane::tightly_packed(1, 1, &component),
        ComponentPlane::tightly_packed(1, 1, &component),
        ComponentPlane::tightly_packed(1, 1, &component),
    ];
    let mut output = request(
        ColorFormat::YuvK,
        ColorFormat::CmykDirect,
        OutputBitDepth::U8,
        PixelFormat::U8(ChannelLayout::Cmyka),
    );
    output.crop.width = 1;
    let decoded = format_components(
        &planes,
        Some(ComponentPlane::tightly_packed(1, 1, &alpha)),
        output,
        &operators,
    )
    .unwrap();
    assert_eq!(decoded, DecodedSamples::U8(vec![128, 128, 128, 128, 0]));
}

#[test]
fn ncomponent_alpha_appends_after_every_primary_component() {
    let values = [[-3], [-2], [-1], [0], [1]];
    let planes: Vec<_> = values
        .iter()
        .map(|samples| ComponentPlane::tightly_packed(1, 1, samples))
        .collect();
    let alpha = [127];
    let mut output = request(
        ColorFormat::NComponent(5),
        ColorFormat::NComponent(5),
        OutputBitDepth::U8,
        PixelFormat::U8(ChannelLayout::NComponentAlpha(5)),
    );
    output.crop.width = 1;
    let decoded = format_components(
        &planes,
        Some(ComponentPlane::tightly_packed(1, 1, &alpha)),
        output,
        &operators,
    )
    .unwrap();
    assert_eq!(
        decoded,
        DecodedSamples::U8(vec![125, 126, 127, 128, 129, 255])
    );
}

#[test]
fn invalid_layout_is_a_typed_error() {
    let samples = [0, 0];
    let planes = [ComponentPlane::tightly_packed(2, 1, &samples)];
    let error = format_components(
        &planes,
        None,
        request(
            ColorFormat::Luma,
            ColorFormat::Luma,
            OutputBitDepth::U8,
            PixelFormat::U8(ChannelLayout::Rgb),
        ),
        &operators,
    )
    .unwrap_err();
    assert!(matches!(
        error,
        OutputFormatError::UnsupportedCombination { .. }
    ));
}

#[test]
fn rgbe_output_applies_color_conversion_and_shared_exponent_packing() {
    let y = [176, 176];
    let u = [160, 160];
    let v = [-64, -64];
    let planes = [
        ComponentPlane::tightly_packed(2, 1, &y),
        ComponentPlane::tightly_packed(2, 1, &u),
        ComponentPlane::tightly_packed(2, 1, &v),
    ];
    let decoded = format_components(
        &planes,
        None,
        request(
            ColorFormat::Yuv(ChromaSampling::Cs444),
            ColorFormat::Rgbe,
            OutputBitDepth::U8,
            PixelFormat::Rgbe,
        ),
        &operators,
    )
    .unwrap();
    assert_eq!(decoded, DecodedSamples::Rgbe(vec![0x0220_8040; 2]));
}

#[test]
fn rgba_u8_premultiplication_uses_formatted_alpha() {
    let y = [0, 0];
    let u = [0, 0];
    let v = [0, 0];
    let alpha = [-64, 127];
    let planes = [
        ComponentPlane::tightly_packed(2, 1, &y),
        ComponentPlane::tightly_packed(2, 1, &u),
        ComponentPlane::tightly_packed(2, 1, &v),
    ];
    let mut req = request(
        ColorFormat::Yuv(ChromaSampling::Cs444),
        ColorFormat::Rgb,
        OutputBitDepth::U8,
        PixelFormat::U8(ChannelLayout::Rgba),
    );
    req.premultiply_alpha = true;
    let decoded = format_components(
        &planes,
        Some(ComponentPlane::tightly_packed(2, 1, &alpha)),
        req,
        &operators,
    )
    .unwrap();
    assert_eq!(
        decoded,
        DecodedSamples::U8(vec![32, 32, 32, 64, 128, 128, 128, 255])
    );
}

#[test]
fn yuv_inverse_uses_normative_odd_rounding() {
    let converted = convert(
        ColorFormat::Yuv(ChromaSampling::Cs444),
        ColorFormat::Rgb,
        &[10, 3, 5],
        false,
        false,
    )
    .unwrap();
    assert_eq!(converted, [6, 12, 11, 0]);
}

#[test]
fn packed_legacy_order_swaps_red_and_blue() {
    let converted = convert(
        ColorFormat::Yuv(ChromaSampling::Cs444),
        ColorFormat::Rgb,
        &[10, 3, 5],
        true,
        false,
    )
    .unwrap();
    assert_eq!(converted, [11, 12, 6, 0]);
}

#[test]
fn yuvk_converts_to_cmyk() {
    let converted = convert(
        ColorFormat::YuvK,
        ColorFormat::Cmyk,
        &[20, 4, 6, 8],
        false,
        false,
    )
    .unwrap();
    assert_eq!(converted, [3, -4, -3, 18]);
}

#[test]
fn output_depth_maps_normative_header_codes() {
    assert_eq!(
        OutputBitDepth::from_header_fields(2, 7, 0, 0).unwrap(),
        OutputBitDepth::U16 { shift_bits: 7 }
    );
    assert_eq!(
        OutputBitDepth::from_header_fields(7, 0, 12, -3).unwrap(),
        OutputBitDepth::F32 {
            mantissa_length: 12,
            exponent_bias: -3,
        }
    );
    assert_eq!(
        OutputBitDepth::from_header_fields(9, 0, 0, 0).unwrap(),
        OutputBitDepth::U10
    );
    assert!(OutputBitDepth::from_header_fields(5, 0, 0, 0).is_none());
}

#[test]
fn scaled_u8_adds_bias_then_rounds_down() {
    assert_eq!(
        scale_integer_component(-1, 0, ColorFormat::Luma, OutputBitDepth::U8, true).unwrap(),
        128
    );
    assert_eq!(
        scale_integer_component(-5, 0, ColorFormat::Luma, OutputBitDepth::U8, true).unwrap(),
        127
    );
}

#[test]
fn integer_postshift_follows_scaling() {
    assert_eq!(
        scale_integer_component(
            7,
            0,
            ColorFormat::Luma,
            OutputBitDepth::I16 { shift_bits: 3 },
            true,
        )
        .unwrap(),
        8
    );
}

#[test]
fn f16_is_sign_and_clamped_magnitude() {
    assert_eq!(float16_bits(-40_000, false).unwrap(), 0xffff);
    assert_eq!(float16_bits(17, false).unwrap(), 17);
}

#[test]
fn f32_reconstructs_ieee_fields() {
    assert_eq!(
        float32_bits(1 << 4, false, 4, 1).unwrap(),
        1.0_f32.to_bits()
    );
    assert_eq!(
        float32_bits(-(1 << 4), false, 4, 1).unwrap(),
        (-1.0_f32).to_bits()
    );
}

#[test]
fn selected_simd_level_matches_scalar_u8_semantics() {
    let input: Vec<_> = (-96..96).map(|value| value * 7).collect();
    for scaled in [false, true] {
        let mut output = Vec::new();
        append_u8(
            CpuCapabilities::detect(),
            &input,
            24,
            [2, 1],
            [20, 6],
            scaled,
            &mut output,
        )
        .unwrap();
        let bias = if scaled { 1_024 } else { 128 };
        let rounding = if scaled { 3 } else { 0 };
        let shift = if scaled { 3 } else { 0 };
        let expected: Vec<_> = (0..6)
            .flat_map(|y| &input[(y + 1) * 24 + 2..(y + 1) * 24 + 22])
            .map(|&sample| {
                u8::try_from(((sample + bias + rounding) >> shift).clamp(0, 255))
                    .expect("sample is clipped to u8")
            })
            .collect();
        assert_eq!(output, expected);
    }
}

#[test]
fn direct_premultiplied_bytes_equal_owned_bytes() {
    let color = [0];
    let alpha = [-64];
    let planes = [ComponentPlane::tightly_packed(1, 1, &color)];
    let mut output = request(
        ColorFormat::Luma,
        ColorFormat::Rgb,
        OutputBitDepth::U8,
        PixelFormat::U8(ChannelLayout::Rgba),
    );
    output.crop.width = 1;
    output.premultiply_alpha = true;
    let alpha = Some(ComponentPlane::tightly_packed(1, 1, &alpha));
    let owned = format_components(&planes, alpha, output, &operators).unwrap();
    assert_eq!(owned, DecodedSamples::U8(vec![32, 32, 32, 64]));
    let mut bytes = vec![0; 4];
    format_components_u8_into_with_cpu(
        &planes,
        alpha,
        output,
        CpuCapabilities::detect(),
        &mut bytes,
        &operators,
    )
    .unwrap();
    assert_eq!(bytes, [32, 32, 32, 64]);
    let mut direct = DecodedSamples::U8(vec![0; 4]);
    format_components_into_with_cpu(
        &planes,
        alpha,
        output,
        CpuCapabilities::detect(),
        &mut direct,
        &operators,
    )
    .unwrap();
    assert_eq!(direct, DecodedSamples::U8(vec![32, 32, 32, 64]));
}

#[test]
fn direct_destination_of_another_kind_or_size_is_refused() {
    let samples = [0, 0];
    let planes = [ComponentPlane::tightly_packed(2, 1, &samples)];
    let output = request(
        ColorFormat::Luma,
        ColorFormat::Luma,
        OutputBitDepth::U8,
        PixelFormat::U8(ChannelLayout::Luma),
    );
    let mut words = DecodedSamples::U16(vec![0; 2]);
    assert_eq!(
        format_components_into_with_cpu(
            &planes,
            None,
            output,
            CpuCapabilities::detect(),
            &mut words,
            &operators,
        ),
        Err(OutputFormatError::UnsupportedCombination {
            combination: "direct destination type differs from the output format",
        })
    );
    let mut short = DecodedSamples::U8(vec![0; 1]);
    assert_eq!(
        format_components_into_with_cpu(
            &planes,
            None,
            output,
            CpuCapabilities::detect(),
            &mut short,
            &operators,
        ),
        Err(OutputFormatError::UnsupportedCombination {
            combination: "direct destination length differs from the output contract",
        })
    );
}

#[test]
fn bits_of_a_long_row_continue_in_the_next_byte() {
    let samples = [1, 0, 0, 0, 0, 0, 0, 1, 0, 1];
    let planes = [ComponentPlane::tightly_packed(10, 1, &samples)];
    let mut output = request(
        ColorFormat::Luma,
        ColorFormat::Luma,
        OutputBitDepth::Bit1White,
        PixelFormat::BitPacked(ChannelLayout::Luma),
    );
    output.crop.width = 10;
    let decoded = format_components(&planes, None, output, &operators).unwrap();
    assert_eq!(decoded, DecodedSamples::BitPacked(vec![0x81, 0x40]));
}

#[test]
fn each_refused_request_has_its_error() {
    let samples = [0, 0];
    let planes = [ComponentPlane::tightly_packed(2, 1, &samples)];
    let output = request(
        ColorFormat::Luma,
        ColorFormat::Luma,
        OutputBitDepth::U8,
        PixelFormat::U8(ChannelLayout::Luma),
    );
    assert_eq!(validate_output_policy(output, false), Ok(()));
    assert_eq!(
        validate_output_policy(output, true),
        Err(OutputFormatError::AlphaMismatch)
    );
    assert_eq!(
        format_components(&[], None, output, &operators),
        Err(OutputFormatError::ComponentCount {
            expected: 1,
            actual: 0
        })
    );
    let mut outside = output;
    outside.crop.x = 1;
    assert_eq!(
        format_components(&planes, None, outside, &operators),
        Err(OutputFormatError::CropOutsidePlane { component: Some(0) })
    );
    let short = [ComponentPlane::tightly_packed(2, 2, &samples)];
    assert_eq!(
        format_components(&short, None, output, &operators),
        Err(OutputFormatError::InvalidPlane {
            component: Some(0),
            reason: "backing slice is shorter than its extent",
        })
    );
    let large = [i32::MAX, 0];
    let overflowing = [ComponentPlane::tightly_packed(2, 1, &large)];
    assert_eq!(
        format_components(&overflowing, None, output, &operators),
        Err(OutputFormatError::ArithmeticOverflow {
            operation: "adding output bias"
        })
    );
}

//! Whole streams: parsing, containers, planning and decoding.

use jxr_native::coefficient::{TileDecodeError, TileFailure};
use jxr_native::decode::arena::{
    CoefficientArena, CoefficientArenaDescriptor, CoefficientPlane, PredictionMode,
};
use jxr_native::decode::output::DecodedImage;
use jxr_native::decode::reconstruction::ReconstructionOperators;
use jxr_native::decode::route::DecodeOperators;
use jxr_native::decode::unpack::HighPassKernel;
use jxr_native::entropy::EntropyError;
use jxr_native::metadata::ImageInfo;
use jxr_native::output_format::premultiply::PixelOperator;
use jxr_native::output_format::{DecodedSamples, OutputFormatError};
use jxr_native::pixel_format::{classify_annex_a_pixel_format, GUID_PREFIX};
use jxr_native::plan::{DecodeRequest, PlanLimit, PreparedPlan};
use jxr_native::reconstruct::{Kernel, ReconstructionError};
use jxr_native::types::{
    AlphaHandling, AlphaMode, BackendRequest, BandPresence, BitstreamMode, ChannelLayout,
    ColorFormat, DecodeScale, JxrError, JxrErrorKind, Orientation, PixelFormat, QuantizerSet, Rect,
};
use jxr_native::{
    coefficient_count, decode_coefficients, decode_coefficients_into, decode_cpu,
    decode_cpu_into_with_workspace,
    decode_cpu_u8_into_with_workspace, decode_cpu_with_workspace, image_info, parse_codestream,
    parse_codestream_headers,
    prepare_accelerator_coefficients, prepare_plan, write_annex_a, AnnexAWriteOptions,
    CpuCapabilities, CpuDecodeWorkspace, NativeError, ParsedCodestream,
};

#[derive(Default)]
struct Bits {
    bytes: Vec<u8>,
    used: u32,
}

impl Bits {
    fn push(&mut self, value: u64, count: u32) {
        for shift in (0..count).rev() {
            if self.used % 8 == 0 {
                self.bytes.push(0);
            }
            let last = self.bytes.len() - 1;
            self.bytes[last] |= ((value >> shift & 1) as u8) << (7 - self.used % 8);
            self.used += 1;
        }
    }
}

#[derive(Clone, Copy)]
struct Stream<'a> {
    width: u64,
    height: u64,
    tile_widths: &'a [u64],
    frequency: bool,
    alpha: bool,
    reserved: u64,
    padding: u64,
}

const LUMA: Stream<'static> = Stream {
    width: 16,
    height: 16,
    tile_widths: &[],
    frequency: false,
    alpha: false,
    reserved: 1,
    padding: 0,
};

/// A codestream of 8-bit luma with DC coefficients only.
fn codestream(stream: Stream<'_>) -> Vec<u8> {
    let mut bits = Bits::default();
    bits.push(0x574D_5048_4F54_4F00, 64);
    bits.push(stream.reserved, 4);
    bits.push(0, 1); // soft tiles
    bits.push(1, 3);
    let tiled = !stream.tile_widths.is_empty();
    bits.push(u64::from(tiled), 1);
    bits.push(u64::from(stream.frequency), 1);
    bits.push(3, 3); // half turn
    bits.push(u64::from(tiled || stream.frequency), 1);
    bits.push(0, 2); // no overlap
    bits.push(1, 1); // short header
    bits.push(0, 1);
    bits.push(0, 1); // no window
    bits.push(0, 4);
    bits.push(u64::from(stream.alpha), 1);
    bits.push(0, 4); // luma
    bits.push(1, 4); // 8 bits
    bits.push(stream.width - 1, 16);
    bits.push(stream.height - 1, 16);
    if tiled {
        bits.push(stream.tile_widths.len() as u64, 12);
        bits.push(0, 12);
        for &width in stream.tile_widths {
            bits.push(width, 8);
        }
    }
    for _ in 0..if stream.alpha { 2 } else { 1 } {
        while bits.used % 8 != 0 {
            bits.push(0, 1);
        }
        bits.push(0, 3); // luma
        bits.push(0, 1); // not scaled
        bits.push(3, 4); // DC only
        bits.push(1, 1);
        bits.push(4, 8);
        while bits.used % 8 != 0 {
            bits.push(stream.padding, 1);
        }
    }
    let mut bytes = bits.bytes;
    if tiled || stream.frequency {
        bytes.extend_from_slice(&[0, 1]);
        for tile in 0..=stream.tile_widths.len() {
            bytes.extend_from_slice(&[0, 4 * tile as u8]);
        }
    }
    bytes.extend_from_slice(&[0, 4, 66, 16, 0, 1]);
    for tile in 0..=stream.tile_widths.len() {
        bytes.extend_from_slice(&[0, 0, 1, tile as u8]);
    }
    bytes
}

fn gray_guid() -> [u8; 16] {
    let mut value = [0; 16];
    value[..15].copy_from_slice(&GUID_PREFIX);
    value[15] = 0x08;
    value
}

fn request() -> DecodeRequest {
    DecodeRequest {
        output: PixelFormat::U8(ChannelLayout::Luma),
        region: None,
        scale: DecodeScale::Full,
        alpha: AlphaHandling::Drop,
        backend: BackendRequest::Cpu,
    }
}

fn consistent(_: &ImageInfo) -> bool {
    true
}

fn limits(_: PlanLimit) -> Result<(), JxrError> {
    Ok(())
}

fn kernels(kernel: Kernel, values: [i32; 16]) -> Option<[i32; 16]> {
    if kernel == Kernel::CoreTransform {
        Some([values[0] >> 2; 16])
    } else {
        None
    }
}

fn prediction(_: HighPassKernel, values: [i32; 256]) -> Option<[i32; 256]> {
    Some(values)
}

fn check(_: &CoefficientArena) -> Result<(), JxrError> {
    Ok(())
}

/// One DC coefficient for each macroblock: 256 and its column.
fn entropy(
    _: &[u8],
    _: &ParsedCodestream,
    plan: &PreparedPlan,
    arena: CoefficientArena,
) -> (Result<bool, TileDecodeError>, CoefficientArena) {
    let reused = !arena.coefficients.is_empty();
    let mut arena = CoefficientArena::new();
    let mut count = 0;
    for y in 0..plan.primary.macroblocks_y {
        for x in 0..plan.primary.macroblocks_x {
            arena.coefficients.push(256 * (x as i32 + 1));
            arena.macroblocks.coded_x.push(x);
            arena.macroblocks.coded_y.push(y);
            arena.macroblocks.coefficient_offsets.push(count);
            arena.macroblocks.bands.push(BandPresence::DcOnly);
            arena
                .macroblocks
                .hp_predictions
                .push(PredictionMode::Unpredicted);
            arena.macroblocks.quantizers.push(QuantizerSet {
                dc: 1,
                low_pass: 1,
                high_pass: 1,
            });
            count += 1;
        }
    }
    arena.planes.push(CoefficientPlane {
        macroblock_offset: 0,
        macroblock_count: count as usize,
        block_columns: 4,
        block_rows: 4,
    });
    (Ok(reused), arena)
}

fn failing_entropy(
    _: &[u8],
    _: &ParsedCodestream,
    _: &PreparedPlan,
    arena: CoefficientArena,
) -> (Result<bool, TileDecodeError>, CoefficientArena) {
    (
        Err(TileDecodeError {
            failure: TileFailure::Entropy,
            operation: "decode tile",
        }),
        arena,
    )
}

fn pixels(_: PixelOperator, _: [i64; 3]) -> Option<i64> {
    None
}

fn layout(_: &DecodedImage) -> Result<(), JxrError> {
    Ok(())
}

fn planned(bytes: &[u8], request: &DecodeRequest) -> (ParsedCodestream, PreparedPlan) {
    let parsed = parse_codestream(bytes).unwrap();
    let plan = prepare_plan(bytes.len(), &parsed, request, &consistent, &limits).unwrap();
    (parsed, plan)
}

#[test]
fn luma_codestream_parses_and_describes_its_image() {
    let bytes = codestream(LUMA);
    let parsed = parse_codestream(&bytes).unwrap();
    assert_eq!(parsed.codestream_range, 0..bytes.len());
    assert_eq!(parsed.directory.tile_data_offset, bytes.len() - 4);
    assert_eq!(parsed.directory.profiles.len(), 1);
    assert_eq!(parsed.directory.profiles[0].profile_idc, 66);
    assert_eq!(parsed.headers.image.margins, [0, 0, 0, 0]);
    let info = image_info(&parsed, &consistent).unwrap();
    assert_eq!((info.width, info.height), (16, 16));
    assert_eq!(info.primary.color_format, ColorFormat::Luma);
    assert_eq!(info.primary.bands, BandPresence::DcOnly);
    assert_eq!(info.primary.bitstream_mode, BitstreamMode::Spatial);
    assert_eq!(info.alpha_mode, AlphaMode::Absent);
    assert_eq!(info.metadata.orientation, Orientation::Rotate180);
    assert_eq!(info.tiles.column_widths, [1]);
}

#[test]
fn margins_extend_the_image_to_whole_macroblocks() {
    let bytes = codestream(Stream {
        width: 17,
        height: 5,
        ..LUMA
    });
    let parsed = parse_codestream(&bytes).unwrap();
    assert_eq!(parsed.headers.image.margins, [0, 0, 11, 15]);
    let info = image_info(&parsed, &consistent).unwrap();
    assert_eq!(info.tiles.column_widths, [2]);
    assert_eq!(info.tiles.row_heights, [1]);
}

#[test]
fn inconsistent_description_is_refused() {
    let bytes = codestream(LUMA);
    let parsed = parse_codestream(&bytes).unwrap();
    let never = |_: &ImageInfo| false;
    assert_eq!(
        image_info(&parsed, &never),
        Err(NativeError::InvalidSyntax {
            field: "public image metadata"
        })
    );
}

#[test]
fn container_gives_back_what_was_written() {
    let primary = codestream(LUMA);
    let profile = [9, 8, 7];
    let options = AnnexAWriteOptions::new(16, 16, gray_guid())
        .with_orientation(Orientation::Rotate90)
        .with_resolution_dpi(72.0_f32.to_bits(), 144.0_f32.to_bits())
        .with_icc_profile(&profile);
    let file = write_annex_a(&primary, &options).unwrap();
    assert_eq!(&file[..4], [b'I', b'I', 0xBC, 1]);
    let parsed = parse_codestream(&file).unwrap();
    assert_eq!(&file[parsed.codestream_range.clone()], primary);
    let annex = parsed.annex_a.as_ref().unwrap();
    assert_eq!((annex.width, annex.height), (16, 16));
    assert_eq!(annex.pixel_format_guid, gray_guid());
    assert_eq!(annex.metadata.transformation, Some(4));
    assert_eq!(
        annex.metadata.resolution_dpi_bits,
        Some([72.0_f32.to_bits(), 144.0_f32.to_bits()])
    );
    let icc = annex.metadata.icc_profile_range.clone().unwrap();
    assert_eq!(&file[icc], profile);
    let info = image_info(&parsed, &consistent).unwrap();
    assert_eq!(info.metadata.orientation, Orientation::Rotate90);
    assert_eq!(write_annex_a(&primary, &options).unwrap(), file);
}

#[test]
fn container_keeps_separate_alpha() {
    let primary = codestream(LUMA);
    let alpha = codestream(LUMA);
    let mut unknown = gray_guid();
    unknown[0] ^= 1;
    let options = AnnexAWriteOptions::new(16, 16, unknown).with_separate_alpha(&alpha);
    let file = write_annex_a(&primary, &options).unwrap();
    let parsed = parse_codestream(&file).unwrap();
    let range = parsed.annex_a.as_ref().unwrap().alpha_range.clone().unwrap();
    assert_eq!(&file[range], alpha);
    let info = image_info(&parsed, &consistent).unwrap();
    assert_eq!(info.alpha_mode, AlphaMode::Separate);
}

#[test]
fn writer_refuses_what_it_cannot_describe() {
    let primary = codestream(LUMA);
    let refused = |options: AnnexAWriteOptions<'_>| write_annex_a(&primary, &options).unwrap_err();
    assert_eq!(
        refused(AnnexAWriteOptions::new(16, 17, gray_guid())),
        NativeError::InvalidSyntax {
            field: "Annex-A/codestream dimension mismatch"
        }
    );
    for bad in [0.0_f32, -1.0, f32::NAN, f32::INFINITY] {
        assert_eq!(
            refused(
                AnnexAWriteOptions::new(16, 16, gray_guid())
                    .with_resolution_dpi(bad.to_bits(), 96.0_f32.to_bits())
            ),
            NativeError::InvalidSyntax {
                field: "Annex-A display resolution"
            }
        );
    }
    assert_eq!(
        refused(AnnexAWriteOptions::new(16, 16, gray_guid()).with_icc_profile(&[])),
        NativeError::InvalidSyntax {
            field: "empty Annex-A ICC profile"
        }
    );
    assert_eq!(
        write_annex_a(
            &[0; 4],
            &AnnexAWriteOptions::new(16, 16, gray_guid())
        ),
        Err(NativeError::InvalidSyntax {
            field: "Annex-A writer requires a raw codestream"
        })
    );
}

fn directory(entries: &[(u16, u16, u32, u32)]) -> Vec<u8> {
    let mut bytes = vec![b'I', b'I', 0xBC, 1, 8, 0, 0, 0];
    bytes.extend_from_slice(&(entries.len() as u16).to_le_bytes());
    for (tag, element_type, count, value) in entries {
        bytes.extend_from_slice(&tag.to_le_bytes());
        bytes.extend_from_slice(&element_type.to_le_bytes());
        bytes.extend_from_slice(&count.to_le_bytes());
        bytes.extend_from_slice(&value.to_le_bytes());
    }
    bytes
}

#[test]
fn each_parser_error_comes_with_its_message() {
    let mut broken = codestream(LUMA);
    broken[8] = 0x21;
    let long = {
        let mut bits = Bits::default();
        bits.push(0x574D_5048_4F54_4F00, 64);
        bits.push(0x11, 8);
        bits.push(0, 16);
        bits.push(1, 8);
        bits.push(u64::from(u32::MAX), 32);
        bits.bytes
    };
    let cases: [(&[u8], &str); 11] = [
        (&[], "truncated JPEG XR input at bit 0 while reading 64 bits"),
        (&[0; 8], "invalid JPEG XR signature"),
        (&broken, "reserved value 2 for JPEG XR field RESERVED_B"),
        (&long, "integer overflow while WIDTH_MINUS1"),
        (
            &[b'I', b'I', 0xBC, 1, 8, 0, 0, 0],
            "NUM_ENTRIES range 8..10 exceeds input length 8",
        ),
        (
            &directory(&[]),
            "reserved value 0 for JPEG XR field NUM_ENTRIES",
        ),
        (
            &directory(&[(0x8773, 7, 1, 0)]),
            "missing required Annex-A tag 0xBC01",
        ),
        (
            &directory(&[(0xBC01, 4, 16, 0)]),
            "invalid Annex-A tag 0xBC01 type 4 count 16",
        ),
        (
            &directory(&[(0xBC02, 4, 1, 0), (0xBC01, 1, 16, 0)]),
            "Annex-A tags are not strictly increasing: 0xBC02, 0xBC01",
        ),
        (
            &codestream(Stream {
                padding: 1,
                ..LUMA
            }),
            "non-zero alignment bit at position 145",
        ),
        (
            &codestream(Stream {
                frequency: true,
                ..LUMA
            })[..20],
            "truncated JPEG XR input at bit 160 while reading 8 bits",
        ),
    ];
    for (bytes, message) in cases {
        assert_eq!(parse_codestream(bytes).unwrap_err().message(), message);
    }
    let bytes = codestream(Stream {
        width: 32,
        tile_widths: &[2],
        ..LUMA
    });
    let parsed = parse_codestream(&bytes).unwrap();
    assert_eq!(
        image_info(&parsed, &consistent).unwrap_err().message(),
        "invalid JPEG XR syntax for tile columns"
    );
    assert_eq!(
        NativeError::Unsupported { feature: "overlap" }.message(),
        "unsupported JPEG XR feature: overlap"
    );
}

#[test]
fn errors_of_later_stages_have_their_messages() {
    assert_eq!(
        EntropyError::UnexpectedEnd {
            bit_position: 7,
            requested_bits: 3,
            bit_length: 8
        }
        .message(),
        "tile packet ended at bit 7 while reading 3 bits (packet has 8 bits)"
    );
    assert_eq!(
        EntropyError::InvalidBitLength {
            bit_length: 17,
            available_bits: 16
        }
        .message(),
        "tile packet bit length 17 exceeds its 16-bit backing slice"
    );
    assert_eq!(
        EntropyError::InvalidVlc {
            syntax: "RUN_INDEX",
            bit_position: 100
        }
        .message(),
        "invalid RUN_INDEX VLC prefix at tile packet bit 100"
    );
    assert_eq!(
        EntropyError::InvalidParameter {
            parameter: "model bits",
            value: i64::MIN
        }
        .message(),
        "invalid model bits value -9223372036854775808"
    );
    assert_eq!(
        EntropyError::CoefficientOverflow.message(),
        "decoded coefficient overflow"
    );
    assert_eq!(
        ReconstructionError::BufferTooSmall {
            required: 20,
            available: 0
        }
        .message(),
        "destination needs 20 elements, has 0"
    );
    assert_eq!(
        ReconstructionError::ZeroQuantizer("DC").message(),
        "zero DC quantization step"
    );
    assert_eq!(
        OutputFormatError::InvalidPlane {
            component: Some(2),
            reason: "stride"
        }
        .message(),
        "invalid component plane 2: stride"
    );
    assert_eq!(
        OutputFormatError::CropOutsidePlane { component: None }.message(),
        "crop extends outside alpha plane"
    );
}

#[test]
fn plan_covers_the_image_with_consecutive_tiles() {
    let bytes = codestream(Stream {
        width: 48,
        tile_widths: &[1],
        ..LUMA
    });
    let (_, plan) = planned(&bytes, &request());
    assert_eq!(plan.tiles.len(), 2);
    assert_eq!(
        (plan.tiles[0].macroblock_start, plan.tiles[0].macroblock_count),
        (0, 1)
    );
    assert_eq!(
        (plan.tiles[1].macroblock_start, plan.tiles[1].macroblock_count),
        (1, 2)
    );
    let first = plan.tiles[0].packet_range;
    let second = plan.tiles[1].packet_range;
    assert_eq!(first.offset + first.length, second.offset);
    assert_eq!(&bytes[first.offset..][..4], [0, 0, 1, 0]);
    assert_eq!(&bytes[second.offset..][..4], [0, 0, 1, 1]);
    assert_eq!(plan.output_region, Rect { x: 0, y: 0, w: 48, h: 16 });
}

#[test]
fn region_needs_only_the_tiles_under_it() {
    let bytes = codestream(Stream {
        width: 48,
        tile_widths: &[1],
        ..LUMA
    });
    let mut partial = request();
    partial.region = Some(Rect { x: 20, y: 2, w: 4, h: 3 });
    let (_, plan) = planned(&bytes, &partial);
    assert!(!plan.tiles[0].required_for_reconstruction);
    assert!(plan.tiles[1].required_for_reconstruction);
    assert_eq!(plan.decoded_region, Rect { x: 20, y: 2, w: 4, h: 3 });
}

#[test]
fn limit_of_the_caller_stops_planning() {
    let bytes = codestream(LUMA);
    let parsed = parse_codestream(&bytes).unwrap();
    let refusal = JxrError::new(JxrErrorKind::InvalidRequest, "too many tiles");
    let strict = |limit: PlanLimit| match limit {
        PlanLimit::Tiles(1) => Err(refusal),
        _ => Ok(()),
    };
    assert_eq!(
        prepare_plan(bytes.len(), &parsed, &request(), &consistent, &strict),
        Err(refusal)
    );
}

#[test]
fn region_outside_the_image_is_refused() {
    let bytes = codestream(LUMA);
    let parsed = parse_codestream(&bytes).unwrap();
    let mut outside = request();
    outside.region = Some(Rect { x: 10, y: 0, w: 7, h: 1 });
    let error = prepare_plan(bytes.len(), &parsed, &outside, &consistent, &limits).unwrap_err();
    assert_eq!(error.kind, JxrErrorKind::InvalidRequest);
}

#[test]
fn dc_image_decodes_to_constant_macroblocks() {
    let bytes = codestream(Stream { width: 32, ..LUMA });
    let (parsed, plan) = planned(&bytes, &request());
    let operators = DecodeOperators {
        reconstruction: ReconstructionOperators {
            kernels,
            prediction,
            check,
        },
        entropy,
        pixels,
        consistent,
        limits,
        layout,
    };
    let cpu = CpuCapabilities::detect();
    let image = decode_cpu(&bytes, &parsed, &plan, &request(), cpu, &operators).unwrap();
    let mut expected = Vec::new();
    for _ in 0..16 {
        expected.extend_from_slice(&[144; 16]);
        expected.extend_from_slice(&[160; 16]);
    }
    assert_eq!(image.samples, DecodedSamples::U8(expected.clone()));
    assert_eq!(image.decoded_region, Rect { x: 0, y: 0, w: 32, h: 16 });
    assert_eq!(image.planes.len(), 1);

    let mut workspace = CpuDecodeWorkspace::new();
    for round in 0..3 {
        let again = decode_cpu_with_workspace(
            &bytes,
            &parsed,
            &plan,
            &request(),
            cpu,
            &mut workspace,
            &operators,
        )
        .unwrap();
        assert_eq!(again.samples, image.samples);
        assert_eq!(workspace.coefficient_reuses(), round);
        assert_eq!(workspace.reconstruction_reuses(), 3 * round);
    }
    assert!(workspace.retained_coefficient_bytes() >= 8);
    assert!(workspace.retained_reconstruction_bytes() > 0);

    let mut bytes_out = vec![0; 512];
    decode_cpu_u8_into_with_workspace(
        &bytes,
        &parsed,
        &plan,
        &request(),
        cpu,
        &mut workspace,
        &mut bytes_out,
        &operators,
    )
    .unwrap();
    assert_eq!(bytes_out, expected);
    let mut direct = DecodedSamples::U8(vec![0; 512]);
    let stored = decode_cpu_into_with_workspace(
        &bytes,
        &parsed,
        &plan,
        &request(),
        cpu,
        &mut workspace,
        &mut direct,
        &operators,
    )
    .unwrap();
    assert_eq!(direct, image.samples);
    assert_eq!(stored.decoded_region, image.decoded_region);
}

#[test]
fn region_of_an_image_is_a_window_of_it() {
    let bytes = codestream(Stream { width: 32, ..LUMA });
    let mut partial = request();
    partial.region = Some(Rect { x: 14, y: 3, w: 4, h: 2 });
    let (parsed, plan) = planned(&bytes, &partial);
    let operators = DecodeOperators {
        reconstruction: ReconstructionOperators {
            kernels,
            prediction,
            check,
        },
        entropy,
        pixels,
        consistent,
        limits,
        layout,
    };
    let image = decode_cpu(
        &bytes,
        &parsed,
        &plan,
        &partial,
        CpuCapabilities::detect(),
        &operators,
    )
    .unwrap();
    assert_eq!(
        image.samples,
        DecodedSamples::U8(vec![144, 144, 160, 160, 144, 144, 160, 160])
    );
}

#[test]
fn sixteenth_resolution_decodes_one_sample_for_each_macroblock() {
    let bytes = codestream(Stream {
        width: 32,
        frequency: true,
        ..LUMA
    });
    let mut small = request();
    small.scale = DecodeScale::Sixteenth;
    let (parsed, plan) = planned(&bytes, &small);
    assert_eq!(plan.decoded_region, Rect { x: 0, y: 0, w: 2, h: 1 });
    let operators = DecodeOperators {
        reconstruction: ReconstructionOperators {
            kernels,
            prediction,
            check,
        },
        entropy,
        pixels,
        consistent,
        limits,
        layout,
    };
    let image = decode_cpu(
        &bytes,
        &parsed,
        &plan,
        &small,
        CpuCapabilities::detect(),
        &operators,
    )
    .unwrap();
    assert_eq!(image.samples, DecodedSamples::U8(vec![144, 160]));
}

#[test]
fn failing_entropy_decoder_is_reported() {
    let bytes = codestream(LUMA);
    let (parsed, plan) = planned(&bytes, &request());
    let error = decode_coefficients(&bytes, &parsed, &plan, &failing_entropy).unwrap_err();
    assert_eq!(error.kind, JxrErrorKind::InvalidSyntax);
    assert_eq!(error.operation, "decode tile");
}

#[test]
fn accelerator_gets_the_coefficients_of_the_primary_planes() {
    let bytes = codestream(LUMA);
    let (parsed, plan) = planned(&bytes, &request());
    let prepared = prepare_accelerator_coefficients(
        &bytes,
        &parsed,
        &plan,
        &request(),
        &entropy,
        &consistent,
        &limits,
    )
    .unwrap();
    assert_eq!(prepared.primary.coefficients, [256]);
    assert!(prepared.separate_alpha.is_none());
}

fn count(_: &ParsedCodestream, plan: &PreparedPlan) -> Result<usize, TileDecodeError> {
    match plan.primary.macroblocks_x {
        1 => Ok(1),
        _ => Err(TileDecodeError {
            failure: TileFailure::InvalidPlan,
            operation: "count coefficients",
        }),
    }
}

fn storing_entropy(
    source: &[u8],
    parsed: &ParsedCodestream,
    plan: &PreparedPlan,
    mut storage: Vec<i32>,
) -> (
    Result<CoefficientArenaDescriptor, TileDecodeError>,
    Vec<i32>,
) {
    let (_, arena) = entropy(source, parsed, plan, CoefficientArena::new());
    if storage.len() != arena.coefficients.len() {
        let error = TileDecodeError {
            failure: TileFailure::InvalidPlan,
            operation: "coefficient storage",
        };
        return (Err(error), storage);
    }
    storage.copy_from_slice(&arena.coefficients);
    let descriptor = CoefficientArenaDescriptor {
        macroblocks: arena.macroblocks,
        planes: arena.planes,
    };
    (Ok(descriptor), storage)
}

#[test]
fn caller_owned_storage_gets_the_coefficients() {
    let bytes = codestream(LUMA);
    let (parsed, plan) = planned(&bytes, &request());
    assert_eq!(coefficient_count(&parsed, &plan, &count), Ok(1));
    let mut storage = vec![0; 1];
    let descriptor =
        decode_coefficients_into(&bytes, &parsed, &plan, &mut storage, &storing_entropy).unwrap();
    assert_eq!(storage, [256]);
    assert_eq!(descriptor.planes.len(), 1);
    let mut wrong = vec![0; 2];
    let error = decode_coefficients_into(&bytes, &parsed, &plan, &mut wrong, &storing_entropy)
        .unwrap_err();
    assert_eq!(error.kind, JxrErrorKind::InternalInvariant);
    assert_eq!(error.operation, "coefficient storage");

    let wide = codestream(Stream { width: 32, ..LUMA });
    let (parsed, plan) = planned(&wide, &request());
    assert_eq!(
        coefficient_count(&parsed, &plan, &count),
        Err(JxrError::new(
            JxrErrorKind::InternalInvariant,
            "count coefficients"
        ))
    );
}

#[test]
fn requests_for_a_device_are_refused_on_every_route() {
    let bytes = codestream(LUMA);
    let (parsed, plan) = planned(&bytes, &request());
    let operators = DecodeOperators {
        reconstruction: ReconstructionOperators {
            kernels,
            prediction,
            check,
        },
        entropy,
        pixels,
        consistent,
        limits,
        layout,
    };
    let cpu = CpuCapabilities::detect();
    let refusal = JxrError::new(
        JxrErrorKind::BackendUnavailable,
        "select explicit accelerator session",
    );
    for backend in [BackendRequest::Metal, BackendRequest::Cuda] {
        let mut device = request();
        device.backend = backend;
        let mut workspace = CpuDecodeWorkspace::new();
        let error = decode_cpu(&bytes, &parsed, &plan, &device, cpu, &operators).err();
        assert_eq!(error, Some(refusal));
        let error = decode_cpu_with_workspace(
            &bytes,
            &parsed,
            &plan,
            &device,
            cpu,
            &mut workspace,
            &operators,
        )
        .err();
        assert_eq!(error, Some(refusal));
        let mut samples = DecodedSamples::U8(vec![9; 256]);
        let error = decode_cpu_into_with_workspace(
            &bytes,
            &parsed,
            &plan,
            &device,
            cpu,
            &mut workspace,
            &mut samples,
            &operators,
        )
        .err();
        assert_eq!(error, Some(refusal));
        assert_eq!(samples, DecodedSamples::U8(vec![9; 256]));
        let mut stored = vec![9; 256];
        let error = decode_cpu_u8_into_with_workspace(
            &bytes,
            &parsed,
            &plan,
            &device,
            cpu,
            &mut workspace,
            &mut stored,
            &operators,
        )
        .err();
        assert_eq!(error, Some(refusal));
        assert_eq!(stored, [9; 256]);
        assert_eq!(workspace.retained_coefficient_bytes(), 0);
    }
}

#[test]
fn image_keeps_the_metadata_of_its_plan() {
    let bytes = codestream(LUMA);
    let (parsed, mut plan) = planned(&bytes, &request());
    plan.info.metadata.container_pixel_format = Some(gray_guid());
    plan.info.metadata.annex_a_pixel_format = Some(classify_annex_a_pixel_format(gray_guid()));
    let operators = DecodeOperators {
        reconstruction: ReconstructionOperators {
            kernels,
            prediction,
            check,
        },
        entropy,
        pixels,
        consistent,
        limits,
        layout,
    };
    let cpu = CpuCapabilities::detect();
    let image = decode_cpu(&bytes, &parsed, &plan, &request(), cpu, &operators).unwrap();
    assert_eq!(image.info.metadata, plan.info.metadata);
    let mut workspace = CpuDecodeWorkspace::new();
    let mut stored = vec![0; 256];
    let output = decode_cpu_u8_into_with_workspace(
        &bytes,
        &parsed,
        &plan,
        &request(),
        cpu,
        &mut workspace,
        &mut stored,
        &operators,
    )
    .unwrap();
    assert_eq!(output.info.metadata, plan.info.metadata);
}

#[test]
fn headers_end_within_their_input() {
    let bytes = codestream(LUMA);
    let parsed = parse_codestream(&bytes).unwrap();
    let consumed = parsed.headers.bytes_consumed;
    assert!(consumed <= bytes.len());
    assert!(parse_codestream_headers(&bytes[..consumed]).is_ok());
    for length in 0..consumed {
        assert!(parse_codestream_headers(&bytes[..length]).is_err());
    }
    let image = &parsed.headers.image;
    assert!(image.width >= 1 && image.height >= 1);
    assert!(image.overlap_mode <= 2);
    assert!(image.margins.iter().all(|&margin| margin <= 63));
    assert_eq!(parsed.headers.primary.components, 1);
    assert!(parsed.headers.alpha.is_none());
}

/// Fails behind an arena that has room for many coefficients.
fn roomy_entropy(
    _: &[u8],
    _: &ParsedCodestream,
    _: &PreparedPlan,
    arena: CoefficientArena,
) -> (Result<bool, TileDecodeError>, CoefficientArena) {
    let mut arena = arena;
    arena.coefficients = Vec::with_capacity(1_000);
    (
        Err(TileDecodeError {
            failure: TileFailure::Unsupported,
            operation: "decode tile",
        }),
        arena,
    )
}

#[test]
fn retained_coefficient_bytes_are_those_of_the_arena_that_came_back() {
    let bytes = codestream(LUMA);
    let (parsed, plan) = planned(&bytes, &request());
    let operators = DecodeOperators {
        reconstruction: ReconstructionOperators {
            kernels,
            prediction,
            check,
        },
        entropy: roomy_entropy,
        pixels,
        consistent,
        limits,
        layout,
    };
    let mut workspace = CpuDecodeWorkspace::new();
    assert_eq!(workspace.retained_coefficient_bytes(), 0);
    assert_eq!(workspace.retained_reconstruction_bytes(), 0);
    let error = decode_cpu_with_workspace(
        &bytes,
        &parsed,
        &plan,
        &request(),
        CpuCapabilities::detect(),
        &mut workspace,
        &operators,
    )
    .err();
    assert_eq!(
        error,
        Some(JxrError::new(JxrErrorKind::Unsupported, "decode tile"))
    );
    let retained = workspace.retained_coefficient_bytes();
    assert!(retained >= 4_000 && retained < 400_000);
    assert_eq!(workspace.coefficient_reuses(), 0);
    assert_eq!(workspace.retained_reconstruction_bytes(), 0);
}

#[test]
fn detection_gives_the_same_answer_each_time() {
    let cpu = CpuCapabilities::detect();
    assert_eq!(
        cpu.accelerates_i32(),
        CpuCapabilities::detect().accelerates_i32()
    );
}

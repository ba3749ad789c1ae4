//! Laws on concrete values.

use jxr_native::entropy::vlc::{
    abs_level_codes, decode, first_index_codes, index_a_codes, index_b_codes, run_index_codes,
    run_value_2_codes, run_value_3_codes, run_value_4_codes, VlcCode,
};
use jxr_native::entropy::{
    decode_ac_block, AcVlcState, AdaptiveLpScan, ComponentClass, FrequencyBand, PacketBitReader,
};
use jxr_native::output_format::color::convert;
use jxr_native::output_format::premultiply::PixelOperator;
use jxr_native::output_format::{
    format_components, ComponentPlane, DecodedSamples, OutputBitDepth, OutputFormatRequest,
};
use jxr_native::reconstruct::overlap::apply_overlap;
use jxr_native::reconstruct::pipeline::{
    reconstruct_luma_scaled_with_cpu, ReconstructionPipelineWorkspace,
};
use jxr_native::reconstruct::{
    reconstruct_luma, CropWindow, Kernel, QuantizedMacroblock, ReconstructionConfig, TilePartition,
};
use jxr_native::types::{
    BandPresence, ChannelLayout, ChromaSampling, ColorFormat, DecodeScale, OverlapMode,
    PixelFormat, QuantizerSet,
};
use jxr_native::CpuCapabilities;

fn tables() -> Vec<Vec<VlcCode>> {
    let mut tables = vec![
        run_value_2_codes().to_vec(),
        run_value_3_codes().to_vec(),
        run_value_4_codes().to_vec(),
        run_index_codes().to_vec(),
        index_b_codes().to_vec(),
    ];
    for table in 0..2 {
        tables.push(abs_level_codes(table).to_vec());
    }
    for table in 0..4 {
        tables.push(index_a_codes(table).to_vec());
    }
    for table in 0..5 {
        tables.push(first_index_codes(table).to_vec());
    }
    tables
}

#[test]
fn every_byte_begins_with_exactly_one_code_word() {
    for codes in tables() {
        for byte in 0..=255_u8 {
            let matching: Vec<_> = codes
                .iter()
                .filter(|code| u16::from(byte) >> (8 - code.length) == code.bits)
                .collect();
            assert_eq!(matching.len(), 1);
            let bytes = [byte];
            let mut reader = PacketBitReader::with_bit_length(&bytes, 8).unwrap();
            assert_eq!(decode(&mut reader, "symbol", &codes), Ok(matching[0].symbol));
            assert_eq!(reader.bits_remaining(), 8 - usize::from(matching[0].length));
        }
    }
}

#[test]
fn decoded_blocks_always_scan() {
    let mut seed = 12_345_u32;
    let mut decoded = 0;
    for start in 1..=15 {
        for _ in 0..200 {
            let mut bytes = [0_u8; 24];
            for byte in &mut bytes {
                seed = seed.wrapping_mul(1_664_525).wrapping_add(1_013_904_223);
                *byte = (seed >> 24) as u8;
            }
            let mut reader = PacketBitReader::with_bit_length(&bytes, 192).unwrap();
            let Ok(block) = decode_ac_block(
                &mut reader,
                FrequencyBand::Lowpass,
                ComponentClass::Luma,
                start,
                &mut AcVlcState::new(),
            ) else {
                continue;
            };
            decoded += 1;
            let end = block
                .entries()
                .iter()
                .fold(u32::from(start), |end, entry| end + u32::from(entry.run) + 1);
            assert!(end <= 16);
            assert!(block.entries().iter().all(|entry| entry.level != 0));
            let mut coefficients = [0; 16];
            assert_eq!(
                block.inverse_scan_lp(&mut AdaptiveLpScan::new(), &mut coefficients),
                Ok(())
            );
            let placed = coefficients.iter().filter(|&&value| value != 0).count();
            assert_eq!(placed, usize::from(block.non_zero_count()));
        }
    }
    assert!(decoded > 100);
}

/// Sums of neighbours, so that each output depends on every input.
fn mixing(kernel: Kernel, values: [i32; 16]) -> Option<[i32; 16]> {
    let used = match kernel {
        Kernel::Overlap4 => 4,
        Kernel::Overlap4x4 | Kernel::CoreTransform => 16,
        _ => return None,
    };
    let sum: i32 = values[..used].iter().sum();
    let mut output = [0; 16];
    for place in 0..used {
        output[place] = (sum + values[place]) % 1_000;
    }
    Some(output)
}

#[test]
fn hard_tiles_do_not_see_their_neighbours() {
    let columns = [0, 8, 16];
    let rows = [0, 8];
    let mut first: Vec<i32> = (0..128).collect();
    let mut second = first.clone();
    for row in 0..8 {
        for column in 8..16 {
            second[row * 16 + column] = -7;
        }
    }
    apply_overlap(&mut first, 16, 8, &columns, &rows, true, &mixing).unwrap();
    apply_overlap(&mut second, 16, 8, &columns, &rows, true, &mixing).unwrap();
    for row in 0..8 {
        assert_eq!(first[row * 16..row * 16 + 8], second[row * 16..row * 16 + 8]);
        assert_ne!(
            first[row * 16 + 8..row * 16 + 16],
            second[row * 16 + 8..row * 16 + 16]
        );
    }
    let mut alone: Vec<i32> = (0..8)
        .flat_map(|row| (0..8).map(move |column| row * 16 + column))
        .collect();
    apply_overlap(&mut alone, 8, 8, &[0, 8], &[0, 8], true, &mixing).unwrap();
    for row in 0..8 {
        assert_eq!(alone[row * 8..row * 8 + 8], first[row * 16..row * 16 + 8]);
    }
}

fn macroblock(seed: i32) -> QuantizedMacroblock {
    let mut dc_low_pass = [0; 16];
    let mut high_pass = [0; 256];
    for (place, value) in dc_low_pass.iter_mut().enumerate() {
        *value = seed + place as i32;
    }
    for (place, value) in high_pass.iter_mut().enumerate() {
        *value = (seed * 3 + place as i32) % 50;
    }
    QuantizedMacroblock {
        dc_low_pass,
        high_pass,
        quantizers: QuantizerSet {
            dc: 2,
            low_pass: 3,
            high_pass: 4,
        },
        bands: BandPresence::All,
    }
}

fn config(macroblocks_x: u32, macroblocks_y: u32) -> ReconstructionConfig {
    ReconstructionConfig {
        macroblock_origin_x: 0,
        macroblock_origin_y: 0,
        macroblocks_x,
        macroblocks_y,
        block_columns: 4,
        block_rows: 4,
        scale_after_first_transform: false,
        overlap: OverlapMode::Off,
        tiles: TilePartition::single(macroblocks_x, macroblocks_y),
    }
}

#[test]
fn macroblocks_without_overlap_are_reconstructed_alone() {
    let macroblocks: Vec<_> = (1..=6).map(macroblock).collect();
    let whole = reconstruct_luma(&macroblocks, &config(3, 2), &mixing).unwrap();
    for (index, macroblock) in macroblocks.iter().enumerate() {
        let alone = reconstruct_luma(&[*macroblock], &config(1, 1), &mixing).unwrap();
        let (left, top) = (index % 3 * 16, index / 3 * 16);
        for row in 0..16 {
            let start = (top + row) * 48 + left;
            assert_eq!(
                whole.samples[start..start + 16],
                alone.samples[row * 16..row * 16 + 16]
            );
        }
    }
}

fn no_operators(_: PixelOperator, _: [i64; 3]) -> Option<i64> {
    None
}

#[test]
fn formatting_a_part_gives_the_pixels_of_the_whole() {
    let planes: Vec<Vec<i32>> = (0..3)
        .map(|plane| (0..30).map(|place| (place * 7 + plane * 11) % 90 - 45).collect())
        .collect();
    let views: Vec<_> = planes
        .iter()
        .map(|samples| ComponentPlane::tightly_packed(6, 5, samples))
        .collect();
    let mut request = OutputFormatRequest {
        internal_color: ColorFormat::Yuv(ChromaSampling::Cs444),
        output_color: ColorFormat::Rgb,
        bit_depth: OutputBitDepth::U8,
        pixel_format: PixelFormat::U8(ChannelLayout::Bgr),
        scaled: false,
        alpha_format: None,
        red_blue_not_swapped: false,
        premultiply_alpha: false,
        crop: CropWindow {
            x: 0,
            y: 0,
            width: 6,
            height: 5,
        },
    };
    let DecodedSamples::U8(whole) = format_components(&views, None, request, &no_operators).unwrap()
    else {
        panic!()
    };
    request.crop = CropWindow {
        x: 2,
        y: 1,
        width: 3,
        height: 2,
    };
    let DecodedSamples::U8(part) = format_components(&views, None, request, &no_operators).unwrap()
    else {
        panic!()
    };
    for y in 0..2 {
        for x in 0..3 {
            let inner = (y * 3 + x) * 3;
            let outer = ((y + 1) * 6 + x + 2) * 3;
            assert_eq!(part[inner..inner + 3], whole[outer..outer + 3]);
        }
    }
}

#[test]
fn colour_conversion_loses_nothing() {
    let mut seen = Vec::new();
    for y in -6..6 {
        for u in -6..6 {
            for v in -6..6 {
                let rgb = convert(
                    ColorFormat::Yuv(ChromaSampling::Cs444),
                    ColorFormat::Rgb,
                    &[y, u, v],
                    false,
                    false,
                )
                .unwrap();
                seen.push(rgb);
            }
        }
    }
    let count = seen.len();
    seen.sort_unstable();
    seen.dedup();
    assert_eq!(seen.len(), count);
}

#[test]
fn first_high_pass_coefficients_and_earlier_contents_never_show() {
    let macroblocks: Vec<_> = (1..=6).map(macroblock).collect();
    let mut others = macroblocks.clone();
    for (index, other) in others.iter_mut().enumerate() {
        for block in 0..16 {
            other.high_pass[16 * block] = 1_000 + (index * block) as i32;
        }
    }
    let cpu = CpuCapabilities::detect();
    let mut workspace = ReconstructionPipelineWorkspace::new();
    let earlier: Vec<_> = (20..=25).map(macroblock).collect();
    for scale in [
        DecodeScale::Full,
        DecodeScale::Quarter,
        DecodeScale::Sixteenth,
    ] {
        let fresh = reconstruct_luma_scaled_with_cpu(
            &macroblocks,
            &config(3, 2),
            scale,
            cpu,
            &mut ReconstructionPipelineWorkspace::new(),
            &mixing,
        )
        .unwrap();
        let used = reconstruct_luma_scaled_with_cpu(
            &earlier,
            &config(2, 3),
            scale,
            cpu,
            &mut workspace,
            &mixing,
        )
        .unwrap();
        assert_ne!(used.samples, fresh.samples);
        workspace.recycle_samples(used.samples);
        let again = reconstruct_luma_scaled_with_cpu(
            &others,
            &config(3, 2),
            scale,
            cpu,
            &mut workspace,
            &mixing,
        )
        .unwrap();
        assert_eq!(again, fresh);
    }
    let mut changed = macroblocks.clone();
    changed[2].high_pass[17] += 1;
    assert_ne!(
        reconstruct_luma(&changed, &config(3, 2), &mixing).unwrap(),
        reconstruct_luma(&macroblocks, &config(3, 2), &mixing).unwrap()
    );
}

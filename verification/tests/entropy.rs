//! Bit readers, prefix codes, adaptive state and coefficient blocks.

use jxr_native::bit_reader::BitReader;
use jxr_native::entropy::adaptive::{AdaptiveVlc, ABS_LEVEL_DELTA};
use jxr_native::entropy::scan::{SCAN_ORDER_0, SCAN_ORDER_1};
use jxr_native::entropy::vlc::{
    abs_level_codes, decode, first_index_codes, index_a_codes, index_b_codes, run_index_codes,
    run_value_2_codes, run_value_3_codes, run_value_4_codes, VlcCode,
};
use jxr_native::entropy::{
    decode_ac_block, decode_dc_coefficient, decode_flex, decode_flex_block, decode_lp_refinement,
    decode_lp_refinement_at, AcVlcState, AdaptiveHpScan, AdaptiveLpScan, CoefficientModel,
    ColourModel, ComponentClass, DcVlcState, EntropyError, FrequencyBand, HpScanDirection,
    PacketBitReader, RunLevel, TileEntropyState,
};
use jxr_native::NativeError;

#[test]
fn reads_across_byte_boundaries_msb_first() {
    let mut reader = BitReader::new(&[0b1011_0010, 0b0110_0000]);
    assert_eq!(reader.read_bits(3).unwrap(), 0b101);
    assert_eq!(reader.read_bits(7).unwrap(), 0b100_1001);
    assert_eq!(reader.read_bits(2).unwrap(), 0b10);
}

#[test]
fn header_reader_reports_where_the_input_ended() {
    let mut reader = BitReader::new(&[0xff]);
    assert_eq!(reader.read_bits(5).unwrap(), 0b1_1111);
    assert_eq!(
        reader.read_bits(4),
        Err(NativeError::Truncated {
            bit_position: 5,
            requested_bits: 4
        })
    );
}

#[test]
fn alignment_accepts_zero_padding_only() {
    let mut padded = BitReader::new(&[0b1010_0000, 0xff]);
    assert_eq!(padded.read_bits(3).unwrap(), 0b101);
    assert_eq!(padded.align_zero(), Ok(()));
    assert_eq!(padded.bit_position(), 8);
    let mut marked = BitReader::new(&[0b1010_0100]);
    assert_eq!(marked.read_bits(3).unwrap(), 0b101);
    assert_eq!(
        marked.align_zero(),
        Err(NativeError::NonZeroAlignmentBit { bit_position: 5 })
    );
}

#[test]
fn two_table_state_switches_only_past_normative_threshold() {
    let mut state = AdaptiveVlc::two_tables();
    for _ in 0..8 {
        state.observe_one(0, &ABS_LEVEL_DELTA);
    }
    state.adapt_one();
    assert_eq!(state.table_index(), 0);
    state.observe_one(0, &ABS_LEVEL_DELTA);
    state.adapt_one();
    assert_eq!(state.table_index(), 1);
    assert_eq!(state.discrim, [0, 0]);
}

#[test]
fn multi_table_transition_updates_both_delta_indices() {
    let mut state = AdaptiveVlc::multiple_tables();
    state.discrim = [-9, 0];
    state.adapt_two(4);
    assert_eq!(state.table_index, 0);
    assert_eq!(state.delta_index, [0, 0]);
    state.discrim = [0, 9];
    state.adapt_two(4);
    assert_eq!(state.table_index, 1);
    assert_eq!(state.delta_index, [0, 1]);
}

#[test]
fn tile_reset_restores_every_owned_state() {
    let mut state = TileEntropyState::new();
    state.dc_vlc.abs_level[0].discrim[0] = 40;
    state.lp_scan.place(&mut [0; 16], 2, 7).unwrap();
    state
        .hp_model
        .update([500, 500], ColourModel::Yuv420)
        .unwrap();
    state.reset_tile();
    assert_eq!(state, TileEntropyState::new());
}

#[test]
fn reads_across_bytes_and_honours_mid_byte_limit() {
    let mut reader = PacketBitReader::with_bit_length(&[0b1011_0010, 0b0110_0000], 11).unwrap();
    assert_eq!(reader.read_bits(3).unwrap(), 0b101);
    assert_eq!(reader.read_bits(7).unwrap(), 0b100_1001);
    assert!(reader.read_bit().unwrap());
    assert_eq!(reader.bits_remaining(), 0);
    assert!(matches!(
        reader.read_bit(),
        Err(EntropyError::UnexpectedEnd {
            bit_position: 11,
            ..
        })
    ));
}

#[test]
fn rejects_limit_beyond_backing_slice() {
    assert_eq!(
        PacketBitReader::with_bit_length(&[0], 9).unwrap_err(),
        EntropyError::InvalidBitLength {
            bit_length: 9,
            available_bits: 8,
        }
    );
}

#[test]
fn zero_width_read_does_not_advance() {
    let mut reader = PacketBitReader::new(&[0xff]);
    assert_eq!(reader.read_bits(0).unwrap(), 0);
    assert_eq!(reader.bit_position(), 0);
}

#[test]
fn splitting_a_read_gives_the_same_number() {
    let bytes = [0x9c, 0x35, 0xe1];
    let mut whole = PacketBitReader::new(&bytes);
    let mut parts = PacketBitReader::new(&bytes);
    let together = whole.read_bits(19).unwrap();
    let high = parts.read_bits(7).unwrap();
    let low = parts.read_bits(12).unwrap();
    assert_eq!(together, (high << 12) | low);
}

#[test]
fn dc_without_abs_level_uses_refinement_and_sign() {
    let mut reader = PacketBitReader::with_bit_length(&[0b1011_0000], 4).unwrap();
    let value = decode_dc_coefficient(
        &mut reader,
        3,
        false,
        ComponentClass::Luma,
        &mut DcVlcState::new(),
    )
    .unwrap();
    assert_eq!(value, -5);
}

#[test]
fn dc_abs_level_table_zero_decodes_initial_level() {
    // ABS_LEVEL_INDEX 0 (`01`), no model bits, positive sign.
    let mut reader = PacketBitReader::with_bit_length(&[0b0100_0000], 3).unwrap();
    let value = decode_dc_coefficient(
        &mut reader,
        0,
        true,
        ComponentClass::Luma,
        &mut DcVlcState::new(),
    )
    .unwrap();
    assert_eq!(value, 1);
}

#[test]
fn one_coefficient_block_decodes_first_index_table_one() {
    // FIRST_INDEX value 1 (`00010`) means zero run, magnitude one, last.
    let mut reader = PacketBitReader::with_bit_length(&[0b0001_0100], 6).unwrap();
    let block = decode_ac_block(
        &mut reader,
        FrequencyBand::Lowpass,
        ComponentClass::Luma,
        1,
        &mut AcVlcState::new(),
    )
    .unwrap();
    assert_eq!(block.entries(), &[RunLevel { run: 0, level: -1 }]);
    let mut coefficients = [0; 16];
    block
        .inverse_scan_lp(&mut AdaptiveLpScan::new(), &mut coefficients)
        .unwrap();
    assert_eq!(coefficients[4], -1);
}

#[test]
fn first_coefficient_reads_level_before_zero_run() {
    // FIRST_INDEX 6 (`00011`) carries both an absolute level and a run.
    // The syntax orders sign, absolute level (`01` => 2), then run
    // (`1` => 1), followed here by a final magnitude-one coefficient.
    let mut reader = PacketBitReader::with_bit_length(&[0b0001_1101, 0b1010_0000], 12).unwrap();
    let block = decode_ac_block(
        &mut reader,
        FrequencyBand::Highpass,
        ComponentClass::Luma,
        1,
        &mut AcVlcState::new(),
    )
    .unwrap();
    assert_eq!(
        block.entries(),
        &[
            RunLevel { run: 1, level: -2 },
            RunLevel { run: 0, level: 1 }
        ]
    );
    assert_eq!(reader.bits_remaining(), 0);
}

#[test]
fn high_pass_block_is_scanned_in_the_chosen_direction() {
    let mut reader = PacketBitReader::with_bit_length(&[0b0001_0100], 6).unwrap();
    let block = decode_ac_block(
        &mut reader,
        FrequencyBand::Highpass,
        ComponentClass::Luma,
        1,
        &mut AcVlcState::new(),
    )
    .unwrap();
    assert_eq!(block.non_zero_count(), 1);
    let mut horizontal = [0; 16];
    let mut vertical = [0; 16];
    block
        .inverse_scan_hp(
            &mut AdaptiveHpScan::new(),
            HpScanDirection::Horizontal,
            &mut horizontal,
        )
        .unwrap();
    block
        .inverse_scan_hp(
            &mut AdaptiveHpScan::new(),
            HpScanDirection::Vertical,
            &mut vertical,
        )
        .unwrap();
    assert_eq!(horizontal[usize::from(SCAN_ORDER_0[1])], -1);
    assert_eq!(vertical[usize::from(SCAN_ORDER_1[1])], -1);
}

#[test]
fn initial_model_bits_match_table_115() {
    assert_eq!(CoefficientModel::new(FrequencyBand::Dc).bits(false), 8);
    assert_eq!(CoefficientModel::new(FrequencyBand::Lowpass).bits(false), 4);
    assert_eq!(
        CoefficientModel::new(FrequencyBand::Highpass).bits(false),
        0
    );
}

#[test]
fn low_activity_reduces_model_bits() {
    let mut model = CoefficientModel::new(FrequencyBand::Lowpass);
    model.update([0, 0], ColourModel::LumaOnly).unwrap();
    assert_eq!(model.bits(false), 3);
    assert_eq!(model.state[0], 0);
}

#[test]
fn high_activity_increases_model_bits() {
    let mut model = CoefficientModel::new(FrequencyBand::Highpass);
    model.update([122, 0], ColourModel::LumaOnly).unwrap();
    assert_eq!(model.bits(false), 1);
    assert_eq!(model.state[0], 0);
}

#[test]
fn luma_only_does_not_modify_chroma_model() {
    let mut model = CoefficientModel::new(FrequencyBand::Dc);
    model.update([0, i32::MAX], ColourModel::LumaOnly).unwrap();
    assert_eq!(model.bits(true), 8);
    assert_eq!(model.state[1], 0);
}

#[test]
fn invalid_component_count_is_not_silently_clamped() {
    let mut model = CoefficientModel::new(FrequencyBand::Lowpass);
    assert!(matches!(
        model.update([0, 0], ColourModel::Other { components: 1 }),
        Err(EntropyError::InvalidParameter {
            parameter: "coefficient-model component count",
            value: 1,
        })
    ));
}

#[test]
fn flex_sign_follows_vlc_part_or_explicit_sign() {
    let mut positive = PacketBitReader::with_bit_length(&[0b1100_0000], 2).unwrap();
    assert_eq!(decode_flex(&mut positive, 3, 2).unwrap(), 3);
    let mut negative = PacketBitReader::with_bit_length(&[0b1100_0000], 2).unwrap();
    assert_eq!(decode_flex(&mut negative, -3, 2).unwrap(), -3);
    let mut zero_vlc = PacketBitReader::with_bit_length(&[0b1110_0000], 3).unwrap();
    assert_eq!(decode_flex(&mut zero_vlc, 0, 2).unwrap(), -3);
}

#[test]
fn zero_bits_flex_block_consumes_nothing() {
    let mut reader = PacketBitReader::with_bit_length(&[], 0).unwrap();
    assert_eq!(
        decode_flex_block(&mut reader, &[0; 16], 3, 3).unwrap(),
        [0; 16]
    );
}

#[test]
fn low_pass_refinement_reads_the_model_bits() {
    let mut coefficients = [0; 16];
    coefficients[4] = 3;
    let mut reader = PacketBitReader::with_bit_length(&[0b1011_0110], 7).unwrap();
    decode_lp_refinement_at(&mut reader, &mut coefficients, &[1, 4], 3).unwrap();
    assert_eq!(coefficients[1], -5);
    assert_eq!(coefficients[4], 27);
    let before = coefficients;
    decode_lp_refinement(&mut reader, &mut coefficients, 0).unwrap();
    assert_eq!(coefficients, before);
    assert_eq!(
        decode_lp_refinement_at(&mut reader, &mut coefficients, &[16], 3),
        Err(EntropyError::InvalidParameter {
            parameter: "LP refinement position",
            value: 16
        })
    );
}

#[test]
fn initial_orders_match_table_107() {
    assert_eq!(AdaptiveLpScan::new().order(), &SCAN_ORDER_0);
    let hp = AdaptiveHpScan::new();
    assert_eq!(hp.order(HpScanDirection::Horizontal), &SCAN_ORDER_0);
    assert_eq!(hp.order(HpScanDirection::Vertical), &SCAN_ORDER_1);
}

#[test]
fn scan_swaps_only_when_total_overtakes_predecessor() {
    let mut scan = AdaptiveLpScan::new();
    let mut output = [0; 16];
    scan.place(&mut output, 2, 9).unwrap();
    scan.place(&mut output, 2, 9).unwrap();
    scan.place(&mut output, 2, 9).unwrap();
    assert_eq!(output[1], 9);
    assert_eq!(&scan.order()[1..=2], &[1, 4]);
}

#[test]
fn totals_reset_preserves_adapted_order() {
    let mut scan = AdaptiveLpScan::new();
    scan.place(&mut [0; 16], 2, 1).unwrap();
    let adapted = *scan.order();
    scan.reset_totals();
    assert_eq!(scan.order(), &adapted);
    scan.reset_tile();
    assert_eq!(scan.order(), &SCAN_ORDER_0);
}

#[test]
fn adapted_order_stays_a_permutation() {
    let mut scan = AdaptiveLpScan::new();
    for step in 0..200u32 {
        let index = u8::try_from(step * 7 % 15 + 1).unwrap();
        scan.place(&mut [0; 16], index, 3).unwrap();
    }
    let mut order = scan.order().to_vec();
    order.sort_unstable();
    assert_eq!(order, (0..16).collect::<Vec<u8>>());
}

fn assert_decodes_table(syntax: &'static str, table: &[VlcCode]) {
    for code in table {
        let shifted = code.bits << (8 - code.length);
        let bytes = [u8::try_from(shifted).unwrap()];
        let mut reader =
            PacketBitReader::with_bit_length(&bytes, usize::from(code.length)).unwrap();
        assert_eq!(decode(&mut reader, syntax, table).unwrap(), code.symbol);
        assert_eq!(reader.bits_remaining(), 0);
    }
}

#[test]
fn decodes_every_normative_vlc_entry() {
    for table in 0..2 {
        assert_decodes_table("ABS_LEVEL_INDEX", &abs_level_codes(table));
    }
    for table in 0..4 {
        assert_decodes_table("INDEX_A", &index_a_codes(table));
    }
    for table in 0..5 {
        assert_decodes_table("FIRST_INDEX", &first_index_codes(table));
    }
    assert_decodes_table("RUN_VALUE", &run_value_2_codes());
    assert_decodes_table("RUN_VALUE", &run_value_3_codes());
    assert_decodes_table("RUN_VALUE", &run_value_4_codes());
    assert_decodes_table("RUN_INDEX", &run_index_codes());
    assert_decodes_table("INDEX_B", &index_b_codes());
}

#[test]
fn decodes_first_index_examples_from_table_82() {
    let cases: [(usize, u16, u8, u8); 5] = [
        (0, 0b1, 1, 7),
        (1, 0b0010, 4, 0),
        (2, 0b11, 2, 0),
        (3, 0b11, 2, 1),
        (4, 0b1, 1, 1),
    ];
    for (table, bits, length, expected) in cases {
        let bytes = [u8::try_from(bits << (8 - length)).unwrap()];
        let mut reader = PacketBitReader::with_bit_length(&bytes, usize::from(length)).unwrap();
        assert_eq!(
            decode(&mut reader, "FIRST_INDEX", &first_index_codes(table)).unwrap(),
            expected
        );
    }
}

#[test]
fn unknown_prefix_is_reported_where_it_begins() {
    let codes = [VlcCode { bits: 0b1, length: 1, symbol: 0 }];
    let mut reader = PacketBitReader::new(&[0b0100_0000]);
    assert_eq!(
        decode(&mut reader, "TEST", &codes),
        Err(EntropyError::InvalidVlc {
            syntax: "TEST",
            bit_position: 0
        })
    );
}

#[test]
fn refinement_must_stay_in_range() {
    let mut coefficients = [0; 16];
    coefficients[1] = 0x4000_0000;
    let mut reader = PacketBitReader::new(&[0x00]);
    assert_eq!(
        decode_lp_refinement_at(&mut reader, &mut coefficients, &[1], 1),
        Err(EntropyError::CoefficientOverflow)
    );
    coefficients[1] = 0x3fff_ffff;
    let mut reader = PacketBitReader::new(&[0x80]);
    decode_lp_refinement_at(&mut reader, &mut coefficients, &[1], 1).unwrap();
    assert_eq!(coefficients[1], i32::MAX);
    coefficients[1] = -0x4000_0000;
    let mut reader = PacketBitReader::new(&[0x00]);
    decode_lp_refinement_at(&mut reader, &mut coefficients, &[1], 1).unwrap();
    assert_eq!(coefficients[1], i32::MIN);
    coefficients[1] = -0x4000_0000;
    let mut reader = PacketBitReader::new(&[0x80]);
    assert_eq!(
        decode_lp_refinement_at(&mut reader, &mut coefficients, &[1], 1),
        Err(EntropyError::CoefficientOverflow)
    );
}

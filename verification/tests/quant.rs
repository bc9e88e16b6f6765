use atrac3_rs::bitstream::BitWriter;
use atrac3_rs::error::Atrac3Error;
use atrac3_rs::quant::{
    clc_bit_width, clc_symbol_index, coded_qmf_bands_for_subband_count, compute_group_sf_indices,
    encode_mantissas, estimate_band_bit_cost, fast_peak_to_sf_index, find_huffman_entry,
    fixed_sound_unit_bits, huff_table_size, minimum_subband_count_for_target_bits,
    subband_index_for_position, twos_complement_bits, vlc_pair_symbol, ATRAC3_CLC_LENGTH_TAB,
    ATRAC3_HUFF_TAB_SIZES, ATRAC3_MANTISSA_CLC_TAB, ATRAC3_MANTISSA_VLC_TAB,
};
use atrac3_rs::sound_unit::{CodingMode, RawBitPayload};

fn payload_bytes(payload: &RawBitPayload) -> Vec<u8> {
    let mut writer = BitWriter::new();
    for chunk in &payload.chunks {
        writer.write_bits(chunk.value, chunk.bits).unwrap();
    }
    writer.byte_align_zero();
    writer.as_bytes().to_vec()
}

#[test]
fn exposes_reference_clc_widths() {
    assert_eq!(ATRAC3_CLC_LENGTH_TAB, [0, 4, 3, 3, 4, 4, 5, 6]);
    assert_eq!(clc_bit_width(0), Some(0));
    assert_eq!(clc_bit_width(7), Some(6));
}

#[test]
fn exposes_reference_mantissa_tables() {
    assert_eq!(ATRAC3_MANTISSA_CLC_TAB, [0, 1, -2, -1]);
    assert_eq!(
        ATRAC3_MANTISSA_VLC_TAB,
        [0, 0, 0, 1, 0, -1, 1, 0, -1, 0, 1, 1, 1, -1, -1, 1, -1, -1]
    );
}

#[test]
fn exposes_reference_huffman_shapes() {
    assert_eq!(ATRAC3_HUFF_TAB_SIZES, [9, 5, 7, 9, 15, 31, 63]);
    assert_eq!(huff_table_size(1), Some(9));
    assert_eq!(huff_table_size(7), Some(63));
}

#[test]
fn encodes_selector1_clc_pairs() {
    let payload = encode_mantissas(1, CodingMode::Clc, &[1, -1, 0, -2]).unwrap();
    assert_eq!(payload.bit_len(), 8);
    assert_eq!(payload_bytes(&payload), vec![0x72]);
}

#[test]
fn encodes_selector2_vlc_symbols() {
    let payload = encode_mantissas(2, CodingMode::Vlc, &[0, 1, -1, 2, -2]).unwrap();
    assert_eq!(payload.bit_len(), 13);
    assert_eq!(payload_bytes(&payload), vec![0x4b, 0xb8]);
}

#[test]
fn selector1_pair_symbol_uses_five_bit_code() {
    let entry = find_huffman_entry(1, 5).unwrap();
    assert_eq!(entry.bits, 5);
    assert_eq!(entry.code, 0b11100);
}

#[test]
fn lookups_outside_the_tables_are_none() {
    assert_eq!(clc_bit_width(8), None);
    assert_eq!(huff_table_size(0), None);
    assert_eq!(huff_table_size(8), None);
}

#[test]
fn mantissa_coding_refuses_what_it_cannot_write() {
    assert_eq!(
        encode_mantissas(0, CodingMode::Clc, &[0]),
        Err(Atrac3Error::SelectorOutOfRange { selector: 0 })
    );
    assert_eq!(encode_mantissas(1, CodingMode::Vlc, &[0]), Err(Atrac3Error::OddMantissaCount));
    assert_eq!(
        encode_mantissas(1, CodingMode::Clc, &[2, 0]),
        Err(Atrac3Error::ClcMantissaNotRepresentable { mantissa: 2 })
    );
    assert_eq!(
        encode_mantissas(1, CodingMode::Vlc, &[2, 0]),
        Err(Atrac3Error::VlcPairNotRepresentable { left: 2, right: 0 })
    );
    assert_eq!(
        encode_mantissas(2, CodingMode::Vlc, &[9]),
        Err(Atrac3Error::SymbolNotRepresentable { symbol: 9, selector: 2 })
    );
    assert_eq!(clc_symbol_index(-2), Ok(2));
    assert_eq!(vlc_pair_symbol(-1, -1), Ok(8));
}

#[test]
fn clc_mantissas_take_the_table_width_each() {
    let payload = encode_mantissas(3, CodingMode::Clc, &[1, -1]).unwrap();
    assert_eq!(payload.bit_len(), 6);
    assert_eq!(payload.chunks[1].value, 0b111);
    assert_eq!(twos_complement_bits(-1, 3), 0b111);
    assert_eq!(twos_complement_bits(5, 2), 0b01);
}

#[test]
fn fixed_costs_follow_the_subband_count() {
    assert_eq!(coded_qmf_bands_for_subband_count(0), 1);
    assert_eq!(coded_qmf_bands_for_subband_count(18), 1);
    assert_eq!(coded_qmf_bands_for_subband_count(19), 2);
    assert_eq!(coded_qmf_bands_for_subband_count(32), 4);
    assert_eq!(fixed_sound_unit_bits(1), 22);
    assert_eq!(fixed_sound_unit_bits(32), 31);
    assert_eq!(minimum_subband_count_for_target_bits(1535), 0);
    assert_eq!(minimum_subband_count_for_target_bits(1536), 30);
    assert_eq!(subband_index_for_position(0), Some(0));
    assert_eq!(subband_index_for_position(1023), Some(31));
    assert_eq!(subband_index_for_position(1024), None);
}

#[test]
fn band_cost_subtracts_weak_groups_and_stays_non_negative() {
    assert_eq!(estimate_band_bit_cost(&[0, 0], 0, 10, 8), 0);
    assert_eq!(estimate_band_bit_cost(&[0, 9], 1, 10, 8), 15 * 8 + 60 - 40);
    assert_eq!(estimate_band_bit_cost(&[0; 10], 1, 60, 1), 0);
}

#[test]
fn group_scale_factors_follow_the_peak_of_each_group() {
    assert_eq!(fast_peak_to_sf_index(&[1.0f32.to_bits()]), 16);
    assert_eq!(fast_peak_to_sf_index(&[0.0f32.to_bits(), (-2.0f32).to_bits()]), 19);
    assert_eq!(fast_peak_to_sf_index(&[]), 0);
    let bits: Vec<u32> = [0.0f32, 0.0, 0.0, 1.0, 0.03125].iter().map(|v| v.to_bits()).collect();
    assert_eq!(compute_group_sf_indices(&bits), vec![16, 1]);
}

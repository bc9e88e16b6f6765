use atrac3_rs::quant_sony::{
    sony_active_count_weight, sony_band_bit_cost, sony_coded_qmf_bands, sony_gain_reserve_bits,
    sony_group_sf_indices, sony_hf_trim_refund_bits, sony_lb_shift_leading_zeros,
    sony_lb_strip_leading_zeros, sony_maybe_grow_coded_band_limit, sony_peak_to_sf_index_group,
    sony_score_to_tbl, sony_tonal_mag_codebook, sony_tonal_sep_codebook, LbEntry, CB_48B618,
    CB_48BB58, SONY_ENERGY_THRESHOLD, SONY_LOW_BUDGET_SPACING_BIAS, SONY_PROMOTION_BOUNDARY,
    SONY_SATURATION_BOUNDARY,
};

#[test]
fn exposes_separate_saturation_and_promotion_tables() {
    assert_eq!(SONY_SATURATION_BOUNDARY, [441, 1, 2, 2, 2, 4, 6, 6]);
    assert_eq!(SONY_PROMOTION_BOUNDARY, [1, 2, 2, 2, 4, 6, 6, 40]);
    assert_eq!(SONY_ENERGY_THRESHOLD[31], 441);
}

#[test]
fn ports_sony_score_to_tbl_clamp() {
    assert_eq!(sony_score_to_tbl(0x800, 10, 1), 2);
    assert_eq!(sony_score_to_tbl(-0x400, 10, 1), 1);
    assert_eq!(sony_score_to_tbl(0x4000, 10, 1), 7);
}

#[test]
fn ports_group_peak_to_sf_index() {
    assert_eq!(sony_peak_to_sf_index_group(&[1.0f32.to_bits()]), 16);
    assert_eq!(sony_peak_to_sf_index_group(&[0.03125f32.to_bits()]), 1);
    let group = [0.0f32, -2.0, 0.0, 0.0].map(f32::to_bits);
    assert_eq!(sony_peak_to_sf_index_group(&group), 19);
}

#[test]
fn ports_band_cost_formula() {
    assert_eq!(sony_band_bit_cost(&[0, 0], 0, 1, 10), 100);
}

#[test]
fn ports_gain_reserve_formula() {
    assert_eq!(sony_gain_reserve_bits(28, &[1, 2, 3, 4]), 63);
    assert_eq!(sony_gain_reserve_bits(32, &[1, 2, 3, 4]), 102);
}

#[test]
fn ports_phase1_band_limit_growth_gate() {
    assert_eq!(sony_maybe_grow_coded_band_limit(24, 0, 8, 128, false), 28);
    assert_eq!(sony_maybe_grow_coded_band_limit(28, 27, 31, 256, false), 29);
    assert_eq!(sony_maybe_grow_coded_band_limit(24, 8, 32, 128, false), 24);
    assert_eq!(sony_maybe_grow_coded_band_limit(24, 27, 32, 256, true), 24);
}

#[test]
fn ports_hf_trim_refund_formula() {
    assert_eq!(
        sony_hf_trim_refund_bits(32, &[1, 0, 0, 0], 1, &[true, false, false, false]),
        12
    );
    assert_eq!(
        sony_hf_trim_refund_bits(32, &[1, 2, 0, 0], 2, &[true, true, false, false]),
        10
    );
}

#[test]
fn exposes_full_low_budget_spacing_table() {
    assert_eq!(SONY_LOW_BUDGET_SPACING_BIAS.len(), 32);
    assert_eq!(
        SONY_LOW_BUDGET_SPACING_BIAS,
        [
            11, 9, 9, 9, 9, 9, 10, 13, 9, 8, 8, 8, 8, 9, 10, 13, 8, 7, 7, 7, 8, 9, 10, 13, 7,
            7, 7, 7, 8, 9, 9, 9,
        ]
    );
}

#[test]
fn band_limit_is_kept_within_one_to_thirty_two() {
    assert_eq!(sony_maybe_grow_coded_band_limit(0, 40, 0, 0, false), 1);
    assert_eq!(sony_maybe_grow_coded_band_limit(40, 3, 0, 0, false), 32);
    assert_eq!(sony_maybe_grow_coded_band_limit(3, 31, 0, 1, false), 32);
    assert_eq!(sony_maybe_grow_coded_band_limit(3, 26, 1, 16, false), 28);
}

#[test]
fn coded_qmf_bands_follow_the_subband_end() {
    assert_eq!(sony_coded_qmf_bands(0), 0);
    assert_eq!(sony_coded_qmf_bands(1), 1);
    assert_eq!(sony_coded_qmf_bands(18), 1);
    assert_eq!(sony_coded_qmf_bands(19), 2);
    assert_eq!(sony_coded_qmf_bands(40), 4);
    assert_eq!(sony_active_count_weight(31), 128);
}

#[test]
fn codebooks_are_dispatched_by_table() {
    assert_eq!(sony_tonal_mag_codebook(1), &CB_48B618[..]);
    assert_eq!(sony_tonal_mag_codebook(7).len(), 64);
    assert!(sony_tonal_mag_codebook(0).is_empty());
    assert!(sony_tonal_mag_codebook(8).is_empty());
    assert_eq!(sony_tonal_sep_codebook(5), &CB_48BB58[..]);
    assert!(sony_tonal_sep_codebook(4).is_empty());
}

#[test]
fn strips_leading_zero_mantissas_from_an_entry() {
    let mut mantissas = [5, 0, 0, 7];
    let mut position = 10u32;
    assert_eq!(sony_lb_strip_leading_zeros(&mut mantissas, &mut position, 64), 3);
    assert_eq!(mantissas, [7, 0, 0, 0]);
    assert_eq!(position, 13);

    let mut mantissas = [0, 1, 2, 3];
    let mut position = 62u32;
    assert_eq!(sony_lb_strip_leading_zeros(&mut mantissas, &mut position, 63), -1);
    assert_eq!((mantissas, position), ([0, 1, 2, 3], 62));

    let mut mantissas = [0, 1, 2, 3];
    let mut position = 0x3fcu32;
    assert_eq!(sony_lb_strip_leading_zeros(&mut mantissas, &mut position, 2000), 0);
    assert_eq!(position, 0x3fc);

    let mut mantissas = [9, 0, 0, 0];
    let mut position = 4u32;
    assert_eq!(sony_lb_strip_leading_zeros(&mut mantissas, &mut position, 64), 0);
    assert_eq!((mantissas, position), ([9, 0, 0, 0], 4));
}

#[test]
fn shifts_low_budget_entry_past_zeros() {
    let mut entry = LbEntry { mantissas: [0, 0, 4, 5], position: 100, sf_index: 9 };
    assert_eq!(sony_lb_shift_leading_zeros(&mut entry, 200), 2);
    assert_eq!(entry.mantissas, [4, 5, 0, 0]);
    assert_eq!(entry.position, 102);
    assert_eq!(entry.sf_index, 9);
    let mut edge = LbEntry { mantissas: [0, 1, 0, 0], position: 10, sf_index: 1 };
    assert_eq!(sony_lb_shift_leading_zeros(&mut edge, 11), -1);
    assert_eq!(edge.position, 10);
}

#[test]
fn groups_coefficients_in_fours() {
    let bits: Vec<u32> = [1.0f32, 0.0, 0.0, 0.0, 0.03125, 0.0].iter().map(|x| x.to_bits()).collect();
    assert_eq!(sony_group_sf_indices(&bits), vec![16, 1]);
    assert_eq!(sony_group_sf_indices(&[]), Vec::<u8>::new());
    assert_eq!(sony_peak_to_sf_index_group(&[]), 0);
    assert_eq!(sony_peak_to_sf_index_group(&[1.0e-30f32.to_bits()]), 0);
}

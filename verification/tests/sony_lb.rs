use atrac3_rs::quant_sony::{LbEntry, SonyLbPhase1Inputs};
use atrac3_rs::sony_lb::{
    low_budget_band_state, sony_lb_final_repack, sony_lb_scan_positions, sony_lb_split_repack,
    sony_phase1_lb_inputs, SonyLbWorkbench, SONY_TONAL_PROMINENCE_THRESHOLD_BITS,
};

fn entry(mantissas: [u32; 4], position: i32, sf_index: i32) -> LbEntry {
    LbEntry { mantissas, position, sf_index }
}

fn workbench(entries: Vec<LbEntry>) -> SonyLbWorkbench {
    let mut wb = SonyLbWorkbench::new(vec![0u32; 1024], 32, 40, [0; 32], [0; 32], [0; 32]);
    wb.entries = entries;
    wb
}

#[test]
fn new_workbench_starts_empty_with_table_three() {
    let wb = SonyLbWorkbench::new(vec![1, 2, 3], 12, 99, [7; 32], [5; 32], [9; 32]);
    assert_eq!(wb.spectrum, vec![1, 2, 3]);
    assert_eq!(wb.band_count, 12);
    assert_eq!(wb.base_bits, 99);
    assert_eq!(wb.band_score, [7; 32]);
    assert_eq!(wb.band_state_low, [5; 32]);
    assert_eq!(wb.band_peak, [9; 32]);
    assert_eq!(wb.tbl, 3);
    assert_eq!(wb.count_minus_one, 3);
    assert_eq!(wb.qmf_band_active, [0; 4]);
    assert!(wb.cells.iter().all(|c| c.count == 0 && c.entry_refs == [0; 7]));
    assert!(wb.backup.iter().all(|&b| b == 0));
    assert!(wb.entries.is_empty());
}

#[test]
fn workbench_from_phase_one_takes_its_band_context() {
    let phase1 = SonyLbPhase1Inputs {
        band_count: 20,
        band_peak: [3; 32],
        band_state_low: [4; 32],
        band_score: [0x500; 32],
        base_bits: 77,
        bvar1: 1,
    };
    let wb = SonyLbWorkbench::new_from_phase1(vec![0u32; 8], &phase1);
    assert_eq!(wb.band_count, 20);
    assert_eq!(wb.band_peak, [3; 32]);
    assert_eq!(wb.band_state_low, [4; 32]);
    assert_eq!(wb.band_score, [0x500; 32]);
    assert_eq!(wb.base_bits, 77);
    assert_eq!(wb.spectrum.len(), 8);
}

#[test]
fn final_repack_stops_at_first_entry_with_used_lead_slot() {
    let mut wb = workbench(vec![entry([0, 5, 0, 7], 10, 4), entry([1, 0, 0, 0], 20, 2)]);
    let trimmed = sony_lb_final_repack(&mut wb, 2);
    assert_eq!(trimmed, 1);
    assert_eq!(wb.count_minus_one, 2);
    assert_eq!(wb.entries[0], entry([5, 0, 7, 7], 11, 4));
    assert_eq!(wb.entries[1], entry([1, 0, 0, 0], 20, 2));
}

#[test]
fn final_repack_narrows_to_zero_when_nothing_stops_it() {
    let mut wb = workbench(vec![entry([0, 0, 0, 0], 0, 1)]);
    assert_eq!(sony_lb_final_repack(&mut wb, 1), 3);
    assert_eq!(wb.count_minus_one, 0);
    assert_eq!(wb.entries[0], entry([0, 0, 0, 0], 0, 1));
}

#[test]
fn final_repack_stops_on_last_sample_of_a_cell() {
    let mut wb = workbench(vec![entry([0, 0, 4, 0], 63, 1)]);
    assert_eq!(sony_lb_final_repack(&mut wb, 1), 1);
    assert_eq!(wb.count_minus_one, 2);
    assert_eq!(wb.entries[0], entry([0, 0, 4, 0], 63, 1));
}

#[test]
fn split_repack_moves_upper_half_two_samples_later() {
    let mut wb = workbench(vec![entry([1, 2, 3, 4], 8, 5), entry([1, 0, 0, 0], 40, 2)]);
    wb.qmf_band_active = [1, 0, 0, 0];
    let count = sony_lb_split_repack(&mut wb, 2);
    assert_eq!(count, 3);
    assert_eq!(
        wb.entries,
        vec![entry([1, 2, 0, 0], 8, 5), entry([1, 0, 0, 0], 40, 2), entry([3, 4, 0, 0], 10, 5)]
    );
    assert_eq!(wb.cells[0].count, 1);
    assert_eq!(wb.cells[0].entry_refs[0], 2);
    assert_eq!(&wb.backup[0..6], &[1, 0, 0, 0, 3, 3]);
    assert!(wb.backup[6..].iter().all(|&b| b == 0));
}

#[test]
fn split_repack_refuses_a_split_into_an_inactive_band() {
    let before = vec![entry([1, 2, 3, 4], 8, 5)];
    let mut wb = workbench(before.clone());
    wb.cells[2].count = 5;
    wb.cells[2].entry_refs[1] = 9;
    assert_eq!(sony_lb_split_repack(&mut wb, 1), 0);
    assert_eq!(wb.entries, before);
    assert_eq!(wb.cells[0].count, 0);
    assert_eq!(&wb.backup[0..6], &[0, 0, 0, 0, 3, 3]);
    assert_eq!(wb.backup[6 + 2 * 8], 5);
    assert_eq!(wb.backup[6 + 2 * 8 + 2], 9);
}

#[test]
fn split_repack_refuses_a_full_cell() {
    let mut wb = workbench(vec![entry([0, 0, 0, 1], 100, 1)]);
    wb.qmf_band_active = [1, 1, 1, 1];
    wb.cells[1].count = 7;
    assert_eq!(sony_lb_split_repack(&mut wb, 1), 0);
    assert_eq!(wb.cells[1].count, 7);
    assert_eq!(wb.entries, vec![entry([0, 0, 0, 1], 100, 1)]);
}

#[test]
fn split_repack_counts_splits_past_the_entry_count() {
    let mut wb = workbench(vec![entry([1, 0, 0, 0], 8, 1), entry([1, 2, 3, 4], 30, 1)]);
    wb.qmf_band_active = [1, 1, 1, 1];
    assert_eq!(sony_lb_split_repack(&mut wb, 1), 1);
    assert_eq!(wb.entries, vec![entry([1, 0, 0, 0], 8, 1), entry([1, 2, 3, 4], 30, 1)]);
}

fn single_peak_frame() -> Vec<u32> {
    let mut bits = vec![0u32; 1024];
    bits[0] = 1.0f32.to_bits();
    bits
}

#[test]
fn phase_one_inputs_of_a_silent_frame() {
    let inputs = sony_phase1_lb_inputs(&vec![0u32; 1024], 1000, false, 10);
    assert_eq!(inputs.band_count, 10);
    assert_eq!(inputs.bvar1, 10);
    assert_eq!(inputs.base_bits, 1);
    assert_eq!(inputs.band_peak, [0; 32]);
    assert_eq!(inputs.band_score, [0; 32]);
    assert_eq!(inputs.band_state_low, [0; 32]);
}

#[test]
fn phase_one_inputs_grow_the_band_limit_on_a_new_peak() {
    let inputs = sony_phase1_lb_inputs(&single_peak_frame(), 1000, false, 10);
    assert_eq!(inputs.band_count, 28);
    assert_eq!(inputs.bvar1, 10);
    assert_eq!(inputs.base_bits, 3);
    let mut peaks = [0; 32];
    peaks[0] = 16;
    assert_eq!(inputs.band_peak, peaks);
    let mut scores = [0; 32];
    for score in scores.iter_mut().take(28) {
        *score = -16;
    }
    scores[0] = 16 * 256 - 16;
    assert_eq!(inputs.band_score, scores);
    let mut tables = [0; 32];
    tables[0] = 3;
    assert_eq!(inputs.band_state_low, tables);
}

#[test]
fn phase_one_inputs_on_a_tight_budget_keep_the_limit_and_raise_the_mode() {
    let inputs = sony_phase1_lb_inputs(&single_peak_frame(), 5, true, 10);
    assert_eq!(inputs.band_count, 10);
    assert_eq!(inputs.bvar1, 11);
    assert_eq!(inputs.base_bits, 1);
    assert_eq!(inputs.band_score[0], 4080);
    assert_eq!(inputs.band_score[9], -16);
    assert_eq!(inputs.band_score[10], 0);
    assert_eq!(inputs.band_state_low[0], 1);
    assert_eq!(inputs.band_state_low[1], 0);
}

#[test]
fn low_budget_band_state_keeps_the_peak_band() {
    let residual = single_peak_frame();
    let (count, peaks, tables, scores) = low_budget_band_state(&residual, 1024, 1000);
    assert_eq!(count, 32);
    let mut expected_peaks = [0u8; 32];
    expected_peaks[0] = 16;
    assert_eq!(peaks, expected_peaks);
    let mut expected_tables = [0u8; 32];
    expected_tables[0] = 3;
    assert_eq!(tables, expected_tables);
    let mut expected_scores = [0i32; 32];
    expected_scores[0] = 4080;
    assert_eq!(scores, expected_scores);
}

#[test]
fn low_budget_band_state_on_a_short_spectrum_and_tight_budget() {
    let residual = single_peak_frame();
    let (count, peaks, tables, scores) = low_budget_band_state(&residual[..100], 100, 5);
    assert_eq!(count, 10);
    assert_eq!(peaks[0], 16);
    assert_eq!(tables[0], 1);
    assert_eq!(scores[0], 4080);
    assert!(peaks[1..].iter().all(|&p| p == 0));
}

#[test]
fn prominence_threshold_bits_are_the_f32_thresholds() {
    let thresholds: [f32; 16] = [
        0.03125,
        0.039_372_534,
        0.049_606_282,
        0.0625,
        0.078_745_067,
        0.099_212_565,
        0.125,
        0.157_490_134,
        0.198_425_129,
        0.25,
        0.314_980_268,
        0.396_850_258,
        0.5,
        0.629_960_537,
        0.793_700_516,
        1.0,
    ];
    for (bits, value) in SONY_TONAL_PROMINENCE_THRESHOLD_BITS.iter().zip(thresholds.iter()) {
        assert_eq!(*bits, value.to_bits());
    }
}

#[test]
fn scan_records_hits_and_steps_four_samples_on() {
    let samples: [f32; 10] = [0.0, 0.5, -0.5, 0.0, 0.0, 0.0, -0.04, 0.0, 0.01, 0.0];
    let residual: Vec<u32> = samples.iter().map(|v| v.to_bits()).collect();
    let mut out = [0i32; 10];
    assert_eq!(sony_lb_scan_positions(0, 0, 10, 9, &mut out, &residual), 2);
    assert_eq!(&out[..3], &[1, 6, 0]);

    let mut out = [0i32; 10];
    assert_eq!(sony_lb_scan_positions(0, 0, 10, 1, &mut out, &residual), -1);
    assert_eq!(&out[..2], &[1, 0]);

    let mut out = [7i32; 4];
    assert_eq!(sony_lb_scan_positions(15, 0, 10, 9, &mut out, &residual), 0);
    assert_eq!(out, [7; 4]);
}

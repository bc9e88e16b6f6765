use atrac3_rs::error::Atrac3Error;
use atrac3_rs::quant_sony::SonyHbEntry;
use atrac3_rs::quant_tonal::{
    best_low_budget_layout_cost, coded_qmf_bands_to_local_514, coded_subband_count,
    empty_tonal_result, group_pending_component, high_budget_component_index,
    low_budget_layout_cost, low_budget_spacing_row, pending_cells_to_tonal_component,
    reduce_low_budget_layout, shift_tonal_entry_right, sony_hb_entry_to_pending,
    split_low_budget_layout, strip_even_mantissas, tonal_bit_cost, tonal_hot_group_count,
    tonal_subbands_from_components, weakest_replaceable_high_budget_entry_index,
    PendingLowBudgetLayout, PendingTonalComponent, PendingTonalEntry, TonalExtractionResult,
    LOW_BUDGET_QSTEP,
};
use atrac3_rs::sound_unit::{
    BitChunk, CodingMode, RawBitPayload, TonalCell, TonalCodingModeSelector, TonalComponent,
    TonalEntry,
};

#[test]
fn maps_low_budget_rows_like_sony_band_groups() {
    assert_eq!(low_budget_spacing_row(0), 0);
    assert_eq!(low_budget_spacing_row(16), 1);
    assert_eq!(low_budget_spacing_row(26), 2);
    assert_eq!(low_budget_spacing_row(30), 3);
}

#[test]
fn strips_leading_zeroes_and_shifts_position() {
    let mut entry = PendingTonalEntry {
        absolute_position: 10,
        scale_factor_index: 8,
        mantissas: [0, 2, -1, 0],
    };
    assert!(shift_tonal_entry_right(&mut entry, 16));
    assert_eq!(entry.absolute_position, 11);
    assert_eq!(entry.mantissas, [2, -1, 0, 0]);
}

#[test]
fn low_budget_split_moves_tail_pair_into_second_component() {
    let layout = PendingLowBudgetLayout {
        components: vec![vec![
            PendingTonalEntry {
                absolute_position: 4,
                scale_factor_index: 9,
                mantissas: [3, 2, 1, -1],
            },
            PendingTonalEntry {
                absolute_position: 0x104,
                scale_factor_index: 10,
                mantissas: [2, 1, 0, 0],
            },
        ]],
        coded_values_minus_one: 3,
    };

    let split = split_low_budget_layout(&layout, 2).expect("split should succeed");
    assert_eq!(split.components.len(), 2);
    assert_eq!(split.components[0][0].mantissas, [3, 2, 0, 0]);
    assert_eq!(split.components[1][0].absolute_position, 6);
    assert_eq!(split.components[1][0].mantissas, [1, -1, 0, 0]);
}

#[test]
fn low_budget_reduce_shifts_entries_and_can_lower_cost() {
    let mut layout = PendingLowBudgetLayout {
        components: vec![vec![
            PendingTonalEntry {
                absolute_position: 4,
                scale_factor_index: 9,
                mantissas: [0, 3, 2, 0],
            },
            PendingTonalEntry {
                absolute_position: 0x44,
                scale_factor_index: 11,
                mantissas: [2, 1, 0, 0],
            },
        ]],
        coded_values_minus_one: 3,
    };
    let before = low_budget_layout_cost(&layout, 1, 10, CodingMode::Clc).expect("cost before");

    reduce_low_budget_layout(&mut layout);

    let after = low_budget_layout_cost(&layout, 1, 10, CodingMode::Clc).expect("cost after");
    assert_eq!(layout.coded_values_minus_one, 1);
    assert_eq!(layout.components[0][0].absolute_position, 5);
    assert_eq!(layout.components[0][0].mantissas, [3, 2, 2, 0]);
    assert!(after < before);
}

fn entry(position: usize, sf: u8, mantissas: [i8; 4]) -> PendingTonalEntry {
    PendingTonalEntry { absolute_position: position, scale_factor_index: sf, mantissas }
}

#[test]
fn layout_cost_counts_flags_entries_and_extra_components() {
    let layout = PendingLowBudgetLayout {
        components: vec![vec![entry(4, 9, [1, -1, 0, 0])], vec![entry(70, 9, [1, 0, 0, 0])]],
        coded_values_minus_one: 1,
    };
    // base 10, one extra component of 1 + 6 bits, one flagged band (12) per
    // component, and 12 + 2 * 3 bits per entry at step 3 in CLC.
    assert_eq!(low_budget_layout_cost(&layout, 1, 10, CodingMode::Clc), Ok(10 + 7 + 12 + 18 + 12 + 18));
    let best = best_low_budget_layout_cost(&layout, 1, 10).unwrap();
    assert!(best <= 77);
    let bad = PendingLowBudgetLayout { components: vec![vec![entry(300, 9, [1, 0, 0, 0])]], coded_values_minus_one: 0 };
    assert_eq!(low_budget_layout_cost(&bad, 1, 0, CodingMode::Clc), Err(Atrac3Error::InvalidTonalLayout));
    let unrepresentable = PendingLowBudgetLayout { components: vec![vec![entry(4, 9, [9, 0, 0, 0])]], coded_values_minus_one: 0 };
    assert_eq!(
        low_budget_layout_cost(&unrepresentable, 1, 0, CodingMode::Vlc),
        Err(Atrac3Error::SymbolNotRepresentable { symbol: 9, selector: 3 })
    );
}

#[test]
fn grouping_sorts_entries_into_cells() {
    let entries = vec![entry(4, 1, [1, 0, 0, 0]), entry(300, 2, [1, 0, 0, 0]), entry(10, 3, [1, 0, 0, 0])];
    let grouped = group_pending_component(&entries, 2).unwrap();
    assert_eq!(grouped.band_flags, vec![true, true]);
    assert_eq!(grouped.cells.len(), 8);
    assert_eq!(grouped.cells[0].len(), 2);
    assert_eq!(grouped.cells[0][1].scale_factor_index, 3);
    assert_eq!(grouped.cells[4].len(), 1);
    assert!(group_pending_component(&entries, 1).is_none());
    let crowded: Vec<PendingTonalEntry> = (0..8).map(|i| entry(i, 1, [1, 0, 0, 0])).collect();
    assert!(group_pending_component(&crowded, 1).is_none());
    assert!(group_pending_component(&crowded[..7], 1).is_some());
    assert!(group_pending_component(&[entry(0x3fd, 1, [1, 0, 0, 0])], 4).is_none());
}

#[test]
fn split_refuses_layouts_it_cannot_split() {
    let two = PendingLowBudgetLayout { components: vec![vec![], vec![]], coded_values_minus_one: 3 };
    assert!(split_low_budget_layout(&two, 1).is_none());
    let crossing = PendingLowBudgetLayout {
        components: vec![vec![entry(0xff, 1, [1, 1, 1, 1])]],
        coded_values_minus_one: 3,
    };
    assert!(split_low_budget_layout(&crossing, 2).is_none());
}

#[test]
fn strips_even_mantissas_into_the_scale_factor() {
    let mut m = [4, -2, 0, 8];
    let mut sf = 10u8;
    strip_even_mantissas(&mut m, &mut sf);
    assert_eq!(m, [2, -1, 0, 4]);
    assert_eq!(sf, 13);
    let mut zeros = [0i8; 4];
    let mut sf0 = 5u8;
    strip_even_mantissas(&mut zeros, &mut sf0);
    assert_eq!(sf0, 5);
    let mut high = [8i8, 0, 0, 0];
    let mut sf_high = 58u8;
    strip_even_mantissas(&mut high, &mut sf_high);
    assert_eq!((high, sf_high), ([4, 0, 0, 0], 61));
}

#[test]
fn shift_right_refuses_all_zero_tails_and_band_ends() {
    let mut e = entry(10, 8, [3, 0, 0, 0]);
    assert!(!shift_tonal_entry_right(&mut e, 100));
    let mut e2 = entry(10, 8, [0, 0, 1, 0]);
    assert!(!shift_tonal_entry_right(&mut e2, 12));
    assert_eq!(e2.absolute_position, 10);
    let mut e3 = entry(0x3fc, 8, [0, 1, 0, 0]);
    assert!(shift_tonal_entry_right(&mut e3, 2000));
    assert_eq!(e3.absolute_position, 0x3fc);
}

#[test]
fn subband_counts_follow_the_spectral_end() {
    assert_eq!(coded_subband_count(0), 0);
    assert_eq!(coded_subband_count(8), 1);
    assert_eq!(coded_subband_count(1024), 32);
    assert_eq!(coded_qmf_bands_to_local_514(3, 0), 1);
    assert_eq!(coded_qmf_bands_to_local_514(3, 300), 19);
    assert_eq!(coded_qmf_bands_to_local_514(0, 5000), 32);
    assert_eq!(high_budget_component_index(30), 0);
    assert_eq!(high_budget_component_index(31), 1);
}

#[test]
fn empty_results_carry_no_tonal_data() {
    let r = TonalExtractionResult::empty(3);
    assert_eq!(r.coded_qmf_bands, 3);
    assert!(r.tonal_components.is_empty());
    assert_eq!(r.tonal_bits, 0);
    assert!(!r.low_budget_path);
    assert!(empty_tonal_result(2, true).low_budget_path);
    assert_eq!(r.tonal_mode_selector, TonalCodingModeSelector::AllVlc);
}

fn payload(bits: u8) -> RawBitPayload {
    RawBitPayload { chunks: vec![BitChunk { value: 0, bits }] }
}

#[test]
fn tonal_bits_and_subbands_follow_flagged_cells() {
    let mut cells = vec![TonalCell::default(); 8];
    cells[1].entries.push(TonalEntry { scale_factor_index: 1, position: 3, payload: payload(4) });
    cells[5].entries.push(TonalEntry { scale_factor_index: 1, position: 0, payload: payload(6) });
    let component = TonalComponent {
        band_flags: vec![true, false],
        coded_values_minus_one: 0,
        quant_step_index: 3,
        coding_mode: Some(CodingMode::Clc),
        cells,
    };
    let components = vec![component];
    // 5 + 2, then 2 flags + 6 + 1 mode bit, 4 flagged cells of 3 bits and
    // one entry of 12 + 4 bits; the unflagged band's cells do not count.
    assert_eq!(tonal_bit_cost(&components, TonalCodingModeSelector::PerComponent), 5 + 2 + 9 + 12 + 16);
    assert_eq!(tonal_bit_cost(&components, TonalCodingModeSelector::AllClc), 5 + 2 + 8 + 12 + 16);
    assert_eq!(tonal_bit_cost(&[], TonalCodingModeSelector::AllClc), 5);
    let subbands = tonal_subbands_from_components(&components);
    assert!(subbands[8]);
    assert_eq!(subbands.iter().filter(|&&b| b).count(), 1);
}

#[test]
fn weakest_entry_is_the_first_lowest_below_the_candidate() {
    let mut component = PendingTonalComponent::new(1, 5);
    assert_eq!(component.band_flags, vec![false]);
    assert_eq!(component.cells.len(), 4);
    component.cells[2] = vec![entry(0, 9, [1, 0, 0, 0]), entry(1, 4, [1, 0, 0, 0]), entry(2, 4, [1, 0, 0, 0])];
    assert_eq!(weakest_replaceable_high_budget_entry_index(&component, 2, 10), Some(1));
    assert_eq!(weakest_replaceable_high_budget_entry_index(&component, 2, 4), None);
    assert_eq!(weakest_replaceable_high_budget_entry_index(&component, 0, 60), None);
}

#[test]
fn converts_high_budget_entries_and_pending_cells() {
    let hb = SonyHbEntry { mantissas: [0b1111, 0b0111, 0b1000, 0x1_0001], position: 77, sf_index: 12 };
    let pending = sony_hb_entry_to_pending(&hb, 5);
    assert_eq!(pending.mantissas, [-1, 7, -8, 1]);
    assert_eq!(pending.absolute_position, 77);
    assert_eq!(sony_hb_entry_to_pending(&hb, 2).mantissas, [0, 0, 0, 0]);

    let cells = vec![vec![entry(70, 12, [1, -1, 0, 0])], vec![]];
    let component = pending_cells_to_tonal_component(vec![true], cells, CodingMode::Clc, LOW_BUDGET_QSTEP, 1).unwrap();
    assert_eq!(component.cells[0].entries[0].position, 6);
    assert_eq!(component.cells[0].entries[0].payload.chunks.len(), 2);
    assert_eq!(component.coding_mode, None);
    let bad = vec![vec![entry(70, 12, [9, 0, 0, 0])]];
    assert_eq!(
        pending_cells_to_tonal_component(vec![true], bad, CodingMode::Vlc, LOW_BUDGET_QSTEP, 0).unwrap_err(),
        Atrac3Error::SymbolNotRepresentable { symbol: 9, selector: 3 }
    );
}

#[test]
fn counts_hot_groups_from_bit_patterns() {
    let bits: Vec<u32> = [1.0f32, 0.0, 0.0, 0.0, 1.0e-6, 0.0, 0.0, 0.0, 2.0].iter().map(|x| x.to_bits()).collect();
    assert_eq!(tonal_hot_group_count(&bits), 2);
}

use atrac3_rs::error::Atrac3Error;
use atrac3_rs::gain::{
    band_history_slots, decoder_window_kind, merge_backward_points, validate_gain_band,
    DecoderWindowKind,
};
use atrac3_rs::sound_unit::{GainBand, GainPoint};

#[test]
fn window_kind_follows_both_frames() {
    assert_eq!(decoder_window_kind(false, false), DecoderWindowKind::Full);
    assert_eq!(decoder_window_kind(false, true), DecoderWindowKind::ZeroTail);
    assert_eq!(decoder_window_kind(true, false), DecoderWindowKind::ZeroHead);
    assert_eq!(decoder_window_kind(true, true), DecoderWindowKind::ZeroEdges);
}

#[test]
fn history_slots_shrink_with_the_band() {
    assert_eq!(band_history_slots(0), 64);
    assert_eq!(band_history_slots(3), 40);
    assert_eq!(band_history_slots(7), 8);
    assert_eq!(band_history_slots(100), 8);
}

#[test]
fn gain_curves_need_known_levels_and_rising_locations() {
    let ok = GainBand {
        points: vec![GainPoint { level: 15, location: 1 }, GainPoint { level: 0, location: 2 }],
    };
    assert_eq!(validate_gain_band(&ok), Ok(()));
    let level = GainBand { points: vec![GainPoint { level: 16, location: 1 }] };
    assert_eq!(validate_gain_band(&level), Err(Atrac3Error::GainLevelCodeTooLarge { level: 16 }));
    let order = GainBand {
        points: vec![GainPoint { level: 1, location: 5 }, GainPoint { level: 1, location: 5 }],
    };
    assert_eq!(
        validate_gain_band(&order),
        Err(Atrac3Error::GainLocationsNotIncreasing { previous: 5, current: 5 })
    );
}

#[test]
fn backward_points_follow_the_forward_ones() {
    let mut positions = [10, 11, 12, 13, 14, 15, 16, 0];
    let mut deltas = [1, 2, 3, 4, 5, 6, 7, 0];
    let total = merge_backward_points(&mut positions, &mut deltas, 2, 5);
    assert_eq!(total, 4);
    assert_eq!(&positions[..4], &[10, 11, 15, 16]);
    assert_eq!(&deltas[..4], &[1, 2, 6, 7]);
    let mut p = [0; 8];
    let mut d = [0; 8];
    assert_eq!(merge_backward_points(&mut p, &mut d, 3, 7), 3);
}

use atrac3_rs::settings::{
    apply_gain_estimation, apply_odd_band_reverse, engine_is_frankenstein, gain_mode,
    qmf_high_is_odd_minus_even, qmf_root_swap, qmf_upper_swap, qmf_use_direct_analysis,
    qmf_use_exe_window, setting_flag, sony_gain_apply_enabled, swap_gain_curve_order,
    use_reference_mdct, GainMode, MdctInputOrder, MdctInputVariant,
};

#[test]
fn flags_accept_the_usual_words_in_any_case() {
    assert!(setting_flag(Some("TRUE"), false));
    assert!(setting_flag(Some("yes"), false));
    assert!(setting_flag(Some("On"), false));
    assert!(setting_flag(Some("1"), false));
    assert!(!setting_flag(Some("2"), true));
    assert!(!setting_flag(Some(" true"), true));
    assert!(setting_flag(None, true));
    assert!(apply_odd_band_reverse(None));
    assert!(!apply_odd_band_reverse(Some("off")));
    assert!(!swap_gain_curve_order(None));
    assert!(use_reference_mdct(Some("YES")));
}

#[test]
fn gain_mode_choices_are_trimmed_and_lowered() {
    assert_eq!(gain_mode(None), GainMode::Off);
    assert_eq!(gain_mode(Some("  Modern\n")), GainMode::Modern);
    assert_eq!(gain_mode(Some("legacy")), GainMode::Legacy);
    assert_eq!(gain_mode(Some("ON")), GainMode::Legacy);
    assert_eq!(gain_mode(Some("\u{3000}1")), GainMode::Legacy);
    assert_eq!(gain_mode(Some("off")), GainMode::Off);
    assert_eq!(gain_mode(Some("   ")), GainMode::Off);
    assert_eq!(gain_mode(Some("sometimes")), GainMode::Off);
    assert!(apply_gain_estimation(Some("modern")));
    assert!(!apply_gain_estimation(Some("no")));
}

#[test]
fn mdct_input_settings() {
    assert_eq!(MdctInputOrder::from_env(None), MdctInputOrder::OverlapThenCurrent);
    assert_eq!(MdctInputOrder::from_env(Some(" Current-First ")), MdctInputOrder::CurrentThenOverlap);
    assert_eq!(MdctInputOrder::from_env(Some("current_then_overlap")), MdctInputOrder::CurrentThenOverlap);
    assert_eq!(MdctInputOrder::from_env(Some("previous-first")), MdctInputOrder::OverlapThenCurrent);
    let variant = MdctInputVariant::from_env(Some("current-first"), Some("1"), None, Some("no"), Some("on"));
    assert_eq!(
        variant,
        MdctInputVariant {
            order: MdctInputOrder::CurrentThenOverlap,
            reverse_first: true,
            reverse_second: false,
            negate_first: false,
            negate_second: true,
        }
    );
}

#[test]
fn qmf_and_engine_settings() {
    assert!(qmf_use_direct_analysis(None));
    assert!(qmf_use_direct_analysis(Some("maybe")));
    assert!(!qmf_use_direct_analysis(Some("FALSE")));
    assert!(!qmf_use_exe_window(Some("0")));
    assert!(qmf_high_is_odd_minus_even(None));
    assert!(!qmf_high_is_odd_minus_even(Some("0")));
    assert!(!qmf_root_swap(None));
    assert!(qmf_upper_swap(None));
    assert!(sony_gain_apply_enabled(Some("1")));
    assert!(!sony_gain_apply_enabled(Some("true")));
    assert!(!sony_gain_apply_enabled(None));
    assert!(engine_is_frankenstein(Some("Frankenstein")));
    assert!(engine_is_frankenstein(Some("1")));
    assert!(!engine_is_frankenstein(Some("2")));
}

use atrac3_rs::bitstream::BitWriter;
use atrac3_rs::error::Atrac3Error;
use atrac3_rs::sound_unit::{
    ChannelSoundUnit, CodingMode, GainBand, GainPoint, RawBitPayload, SpectralSubband,
    SpectralTableKind, SpectralUnit, TonalCell, TonalCodingModeSelector, TonalComponent,
    TonalEntry,
};

#[test]
fn writes_minimal_sound_unit_metadata() {
    let unit = ChannelSoundUnit {
        coded_qmf_bands: 1,
        gain_bands: vec![GainBand { points: vec![GainPoint { level: 2, location: 3 }] }],
        tonal_mode_selector: TonalCodingModeSelector::AllVlc,
        tonal_components: Vec::new(),
        spectrum: SpectralUnit {
            coding_mode: CodingMode::Vlc,
            subbands: vec![SpectralSubband {
                table_index: 2,
                scale_factor_index: Some(12),
                payload: RawBitPayload::default(),
            }],
        },
    };

    let mut writer = BitWriter::new();
    unit.write_to(&mut writer).unwrap();
    writer.byte_align_zero();

    assert_eq!(unit.bit_len().unwrap(), 40);
    assert_eq!(writer.as_bytes(), &[0xa0, 0x24, 0x30, 0x00, 0x8c]);
}

fn tonal_unit() -> ChannelSoundUnit {
    let mut tonal_payload = RawBitPayload::default();
    tonal_payload.push_bits(0b1011, 4).unwrap();

    let mut spectral_payload = RawBitPayload::default();
    spectral_payload.push_bits(0b10, 2).unwrap();

    ChannelSoundUnit {
        coded_qmf_bands: 2,
        gain_bands: vec![GainBand::default(), GainBand::default()],
        tonal_mode_selector: TonalCodingModeSelector::PerComponent,
        tonal_components: vec![TonalComponent {
            band_flags: vec![true, false],
            coded_values_minus_one: 2,
            quant_step_index: 5,
            coding_mode: Some(CodingMode::Clc),
            cells: vec![
                TonalCell {
                    entries: vec![TonalEntry {
                        scale_factor_index: 12,
                        position: 4,
                        payload: tonal_payload,
                    }],
                },
                TonalCell::default(),
                TonalCell::default(),
                TonalCell::default(),
                TonalCell::default(),
                TonalCell::default(),
                TonalCell::default(),
                TonalCell::default(),
            ],
        }],
        spectrum: SpectralUnit {
            coding_mode: CodingMode::Clc,
            subbands: vec![SpectralSubband {
                table_index: 3,
                scale_factor_index: Some(7),
                payload: spectral_payload,
            }],
        },
    }
}

#[test]
fn writes_tonal_component_with_per_component_mode() {
    let unit = tonal_unit();
    assert_eq!(unit.bit_len().unwrap(), 75);

    let mut writer = BitWriter::new();
    unit.write_to(&mut writer).unwrap();
    writer.byte_align_zero();

    assert_eq!(
        writer.as_bytes(),
        &[0xa1, 0x00, 0x3c, 0xac, 0x98, 0x25, 0x80, 0x01, 0x63, 0xc0]
    );
}

#[test]
fn rejects_mismatched_gain_band_count() {
    let unit = ChannelSoundUnit {
        coded_qmf_bands: 2,
        gain_bands: vec![GainBand::default()],
        ..ChannelSoundUnit::default()
    };

    let error = unit.validate().unwrap_err().message();
    assert!(error.contains("expected 2"));
}

#[test]
fn classifies_spectral_table_kinds() {
    assert_eq!(
        SpectralSubband {
            table_index: 0,
            scale_factor_index: None,
            payload: RawBitPayload::default(),
        }
        .table_kind(),
        SpectralTableKind::Skip
    );
    assert_eq!(
        SpectralSubband {
            table_index: 1,
            scale_factor_index: Some(0),
            payload: RawBitPayload::default(),
        }
        .table_kind(),
        SpectralTableKind::Pairwise
    );
    assert_eq!(
        SpectralSubband {
            table_index: 2,
            scale_factor_index: Some(0),
            payload: RawBitPayload::default(),
        }
        .table_kind(),
        SpectralTableKind::Single
    );
}

#[test]
fn validation_reports_each_structural_error() {
    let mut unit = tonal_unit();
    unit.coded_qmf_bands = 5;
    assert_eq!(unit.validate(), Err(Atrac3Error::CodedQmfBandsOutOfRange { coded_qmf_bands: 5 }));

    let mut unit = tonal_unit();
    unit.gain_bands[0].points = vec![GainPoint { level: 16, location: 0 }];
    assert_eq!(unit.validate(), Err(Atrac3Error::GainLevelTooLarge { level: 16 }));

    let mut unit = tonal_unit();
    unit.tonal_components[0].band_flags.pop();
    assert_eq!(
        unit.validate(),
        Err(Atrac3Error::BandFlagCountMismatch { actual: 1, expected: 2 })
    );

    let mut unit = tonal_unit();
    unit.tonal_components[0].coding_mode = None;
    assert_eq!(unit.validate(), Err(Atrac3Error::TonalModeMissing));

    let mut unit = tonal_unit();
    unit.tonal_mode_selector = TonalCodingModeSelector::AllVlc;
    assert_eq!(
        unit.validate(),
        Err(Atrac3Error::TonalModeConflict {
            mode: CodingMode::Clc,
            selector: TonalCodingModeSelector::AllVlc
        })
    );

    let mut unit = tonal_unit();
    unit.tonal_components[0].quant_step_index = 1;
    assert_eq!(unit.validate(), Err(Atrac3Error::QuantStepOutOfRange { quant_step_index: 1 }));

    let mut unit = tonal_unit();
    unit.spectrum.subbands[0].scale_factor_index = None;
    assert_eq!(unit.validate(), Err(Atrac3Error::CodedSubbandNeedsScaleFactor));

    let mut unit = tonal_unit();
    unit.spectrum.subbands.clear();
    assert_eq!(unit.validate(), Err(Atrac3Error::SubbandCountOutOfRange { count: 0 }));

    let mut unit = tonal_unit();
    unit.tonal_components[0].cells[0].entries[0].position = 64;
    assert_eq!(unit.validate(), Err(Atrac3Error::TonalPositionTooLarge { position: 64 }));
}

#[test]
fn failed_write_reports_the_error() {
    let mut unit = tonal_unit();
    unit.spectrum.subbands[0].table_index = 8;
    let mut writer = BitWriter::new();
    assert_eq!(unit.write_to(&mut writer), Err(Atrac3Error::TableIndexTooLarge { table_index: 8 }));
    assert_eq!(unit.bit_len(), Err(Atrac3Error::TableIndexTooLarge { table_index: 8 }));
}

#[test]
fn payload_chunks_wider_than_32_bits_are_refused() {
    let mut payload = RawBitPayload::default();
    assert_eq!(payload.push_bits(1, 33), Err(Atrac3Error::PayloadChunkTooWide { bits: 33 }));
    payload.push_bits(1, 32).unwrap();
    payload.push_bits(1, 3).unwrap();
    assert_eq!(payload.bit_len(), 35);
}

#[test]
fn refused_writes_leave_the_writer_as_it_was() {
    let mut unit = tonal_unit();
    unit.coded_qmf_bands = 5;
    let mut writer = BitWriter::new();
    writer.write_bits(0b101, 3).unwrap();
    assert!(unit.write_to(&mut writer).is_err());
    assert_eq!(writer.bit_len(), 3);
    assert_eq!(writer.as_bytes(), &[0b1010_0000]);

    let unit = tonal_unit();
    let mut component = unit.tonal_components[0].clone();
    component.band_flags.pop();
    assert!(component
        .write_to(&mut writer, unit.coded_qmf_bands as usize, unit.tonal_mode_selector)
        .is_err());
    assert_eq!(writer.bit_len(), 3);
    assert_eq!(writer.as_bytes(), &[0b1010_0000]);
}

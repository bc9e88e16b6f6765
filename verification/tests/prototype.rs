use atrac3_rs::error::Atrac3Error;
use atrac3_rs::prototype::{encode_channel, pad_spectral_unit};
use atrac3_rs::quant::{
    build_basic_sound_unit_from_encoding, candidate_total_bits, QuantizedSubband,
    SpectrumEncoding,
};
use atrac3_rs::sound_unit::{
    ChannelSoundUnit, CodingMode, GainBand, GainPoint, RawBitPayload, SpectralSubband,
    SpectralUnit, TonalCodingModeSelector,
};

fn quantized(table_index: u8, mantissas: Vec<i8>, payload_bits: usize) -> QuantizedSubband {
    QuantizedSubband {
        table_index,
        scale_factor_index: if table_index == 0 { None } else { Some(20) },
        mantissas,
        payload_bits,
        mse: 0.25f32.to_bits(),
        max_abs_err: 0.5f32.to_bits(),
    }
}

fn encoding(subbands: Vec<SpectralSubband>) -> SpectrumEncoding {
    SpectrumEncoding {
        spectral_unit: SpectralUnit { coding_mode: CodingMode::Vlc, subbands },
        quantized_subbands: Vec::new(),
        reconstructed: vec![0u32; 8],
        payload_bits: 0,
        mse: 0,
    }
}

fn minimal_unit() -> ChannelSoundUnit {
    ChannelSoundUnit {
        coded_qmf_bands: 1,
        gain_bands: vec![GainBand { points: vec![GainPoint { level: 2, location: 3 }] }],
        tonal_mode_selector: TonalCodingModeSelector::AllVlc,
        tonal_components: Vec::new(),
        spectrum: SpectralUnit {
            coding_mode: CodingMode::Vlc,
            subbands: vec![SpectralSubband {
                table_index: 2,
                scale_factor_index: Some(12),
                payload: RawBitPayload::default(),
            }],
        },
    }
}

#[test]
fn uncoded_quantization_has_an_empty_payload() {
    let q = quantized(0, vec![1, 2, 3], 0);
    assert_eq!(q.payload(CodingMode::Clc).unwrap(), RawBitPayload::default());
    let s = q.spectral_subband(CodingMode::Vlc).unwrap();
    assert_eq!(s.table_index, 0);
    assert_eq!(s.scale_factor_index, None);
    assert!(s.payload.chunks.is_empty());
}

#[test]
fn coded_quantization_writes_its_mantissas() {
    let q = quantized(1, vec![1, -1, 0, -2], 8);
    let payload = q.payload(CodingMode::Clc).unwrap();
    assert_eq!(payload.bit_len(), 8);
    let s = q.spectral_subband(CodingMode::Clc).unwrap();
    assert_eq!(s.table_index, 1);
    assert_eq!(s.scale_factor_index, Some(20));
    assert_eq!(s.payload, payload);
}

#[test]
fn quantization_with_unwritable_mantissas_is_refused() {
    let q = quantized(1, vec![2, 0], 4);
    assert_eq!(
        q.spectral_subband(CodingMode::Clc),
        Err(Atrac3Error::ClcMantissaNotRepresentable { mantissa: 2 })
    );
}

#[test]
fn candidate_bits_count_selector_scale_factor_and_payload() {
    assert_eq!(candidate_total_bits(&quantized(0, vec![], 0)), 3);
    assert_eq!(candidate_total_bits(&quantized(3, vec![], 40)), 49);
}

#[test]
fn basic_sound_unit_wraps_the_spectrum() {
    let subbands: Vec<SpectralSubband> = (0..20)
        .map(|i| SpectralSubband {
            table_index: if i == 0 { 1 } else { 0 },
            scale_factor_index: if i == 0 { Some(7) } else { None },
            payload: RawBitPayload::default(),
        })
        .collect();
    let enc = encoding(subbands);
    let unit = build_basic_sound_unit_from_encoding(&enc);
    assert_eq!(unit.coded_qmf_bands, 2);
    assert_eq!(unit.gain_bands, vec![GainBand::default(), GainBand::default()]);
    assert_eq!(unit.tonal_mode_selector, TonalCodingModeSelector::AllVlc);
    assert!(unit.tonal_components.is_empty());
    assert_eq!(unit.spectrum, enc.spectral_unit);
}

#[test]
fn padding_appends_uncoded_subbands_up_to_the_minimum() {
    let mut enc = encoding(vec![SpectralSubband {
        table_index: 3,
        scale_factor_index: Some(9),
        payload: RawBitPayload::default(),
    }]);
    pad_spectral_unit(&mut enc, 4);
    assert_eq!(enc.spectral_unit.subbands.len(), 4);
    assert_eq!(enc.spectral_unit.subbands[0].table_index, 3);
    assert!(enc.spectral_unit.subbands[1..]
        .iter()
        .all(|s| s.table_index == 0 && s.scale_factor_index.is_none() && s.payload.chunks.is_empty()));
    pad_spectral_unit(&mut enc, 2);
    assert_eq!(enc.spectral_unit.subbands.len(), 4);
}

#[test]
fn encoded_channel_holds_the_unit_bytes() {
    let unit = minimal_unit();
    let channel = encode_channel(unit.clone(), encoding(Vec::new())).unwrap();
    assert_eq!(channel.bit_len, 40);
    assert_eq!(channel.bytes, vec![0xa0, 0x24, 0x30, 0x00, 0x8c]);
    assert_eq!(channel.sound_unit, unit);
}

#[test]
fn encoding_an_invalid_unit_reports_its_error() {
    let mut unit = minimal_unit();
    unit.coded_qmf_bands = 2;
    let expected = unit.validate().unwrap_err();
    assert_eq!(encode_channel(unit, encoding(Vec::new())).unwrap_err(), expected);
}

#[test]
fn encoded_channel_bytes_parse_back_to_the_unit_header() {
    let channel = encode_channel(minimal_unit(), encoding(Vec::new())).unwrap();
    let prefix = atrac3_rs::inspect::parse_channel_prefix(&channel.bytes).unwrap();
    assert_eq!(prefix.coded_qmf_bands, 1);
    assert_eq!(
        prefix.gain_bands,
        vec![vec![atrac3_rs::inspect::ParsedGainPoint { level: 2, location: 3 }]]
    );
    assert_eq!(prefix.tonal_component_count, 0);
    assert_eq!(prefix.tonal_mode_selector, None);
    assert_eq!(prefix.consumed_bits, 25);
}

use atrac3_rs::container::{wrap_prototype_in_riff_at3, Atrac3ContainerOptions};
use atrac3_rs::error::Atrac3Error;
use atrac3_rs::gain::DecoderWindowKind;
use atrac3_rs::inspect::{
    band_window_kinds, ensure_channel_slots, extract_channel_slot, format_window_kind,
    parse_channel_prefix, parse_prefixes_for_channel, parse_riff_atrac3, summarize_gain_activity,
    ParsedAtrac3Container, ParsedChannelPrefix, ParsedGainPoint,
};
use atrac3_rs::prototype::{PrototypeEncodeResult, PrototypeFrame, PrototypeFrameChannel};
use atrac3_rs::quant::SpectrumEncoding;
use atrac3_rs::sound_unit::{ChannelSoundUnit, CodingMode, SpectralUnit};

#[test]
fn parses_gain_prefix_from_minimal_sound_unit() {
    let bytes = [0b1010_0000, 0b0000_0000];
    let prefix = parse_channel_prefix(&bytes).unwrap();
    assert_eq!(prefix.coded_qmf_bands, 1);
    assert!(prefix.gain_bands[0].is_empty());
    assert_eq!(prefix.tonal_component_count, 0);
}

#[test]
fn derives_window_kind_from_gain_activity() {
    let previous = ParsedChannelPrefix {
        coded_qmf_bands: 1,
        gain_bands: vec![vec![ParsedGainPoint { level: 3, location: 7 }]],
        tonal_component_count: 0,
        tonal_mode_selector: None,
        consumed_bits: 0,
    };
    let current = ParsedChannelPrefix {
        coded_qmf_bands: 1,
        gain_bands: vec![vec![]],
        tonal_component_count: 0,
        tonal_mode_selector: None,
        consumed_bits: 0,
    };
    let kinds = band_window_kinds(Some(&previous), &current);
    assert_eq!(format_window_kind(kinds[0]), "zero_head");
}

fn prefix(bands: Vec<Vec<ParsedGainPoint>>) -> ParsedChannelPrefix {
    ParsedChannelPrefix {
        coded_qmf_bands: bands.len() as u8,
        gain_bands: bands,
        tonal_component_count: 0,
        tonal_mode_selector: None,
        consumed_bits: 0,
    }
}

#[test]
fn parses_prefix_with_gain_points_and_tonal_selector() {
    // id 0x28, two bands, band 0: one point (level 3, location 7), band 1:
    // none, two tonal components, selector 3.
    // bits: 101000 01 001 0011 00111 000 00010 11
    let bytes = [0b1010_0001, 0b0010_0110, 0b0111_0000, 0b0010_1100];
    let prefix = parse_channel_prefix(&bytes).unwrap();
    assert_eq!(prefix.coded_qmf_bands, 2);
    assert_eq!(prefix.gain_bands, vec![vec![ParsedGainPoint { level: 3, location: 7 }], vec![]]);
    assert_eq!(prefix.tonal_component_count, 2);
    assert_eq!(prefix.tonal_mode_selector, Some(3));
    assert_eq!(prefix.consumed_bits, 30);
}

#[test]
fn prefix_with_wrong_id_is_refused() {
    let bytes = [0xffu8, 0xff];
    assert_eq!(parse_channel_prefix(&bytes), Err(Atrac3Error::UnexpectedSoundUnitId { id: 0x3f }));
    let short = [0b1010_0000u8];
    assert!(matches!(parse_channel_prefix(&short), Err(Atrac3Error::NotEnoughBits { .. })));
}

#[test]
fn window_kinds_cover_all_transitions() {
    let active = vec![ParsedGainPoint { level: 1, location: 2 }];
    let previous = prefix(vec![active.clone(), vec![]]);
    let current = prefix(vec![active.clone(), active.clone(), vec![]]);
    let kinds = band_window_kinds(Some(&previous), &current);
    assert_eq!(
        kinds,
        vec![DecoderWindowKind::ZeroEdges, DecoderWindowKind::ZeroTail, DecoderWindowKind::Full]
    );
    assert_eq!(band_window_kinds(None, &current)[0], DecoderWindowKind::ZeroTail);
    assert_eq!(format_window_kind(DecoderWindowKind::Full), "full");
    assert_eq!(format_window_kind(DecoderWindowKind::ZeroTail), "zero_tail");
    assert_eq!(format_window_kind(DecoderWindowKind::ZeroEdges), "zero_edges");
}

#[test]
fn summarizes_active_frames_and_points_per_band() {
    let p = ParsedGainPoint { level: 1, location: 2 };
    let prefixes = vec![
        prefix(vec![vec![p, p], vec![]]),
        prefix(vec![vec![p], vec![p], vec![p, p, p]]),
        prefix(vec![vec![]]),
    ];
    assert_eq!(summarize_gain_activity(&prefixes), vec![(2, 3), (1, 1), (1, 3)]);
    assert_eq!(summarize_gain_activity(&[]), vec![]);
}

fn unit(bytes: Vec<u8>) -> PrototypeFrameChannel {
    PrototypeFrameChannel {
        sound_unit: ChannelSoundUnit::default(),
        spectrum: SpectrumEncoding {
            spectral_unit: SpectralUnit { coding_mode: CodingMode::Clc, subbands: Vec::new() },
            quantized_subbands: Vec::new(),
            reconstructed: Vec::new(),
            payload_bits: 0,
            mse: 0,
        },
        bit_len: bytes.len() * 8,
        bytes,
    }
}

fn frame(channels: Vec<PrototypeFrameChannel>) -> PrototypeFrame {
    let bytes: Vec<u8> = channels.iter().flat_map(|c| c.bytes.clone()).collect();
    PrototypeFrame { bit_len: bytes.len() * 8, bytes, channels }
}

fn two_channel_stream() -> PrototypeEncodeResult {
    let frames = vec![
        frame(vec![unit(vec![0xa0, 0x00]), unit(vec![0xa0, 0x04, 0x80])]),
        frame(vec![unit(vec![0xa1, 0x26, 0x70, 0x2c]), unit(vec![])]),
    ];
    let bytes: Vec<u8> = frames.iter().flat_map(|f| f.bytes.clone()).collect();
    PrototypeEncodeResult { sample_rate: 44_100, channel_count: 2, frame_count: 2, frames, bytes }
}

#[test]
fn parses_generated_riff_container() {
    let wrapped =
        wrap_prototype_in_riff_at3(&two_channel_stream(), Atrac3ContainerOptions::default()).unwrap();
    let parsed = parse_riff_atrac3(&wrapped.bytes).unwrap();
    assert_eq!(parsed.channels, 2);
    assert_eq!(parsed.frame_count, 2);
    assert_eq!(parsed.block_align, wrapped.block_align);
    assert_eq!(parsed.data_offset, 76);
    assert_eq!(parsed.data_size, 2 * wrapped.block_align as usize);
    assert_eq!(ensure_channel_slots(&parsed), Ok(()));

    let slot = extract_channel_slot(&wrapped.bytes, &parsed, 1, 0).unwrap();
    assert_eq!(slot.len(), wrapped.block_align as usize / 2);
    assert_eq!(&slot[..4], &[0xa1, 0x26, 0x70, 0x2c]);
    assert!(slot[4..].iter().all(|&b| b == 0));

    let prefixes = parse_prefixes_for_channel(&wrapped.bytes, &parsed, 0).unwrap();
    assert_eq!(prefixes.len(), 2);
    assert_eq!(prefixes[0].coded_qmf_bands, 1);
    assert_eq!(prefixes[1].coded_qmf_bands, 2);
    assert_eq!(prefixes[1].tonal_component_count, 2);

    let failed = parse_prefixes_for_channel(&wrapped.bytes, &parsed, 1).unwrap_err();
    assert_eq!(
        failed,
        Atrac3Error::FrameParseFailed {
            frame: 1,
            channel: 1,
            cause: Box::new(Atrac3Error::UnexpectedSoundUnitId { id: 0 }),
        }
    );
    assert_eq!(
        parse_prefixes_for_channel(&wrapped.bytes, &parsed, 2).unwrap_err(),
        Atrac3Error::ChannelOutOfRange { channel: 2, channels: 2 }
    );
}

#[test]
fn container_errors_name_the_problem() {
    assert_eq!(parse_riff_atrac3(&[0u8; 8]), Err(Atrac3Error::FileTooSmall));
    assert_eq!(parse_riff_atrac3(&[0u8; 12]), Err(Atrac3Error::MissingRiffSignature));
    let mut header = b"RIFF\0\0\0\0WAVX".to_vec();
    assert_eq!(parse_riff_atrac3(&header), Err(Atrac3Error::MissingWaveSignature));
    header[11] = b'E';
    assert_eq!(parse_riff_atrac3(&header), Err(Atrac3Error::MissingFmtChunk));
    let mut overrun = header.clone();
    overrun.extend_from_slice(b"data\x10\0\0\0");
    assert_eq!(
        parse_riff_atrac3(&overrun),
        Err(Atrac3Error::ChunkOverrun { chunk_id: *b"data" })
    );
    let mut small_fmt = header.clone();
    small_fmt.extend_from_slice(b"fmt \x02\0\0\0\x70\x02");
    assert_eq!(parse_riff_atrac3(&small_fmt), Err(Atrac3Error::FmtChunkTooSmall { size: 2 }));
    let mut pcm = header.clone();
    pcm.extend_from_slice(b"fmt \x10\0\0\0\x01\0\x02\0");
    pcm.extend_from_slice(&[0u8; 12]);
    assert_eq!(parse_riff_atrac3(&pcm), Err(Atrac3Error::UnexpectedFormatTag { tag: 1 }));

    let container = ParsedAtrac3Container {
        channels: 3,
        block_align: 10,
        data_offset: 0,
        data_size: 20,
        frame_count: 2,
    };
    assert_eq!(
        ensure_channel_slots(&container),
        Err(Atrac3Error::BlockAlignNotDivisible { block_align: 10, channels: 3 })
    );
    let bytes = [0u8; 20];
    assert_eq!(
        extract_channel_slot(&bytes, &container, 2, 0),
        Err(Atrac3Error::FrameOutOfRange { frame: 2, frame_count: 2 })
    );
    assert_eq!(
        extract_channel_slot(&bytes, &container, 1, 3),
        Err(Atrac3Error::ChannelOutOfRange { channel: 3, channels: 3 })
    );
    assert_eq!(extract_channel_slot(&bytes, &container, 1, 2).unwrap().len(), 3);
}

use atrac3_rs::container::{
    choose_smallest_fitting_bitrate, coding_mode_extradata, has_joint_stereo_marker,
    push_u16_le, push_u32_le, wrap_prototype_in_riff_at3, Atrac3Bitrate, Atrac3ContainerOptions,
    ATRAC3_FACT_CHUNK_SIZE, ATRAC3_FMT_CHUNK_SIZE, ATRAC3_SAMPLES_PER_FRAME,
    ATRAC3_WAVE_FORMAT_TAG,
};
use atrac3_rs::prototype::{PrototypeEncodeResult, PrototypeFrame, PrototypeFrameChannel};
use atrac3_rs::quant::SpectrumEncoding;
use atrac3_rs::error::Atrac3Error;
use atrac3_rs::inspect::{extract_channel_slot, parse_riff_atrac3};
use atrac3_rs::sound_unit::{ChannelSoundUnit, CodingMode, SpectralUnit};

fn channel(bytes: Vec<u8>) -> PrototypeFrameChannel {
    PrototypeFrameChannel {
        sound_unit: ChannelSoundUnit::default(),
        spectrum: SpectrumEncoding {
            spectral_unit: SpectralUnit { coding_mode: CodingMode::Clc, subbands: Vec::new() },
            quantized_subbands: Vec::new(),
            reconstructed: Vec::new(),
            payload_bits: 0,
            mse: 0,
        },
        bit_len: bytes.len() * 8,
        bytes,
    }
}

fn stream(channel_count: usize, frames: Vec<Vec<Vec<u8>>>) -> PrototypeEncodeResult {
    let all: Vec<u8> = frames.iter().flatten().flatten().copied().collect();
    PrototypeEncodeResult {
        sample_rate: 44_100,
        channel_count,
        frame_count: frames.len(),
        frames: frames
            .into_iter()
            .map(|channels| {
                let bytes: Vec<u8> = channels.iter().flatten().copied().collect();
                PrototypeFrame {
                    bit_len: bytes.len() * 8,
                    bytes,
                    channels: channels.into_iter().map(channel).collect(),
                }
            })
            .collect(),
        bytes: all,
    }
}

fn u16_at(bytes: &[u8], i: usize) -> u16 {
    u16::from_le_bytes([bytes[i], bytes[i + 1]])
}

fn u32_at(bytes: &[u8], i: usize) -> u32 {
    u32::from_le_bytes([bytes[i], bytes[i + 1], bytes[i + 2], bytes[i + 3]])
}

#[test]
fn wraps_prototype_frame_in_riff_container() {
    let encoded = stream(2, vec![vec![vec![0xa0, 0x00], vec![0xa0, 0x00]]]);
    let wrapped = wrap_prototype_in_riff_at3(&encoded, Atrac3ContainerOptions::default()).unwrap();
    assert_eq!(wrapped.block_align, Atrac3Bitrate::Kbps105.block_align(2));
    assert_eq!(wrapped.bitrate, Atrac3Bitrate::Kbps105);
    assert_eq!(&wrapped.bytes[0..4], b"RIFF");
    assert_eq!(&wrapped.bytes[8..12], b"WAVE");
    assert_eq!(u32_at(&wrapped.bytes, 4), 68 + 304);
    assert_eq!(u32_at(&wrapped.bytes, 16), ATRAC3_FMT_CHUNK_SIZE);
    assert_eq!(u16_at(&wrapped.bytes, 20), ATRAC3_WAVE_FORMAT_TAG);
    assert_eq!(u16_at(&wrapped.bytes, 22), 2);
    assert_eq!(u32_at(&wrapped.bytes, 24), 44_100);
    assert_eq!(u32_at(&wrapped.bytes, 28), wrapped.avg_bytes_per_sec);
    assert_eq!(wrapped.avg_bytes_per_sec, (304 * 44_100 + 512) / 1024);
    assert_eq!(u32_at(&wrapped.bytes, 56), ATRAC3_FACT_CHUNK_SIZE);
    assert_eq!(u32_at(&wrapped.bytes, 60), ATRAC3_SAMPLES_PER_FRAME);
    assert_eq!(&wrapped.bytes[68..72], b"data");
    assert_eq!(u32_at(&wrapped.bytes, 72), 304);
    assert_eq!(wrapped.bytes.len(), 76 + 304);
    assert_eq!(wrapped.bytes[76], 0xa0);
    assert_eq!(wrapped.bytes[76 + wrapped.block_align as usize / 2], 0xa0);
}

#[test]
fn bitrates_have_their_frame_sizes() {
    assert_eq!(Atrac3Bitrate::Kbps66.block_align(2), 192);
    assert_eq!(Atrac3Bitrate::Kbps132.block_align(1), 192);
    assert_eq!(Atrac3Bitrate::Kbps66.kbps(1), 33);
    assert_eq!(Atrac3Bitrate::Kbps105.kbps(1), 52);
    assert_eq!(Atrac3Bitrate::Kbps132.kbps(2), 132);
    assert_eq!(Atrac3Bitrate::Kbps105.frame_factor(), 1);
    assert_eq!(
        Atrac3Bitrate::all(),
        [Atrac3Bitrate::Kbps66, Atrac3Bitrate::Kbps105, Atrac3Bitrate::Kbps132]
    );
}

#[test]
fn smallest_fitting_bitrate_skips_stereo_66() {
    assert_eq!(choose_smallest_fitting_bitrate(96, 1), Ok(Atrac3Bitrate::Kbps66));
    assert_eq!(choose_smallest_fitting_bitrate(97, 1), Ok(Atrac3Bitrate::Kbps105));
    assert_eq!(choose_smallest_fitting_bitrate(10, 2), Ok(Atrac3Bitrate::Kbps105));
    assert_eq!(choose_smallest_fitting_bitrate(192, 2), Ok(Atrac3Bitrate::Kbps132));
    assert_eq!(
        choose_smallest_fitting_bitrate(193, 1),
        Err(Atrac3Error::NoFittingBitrate { needed: 193 })
    );
}

#[test]
fn requested_bitrates_are_checked() {
    let encoded = stream(2, vec![vec![vec![0; 100], vec![]]]);
    let options = Atrac3ContainerOptions { bitrate: Some(Atrac3Bitrate::Kbps66) };
    assert_eq!(
        wrap_prototype_in_riff_at3(&encoded, options).unwrap_err(),
        Atrac3Error::StereoNeedsJointStereo
    );
    let mono = stream(1, vec![vec![vec![0; 100]]]);
    assert_eq!(
        wrap_prototype_in_riff_at3(&mono, options).unwrap_err(),
        Atrac3Error::ChannelBytesExceedBitrate { needed: 100, kbps: 33, allowed: 96 }
    );
    let wrapped = wrap_prototype_in_riff_at3(
        &mono,
        Atrac3ContainerOptions { bitrate: Some(Atrac3Bitrate::Kbps132) },
    )
    .unwrap();
    assert_eq!(wrapped.block_align, 192);
}

#[test]
fn streams_the_container_cannot_hold_are_refused() {
    let mut encoded = stream(1, vec![vec![vec![1]]]);
    encoded.sample_rate = 48_000;
    assert_eq!(
        wrap_prototype_in_riff_at3(&encoded, Atrac3ContainerOptions::default()).unwrap_err(),
        Atrac3Error::UnsupportedSampleRate { sample_rate: 48_000 }
    );
    let three = stream(3, vec![vec![vec![1], vec![1], vec![1]]]);
    assert_eq!(
        wrap_prototype_in_riff_at3(&three, Atrac3ContainerOptions::default()).unwrap_err(),
        Atrac3Error::UnsupportedChannelCount { channel_count: 3 }
    );
    let empty = stream(1, vec![]);
    assert_eq!(
        wrap_prototype_in_riff_at3(&empty, Atrac3ContainerOptions::default()).unwrap_err(),
        Atrac3Error::EmptyEncode
    );
    let big = stream(1, vec![vec![vec![0; 200]]]);
    assert_eq!(
        wrap_prototype_in_riff_at3(&big, Atrac3ContainerOptions::default()).unwrap_err(),
        Atrac3Error::NoFittingBitrate { needed: 200 }
    );
    let ragged = stream(2, vec![vec![vec![1], vec![2]], vec![vec![3]]]);
    assert_eq!(
        wrap_prototype_in_riff_at3(&ragged, Atrac3ContainerOptions::default()).unwrap_err(),
        Atrac3Error::FrameChannelCountMismatch { actual: 1, expected: 2 }
    );
}

#[test]
fn wrapped_slots_hold_the_padded_units() {
    let frames = vec![
        vec![vec![1, 2, 3], vec![4]],
        vec![vec![], vec![5, 6]],
        vec![vec![7], vec![8, 9, 10, 11]],
    ];
    let encoded = stream(2, frames.clone());
    let wrapped = wrap_prototype_in_riff_at3(&encoded, Atrac3ContainerOptions::default()).unwrap();
    let parsed = parse_riff_atrac3(&wrapped.bytes).unwrap();
    assert_eq!(parsed.frame_count, 3);
    for (f, channels) in frames.iter().enumerate() {
        for (c, unit) in channels.iter().enumerate() {
            let slot = extract_channel_slot(&wrapped.bytes, &parsed, f, c).unwrap();
            assert_eq!(&slot[..unit.len()], &unit[..]);
            assert!(slot[unit.len()..].iter().all(|&b| b == 0));
        }
    }
}

#[test]
fn little_endian_pushes_and_extradata() {
    let mut bytes = vec![9u8];
    push_u16_le(&mut bytes, 0x1234);
    push_u32_le(&mut bytes, 0xdead_beef);
    assert_eq!(bytes, vec![9, 0x34, 0x12, 0xef, 0xbe, 0xad, 0xde]);
    assert!(!has_joint_stereo_marker(&ChannelSoundUnit::default()));
    assert_eq!(coding_mode_extradata(&stream(2, vec![vec![vec![1], vec![2]]])), 0);
}

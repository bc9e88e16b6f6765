use atrac3_rs::error::Atrac3Error;

#[test]
fn messages_name_the_values_involved() {
    assert_eq!(
        Atrac3Error::GainBandCountMismatch { actual: 1, expected: 2 }.message(),
        "sound unit has 1 gain bands, expected 2"
    );
    assert_eq!(
        Atrac3Error::VlcPairNotRepresentable { left: -2, right: 1 }.message(),
        "pair [-2, 1] is not representable in selector-1 VLC"
    );
    assert_eq!(Atrac3Error::MissingRiffSignature.message(), "missing RIFF signature");
    assert_eq!(
        Atrac3Error::FrameParseFailed {
            frame: 3,
            channel: 1,
            cause: Box::new(Atrac3Error::UnexpectedSoundUnitId { id: 0 }),
        }
        .message(),
        "failed to parse frame 3 channel 1: unexpected sound unit id 0x00, expected 0x28"
    );
    assert_eq!(
        Atrac3Error::ChannelBytesExceedBitrate { needed: 100, kbps: 33, allowed: 96 }.message(),
        "encoded channel sound unit requires 100 bytes, selected bitrate 33 kbps only allows 96 bytes per channel"
    );
}

#[test]
fn tonal_mode_conflict_names_the_mode_and_selector() {
    let e = Atrac3Error::TonalModeConflict {
        mode: atrac3_rs::sound_unit::CodingMode::Clc,
        selector: atrac3_rs::sound_unit::TonalCodingModeSelector::AllVlc,
    };
    assert_eq!(e.message(), "tonal component mode Clc conflicts with selector AllVlc");
}

#[test]
fn sound_unit_id_is_shown_in_hex() {
    assert_eq!(
        Atrac3Error::UnexpectedSoundUnitId { id: 0x3f }.message(),
        "unexpected sound unit id 0x3f, expected 0x28"
    );
}

#[test]
fn overrunning_chunk_is_shown_by_its_quoted_tag() {
    assert_eq!(
        Atrac3Error::ChunkOverrun { chunk_id: *b"data" }.message(),
        "chunk \"data\" overruns file"
    );
    let odd = [0x22u8, 0x5c, 0x01, 0xff];
    let shown = format!("{:?}", String::from_utf8_lossy(&odd));
    assert_eq!(
        Atrac3Error::ChunkOverrun { chunk_id: odd }.message(),
        format!("chunk {} overruns file", shown)
    );
    let controls = [0x00u8, 0x09, 0x0a, 0x7f];
    let shown = format!("{:?}", String::from_utf8_lossy(&controls));
    assert_eq!(
        Atrac3Error::ChunkOverrun { chunk_id: controls }.message(),
        format!("chunk {} overruns file", shown)
    );
}

#[test]
fn format_tag_is_shown_in_four_hex_digits() {
    assert_eq!(
        Atrac3Error::UnexpectedFormatTag { tag: 0x0001 }.message(),
        "unexpected WAVE format tag 0x0001"
    );
    assert_eq!(
        Atrac3Error::UnexpectedFormatTag { tag: 0xfffe }.message(),
        "unexpected WAVE format tag 0xfffe"
    );
}

use vstd::prelude::*;

use crate::sound_unit::{CodingMode, TonalCodingModeSelector};
use crate::text::{
    debug_tag_chars, decimal_chars, hex2_chars, push_debug_tag, push_decimal, push_hex2,
    push_signed_decimal, signed_decimal_chars,
};

verus! {

/// Every way an operation of this library can refuse its input.
#[derive(Debug, PartialEq, Eq)]
pub enum Atrac3Error {
    // bit I/O
    BitWidthTooLarge { bits: u8 },
    SignedBitWidthOutOfRange { bits: u8 },
    UnexpectedEndOfBitstream,
    NotEnoughBits { requested: usize, remaining: usize },
    SkipPastEnd { requested: usize, remaining: usize },
    PayloadChunkTooWide { bits: u8 },
    // sound unit structure
    GainLevelTooLarge { level: u8 },
    GainLocationTooLarge { location: u8 },
    TooManyGainPoints { count: usize },
    TonalSfIndexTooLarge { sf_index: u8 },
    TonalPositionTooLarge { position: u8 },
    TooManyTonalEntries { count: usize },
    BandFlagCountMismatch { actual: usize, expected: usize },
    TonalCellCountMismatch { actual: usize, expected: usize },
    CodedValuesTooLarge { coded_values_minus_one: u8 },
    QuantStepOutOfRange { quant_step_index: u8 },
    TonalModeConflict { mode: CodingMode, selector: TonalCodingModeSelector },
    TonalModeMissing,
    TableIndexTooLarge { table_index: u8 },
    SkippedSubbandHasScaleFactor,
    PairwiseSubbandNeedsScaleFactor,
    CodedSubbandNeedsScaleFactor,
    SubbandCountOutOfRange { count: usize },
    CodedQmfBandsOutOfRange { coded_qmf_bands: u8 },
    GainBandCountMismatch { actual: usize, expected: usize },
    TooManyTonalComponents { count: usize },
    // mantissa coding
    SelectorOutOfRange { selector: u8 },
    OddMantissaCount,
    ClcMantissaNotRepresentable { mantissa: i8 },
    VlcPairNotRepresentable { left: i8, right: i8 },
    SymbolNotRepresentable { symbol: i8, selector: u8 },
    InvalidTonalLayout,
    // gain curves
    GainLevelCodeTooLarge { level: u8 },
    GainLocationsNotIncreasing { previous: u8, current: u8 },
    // container parsing
    UnexpectedSoundUnitId { id: u8 },
    FileTooSmall,
    MissingRiffSignature,
    MissingWaveSignature,
    ChunkOverrun { chunk_id: [u8; 4] },
    FmtChunkTooSmall { size: usize },
    UnexpectedFormatTag { tag: u16 },
    MissingFmtChunk,
    MissingDataChunk,
    InvalidChannelCount { channels: u16 },
    InvalidBlockAlign { block_align: u16 },
    DataNotAligned { data_size: usize, block_align: u16 },
    FrameOutOfRange { frame: usize, frame_count: usize },
    ChannelOutOfRange { channel: usize, channels: u16 },
    BlockAlignNotDivisible { block_align: u16, channels: u16 },
    FrameParseFailed { frame: usize, channel: usize, cause: Box<Atrac3Error> },
    // container writing
    UnsupportedSampleRate { sample_rate: u32 },
    UnsupportedChannelCount { channel_count: usize },
    EmptyEncode,
    StereoNeedsJointStereo,
    ChannelBytesExceedBitrate { needed: usize, kbps: u32, allowed: usize },
    NoFittingBitrate { needed: usize },
    FrameChannelCountMismatch { actual: usize, expected: usize },
    ChannelSlotOverflow { size: usize, slot: usize },
    // reference tool arguments
    LoopStartNotBeforeEnd,
    LoopRangeTooShort,
}

/// The name a coding mode is shown by.
pub open spec fn mode_name(m: CodingMode) -> Seq<char> {
    match m {
        CodingMode::Vlc => "Vlc"@,
        CodingMode::Clc => "Clc"@,
    }
}

/// The name a tonal mode selector is shown by.
pub open spec fn selector_name(s: TonalCodingModeSelector) -> Seq<char> {
    match s {
        TonalCodingModeSelector::AllVlc => "AllVlc"@,
        TonalCodingModeSelector::AllClc => "AllClc"@,
        TonalCodingModeSelector::PerComponent => "PerComponent"@,
    }
}

fn mode_name_str(m: CodingMode) -> (r: &'static str)
    ensures
        r@ == mode_name(m),
{
    match m {
        CodingMode::Vlc => "Vlc",
        CodingMode::Clc => "Clc",
    }
}

fn selector_name_str(s: TonalCodingModeSelector) -> (r: &'static str)
    ensures
        r@ == selector_name(s),
{
    match s {
        TonalCodingModeSelector::AllVlc => "AllVlc",
        TonalCodingModeSelector::AllClc => "AllClc",
        TonalCodingModeSelector::PerComponent => "PerComponent",
    }
}

/// The text of an error: what went wrong, with the values involved.
pub open spec fn error_text(e: Atrac3Error) -> Seq<char>
    decreases e,
{
    match e {
        Atrac3Error::BitWidthTooLarge { bits } => "bit width "@ + decimal_chars(bits as nat) + " exceeds 32"@,
        Atrac3Error::SignedBitWidthOutOfRange { bits } => "signed bit width "@ + decimal_chars(bits as nat) + " out of range"@,
        Atrac3Error::UnexpectedEndOfBitstream => "unexpected end of bitstream"@,
        Atrac3Error::NotEnoughBits { requested, remaining } => "requested "@ + decimal_chars(requested as nat) + " bits with only "@ + decimal_chars(remaining as nat) + " remaining"@,
        Atrac3Error::SkipPastEnd { requested, remaining } => "requested skip of "@ + decimal_chars(requested as nat) + " bits with only "@ + decimal_chars(remaining as nat) + " remaining"@,
        Atrac3Error::PayloadChunkTooWide { bits } => "payload chunk width "@ + decimal_chars(bits as nat) + " exceeds 32"@,
        Atrac3Error::GainLevelTooLarge { level } => "gain level "@ + decimal_chars(level as nat) + " exceeds 4 bits"@,
        Atrac3Error::GainLocationTooLarge { location } => "gain location "@ + decimal_chars(location as nat) + " exceeds 5 bits"@,
        Atrac3Error::TooManyGainPoints { count } => "gain band has "@ + decimal_chars(count as nat) + " points, max 7"@,
        Atrac3Error::TonalSfIndexTooLarge { sf_index } => "tonal sf_index "@ + decimal_chars(sf_index as nat) + " exceeds 6 bits"@,
        Atrac3Error::TonalPositionTooLarge { position } => "tonal position "@ + decimal_chars(position as nat) + " exceeds 6 bits"@,
        Atrac3Error::TooManyTonalEntries { count } => "tonal cell has "@ + decimal_chars(count as nat) + " entries, max 7"@,
        Atrac3Error::BandFlagCountMismatch { actual, expected } => "tonal component has "@ + decimal_chars(actual as nat) + " band flags, expected "@ + decimal_chars(expected as nat),
        Atrac3Error::TonalCellCountMismatch { actual, expected } => "tonal component has "@ + decimal_chars(actual as nat) + " cells, expected "@ + decimal_chars(expected as nat),
        Atrac3Error::CodedValuesTooLarge { coded_values_minus_one } => "coded_values_minus_one "@ + decimal_chars(coded_values_minus_one as nat) + " exceeds 3 bits"@,
        Atrac3Error::QuantStepOutOfRange { quant_step_index } => "quant_step_index "@ + decimal_chars(quant_step_index as nat) + " is outside ATRAC3 encoder range 2..=7"@,
        Atrac3Error::TonalModeConflict { mode, selector } => "tonal component mode "@ + mode_name(mode) + " conflicts with selector "@ + selector_name(selector),
        Atrac3Error::TonalModeMissing => "per-component tonal mode requires coding_mode to be set"@,
        Atrac3Error::TableIndexTooLarge { table_index } => "spectral table index "@ + decimal_chars(table_index as nat) + " exceeds 3 bits"@,
        Atrac3Error::SkippedSubbandHasScaleFactor => "skipped subband must not carry a scale factor"@,
        Atrac3Error::PairwiseSubbandNeedsScaleFactor => "pairwise coded subband must carry a 6-bit scale factor"@,
        Atrac3Error::CodedSubbandNeedsScaleFactor => "coded subband must carry a 6-bit scale factor"@,
        Atrac3Error::SubbandCountOutOfRange { count } => "spectral unit has "@ + decimal_chars(count as nat) + " coded subbands, expected 1..=32"@,
        Atrac3Error::CodedQmfBandsOutOfRange { coded_qmf_bands } => "coded_qmf_bands "@ + decimal_chars(coded_qmf_bands as nat) + " is outside 1..=4"@,
        Atrac3Error::GainBandCountMismatch { actual, expected } => "sound unit has "@ + decimal_chars(actual as nat) + " gain bands, expected "@ + decimal_chars(expected as nat),
        Atrac3Error::TooManyTonalComponents { count } => "sound unit has "@ + decimal_chars(count as nat) + " tonal components, max 64"@,
        Atrac3Error::SelectorOutOfRange { selector } => "selector "@ + decimal_chars(selector as nat) + " out of range"@,
        Atrac3Error::OddMantissaCount => "selector 1 requires an even mantissa count"@,
        Atrac3Error::ClcMantissaNotRepresentable { mantissa } => "mantissa "@ + signed_decimal_chars(mantissa as int) + " is not representable in selector-1 CLC"@,
        Atrac3Error::VlcPairNotRepresentable { left, right } => "pair ["@ + signed_decimal_chars(left as int) + ", "@ + signed_decimal_chars(right as int) + "] is not representable in selector-1 VLC"@,
        Atrac3Error::SymbolNotRepresentable { symbol, selector } => "symbol "@ + signed_decimal_chars(symbol as int) + " is not representable in selector "@ + decimal_chars(selector as nat),
        Atrac3Error::InvalidTonalLayout => "invalid low-budget tonal component layout"@,
        Atrac3Error::GainLevelCodeTooLarge { level } => "gain level code "@ + decimal_chars(level as nat) + " exceeds table size 16"@,
        Atrac3Error::GainLocationsNotIncreasing { previous, current } => "gain locations must be strictly increasing: "@ + decimal_chars(previous as nat) + " then "@ + decimal_chars(current as nat),
        Atrac3Error::UnexpectedSoundUnitId { id } => "unexpected sound unit id 0x"@ + hex2_chars(id) + ", expected 0x28"@,
        Atrac3Error::FileTooSmall => "file too small for RIFF header"@,
        Atrac3Error::MissingRiffSignature => "missing RIFF signature"@,
        Atrac3Error::MissingWaveSignature => "missing WAVE signature"@,
        Atrac3Error::ChunkOverrun { chunk_id } => "chunk "@ + debug_tag_chars(chunk_id) + " overruns file"@,
        Atrac3Error::FmtChunkTooSmall { size } => "fmt chunk too small: "@ + decimal_chars(size as nat),
        Atrac3Error::UnexpectedFormatTag { tag } => "unexpected WAVE format tag 0x"@ + hex2_chars((tag / 256) as u8) + hex2_chars((tag % 256) as u8),
        Atrac3Error::MissingFmtChunk => "missing fmt chunk"@,
        Atrac3Error::MissingDataChunk => "missing data chunk"@,
        Atrac3Error::InvalidChannelCount { channels } => "invalid channel count "@ + decimal_chars(channels as nat),
        Atrac3Error::InvalidBlockAlign { block_align } => "invalid block_align "@ + decimal_chars(block_align as nat),
        Atrac3Error::DataNotAligned { data_size, block_align } => "data chunk "@ + decimal_chars(data_size as nat) + " is not aligned to block_align "@ + decimal_chars(block_align as nat),
        Atrac3Error::FrameOutOfRange { frame, frame_count } => "frame "@ + decimal_chars(frame as nat) + " out of range 0.."@ + decimal_chars(frame_count as nat),
        Atrac3Error::ChannelOutOfRange { channel, channels } => "channel "@ + decimal_chars(channel as nat) + " out of range 0.."@ + decimal_chars(channels as nat),
        Atrac3Error::BlockAlignNotDivisible { block_align, channels } => "block_align "@ + decimal_chars(block_align as nat) + " is not divisible by channels "@ + decimal_chars(channels as nat),
        Atrac3Error::FrameParseFailed { frame, channel, cause } => "failed to parse frame "@ + decimal_chars(frame as nat) + " channel "@ + decimal_chars(channel as nat) + ": "@ + error_text(*cause),
        Atrac3Error::UnsupportedSampleRate { sample_rate } => "prototype ATRAC3 container currently expects 44100 Hz, got "@ + decimal_chars(sample_rate as nat),
        Atrac3Error::UnsupportedChannelCount { channel_count } => "prototype ATRAC3 container currently supports 1 or 2 channels, got "@ + decimal_chars(channel_count as nat),
        Atrac3Error::EmptyEncode => "cannot wrap an empty encode result"@,
        Atrac3Error::StereoNeedsJointStereo => "stereo 66 kbps ATRAC3 requires joint stereo, which is not implemented yet"@,
        Atrac3Error::ChannelBytesExceedBitrate { needed, kbps, allowed } => "encoded channel sound unit requires "@ + decimal_chars(needed as nat) + " bytes, selected bitrate "@ + decimal_chars(kbps as nat) + " kbps only allows "@ + decimal_chars(allowed as nat) + " bytes per channel"@,
        Atrac3Error::NoFittingBitrate { needed } => "encoded channel sound unit requires "@ + decimal_chars(needed as nat) + " bytes, exceeds supported ATRAC3 budgets"@,
        Atrac3Error::FrameChannelCountMismatch { actual, expected } => "frame contains "@ + decimal_chars(actual as nat) + " channels, expected "@ + decimal_chars(expected as nat),
        Atrac3Error::ChannelSlotOverflow { size, slot } => "channel sound unit "@ + decimal_chars(size as nat) + " exceeds per-channel slot "@ + decimal_chars(slot as nat),
        Atrac3Error::LoopStartNotBeforeEnd => "loop start must be smaller than loop end"@,
        Atrac3Error::LoopRangeTooShort => "loop range must satisfy start + 6143 <= end for the reference tool"@,
    }
}

impl Atrac3Error {
    /// The error's text.
    pub fn message(&self) -> (s: String)
        ensures
            s@ == error_text(*self),
        decreases *self,
    {
        let mut out = String::new();
        match self {
            Atrac3Error::BitWidthTooLarge { bits } => {
            out.append("bit width ");
            push_decimal(&mut out, *bits as u64);
            out.append(" exceeds 32");
            },
            Atrac3Error::SignedBitWidthOutOfRange { bits } => {
            out.append("signed bit width ");
            push_decimal(&mut out, *bits as u64);
            out.append(" out of range");
            },
            Atrac3Error::UnexpectedEndOfBitstream => {
            out.append("unexpected end of bitstream");
            },
            Atrac3Error::NotEnoughBits { requested, remaining } => {
            out.append("requested ");
            push_decimal(&mut out, *requested as u64);
            out.append(" bits with only ");
            push_decimal(&mut out, *remaining as u64);
            out.append(" remaining");
            },
            Atrac3Error::SkipPastEnd { requested, remaining } => {
            out.append("requested skip of ");
            push_decimal(&mut out, *requested as u64);
            out.append(" bits with only ");
            push_decimal(&mut out, *remaining as u64);
            out.append(" remaining");
            },
            Atrac3Error::PayloadChunkTooWide { bits } => {
            out.append("payload chunk width ");
            push_decimal(&mut out, *bits as u64);
            out.append(" exceeds 32");
            },
            Atrac3Error::GainLevelTooLarge { level } => {
            out.append("gain level ");
            push_decimal(&mut out, *level as u64);
            out.append(" exceeds 4 bits");
            },
            Atrac3Error::GainLocationTooLarge { location } => {
            out.append("gain location ");
            push_decimal(&mut out, *location as u64);
            out.append(" exceeds 5 bits");
            },
            Atrac3Error::TooManyGainPoints { count } => {
            out.append("gain band has ");
            push_decimal(&mut out, *count as u64);
            out.append(" points, max 7");
            },
            Atrac3Error::TonalSfIndexTooLarge { sf_index } => {
            out.append("tonal sf_index ");
            push_decimal(&mut out, *sf_index as u64);
            out.append(" exceeds 6 bits");
            },
            Atrac3Error::TonalPositionTooLarge { position } => {
            out.append("tonal position ");
            push_decimal(&mut out, *position as u64);
            out.append(" exceeds 6 bits");
            },
            Atrac3Error::TooManyTonalEntries { count } => {
            out.append("tonal cell has ");
            push_decimal(&mut out, *count as u64);
            out.append(" entries, max 7");
            },
            Atrac3Error::BandFlagCountMismatch { actual, expected } => {
            out.append("tonal component has ");
            push_decimal(&mut out, *actual as u64);
            out.append(" band flags, expected ");
            push_decimal(&mut out, *expected as u64);
            },
            Atrac3Error::TonalCellCountMismatch { actual, expected } => {
            out.append("tonal component has ");
            push_decimal(&mut out, *actual as u64);
            out.append(" cells, expected ");
            push_decimal(&mut out, *expected as u64);
            },
            Atrac3Error::CodedValuesTooLarge { coded_values_minus_one } => {
            out.append("coded_values_minus_one ");
            push_decimal(&mut out, *coded_values_minus_one as u64);
            out.append(" exceeds 3 bits");
            },
            Atrac3Error::QuantStepOutOfRange { quant_step_index } => {
            out.append("quant_step_index ");
            push_decimal(&mut out, *quant_step_index as u64);
            out.append(" is outside ATRAC3 encoder range 2..=7");
            },
            Atrac3Error::TonalModeConflict { mode, selector } => {
            out.append("tonal component mode ");
            out.append(mode_name_str(*mode));
            out.append(" conflicts with selector ");
            out.append(selector_name_str(*selector));
            },
            Atrac3Error::TonalModeMissing => {
            out.append("per-component tonal mode requires coding_mode to be set");
            },
            Atrac3Error::TableIndexTooLarge { table_index } => {
            out.append("spectral table index ");
            push_decimal(&mut out, *table_index as u64);
            out.append(" exceeds 3 bits");
            },
            Atrac3Error::SkippedSubbandHasScaleFactor => {
            out.append("skipped subband must not carry a scale factor");
            },
            Atrac3Error::PairwiseSubbandNeedsScaleFactor => {
            out.append("pairwise coded subband must carry a 6-bit scale factor");
            },
            Atrac3Error::CodedSubbandNeedsScaleFactor => {
            out.append("coded subband must carry a 6-bit scale factor");
            },
            Atrac3Error::SubbandCountOutOfRange { count } => {
            out.append("spectral unit has ");
            push_decimal(&mut out, *count as u64);
            out.append(" coded subbands, expected 1..=32");
            },
            Atrac3Error::CodedQmfBandsOutOfRange { coded_qmf_bands } => {
            out.append("coded_qmf_bands ");
            push_decimal(&mut out, *coded_qmf_bands as u64);
            out.append(" is outside 1..=4");
            },
            Atrac3Error::GainBandCountMismatch { actual, expected } => {
            out.append("sound unit has ");
            push_decimal(&mut out, *actual as u64);
            out.append(" gain bands, expected ");
            push_decimal(&mut out, *expected as u64);
            },
            Atrac3Error::TooManyTonalComponents { count } => {
            out.append("sound unit has ");
            push_decimal(&mut out, *count as u64);
            out.append(" tonal components, max 64");
            },
            Atrac3Error::SelectorOutOfRange { selector } => {
            out.append("selector ");
            push_decimal(&mut out, *selector as u64);
            out.append(" out of range");
            },
            Atrac3Error::OddMantissaCount => {
            out.append("selector 1 requires an even mantissa count");
            },
            Atrac3Error::ClcMantissaNotRepresentable { mantissa } => {
            out.append("mantissa ");
            push_signed_decimal(&mut out, *mantissa as i64);
            out.append(" is not representable in selector-1 CLC");
            },
            Atrac3Error::VlcPairNotRepresentable { left, right } => {
            out.append("pair [");
            push_signed_decimal(&mut out, *left as i64);
            out.append(", ");
            push_signed_decimal(&mut out, *right as i64);
            out.append("] is not representable in selector-1 VLC");
            },
            Atrac3Error::SymbolNotRepresentable { symbol, selector } => {
            out.append("symbol ");
            push_signed_decimal(&mut out, *symbol as i64);
            out.append(" is not representable in selector ");
            push_decimal(&mut out, *selector as u64);
            },
            Atrac3Error::InvalidTonalLayout => {
            out.append("invalid low-budget tonal component layout");
            },
            Atrac3Error::GainLevelCodeTooLarge { level } => {
            out.append("gain level code ");
            push_decimal(&mut out, *level as u64);
            out.append(" exceeds table size 16");
            },
            Atrac3Error::GainLocationsNotIncreasing { previous, current } => {
            out.append("gain locations must be strictly increasing: ");
            push_decimal(&mut out, *previous as u64);
            out.append(" then ");
            push_decimal(&mut out, *current as u64);
            },
            Atrac3Error::UnexpectedSoundUnitId { id } => {
            out.append("unexpected sound unit id 0x");
            push_hex2(&mut out, *id);
            out.append(", expected 0x28");
            },
            Atrac3Error::FileTooSmall => {
            out.append("file too small for RIFF header");
            },
            Atrac3Error::MissingRiffSignature => {
            out.append("missing RIFF signature");
            },
            Atrac3Error::MissingWaveSignature => {
            out.append("missing WAVE signature");
            },
            Atrac3Error::ChunkOverrun { chunk_id } => {
            out.append("chunk ");
            push_debug_tag(&mut out, *chunk_id);
            out.append(" overruns file");
            },
            Atrac3Error::FmtChunkTooSmall { size } => {
            out.append("fmt chunk too small: ");
            push_decimal(&mut out, *size as u64);
            },
            Atrac3Error::UnexpectedFormatTag { tag } => {
            out.append("unexpected WAVE format tag 0x");
            push_hex2(&mut out, (*tag / 256) as u8);
            push_hex2(&mut out, (*tag % 256) as u8);
            },
            Atrac3Error::MissingFmtChunk => {
            out.append("missing fmt chunk");
            },
            Atrac3Error::MissingDataChunk => {
            out.append("missing data chunk");
            },
            Atrac3Error::InvalidChannelCount { channels } => {
            out.append("invalid channel count ");
            push_decimal(&mut out, *channels as u64);
            },
            Atrac3Error::InvalidBlockAlign { block_align } => {
            out.append("invalid block_align ");
            push_decimal(&mut out, *block_align as u64);
            },
            Atrac3Error::DataNotAligned { data_size, block_align } => {
            out.append("data chunk ");
            push_decimal(&mut out, *data_size as u64);
            out.append(" is not aligned to block_align ");
            push_decimal(&mut out, *block_align as u64);
            },
            Atrac3Error::FrameOutOfRange { frame, frame_count } => {
            out.append("frame ");
            push_decimal(&mut out, *frame as u64);
            out.append(" out of range 0..");
            push_decimal(&mut out, *frame_count as u64);
            },
            Atrac3Error::ChannelOutOfRange { channel, channels } => {
            out.append("channel ");
            push_decimal(&mut out, *channel as u64);
            out.append(" out of range 0..");
            push_decimal(&mut out, *channels as u64);
            },
            Atrac3Error::BlockAlignNotDivisible { block_align, channels } => {
            out.append("block_align ");
            push_decimal(&mut out, *block_align as u64);
            out.append(" is not divisible by channels ");
            push_decimal(&mut out, *channels as u64);
            },
            Atrac3Error::FrameParseFailed { frame, channel, cause } => {
            out.append("failed to parse frame ");
            push_decimal(&mut out, *frame as u64);
            out.append(" channel ");
            push_decimal(&mut out, *channel as u64);
            out.append(": ");
            out.append(cause.message().as_str());
            },
            Atrac3Error::UnsupportedSampleRate { sample_rate } => {
            out.append("prototype ATRAC3 container currently expects 44100 Hz, got ");
            push_decimal(&mut out, *sample_rate as u64);
            },
            Atrac3Error::UnsupportedChannelCount { channel_count } => {
            out.append("prototype ATRAC3 container currently supports 1 or 2 channels, got ");
            push_decimal(&mut out, *channel_count as u64);
            },
            Atrac3Error::EmptyEncode => {
            out.append("cannot wrap an empty encode result");
            },
            Atrac3Error::StereoNeedsJointStereo => {
            out.append("stereo 66 kbps ATRAC3 requires joint stereo, which is not implemented yet");
            },
            Atrac3Error::ChannelBytesExceedBitrate { needed, kbps, allowed } => {
            out.append("encoded channel sound unit requires ");
            push_decimal(&mut out, *needed as u64);
            out.append(" bytes, selected bitrate ");
            push_decimal(&mut out, *kbps as u64);
            out.append(" kbps only allows ");
            push_decimal(&mut out, *allowed as u64);
            out.append(" bytes per channel");
            },
            Atrac3Error::NoFittingBitrate { needed } => {
            out.append("encoded channel sound unit requires ");
            push_decimal(&mut out, *needed as u64);
            out.append(" bytes, exceeds supported ATRAC3 budgets");
            },
            Atrac3Error::FrameChannelCountMismatch { actual, expected } => {
            out.append("frame contains ");
            push_decimal(&mut out, *actual as u64);
            out.append(" channels, expected ");
            push_decimal(&mut out, *expected as u64);
            },
            Atrac3Error::ChannelSlotOverflow { size, slot } => {
            out.append("channel sound unit ");
            push_decimal(&mut out, *size as u64);
            out.append(" exceeds per-channel slot ");
            push_decimal(&mut out, *slot as u64);
            },
            Atrac3Error::LoopStartNotBeforeEnd => {
            out.append("loop start must be smaller than loop end");
            },
            Atrac3Error::LoopRangeTooShort => {
            out.append("loop range must satisfy start + 6143 <= end for the reference tool");
            },
        }
        out
    }
}

} // verus!

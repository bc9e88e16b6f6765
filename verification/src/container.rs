use vstd::prelude::*;

use crate::error::Atrac3Error;
use crate::inspect::{data_tag, fmt_tag, riff_tag, wave_tag};
use crate::prototype::{PrototypeEncodeResult, PrototypeFrame, PrototypeFrameChannel};
use crate::sound_unit::{ChannelSoundUnit, CodingMode};

verus! {

pub const ATRAC3_WAVE_FORMAT_TAG: u16 = 0x0270;
pub const ATRAC3_FMT_CHUNK_SIZE: u32 = 32;
pub const ATRAC3_FACT_CHUNK_SIZE: u32 = 8;
pub const ATRAC3_WAV_EXTRADATA_SIZE: u16 = 14;
pub const ATRAC3_SAMPLES_PER_FRAME: u32 = 1024;

/// The sample rate the container is written for.
pub const CONTAINER_SAMPLE_RATE: u32 = 44_100;

/// Bytes in front of the frame data: the RIFF, fmt, fact and data headers.
pub const CONTAINER_HEADER_BYTES: usize = 76;

#[derive(Debug, Clone, Copy, PartialEq, Eq, Structural)]
pub enum Atrac3Bitrate {
    Kbps66,
    Kbps105,
    Kbps132,
}

/// Bytes each channel gets in a frame at a bitrate.
pub open spec fn per_channel_bytes(b: Atrac3Bitrate) -> nat {
    match b {
        Atrac3Bitrate::Kbps66 => 96,
        Atrac3Bitrate::Kbps105 => 152,
        Atrac3Bitrate::Kbps132 => 192,
    }
}

/// The nominal rate in kbit/s; a mono stream runs at half the stereo rate.
pub open spec fn bitrate_kbps(b: Atrac3Bitrate, channels: u16) -> u32 {
    if channels == 1 {
        match b {
            Atrac3Bitrate::Kbps66 => 33,
            Atrac3Bitrate::Kbps105 => 52,
            Atrac3Bitrate::Kbps132 => 66,
        }
    } else {
        match b {
            Atrac3Bitrate::Kbps66 => 66,
            Atrac3Bitrate::Kbps105 => 105,
            Atrac3Bitrate::Kbps132 => 132,
        }
    }
}

impl Atrac3Bitrate {
    pub fn kbps(self, channels: u16) -> (k: u32)
        ensures
            k == bitrate_kbps(self, channels),
    {
        if channels == 1 {
            match self {
                Atrac3Bitrate::Kbps66 => 33,
                Atrac3Bitrate::Kbps105 => 52,
                Atrac3Bitrate::Kbps132 => 66,
            }
        } else {
            match self {
                Atrac3Bitrate::Kbps66 => 66,
                Atrac3Bitrate::Kbps105 => 105,
                Atrac3Bitrate::Kbps132 => 132,
            }
        }
    }

    /// Bytes of one frame: each channel's share times the channel count.
    pub fn block_align(self, channels: u16) -> (a: u16)
        requires
            per_channel_bytes(self) * channels <= u16::MAX,
        ensures
            a == per_channel_bytes(self) * channels,
    {
        let per_channel: u16 = match self {
            Atrac3Bitrate::Kbps66 => 96,
            Atrac3Bitrate::Kbps105 => 152,
            Atrac3Bitrate::Kbps132 => 192,
        };
        per_channel * channels
    }

    pub fn frame_factor(self) -> (f: u16)
        ensures
            f == 1,
    {
        1
    }

    /// The bitrates from the smallest to the largest.
    pub fn all() -> (r: [Self; 3])
        ensures
            r@ == seq![Atrac3Bitrate::Kbps66, Atrac3Bitrate::Kbps105, Atrac3Bitrate::Kbps132],
    {
        let r = [Atrac3Bitrate::Kbps66, Atrac3Bitrate::Kbps105, Atrac3Bitrate::Kbps132];
        assert(r@ =~= seq![Atrac3Bitrate::Kbps66, Atrac3Bitrate::Kbps105, Atrac3Bitrate::Kbps132]);
        r
    }
}

#[derive(Debug, Clone, Copy, PartialEq, Eq, Structural)]
pub struct Atrac3ContainerOptions {
    pub bitrate: Option<Atrac3Bitrate>,
}

impl Default for Atrac3ContainerOptions {
    fn default() -> (o: Self)
        ensures
            o.bitrate is None,
    {
        Atrac3ContainerOptions { bitrate: None }
    }
}

#[derive(Debug)]
pub struct Atrac3Container {
    pub bitrate: Atrac3Bitrate,
    pub block_align: u16,
    pub avg_bytes_per_sec: u32,
    pub bytes: Vec<u8>,
}

/// A bitrate carries a channel unit of `needed` bytes; stereo at the
/// lowest bitrate would need joint stereo, which is not written.
pub open spec fn bitrate_fits(b: Atrac3Bitrate, needed: nat, channels: u16) -> bool {
    !(channels == 2 && b == Atrac3Bitrate::Kbps66) && needed <= per_channel_bytes(b)
}

/// The smallest bitrate that carries `needed` bytes per channel.
pub open spec fn smallest_fitting_bitrate(needed: nat, channels: u16) -> Result<
    Atrac3Bitrate,
    Atrac3Error,
> {
    if bitrate_fits(Atrac3Bitrate::Kbps66, needed, channels) {
        Ok(Atrac3Bitrate::Kbps66)
    } else if bitrate_fits(Atrac3Bitrate::Kbps105, needed, channels) {
        Ok(Atrac3Bitrate::Kbps105)
    } else if bitrate_fits(Atrac3Bitrate::Kbps132, needed, channels) {
        Ok(Atrac3Bitrate::Kbps132)
    } else {
        Err(Atrac3Error::NoFittingBitrate { needed: needed as usize })
    }
}

/// Frame bytes at every bitrate the search reaches fit a `u16`.
pub open spec fn bitrate_search_fits(needed: nat, channels: u16) -> bool {
    &&& channels > 0
    &&& 96 * channels <= u16::MAX
    &&& needed > 96 ==> 152 * channels <= u16::MAX
    &&& needed > 152 ==> 192 * channels <= u16::MAX
}

pub proof fn lemma_share(p: nat, ch: nat)
    requires
        ch > 0,
    ensures
        (p * ch) / ch == p,
{
    assert((p * ch) / ch == p) by (nonlinear_arith)
        requires
            ch > 0,
    ;
}

/// The first bitrate, from the smallest up, whose channel slot holds
/// `max_channel_bytes`.
pub fn choose_smallest_fitting_bitrate(max_channel_bytes: usize, channels: u16) -> (r: Result<
    Atrac3Bitrate,
    Atrac3Error,
>)
    requires
        bitrate_search_fits(max_channel_bytes as nat, channels),
    ensures
        r == smallest_fitting_bitrate(max_channel_bytes as nat, channels),
{
    let all = Atrac3Bitrate::all();
    let mut i: usize = 0;
    while i < 3
        invariant
            i <= 3,
            all@ == seq![Atrac3Bitrate::Kbps66, Atrac3Bitrate::Kbps105, Atrac3Bitrate::Kbps132],
            bitrate_search_fits(max_channel_bytes as nat, channels),
            forall|k: int|
                0 <= k < i ==> !bitrate_fits(#[trigger] all@[k], max_channel_bytes as nat, channels),
        decreases 3 - i,
    {
        let bitrate = all[i];
        proof {
            lemma_share(per_channel_bytes(bitrate), channels as nat);
        }
        let skip = channels == 2 && bitrate == Atrac3Bitrate::Kbps66;
        if !skip {
            assert(per_channel_bytes(bitrate) * channels <= u16::MAX) by {
                if i > 0 {
                    assert(!bitrate_fits(all@[0], max_channel_bytes as nat, channels));
                }
                if i > 1 {
                    assert(!bitrate_fits(all@[1], max_channel_bytes as nat, channels));
                }
            }
            let slot: usize = bitrate.block_align(channels) as usize / channels as usize;
            if max_channel_bytes <= slot {
                return Ok(bitrate);
            }
        }
        i = i + 1;
    }
    Err(Atrac3Error::NoFittingBitrate { needed: max_channel_bytes })
}

/// Whether a sound unit marks joint stereo coding; no sound unit written
/// here does.
pub fn has_joint_stereo_marker(_sound_unit: &ChannelSoundUnit) -> (r: bool)
    ensures
        !r,
{
    false
}

/// Appends `value` as two little-endian bytes.
pub fn push_u16_le(bytes: &mut Vec<u8>, value: u16)
    ensures
        final(bytes)@ == old(bytes)@ + le16_bytes(value),
{
    bytes.push((value % 256) as u8);
    bytes.push((value / 256) as u8);
    assert(final(bytes)@ =~= old(bytes)@ + le16_bytes(value));
}

/// Appends `value` as four little-endian bytes.
pub fn push_u32_le(bytes: &mut Vec<u8>, value: u32)
    ensures
        final(bytes)@ == old(bytes)@ + le32_bytes(value),
{
    bytes.push((value % 256) as u8);
    bytes.push(((value / 256) % 256) as u8);
    bytes.push(((value / 65536) % 256) as u8);
    bytes.push((value / 16777216) as u8);
    assert(final(bytes)@ =~= old(bytes)@ + le32_bytes(value));
}

/// The two little-endian bytes of a `u16`.
pub open spec fn le16_bytes(v: u16) -> Seq<u8> {
    seq![(v % 256) as u8, (v / 256) as u8]
}

/// The four little-endian bytes of a `u32`.
pub open spec fn le32_bytes(v: u32) -> Seq<u8> {
    seq![(v % 256) as u8, ((v / 256) % 256) as u8, ((v / 65536) % 256) as u8, (v / 16777216) as u8]
}

pub open spec fn fact_tag() -> Seq<u8> {
    seq![0x66u8, 0x61u8, 0x63u8, 0x74u8]
}

/// The longest channel unit of a frame.
pub open spec fn max_unit_len(units: Seq<PrototypeFrameChannel>) -> nat
    decreases units.len(),
{
    if units.len() == 0 {
        0
    } else {
        let m = max_unit_len(units.drop_last());
        let l = units.last().bytes@.len();
        if l > m {
            l
        } else {
            m
        }
    }
}

/// The longest channel unit of all frames.
pub open spec fn max_frame_unit_len(frames: Seq<PrototypeFrame>) -> nat
    decreases frames.len(),
{
    if frames.len() == 0 {
        0
    } else {
        let m = max_frame_unit_len(frames.drop_last());
        let l = max_unit_len(frames.last().channels@);
        if l > m {
            l
        } else {
            m
        }
    }
}

/// What a stream must be for the container to take it.
pub open spec fn stream_check(e: PrototypeEncodeResult) -> Result<(), Atrac3Error> {
    if e.sample_rate != CONTAINER_SAMPLE_RATE {
        Err(Atrac3Error::UnsupportedSampleRate { sample_rate: e.sample_rate })
    } else if !(1 <= e.channel_count <= 2) {
        Err(Atrac3Error::UnsupportedChannelCount { channel_count: e.channel_count })
    } else if e.frame_count == 0 {
        Err(Atrac3Error::EmptyEncode)
    } else {
        Ok(())
    }
}

/// The bitrate written: the requested one if it carries the longest unit,
/// else the smallest that does.
pub open spec fn selected_bitrate(
    needed: nat,
    channels: u16,
    requested: Option<Atrac3Bitrate>,
) -> Result<Atrac3Bitrate, Atrac3Error> {
    match requested {
        Some(b) => if channels == 2 && b == Atrac3Bitrate::Kbps66 {
            Err(Atrac3Error::StereoNeedsJointStereo)
        } else if needed > per_channel_bytes(b) {
            Err(
                Atrac3Error::ChannelBytesExceedBitrate {
                    needed: needed as usize,
                    kbps: bitrate_kbps(b, channels),
                    allowed: per_channel_bytes(b) as usize,
                },
            )
        } else {
            Ok(b)
        },
        None => smallest_fitting_bitrate(needed, channels),
    }
}

/// The coding mode recorded in the extradata: 1 for joint stereo, which no
/// sound unit written here marks, so always 0.
pub open spec fn stream_coding_mode(e: PrototypeEncodeResult) -> u16 {
    0
}

/// The 76 bytes in front of the frame data.
#[verifier::opaque]
pub open spec fn container_header(
    channels: u16,
    block_align: u16,
    avg_bytes_per_sec: u32,
    coding_mode: u16,
    sample_count: u32,
    data_size: u32,
) -> Seq<u8> {
    riff_tag() + le32_bytes((68 + data_size) as u32) + wave_tag() + fmt_tag() + le32_bytes(
        ATRAC3_FMT_CHUNK_SIZE,
    ) + le16_bytes(ATRAC3_WAVE_FORMAT_TAG) + le16_bytes(channels) + le32_bytes(
        CONTAINER_SAMPLE_RATE,
    ) + le32_bytes(avg_bytes_per_sec) + le16_bytes(block_align) + le16_bytes(0) + le16_bytes(
        ATRAC3_WAV_EXTRADATA_SIZE,
    ) + le16_bytes(1) + le32_bytes(0x1000) + le16_bytes(coding_mode) + le16_bytes(coding_mode)
        + le16_bytes(1) + le16_bytes(0) + fact_tag() + le32_bytes(ATRAC3_FACT_CHUNK_SIZE)
        + le32_bytes(sample_count) + le32_bytes(ATRAC3_SAMPLES_PER_FRAME) + data_tag()
        + le32_bytes(data_size)
}

/// `n` zero bytes.
pub open spec fn zeros(n: nat) -> Seq<u8> {
    Seq::new(n, |i: int| 0u8)
}

/// A channel unit padded with zeros to its slot.
pub open spec fn padded_unit(u: PrototypeFrameChannel, slot: nat) -> Seq<u8> {
    u.bytes@ + zeros((slot - u.bytes@.len()) as nat)
}

/// The slots of a frame's channels, one after another.
pub open spec fn units_body(units: Seq<PrototypeFrameChannel>, slot: nat) -> Seq<u8>
    decreases units.len(),
{
    if units.len() == 0 {
        Seq::empty()
    } else {
        units_body(units.drop_last(), slot) + padded_unit(units.last(), slot)
    }
}

/// The frame data; the first frame with the wrong channel count refuses it.
pub open spec fn frames_body(frames: Seq<PrototypeFrame>, channels: nat, slot: nat) -> Result<
    Seq<u8>,
    Atrac3Error,
>
    decreases frames.len(),
{
    if frames.len() == 0 {
        Ok(Seq::empty())
    } else {
        match frames_body(frames.drop_last(), channels, slot) {
            Err(e) => Err(e),
            Ok(prev) => {
                let n = frames.last().channels@.len();
                if n != channels {
                    Err(
                        Atrac3Error::FrameChannelCountMismatch {
                            actual: n as usize,
                            expected: channels as usize,
                        },
                    )
                } else {
                    Ok(prev + units_body(frames.last().channels@, slot))
                }
            },
        }
    }
}

/// Average bytes per second of a frame size at the container's rate.
pub open spec fn avg_bytes_per_sec(block_align: nat) -> nat {
    ((block_align * CONTAINER_SAMPLE_RATE + ATRAC3_SAMPLES_PER_FRAME / 2) as nat) / (
    ATRAC3_SAMPLES_PER_FRAME as nat)
}

/// The bitrate, frame size, average rate and bytes of the container.
pub open spec fn wrapped_stream(e: PrototypeEncodeResult, options: Atrac3ContainerOptions) -> Result<
    (Atrac3Bitrate, u16, u32, Seq<u8>),
    Atrac3Error,
> {
    match stream_check(e) {
        Err(x) => Err(x),
        Ok(_) => {
            let channels = e.channel_count as u16;
            match selected_bitrate(max_frame_unit_len(e.frames@), channels, options.bitrate) {
                Err(x) => Err(x),
                Ok(b) => {
                    let slot = per_channel_bytes(b);
                    let block_align = (slot * e.channel_count) as u16;
                    let avg = avg_bytes_per_sec(block_align as nat) as u32;
                    let sample_count = ((e.frame_count as u32) * ATRAC3_SAMPLES_PER_FRAME) as u32;
                    let data_size = ((e.frame_count as u32) * block_align) as u32;
                    match frames_body(e.frames@, e.channel_count as nat, slot) {
                        Err(x) => Err(x),
                        Ok(body) => Ok(
                            (
                                b,
                                block_align,
                                avg,
                                container_header(
                                    channels,
                                    block_align,
                                    avg,
                                    stream_coding_mode(e),
                                    sample_count,
                                    data_size,
                                ) + body,
                            ),
                        ),
                    }
                },
            }
        },
    }
}

/// The sizes written in the headers fit their fields, and the file fits
/// memory.
pub open spec fn wrap_fits(e: PrototypeEncodeResult, options: Atrac3ContainerOptions) -> bool {
    stream_check(e) is Ok ==> match selected_bitrate(
        max_frame_unit_len(e.frames@),
        e.channel_count as u16,
        options.bitrate,
    ) {
        Err(_) => true,
        Ok(b) => {
            let block_align = per_channel_bytes(b) * e.channel_count;
            &&& (e.frame_count as u32) * ATRAC3_SAMPLES_PER_FRAME <= u32::MAX
            &&& (e.frame_count as u32) * block_align + 68 <= u32::MAX
            &&& CONTAINER_HEADER_BYTES + (e.frame_count as u32) * block_align <= usize::MAX
            &&& CONTAINER_HEADER_BYTES + e.frames@.len() * block_align <= usize::MAX
        },
    }
}

/// The longest channel unit of all frames.
fn max_channel_bytes(frames: &Vec<PrototypeFrame>) -> (m: usize)
    ensures
        m == max_frame_unit_len(frames@),
{
    let mut m: usize = 0;
    let mut i: usize = 0;
    while i < frames.len()
        invariant
            i <= frames@.len(),
            m == max_frame_unit_len(frames@.take(i as int)),
        decreases frames@.len() - i,
    {
        let units = &frames[i].channels;
        let mut frame_max: usize = 0;
        let mut j: usize = 0;
        while j < units.len()
            invariant
                j <= units@.len(),
                frame_max == max_unit_len(units@.take(j as int)),
            decreases units@.len() - j,
        {
            assert(units@.take(j + 1).drop_last() =~= units@.take(j as int));
            if units[j].bytes.len() > frame_max {
                frame_max = units[j].bytes.len();
            }
            j = j + 1;
        }
        assert(units@.take(units@.len() as int) =~= units@);
        assert(frames@.take(i + 1).drop_last() =~= frames@.take(i as int));
        if frame_max > m {
            m = frame_max;
        }
        i = i + 1;
    }
    assert(frames@.take(frames@.len() as int) =~= frames@);
    m
}

/// The extradata's coding mode: 1 where a channel of a stereo stream codes
/// several QMF bands in VLC and marks joint stereo, else 0.
pub fn coding_mode_extradata(encoded: &PrototypeEncodeResult) -> (mode: u16)
    ensures
        mode == stream_coding_mode(*encoded),
{
    let mut has_joint_stereo = false;
    let mut i: usize = 0;
    while i < encoded.frames.len()
        invariant
            i <= encoded.frames@.len(),
            !has_joint_stereo,
        decreases encoded.frames@.len() - i,
    {
        let units = &encoded.frames[i].channels;
        let mut j: usize = 0;
        while j < units.len()
            invariant
                j <= units@.len(),
                !has_joint_stereo,
            decreases units@.len() - j,
        {
            let unit = &units[j].sound_unit;
            let vlc = match unit.spectrum.coding_mode {
                CodingMode::Vlc => true,
                CodingMode::Clc => false,
            };
            if vlc && unit.coded_qmf_bands > 1 && encoded.channel_count == 2
                && has_joint_stereo_marker(unit) {
                has_joint_stereo = true;
            }
            j = j + 1;
        }
        i = i + 1;
    }
    if has_joint_stereo {
        1
    } else {
        0
    }
}

pub proof fn lemma_max_unit_len(units: Seq<PrototypeFrameChannel>, j: int)
    requires
        0 <= j < units.len(),
    ensures
        units[j].bytes@.len() <= max_unit_len(units),
    decreases units.len(),
{
    if j < units.len() - 1 {
        lemma_max_unit_len(units.drop_last(), j);
        assert(units.drop_last()[j] == units[j]);
    }
}

pub proof fn lemma_max_frame_unit_len(frames: Seq<PrototypeFrame>, i: int, j: int)
    requires
        0 <= i < frames.len(),
        0 <= j < frames[i].channels@.len(),
    ensures
        frames[i].channels@[j].bytes@.len() <= max_frame_unit_len(frames),
    decreases frames.len(),
{
    if i < frames.len() - 1 {
        lemma_max_frame_unit_len(frames.drop_last(), i, j);
        assert(frames.drop_last()[i] == frames[i]);
    } else {
        lemma_max_unit_len(frames[i].channels@, j);
    }
}

pub proof fn lemma_units_body_len(units: Seq<PrototypeFrameChannel>, slot: nat)
    requires
        max_unit_len(units) <= slot,
    ensures
        units_body(units, slot).len() == units.len() * slot,
    decreases units.len(),
{
    if units.len() > 0 {
        lemma_units_body_len(units.drop_last(), slot);
        let n = units.len();
        assert((n - 1) * slot + slot == n * slot) by (nonlinear_arith);
    }
}

pub proof fn lemma_frames_body_len(frames: Seq<PrototypeFrame>, channels: nat, slot: nat)
    requires
        max_frame_unit_len(frames) <= slot,
        frames_body(frames, channels, slot) is Ok,
    ensures
        frames_body(frames, channels, slot)->Ok_0.len() == frames.len() * (channels * slot),
    decreases frames.len(),
{
    if frames.len() > 0 {
        lemma_frames_body_len(frames.drop_last(), channels, slot);
        lemma_units_body_len(frames.last().channels@, slot);
        let n = frames.len();
        assert((n - 1) * (channels * slot) + channels * slot == n * (channels * slot))
            by (nonlinear_arith);
    }
}

pub proof fn lemma_frames_body_err(frames: Seq<PrototypeFrame>, channels: nat, slot: nat, k: int)
    requires
        0 <= k <= frames.len(),
        frames_body(frames.take(k), channels, slot) is Err,
    ensures
        frames_body(frames, channels, slot) == frames_body(frames.take(k), channels, slot),
    decreases frames.len(),
{
    if k == frames.len() {
        assert(frames.take(k) =~= frames);
    } else {
        assert(frames.drop_last().take(k) =~= frames.take(k));
        lemma_frames_body_err(frames.drop_last(), channels, slot, k);
    }
}

proof fn lemma_body_bound(i: nat, j: nat, channels: nat, slot: nat, frames: nat)
    requires
        i < frames,
        j < channels,
    ensures
        i * (channels * slot) + j * slot + slot <= frames * (channels * slot),
{
    assert(i * (channels * slot) + j * slot + slot <= frames * (channels * slot))
        by (nonlinear_arith)
        requires
            i < frames,
            j < channels,
    ;
}

/// Wraps an encoded stream in a RIFF/WAVE container with the ATRAC3 format
/// chunk, a fact chunk and one block-aligned slot per channel and frame.
#[verifier::rlimit(60)]
pub fn wrap_prototype_in_riff_at3(
    encoded: &PrototypeEncodeResult,
    options: Atrac3ContainerOptions,
) -> (r: Result<Atrac3Container, Atrac3Error>)
    requires
        wrap_fits(*encoded, options),
    ensures
        match wrapped_stream(*encoded, options) {
            Ok((bitrate, block_align, avg, bytes)) => r is Ok && r->Ok_0.bitrate == bitrate
                && r->Ok_0.block_align == block_align && r->Ok_0.avg_bytes_per_sec == avg
                && r->Ok_0.bytes@ == bytes,
            Err(e) => r is Err && r->Err_0 == e,
        },
{
    if encoded.sample_rate != CONTAINER_SAMPLE_RATE {
        return Err(Atrac3Error::UnsupportedSampleRate { sample_rate: encoded.sample_rate });
    }
    if !(encoded.channel_count >= 1 && encoded.channel_count <= 2) {
        return Err(Atrac3Error::UnsupportedChannelCount { channel_count: encoded.channel_count });
    }
    if encoded.frame_count == 0 {
        return Err(Atrac3Error::EmptyEncode);
    }
    let channels: u16 = encoded.channel_count as u16;
    let max_bytes: usize = max_channel_bytes(&encoded.frames);
    let bitrate: Atrac3Bitrate = match options.bitrate {
        Some(bitrate) => {
            if channels == 2 && bitrate == Atrac3Bitrate::Kbps66 {
                return Err(Atrac3Error::StereoNeedsJointStereo);
            }
            let allowed: usize = bitrate.block_align(channels) as usize / channels as usize;
            proof {
                lemma_share(per_channel_bytes(bitrate), channels as nat);
            }
            if max_bytes > allowed {
                return Err(
                    Atrac3Error::ChannelBytesExceedBitrate {
                        needed: max_bytes,
                        kbps: bitrate.kbps(channels),
                        allowed,
                    },
                );
            }
            bitrate
        },
        None => choose_smallest_fitting_bitrate(max_bytes, channels)?,
    };
    let ghost slot_n = per_channel_bytes(bitrate);
    proof {
        lemma_share(slot_n, channels as nat);
    }
    let block_align: u16 = bitrate.block_align(channels);
    let channel_slot_size: usize = block_align as usize / channels as usize;
    let avg_bytes_per_sec: u32 = ((block_align as u32 * encoded.sample_rate) + (
    ATRAC3_SAMPLES_PER_FRAME / 2)) / ATRAC3_SAMPLES_PER_FRAME;
    let frame_count: u32 = encoded.frame_count as u32;
    let sample_count: u32 = frame_count * ATRAC3_SAMPLES_PER_FRAME;
    let coding_mode: u16 = coding_mode_extradata(encoded);
    let data_size: u32 = frame_count * block_align as u32;
    let mut bytes: Vec<u8> = Vec::with_capacity(CONTAINER_HEADER_BYTES + data_size as usize);
    let riff_size: u32 = 4 + (8 + ATRAC3_FMT_CHUNK_SIZE) + (8 + ATRAC3_FACT_CHUNK_SIZE) + (8
        + data_size);
    let riff: [u8; 4] = [0x52, 0x49, 0x46, 0x46];
    let wave: [u8; 4] = [0x57, 0x41, 0x56, 0x45];
    let fmt: [u8; 4] = [0x66, 0x6d, 0x74, 0x20];
    let fact: [u8; 4] = [0x66, 0x61, 0x63, 0x74];
    let data: [u8; 4] = [0x64, 0x61, 0x74, 0x61];
    assert(riff@ =~= riff_tag());
    assert(wave@ =~= wave_tag());
    assert(fmt@ =~= fmt_tag());
    assert(fact@ =~= fact_tag());
    assert(data@ =~= data_tag());
    bytes.extend_from_slice(&riff);
    push_u32_le(&mut bytes, riff_size);
    bytes.extend_from_slice(&wave);
    bytes.extend_from_slice(&fmt);
    push_u32_le(&mut bytes, ATRAC3_FMT_CHUNK_SIZE);
    push_u16_le(&mut bytes, ATRAC3_WAVE_FORMAT_TAG);
    push_u16_le(&mut bytes, channels);
    push_u32_le(&mut bytes, encoded.sample_rate);
    push_u32_le(&mut bytes, avg_bytes_per_sec);
    push_u16_le(&mut bytes, block_align);
    push_u16_le(&mut bytes, 0);
    push_u16_le(&mut bytes, ATRAC3_WAV_EXTRADATA_SIZE);
    push_u16_le(&mut bytes, 1);
    push_u32_le(&mut bytes, 0x1000);
    push_u16_le(&mut bytes, coding_mode);
    push_u16_le(&mut bytes, coding_mode);
    push_u16_le(&mut bytes, bitrate.frame_factor());
    push_u16_le(&mut bytes, 0);
    bytes.extend_from_slice(&fact);
    push_u32_le(&mut bytes, ATRAC3_FACT_CHUNK_SIZE);
    push_u32_le(&mut bytes, sample_count);
    push_u32_le(&mut bytes, ATRAC3_SAMPLES_PER_FRAME);
    bytes.extend_from_slice(&data);
    push_u32_le(&mut bytes, data_size);
    let ghost header = container_header(
        channels,
        block_align,
        avg_bytes_per_sec,
        coding_mode,
        sample_count,
        data_size,
    );
    assert(bytes@ =~= header) by {
        reveal(container_header);
    }
    let ghost frames = encoded.frames@;
    let ghost cc = encoded.channel_count as nat;
    proof {
        assert(cc * slot_n == slot_n * cc) by (nonlinear_arith);
    }
    assert(wrapped_stream(*encoded, options) == match frames_body(frames, cc, slot_n) {
        Err(x) => Err(x),
        Ok(body) => Ok((bitrate, block_align, avg_bytes_per_sec, header + body)),
    });
    let mut i: usize = 0;
    while i < encoded.frames.len()
        invariant
            i <= frames.len(),
            frames == encoded.frames@,
            cc == encoded.channel_count,
            1 <= cc <= 2,
            slot_n == channel_slot_size,
            max_frame_unit_len(frames) <= slot_n,
            CONTAINER_HEADER_BYTES + frames.len() * (cc * slot_n) <= usize::MAX,
            header.len() == CONTAINER_HEADER_BYTES,
            wrapped_stream(*encoded, options) == match frames_body(frames, cc, slot_n) {
                Err(x) => Err(x),
                Ok(body) => Ok((bitrate, block_align, avg_bytes_per_sec, header + body)),
            },
            frames_body(frames.take(i as int), cc, slot_n) is Ok,
            bytes@ == header + frames_body(frames.take(i as int), cc, slot_n)->Ok_0,
        decreases frames.len() - i,
    {
        let frame = &encoded.frames[i];
        assert(frames.take(i + 1).drop_last() =~= frames.take(i as int));
        assert(frames.take(i + 1).last() == frames[i as int]);
        if frame.channels.len() != encoded.channel_count {
            proof {
                lemma_frames_body_err(frames, cc, slot_n, i + 1);
            }
            return Err(
                Atrac3Error::FrameChannelCountMismatch {
                    actual: frame.channels.len(),
                    expected: encoded.channel_count,
                },
            );
        }
        proof {
            lemma_max_frame_prefix(frames, i as int);
            lemma_frames_body_len(frames.take(i as int), cc, slot_n);
        }
        let ghost prev = bytes@;
        let mut j: usize = 0;
        while j < frame.channels.len()
            invariant
                i < frames.len(),
                *frame == frames[i as int],
                frame.channels@.len() == cc,
                1 <= cc <= 2,
                slot_n == channel_slot_size,
                max_frame_unit_len(frames) <= slot_n,
                CONTAINER_HEADER_BYTES + frames.len() * (cc * slot_n) <= usize::MAX,
                prev.len() == CONTAINER_HEADER_BYTES + i * (cc * slot_n),
                j <= frame.channels@.len(),
                bytes@ == prev + units_body(frame.channels@.take(j as int), slot_n),
            decreases frame.channels@.len() - j,
        {
            let unit = &frame.channels[j];
            proof {
                lemma_max_frame_unit_len(frames, i as int, j as int);
                assert(frame.channels@.take(j + 1).drop_last() =~= frame.channels@.take(j as int));
                assert(frame.channels@.take(j + 1).last() == frame.channels@[j as int]);
                assert(max_unit_len(frame.channels@.take(j as int)) <= slot_n) by {
                    assert forall|k: int| 0 <= k < j implies #[trigger] frame.channels@.take(
                        j as int,
                    )[k].bytes@.len() <= slot_n by {
                        lemma_max_frame_unit_len(frames, i as int, k);
                    }
                    lemma_max_unit_len_bound(frame.channels@.take(j as int), slot_n);
                }
                lemma_units_body_len(frame.channels@.take(j as int), slot_n);
                lemma_body_bound(i as nat, j as nat, cc, slot_n, frames.len());
            }
            if unit.bytes.len() > channel_slot_size {
                return Err(
                    Atrac3Error::ChannelSlotOverflow {
                        size: unit.bytes.len(),
                        slot: channel_slot_size,
                    },
                );
            }
            let ghost before = bytes@;
            bytes.extend_from_slice(unit.bytes.as_slice());
            assert(bytes@ =~= before + unit.bytes@);
            let padding: usize = channel_slot_size - unit.bytes.len();
            let ghost mid = bytes@;
            if padding > 0 {
                bytes.resize(bytes.len() + padding, 0);
            }
            assert(bytes@ =~= mid + zeros(padding as nat));
            j = j + 1;
        }
        assert(frame.channels@.take(frame.channels@.len() as int) =~= frame.channels@);
        i = i + 1;
    }
    assert(frames.take(frames.len() as int) =~= frames);
    Ok(Atrac3Container { bitrate, block_align, avg_bytes_per_sec, bytes })
}

pub proof fn lemma_max_frame_prefix(frames: Seq<PrototypeFrame>, k: int)
    requires
        0 <= k <= frames.len(),
    ensures
        max_frame_unit_len(frames.take(k)) <= max_frame_unit_len(frames),
    decreases frames.len(),
{
    if k == frames.len() {
        assert(frames.take(k) =~= frames);
    } else {
        assert(frames.drop_last().take(k) =~= frames.take(k));
        lemma_max_frame_prefix(frames.drop_last(), k);
    }
}

pub proof fn lemma_max_unit_len_bound(units: Seq<PrototypeFrameChannel>, bound: nat)
    requires
        forall|k: int| 0 <= k < units.len() ==> #[trigger] units[k].bytes@.len() <= bound,
    ensures
        max_unit_len(units) <= bound,
    decreases units.len(),
{
    if units.len() > 0 {
        assert forall|k: int| 0 <= k < units.drop_last().len() implies #[trigger] units.drop_last()[k].bytes@.len() <= bound by {
            assert(units.drop_last()[k] == units[k]);
        }
        lemma_max_unit_len_bound(units.drop_last(), bound);
    }
}

} // verus!

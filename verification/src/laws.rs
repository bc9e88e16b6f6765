use vstd::prelude::*;

use crate::container::{
    container_header, fact_tag, frames_body, le16_bytes, le32_bytes, lemma_frames_body_len,
    lemma_units_body_len, max_unit_len, padded_unit, units_body, per_channel_bytes, selected_bitrate, stream_check, wrap_fits, wrapped_stream,
    max_frame_unit_len, smallest_fitting_bitrate, Atrac3Bitrate, Atrac3ContainerOptions,
    ATRAC3_WAVE_FORMAT_TAG, CONTAINER_HEADER_BYTES,
};
use crate::prototype::{PrototypeEncodeResult, PrototypeFrame, PrototypeFrameChannel};
use crate::bitstream::{bits_value, bytes_to_bits, value_bits, BitWriter};
use crate::quant::{mantissa_chunks, ATRAC3_CLC_LENGTH_TAB};
use crate::sound_unit::CodingMode;
use crate::encoding::seq_enc;
use crate::quant_tonal::{component_bits, components_bits, flagged_cells_bits, tonal_cost};
use crate::encoding::{lemma_seq_check_each, seq_bits, seq_check};
use crate::sound_unit::{
    gain_band_bits, gain_band_bits_fn, gain_band_check, gain_band_check_fn, gain_point_bits,
    gain_point_bits_fn, gain_point_check, gain_point_check_fn, lemma_gain_points_bits_len,
    selector_code, sound_unit_body, sound_unit_check, sound_unit_enc, sound_unit_header,
    ChannelSoundUnit, GainBand, GainPoint,
    flagged_cells_enc, lemma_tonal_cell_enc_len, tonal_component_body, tonal_component_body_fn,
    TonalCell, TonalCodingModeSelector, TonalComponent, spectral_unit_body, spectral_unit_check,
    subband_check_fn, subband_payload_enc_fn, subband_sf_bits_fn, subband_table_bits_fn,
    SpectralSubband, SpectralUnit,
};
use crate::inspect::{
    data_tag, fmt_tag, le16, le32, riff_parse, riff_tag, riff_walk, tag_at, wave_tag,
    ParsedAtrac3Container, RiffState, slot_bytes, parse_bands, parse_points, prefix_parse,
    read_field, ParsedGainPoint, PrefixModel,
};

verus! {

proof fn lemma_le16_read(b: Seq<u8>, i: int, v: u16)
    requires
        0 <= i,
        i + 2 <= b.len(),
        b.subrange(i, i + 2) == le16_bytes(v),
    ensures
        le16(b, i) == v,
{
    assert(b[i] == b.subrange(i, i + 2)[0]);
    assert(b[i + 1] == b.subrange(i, i + 2)[1]);
    let lo = v % 256;
    let hi = v / 256;
    assert(lo + 256 * hi == v);
}

proof fn lemma_le32_read(b: Seq<u8>, i: int, v: u32)
    requires
        0 <= i,
        i + 4 <= b.len(),
        b.subrange(i, i + 4) == le32_bytes(v),
    ensures
        le32(b, i) == v,
{
    assert(b[i] == b.subrange(i, i + 4)[0]);
    assert(b[i + 1] == b.subrange(i, i + 4)[1]);
    assert(b[i + 2] == b.subrange(i, i + 4)[2]);
    assert(b[i + 3] == b.subrange(i, i + 4)[3]);
    let b0 = v % 256;
    let b1 = (v / 256) % 256;
    let b2 = (v / 65536) % 256;
    let b3 = v / 16777216;
    assert(b0 + 256 * b1 + 65536 * b2 + 16777216 * b3 == v) by (nonlinear_arith)
        requires
            b0 == v % 256,
            b1 == (v / 256) % 256,
            b2 == (v / 65536) % 256,
            b3 == v / 16777216,
    ;
}

/// Where the fields the parser reads stand in the header.
proof fn lemma_header_fields(
    channels: u16,
    block_align: u16,
    avg: u32,
    coding_mode: u16,
    sample_count: u32,
    data_size: u32,
    body: Seq<u8>,
)
    ensures
        ({
            let b = container_header(
                channels,
                block_align,
                avg,
                coding_mode,
                sample_count,
                data_size,
            ) + body;
            &&& b.len() == CONTAINER_HEADER_BYTES + body.len()
            &&& b.subrange(0, 4) == riff_tag()
            &&& b.subrange(8, 12) == wave_tag()
            &&& b.subrange(12, 16) == fmt_tag()
            &&& b.subrange(16, 20) == le32_bytes(32)
            &&& b.subrange(20, 22) == le16_bytes(ATRAC3_WAVE_FORMAT_TAG)
            &&& b.subrange(22, 24) == le16_bytes(channels)
            &&& b.subrange(32, 34) == le16_bytes(block_align)
            &&& b.subrange(52, 56) == fact_tag()
            &&& b.subrange(56, 60) == le32_bytes(8)
            &&& b.subrange(68, 72) == data_tag()
            &&& b.subrange(72, 76) == le32_bytes(data_size)
        }),
{
    reveal(container_header);
    let b = container_header(channels, block_align, avg, coding_mode, sample_count, data_size)
        + body;
    assert(b.subrange(0, 4) =~= riff_tag());
    assert(b.subrange(8, 12) =~= wave_tag());
    assert(b.subrange(12, 16) =~= fmt_tag());
    assert(b.subrange(16, 20) =~= le32_bytes(32));
    assert(b.subrange(20, 22) =~= le16_bytes(ATRAC3_WAVE_FORMAT_TAG));
    assert(b.subrange(22, 24) =~= le16_bytes(channels));
    assert(b.subrange(32, 34) =~= le16_bytes(block_align));
    assert(b.subrange(52, 56) =~= fact_tag());
    assert(b.subrange(56, 60) =~= le32_bytes(8));
    assert(b.subrange(68, 72) =~= data_tag());
    assert(b.subrange(72, 76) =~= le32_bytes(data_size));
}

/// A stream wrapped in a container parses back to the container's layout:
/// its channel count, frame size, the data behind the 76 header bytes and
/// one frame per encoded frame.
pub proof fn law_wrapped_container_parses(e: PrototypeEncodeResult, options: Atrac3ContainerOptions)
    requires
        wrap_fits(e, options),
        wrapped_stream(e, options) is Ok,
        e.frames@.len() == e.frame_count,
        e.frame_count <= u32::MAX,
    ensures
        ({
            let (bitrate, block_align, avg, bytes) = wrapped_stream(e, options)->Ok_0;
            riff_parse(bytes) == Ok::<ParsedAtrac3Container, crate::error::Atrac3Error>(
                ParsedAtrac3Container {
                    channels: e.channel_count as u16,
                    block_align,
                    data_offset: CONTAINER_HEADER_BYTES,
                    data_size: (e.frame_count * block_align) as usize,
                    frame_count: e.frame_count,
                },
            )
        }),
{
    let channels = e.channel_count as u16;
    let cc = e.channel_count as nat;
    let b = selected_bitrate(max_frame_unit_len(e.frames@), channels, options.bitrate)->Ok_0;
    let slot = per_channel_bytes(b);
    assert(max_frame_unit_len(e.frames@) <= slot);
    let block_align = (slot * e.channel_count) as u16;
    assert(block_align == slot * cc);
    let avg = crate::container::avg_bytes_per_sec(block_align as nat) as u32;
    let fc = e.frame_count;
    let sample_count = ((fc as u32) * 1024) as u32;
    assert(fc as u32 == fc);
    let data_size = ((fc as u32) * block_align) as u32;
    assert(data_size == fc * block_align);
    let body = frames_body(e.frames@, cc, slot)->Ok_0;
    lemma_frames_body_len(e.frames@, cc, slot);
    assert(cc * slot == slot * cc) by (nonlinear_arith);
    let bytes = container_header(
        channels,
        block_align,
        avg,
        crate::container::stream_coding_mode(e),
        sample_count,
        data_size,
    ) + body;
    assert(wrapped_stream(e, options)->Ok_0 == (b, block_align, avg, bytes));
    lemma_header_fields(
        channels,
        block_align,
        avg,
        crate::container::stream_coding_mode(e),
        sample_count,
        data_size,
        body,
    );
    assert(bytes.len() == 76 + data_size);
    let half = slot / 2;
    assert(slot == 2 * half);
    assert(data_size == 2 * (fc * half * cc)) by (nonlinear_arith)
        requires
            data_size == fc * block_align,
            block_align == slot * cc,
            slot == 2 * half,
    ;
    assert((fc * block_align) % (block_align as int) == 0 && (fc * block_align) / (
    block_align as int) == fc) by (nonlinear_arith)
        requires
            block_align > 0,
    ;
    lemma_riff_walk_of_header(bytes, channels, block_align, data_size);
}

/// The chunk walk over a written container: the fmt chunk sets the channel
/// count and frame size, the fact chunk is passed over, and the data chunk
/// runs to the end of the file.
proof fn lemma_riff_walk_of_header(bytes: Seq<u8>, channels: u16, block_align: u16, data_size: u32)
    requires
        bytes.len() == 76 + data_size,
        data_size % 2 == 0,
        bytes.subrange(12, 16) == fmt_tag(),
        bytes.subrange(16, 20) == le32_bytes(32),
        bytes.subrange(20, 22) == le16_bytes(ATRAC3_WAVE_FORMAT_TAG),
        bytes.subrange(22, 24) == le16_bytes(channels),
        bytes.subrange(32, 34) == le16_bytes(block_align),
        bytes.subrange(52, 56) == fact_tag(),
        bytes.subrange(56, 60) == le32_bytes(8),
        bytes.subrange(68, 72) == data_tag(),
        bytes.subrange(72, 76) == le32_bytes(data_size),
    ensures
        riff_walk(bytes, 12, (None, None, None, None)) == Ok::<
            RiffState,
            crate::error::Atrac3Error,
        >((Some(channels), Some(block_align), Some(76usize), Some(data_size as usize))),
{
    lemma_le32_read(bytes, 16, 32);
    lemma_le16_read(bytes, 20, ATRAC3_WAVE_FORMAT_TAG);
    lemma_le16_read(bytes, 22, channels);
    lemma_le16_read(bytes, 32, block_align);
    lemma_le32_read(bytes, 56, 8);
    lemma_le32_read(bytes, 72, data_size);
    assert(fact_tag()[1] != fmt_tag()[1]);
    assert(fact_tag()[0] != data_tag()[0]);
    assert(data_tag()[0] != fmt_tag()[0]);
    assert(!tag_at(bytes, 52, fmt_tag()));
    assert(!tag_at(bytes, 52, data_tag()));
    assert(!tag_at(bytes, 68, fmt_tag()));
    let st0: RiffState = (None, None, None, None);
    let st1: RiffState = (Some(channels), Some(block_align), None, None);
    let st2: RiffState = (Some(channels), Some(block_align), Some(76usize), Some(
        data_size as usize,
    ));
    assert(riff_walk(bytes, bytes.len(), st2) == Ok::<RiffState, crate::error::Atrac3Error>(st2));
    assert(riff_walk(bytes, 68, st1) == riff_walk(bytes, bytes.len(), st2));
    assert(riff_walk(bytes, 52, st1) == riff_walk(bytes, 68, st1));
    assert(riff_walk(bytes, 12, st0) == riff_walk(bytes, 52, st1));
}


proof fn lemma_units_body_slot(units: Seq<PrototypeFrameChannel>, slot: nat, c: int)
    requires
        max_unit_len(units) <= slot,
        0 <= c < units.len(),
    ensures
        units_body(units, slot).subrange(c * slot, c * slot + slot) == padded_unit(units[c], slot),
    decreases units.len(),
{
    let n = units.len();
    lemma_units_body_len(units.drop_last(), slot);
    let prev = units_body(units.drop_last(), slot);
    assert(units_body(units, slot) == prev + padded_unit(units.last(), slot));
    assert(units.last().bytes@.len() <= max_unit_len(units));
    if c < n - 1 {
        lemma_units_body_slot(units.drop_last(), slot, c);
        assert(c * slot + slot <= (n - 1) * slot) by (nonlinear_arith)
            requires
                c < n - 1,
        ;
        assert(units.drop_last()[c] == units[c]);
        assert(units_body(units, slot).subrange(c * slot, c * slot + slot) =~= prev.subrange(
            c * slot,
            c * slot + slot,
        ));
    } else {
        assert(units_body(units, slot).subrange(c * slot, c * slot + slot) =~= padded_unit(
            units.last(),
            slot,
        ));
    }
}

proof fn lemma_frames_body_slot(
    frames: Seq<PrototypeFrame>,
    channels: nat,
    slot: nat,
    f: int,
    c: int,
)
    requires
        max_frame_unit_len(frames) <= slot,
        frames_body(frames, channels, slot) is Ok,
        0 <= f < frames.len(),
        0 <= c < channels,
    ensures
        frames[f].channels@.len() == channels,
        frames_body(frames, channels, slot)->Ok_0.subrange(
            f * (channels * slot) + c * slot,
            f * (channels * slot) + c * slot + slot,
        ) == padded_unit(frames[f].channels@[c], slot),
    decreases frames.len(),
{
    let n = frames.len();
    let prev = frames_body(frames.drop_last(), channels, slot)->Ok_0;
    lemma_frames_body_len(frames.drop_last(), channels, slot);
    let start = f * (channels * slot) + c * slot;
    if f < n - 1 {
        lemma_frames_body_slot(frames.drop_last(), channels, slot, f, c);
        assert(frames.drop_last()[f] == frames[f]);
        assert(start + slot <= (n - 1) * (channels * slot)) by (nonlinear_arith)
            requires
                f < n - 1,
                c < channels,
                start == f * (channels * slot) + c * slot,
        ;
        assert(frames_body(frames, channels, slot)->Ok_0.subrange(start, start + slot)
            =~= prev.subrange(start, start + slot));
    } else {
        let units = frames.last().channels@;
        assert(max_unit_len(units) <= slot);
        lemma_units_body_slot(units, slot, c);
        lemma_units_body_len(units, slot);
        assert(f * (channels * slot) == prev.len());
        assert(units.len() == channels);
        assert(frames_body(frames, channels, slot)->Ok_0 == prev + units_body(units, slot));
        assert(c * slot + slot <= channels * slot) by (nonlinear_arith)
            requires
                c < channels,
        ;
        assert(frames_body(frames, channels, slot)->Ok_0.subrange(start, start + slot)
            =~= units_body(units, slot).subrange(c * slot, c * slot + slot));
    }
}

/// In a written container, the slot of channel `c` in frame `f` holds that
/// channel's sound-unit bytes, padded with zeros to the slot size.
pub proof fn law_wrapped_slot_holds_unit(
    e: PrototypeEncodeResult,
    options: Atrac3ContainerOptions,
    f: int,
    c: int,
)
    requires
        wrap_fits(e, options),
        wrapped_stream(e, options) is Ok,
        e.frames@.len() == e.frame_count,
        e.frame_count <= u32::MAX,
        0 <= f < e.frame_count,
        0 <= c < e.channel_count,
    ensures
        ({
            let (bitrate, block_align, avg, bytes) = wrapped_stream(e, options)->Ok_0;
            let parsed = riff_parse(bytes)->Ok_0;
            slot_bytes(bytes, parsed, f as nat, c as nat) == padded_unit(
                e.frames@[f].channels@[c],
                per_channel_bytes(bitrate),
            )
        }),
{
    law_wrapped_container_parses(e, options);
    let channels = e.channel_count as u16;
    let cc = e.channel_count as nat;
    let b = selected_bitrate(max_frame_unit_len(e.frames@), channels, options.bitrate)->Ok_0;
    let slot = per_channel_bytes(b);
    let block_align = (slot * e.channel_count) as u16;
    assert(block_align == slot * cc);
    let avg = crate::container::avg_bytes_per_sec(block_align as nat) as u32;
    let fc = e.frame_count;
    let sample_count = ((fc as u32) * 1024) as u32;
    let data_size = ((fc as u32) * block_align) as u32;
    let body = frames_body(e.frames@, cc, slot)->Ok_0;
    let header = container_header(
        channels,
        block_align,
        avg,
        crate::container::stream_coding_mode(e),
        sample_count,
        data_size,
    );
    let bytes = header + body;
    assert(wrapped_stream(e, options)->Ok_0 == (b, block_align, avg, bytes));
    lemma_header_fields(
        channels,
        block_align,
        avg,
        crate::container::stream_coding_mode(e),
        sample_count,
        data_size,
        body,
    );
    lemma_frames_body_len(e.frames@, cc, slot);
    lemma_frames_body_slot(e.frames@, cc, slot, f, c);
    let parsed = riff_parse(bytes)->Ok_0;
    crate::container::lemma_share(slot, cc);
    assert(cc * slot == slot * cc) by (nonlinear_arith);
    let start = f * (cc * slot) + c * slot;
    assert(crate::inspect::slot_offset(parsed, f as nat, c as nat) == 76 + start);
    assert(start + slot <= fc * (cc * slot)) by (nonlinear_arith)
        requires
            f < fc,
            c < cc,
            start == f * (cc * slot) + c * slot,
    ;
    assert(slot_bytes(bytes, parsed, f as nat, c as nat) =~= body.subrange(start, start + slot));
}


proof fn lemma_flagged_cells_written_len(cells: Seq<TonalCell>, flags: Seq<bool>, n: nat)
    requires
        flagged_cells_enc(cells, flags, n) is Ok,
    ensures
        flagged_cells_enc(cells, flags, n)->Ok_0.len() == flagged_cells_bits(cells, flags, n),
    decreases n,
{
    if n > 0 {
        lemma_flagged_cells_written_len(cells, flags, (n - 1) as nat);
        lemma_tonal_cell_enc_len(cells[n - 1]);
    }
}

proof fn lemma_components_written_len(cs: Seq<TonalComponent>, selector: TonalCodingModeSelector)
    requires
        seq_enc(cs, tonal_component_body_fn(selector)) is Ok,
    ensures
        seq_enc(cs, tonal_component_body_fn(selector))->Ok_0.len() == components_bits(cs, selector),
    decreases cs.len(),
{
    if cs.len() > 0 {
        lemma_components_written_len(cs.drop_last(), selector);
        let c = cs.last();
        assert(tonal_component_body_fn(selector)(c) == tonal_component_body(c, selector));
        lemma_flagged_cells_written_len(c.cells@, c.band_flags@, c.cells@.len());
        assert(tonal_component_body(c, selector)->Ok_0.len() == component_bits(c, selector));
    }
}

/// The bits counted for a tonal section are the bits a sound unit writes
/// for it: five for the component count, two for the mode selector when
/// there are components, and each component's body.
pub proof fn law_tonal_bit_cost_is_written_length(
    components: Seq<TonalComponent>,
    selector: TonalCodingModeSelector,
)
    requires
        seq_enc(components, tonal_component_body_fn(selector)) is Ok,
    ensures
        tonal_cost(components, selector) == 5 + (if components.len() > 0 {
            2nat
        } else {
            0nat
        }) + seq_enc(components, tonal_component_body_fn(selector))->Ok_0.len(),
{
    lemma_components_written_len(components, selector);
    if components.len() == 0 {
        assert(components_bits(components, selector) == 0);
    }
}


proof fn lemma_value_bits_drop_last(value: u32, n: nat)
    requires
        0 < n <= 32,
    ensures
        value_bits(value, n).drop_last() == value_bits(value >> 1u32, (n - 1) as nat),
        value_bits(value, n).last() == ((value & 1u32) == 1u32),
{
    let a = value_bits(value, n).drop_last();
    let b = value_bits(value >> 1u32, (n - 1) as nat);
    assert forall|i: int| 0 <= i < n - 1 implies a[i] == b[i] by {
        let k = (n - 1 - i) as u32;
        let k1 = (n - 2 - i) as u32;
        assert(((value >> k) & 1u32) == (((value >> 1u32) >> k1) & 1u32)) by (bit_vector)
            requires
                k == k1 + 1,
                k < 32,
        ;
    }
    assert(a =~= b);
    assert((value >> 0u32) == value) by (bit_vector);
}

/// The bits `value_bits(value, n)` spell `value` modulo two to the `n`.
pub proof fn lemma_value_bits_spell(value: u32, n: nat)
    requires
        n <= 32,
    ensures
        bits_value(value_bits(value, n)) == value as nat % vstd::arithmetic::power2::pow2(n),
    decreases n,
{
    vstd::arithmetic::power2::lemma2_to64();
    if n == 0 {
        assert(value_bits(value, 0) =~= Seq::<bool>::empty());
    } else {
        lemma_value_bits_drop_last(value, n);
        lemma_value_bits_spell(value >> 1u32, (n - 1) as nat);
        vstd::arithmetic::power2::lemma_pow2_unfold(n);
        vstd::arithmetic::power2::lemma_pow2_pos((n - 1) as nat);
        let m = vstd::arithmetic::power2::pow2((n - 1) as nat);
        assert((value >> 1u32) == value / 2 && (value & 1u32) == value % 2) by (bit_vector);
        vstd::arithmetic::div_mod::lemma_mod_breakdown(value as int, 2, m as int);
    }
}

/// What a writer has written reads back from its bytes: the bits written
/// as `value_bits(value, n)` at position `p` spell `value` modulo two to the
/// `n` when read from `p` of the writer's bytes, which is what
/// `BitReader::read_bits(n)` returns there.
pub proof fn law_written_bits_read_back(w: BitWriter, p: nat, value: u32, n: nat)
    requires
        w.wf(),
        n <= 32,
        p + n <= w@.len(),
        w@.subrange(p as int, (p + n) as int) == value_bits(value, n),
    ensures
        bits_value(bytes_to_bits(w.spec_bytes()).subrange(p as int, (p + n) as int)) == value as nat
            % vstd::arithmetic::power2::pow2(n),
{
    w.lemma_bytes_image();
    let all = bytes_to_bits(w.spec_bytes());
    assert(all.subrange(p as int, (p + n) as int) =~= w@.subrange(p as int, (p + n) as int));
    lemma_value_bits_spell(value, n);
}


/// A field written as `value_bits(value, n)` at `p` reads back as `value`
/// modulo two to the `n`.
proof fn lemma_read_written_field(bits: Seq<bool>, p: nat, value: u32, n: nat)
    requires
        n <= 32,
        p + n <= bits.len(),
        bits.subrange(p as int, (p + n) as int) == value_bits(value, n),
    ensures
        read_field(bits, p, n) == Ok::<nat, crate::error::Atrac3Error>(
            value as nat % vstd::arithmetic::power2::pow2(n),
        ),
{
    lemma_value_bits_spell(value, n);
}

/// Bits holding `a + b` from `p` hold `a` from `p` and `b` after it.
proof fn lemma_split_at(bits: Seq<bool>, p: nat, a: Seq<bool>, b: Seq<bool>)
    requires
        p + a.len() + b.len() <= bits.len(),
        bits.subrange(p as int, (p + a.len() + b.len()) as int) == a + b,
    ensures
        bits.subrange(p as int, (p + a.len()) as int) == a,
        bits.subrange((p + a.len()) as int, (p + a.len() + b.len()) as int) == b,
{
    assert(bits.subrange(p as int, (p + a.len()) as int) =~= (a + b).subrange(0, a.len() as int));
    assert((a + b).subrange(0, a.len() as int) =~= a);
    assert(bits.subrange((p + a.len()) as int, (p + a.len() + b.len()) as int) =~= (a + b).subrange(
        a.len() as int,
        (a.len() + b.len()) as int,
    ));
    assert((a + b).subrange(a.len() as int, (a.len() + b.len()) as int) =~= b);
}

/// A gain point as the prefix parser reports it.
pub open spec fn parsed_point(g: GainPoint) -> ParsedGainPoint {
    ParsedGainPoint { level: g.level, location: g.location }
}

/// A gain band's points as the prefix parser reports them.
pub open spec fn parsed_band(b: GainBand) -> Seq<ParsedGainPoint> {
    b.points@.map_values(|g: GainPoint| parsed_point(g))
}

/// The header fields a written sound unit's prefix parses to.
pub open spec fn written_prefix(u: ChannelSoundUnit) -> PrefixModel {
    let count = u.tonal_components@.len();
    (
        u.coded_qmf_bands,
        u.gain_bands@.map_values(|b: GainBand| parsed_band(b)),
        count as u8,
        if count > 0 {
            Some(selector_code(u.tonal_mode_selector) as u8)
        } else {
            None
        },
        sound_unit_header(u).len(),
    )
}

proof fn lemma_points_read_back(bits: Seq<bool>, p: nat, pts: Seq<GainPoint>, k: nat)
    requires
        k <= pts.len(),
        seq_check(pts, gain_point_check_fn()) is Ok,
        p + 9 * k <= bits.len(),
        bits.subrange(p as int, (p + 9 * k) as int) == seq_bits(pts.take(k as int), gain_point_bits_fn()),
    ensures
        parse_points(bits, p, k) == Ok::<(Seq<ParsedGainPoint>, nat), crate::error::Atrac3Error>(
            (pts.take(k as int).map_values(|g: GainPoint| parsed_point(g)), p + 9 * k),
        ),
    decreases k,
{
    vstd::arithmetic::power2::lemma2_to64();
    if k == 0 {
        assert(pts.take(0).map_values(|g: GainPoint| parsed_point(g)) =~= Seq::<ParsedGainPoint>::empty());
    } else {
        let prev = pts.take(k - 1);
        crate::encoding::lemma_take_last(pts, k - 1);
        lemma_gain_points_bits_len(prev);
        let g = pts[k - 1];
        assert(seq_bits(pts.take(k as int), gain_point_bits_fn()) == seq_bits(prev, gain_point_bits_fn())
            + gain_point_bits(g));
        lemma_split_at(bits, p, seq_bits(prev, gain_point_bits_fn()), gain_point_bits(g));
        assert(bits.subrange(p as int, (p + 9 * (k - 1)) as int) == seq_bits(prev, gain_point_bits_fn()));
        lemma_points_read_back(bits, p, pts, (k - 1) as nat);
        let q = p + 9 * (k - 1);
        lemma_split_at(bits, q as nat, value_bits(g.level as u32, 4), value_bits(g.location as u32, 5));
        lemma_seq_check_each(pts, gain_point_check_fn(), k - 1);
        lemma_read_written_field(bits, q as nat, g.level as u32, 4);
        lemma_read_written_field(bits, (q + 4) as nat, g.location as u32, 5);
        assert(pts.take(k as int).map_values(|g: GainPoint| parsed_point(g)) =~= prev.map_values(
            |g: GainPoint| parsed_point(g),
        ).push(parsed_point(g)));
    }
}

#[verifier::spinoff_prover]
#[verifier::rlimit(50)]
proof fn lemma_bands_read_back(bits: Seq<bool>, p: nat, bands: Seq<GainBand>, k: nat)
    requires
        k <= bands.len(),
        seq_check(bands, gain_band_check_fn()) is Ok,
        p + seq_bits(bands.take(k as int), gain_band_bits_fn()).len() <= bits.len(),
        bits.subrange(p as int, (p + seq_bits(bands.take(k as int), gain_band_bits_fn()).len()) as int)
            == seq_bits(bands.take(k as int), gain_band_bits_fn()),
    ensures
        parse_bands(bits, p, k) == Ok::<(Seq<Seq<ParsedGainPoint>>, nat), crate::error::Atrac3Error>(
            (
                bands.take(k as int).map_values(|b: GainBand| parsed_band(b)),
                p + seq_bits(bands.take(k as int), gain_band_bits_fn()).len(),
            ),
        ),
    decreases k,
{
    vstd::arithmetic::power2::lemma2_to64();
    if k == 0 {
        assert(bands.take(0).map_values(|b: GainBand| parsed_band(b)) =~= Seq::<Seq<ParsedGainPoint>>::empty());
    } else {
        let prev = bands.take(k - 1);
        crate::encoding::lemma_take_last(bands, k - 1);
        let b = bands[k - 1];
        let before = seq_bits(prev, gain_band_bits_fn());
        assert(seq_bits(bands.take(k as int), gain_band_bits_fn()) == before + gain_band_bits(b));
        lemma_split_at(bits, p, before, gain_band_bits(b));
        lemma_bands_read_back(bits, p, bands, (k - 1) as nat);
        let q = p + before.len();
        lemma_seq_check_each(bands, gain_band_check_fn(), k - 1);
        assert(gain_band_check(b) is Ok);
        let pts = b.points@;
        lemma_gain_points_bits_len(pts);
        lemma_split_at(bits, q, value_bits(pts.len() as u32, 3), seq_bits(pts, gain_point_bits_fn()));
        lemma_read_written_field(bits, q, pts.len() as u32, 3);
        crate::encoding::lemma_take_all(pts);
        lemma_points_read_back(bits, q + 3, pts, pts.len());
        assert(bands.take(k as int).map_values(|b: GainBand| parsed_band(b)) =~= prev.map_values(
            |b: GainBand| parsed_band(b),
        ).push(parsed_band(b)));
        assert(pts.take(pts.len() as int).map_values(|g: GainPoint| parsed_point(g)) == parsed_band(b));
    }
}

/// The header a sound unit is written with parses back: reading a channel
/// prefix from bits that begin with a written unit's header gives its coded
/// QMF band count, its gain points, its tonal component count and mode
/// selector, and the header's length.
#[verifier::spinoff_prover]
#[verifier::rlimit(50)]
pub proof fn law_written_header_parses(u: ChannelSoundUnit, bits: Seq<bool>)
    requires
        sound_unit_check(u) is Ok,
        u.tonal_components@.len() < 32,
        sound_unit_header(u).len() <= bits.len(),
        bits.subrange(0, sound_unit_header(u).len() as int) == sound_unit_header(u),
    ensures
        prefix_parse(bits) == Ok::<PrefixModel, crate::error::Atrac3Error>(written_prefix(u)),
{
    vstd::arithmetic::power2::lemma2_to64();
    let h = sound_unit_header(u);
    let id = value_bits(crate::sound_unit::SOUND_UNIT_ID as u32, 6);
    let q = value_bits((u.coded_qmf_bands - 1) as u32, 2);
    let gains = seq_bits(u.gain_bands@, gain_band_bits_fn());
    let count = u.tonal_components@.len();
    let cnt = value_bits(count as u32, 5);
    let sel = if count > 0 {
        value_bits(selector_code(u.tonal_mode_selector), 2)
    } else {
        Seq::empty()
    };
    assert(h == id + q + gains + cnt + sel);
    lemma_split_at(bits, 0, id + q + gains + cnt, sel);
    lemma_split_at(bits, 0, id + q + gains, cnt);
    lemma_split_at(bits, 0, id + q, gains);
    lemma_split_at(bits, 0, id, q);
    lemma_read_written_field(bits, 0, crate::sound_unit::SOUND_UNIT_ID as u32, 6);
    lemma_read_written_field(bits, 6, (u.coded_qmf_bands - 1) as u32, 2);
    crate::encoding::lemma_take_all(u.gain_bands@);
    lemma_bands_read_back(bits, 8, u.gain_bands@, u.gain_bands@.len());
    let p = 8 + gains.len();
    lemma_read_written_field(bits, p, count as u32, 5);
    if count > 0 {
        lemma_read_written_field(bits, p + 5, selector_code(u.tonal_mode_selector), 2);
    }
}


/// What a sound unit is written as begins with its header, so the channel
/// prefix parsed from a writer's bytes holding a written unit gives the
/// unit's header fields (with fewer than 32 tonal components, the count's
/// five bits holding it).
pub proof fn law_written_unit_prefix_parses(u: ChannelSoundUnit, w: BitWriter)
    requires
        w.wf(),
        sound_unit_enc(u) is Ok,
        u.tonal_components@.len() < 32,
        sound_unit_enc(u)->Ok_0.len() <= w@.len(),
        w@.subrange(0, sound_unit_enc(u)->Ok_0.len() as int) == sound_unit_enc(u)->Ok_0,
    ensures
        prefix_parse(bytes_to_bits(w.spec_bytes())) == Ok::<PrefixModel, crate::error::Atrac3Error>(
            written_prefix(u),
        ),
{
    let e = sound_unit_enc(u)->Ok_0;
    let h = sound_unit_header(u);
    assert(sound_unit_body(u) is Ok);
    assert(e.subrange(0, h.len() as int) =~= h);
    w.lemma_bytes_image();
    let bits = bytes_to_bits(w.spec_bytes());
    assert(bits.subrange(0, h.len() as int) =~= h);
    law_written_header_parses(u, bits);
}

/// The bytes an encoded channel holds (its unit's bits, zero-padded to a
/// byte boundary, as `encode_channel` gives them) parse back to the unit's
/// header fields (with fewer than 32 tonal components).
pub proof fn law_encoded_channel_prefix_parses(u: ChannelSoundUnit, bytes: Seq<u8>)
    requires
        sound_unit_enc(u) is Ok,
        u.tonal_components@.len() < 32,
        bytes.len() * 8 >= sound_unit_enc(u)->Ok_0.len(),
        bytes_to_bits(bytes) == sound_unit_enc(u)->Ok_0 + Seq::new(
            (bytes.len() * 8 - sound_unit_enc(u)->Ok_0.len()) as nat,
            |i: int| false,
        ),
    ensures
        prefix_parse(bytes_to_bits(bytes)) == Ok::<PrefixModel, crate::error::Atrac3Error>(
            written_prefix(u),
        ),
{
    let e = sound_unit_enc(u)->Ok_0;
    let h = sound_unit_header(u);
    assert(sound_unit_body(u) is Ok);
    assert(e.subrange(0, h.len() as int) =~= h);
    let bits = bytes_to_bits(bytes);
    assert(bits.subrange(0, h.len() as int) =~= h);
    law_written_header_parses(u, bits);
}


/// The counts a wrapped container records, read back as little-endian
/// words: the sample rate 44100 at byte 24, the average byte rate at byte 28,
/// the total sample count (1024 per frame) at byte 60 and the 1024 samples
/// per frame at byte 64 (while the sample count fits its 32-bit field).
pub proof fn law_wrapped_container_counts(e: PrototypeEncodeResult, options: Atrac3ContainerOptions)
    requires
        wrapped_stream(e, options) is Ok,
        e.frame_count * 1024 <= u32::MAX,
    ensures
        ({
            let (bitrate, block_align, avg, bytes) = wrapped_stream(e, options)->Ok_0;
            &&& le32(bytes, 24) == 44100
            &&& le32(bytes, 28) == avg
            &&& le32(bytes, 60) == e.frame_count * 1024
            &&& le32(bytes, 64) == 1024
        }),
{
    reveal(container_header);
    let channels = e.channel_count as u16;
    let b = selected_bitrate(max_frame_unit_len(e.frames@), channels, options.bitrate)->Ok_0;
    let slot = per_channel_bytes(b);
    let block_align = (slot * e.channel_count) as u16;
    let avg = crate::container::avg_bytes_per_sec(block_align as nat) as u32;
    let fc = e.frame_count;
    assert(fc as u32 == fc);
    let sample_count = ((fc as u32) * 1024) as u32;
    assert(sample_count == fc * 1024);
    let data_size = ((fc as u32) * block_align) as u32;
    let body = frames_body(e.frames@, e.channel_count as nat, slot)->Ok_0;
    let h = container_header(
        channels,
        block_align,
        avg,
        crate::container::stream_coding_mode(e),
        sample_count,
        data_size,
    );
    let bytes = h + body;
    assert(wrapped_stream(e, options)->Ok_0 == (b, block_align, avg, bytes));
    assert(h.len() == 76);
    assert(bytes.subrange(24, 28) =~= le32_bytes(44100));
    assert(bytes.subrange(28, 32) =~= le32_bytes(avg));
    assert(bytes.subrange(60, 64) =~= le32_bytes(sample_count));
    assert(bytes.subrange(64, 68) =~= le32_bytes(1024));
    lemma_le32_read(bytes, 24, 44100);
    lemma_le32_read(bytes, 28, avg);
    lemma_le32_read(bytes, 60, sample_count);
    lemma_le32_read(bytes, 64, 1024);
}


/// The signed value a `w`-bit two's-complement field `v` holds.
pub open spec fn signed_field(v: nat, w: nat) -> int {
    if v >= vstd::arithmetic::power2::pow2((w - 1) as nat) {
        v - vstd::arithmetic::power2::pow2(w)
    } else {
        v as int
    }
}

/// The CLC field width of a selector above 1: 3 bits for selectors 2 and 3,
/// 4 for 4 and 5, 5 for 6 and 6 for 7.
pub open spec fn clc_field_width(selector: u8) -> nat {
    if selector <= 3 {
        3
    } else if selector <= 5 {
        4
    } else if selector == 6 {
        5
    } else {
        6
    }
}

proof fn lemma_clc_field_round(x: i8, w: nat)
    requires
        3 <= w <= 6,
        -vstd::arithmetic::power2::pow2((w - 1) as nat) <= x < vstd::arithmetic::power2::pow2(
            (w - 1) as nat,
        ),
    ensures
        (((x as i32) as u32) as nat % vstd::arithmetic::power2::pow2(w)) < vstd::arithmetic::power2::pow2(w),
        signed_field(((x as i32) as u32) as nat % vstd::arithmetic::power2::pow2(w), w) == x,
{
    vstd::arithmetic::power2::lemma2_to64();
    let u: u32 = (x as i32) as u32;
    if w == 3 {
        assert(x >= 0 ==> u % 8 == x) by (bit_vector)
            requires
                u == (x as i32) as u32,
                -4 <= x < 4,
        ;
        assert(x < 0 ==> u % 8 == x + 8) by (bit_vector)
            requires
                u == (x as i32) as u32,
                -4 <= x < 4,
        ;
    } else if w == 4 {
        assert(x >= 0 ==> u % 16 == x) by (bit_vector)
            requires
                u == (x as i32) as u32,
                -8 <= x < 8,
        ;
        assert(x < 0 ==> u % 16 == x + 16) by (bit_vector)
            requires
                u == (x as i32) as u32,
                -8 <= x < 8,
        ;
    } else if w == 5 {
        assert(x >= 0 ==> u % 32 == x) by (bit_vector)
            requires
                u == (x as i32) as u32,
                -16 <= x < 16,
        ;
        assert(x < 0 ==> u % 32 == x + 32) by (bit_vector)
            requires
                u == (x as i32) as u32,
                -16 <= x < 16,
        ;
    } else {
        assert(x >= 0 ==> u % 64 == x) by (bit_vector)
            requires
                u == (x as i32) as u32,
                -32 <= x < 32,
        ;
        assert(x < 0 ==> u % 64 == x + 64) by (bit_vector)
            requires
                u == (x as i32) as u32,
                -32 <= x < 32,
        ;
    }
}

/// CLC coding with a selector from 2 to 7 never fails and writes one field
/// per mantissa, each of the selector's fixed width (3, 3, 4, 4, 5, 6 bits),
/// holding the mantissa in two's complement: a mantissa that fits the width
/// reads back from its field.
pub proof fn law_clc_mantissa_fields(selector: u8, m: Seq<i8>)
    requires
        2 <= selector <= 7,
    ensures
        mantissa_chunks(selector, CodingMode::Clc, m) is Ok,
        ({
            let cs = mantissa_chunks(selector, CodingMode::Clc, m)->Ok_0;
            let w = clc_field_width(selector);
            &&& cs.len() == m.len()
            &&& forall|i: int|
                0 <= i < m.len() ==> {
                    &&& (#[trigger] cs[i]).bits == w
                    &&& (cs[i].value as nat) < vstd::arithmetic::power2::pow2(w)
                    &&& (-vstd::arithmetic::power2::pow2((w - 1) as nat) <= m[i]
                        < vstd::arithmetic::power2::pow2((w - 1) as nat) ==> signed_field(
                        cs[i].value as nat,
                        w,
                    ) == m[i])
                }
        }),
{
    vstd::arithmetic::power2::lemma2_to64();
    let w = clc_field_width(selector);
    assert(ATRAC3_CLC_LENGTH_TAB@[selector as int] == w);
    let cs = mantissa_chunks(selector, CodingMode::Clc, m)->Ok_0;
    assert forall|i: int| 0 <= i < m.len() implies {
        &&& (#[trigger] cs[i]).bits == w
        &&& (cs[i].value as nat) < vstd::arithmetic::power2::pow2(w)
        &&& (-vstd::arithmetic::power2::pow2((w - 1) as nat) <= m[i]
            < vstd::arithmetic::power2::pow2((w - 1) as nat) ==> signed_field(cs[i].value as nat, w)
            == m[i])
    } by {
        let x = m[i];
        let u: u32 = (x as i32) as u32;
        let v = u as nat % vstd::arithmetic::power2::pow2(w);
        assert(v < vstd::arithmetic::power2::pow2(w));
        assert(v < 64);
        assert(cs[i].value == v as u32);
        assert(cs[i].value as nat == v);
        if -vstd::arithmetic::power2::pow2((w - 1) as nat) <= x < vstd::arithmetic::power2::pow2(
            (w - 1) as nat,
        ) {
            lemma_clc_field_round(x, w);
        }
    }
}


/// How many of the first `i` subbands carry a scale factor.
pub open spec fn coded_before(s: Seq<SpectralSubband>, i: int) -> int
    decreases i,
{
    if i <= 0 {
        0
    } else {
        coded_before(s, i - 1) + if s[i - 1].scale_factor_index is Some {
            1int
        } else {
            0int
        }
    }
}

proof fn lemma_table_fields(s: Seq<SpectralSubband>)
    ensures
        seq_bits(s, subband_table_bits_fn()).len() == 3 * s.len(),
        forall|i: int|
            0 <= i < s.len() ==> #[trigger] seq_bits(s, subband_table_bits_fn()).subrange(
                3 * i,
                3 * i + 3,
            ) == value_bits(s[i].table_index as u32, 3),
    decreases s.len(),
{
    if s.len() > 0 {
        let p = s.drop_last();
        lemma_table_fields(p);
        let a = seq_bits(p, subband_table_bits_fn());
        let t = seq_bits(s, subband_table_bits_fn());
        assert(t == a + value_bits(s.last().table_index as u32, 3));
        assert forall|i: int| 0 <= i < s.len() implies #[trigger] t.subrange(3 * i, 3 * i + 3)
            == value_bits(s[i].table_index as u32, 3) by {
            if i < s.len() - 1 {
                assert(t.subrange(3 * i, 3 * i + 3) =~= a.subrange(3 * i, 3 * i + 3));
                assert(p[i] == s[i]);
            } else {
                assert(t.subrange(3 * i, 3 * i + 3) =~= value_bits(s.last().table_index as u32, 3));
            }
        }
    }
}

proof fn lemma_coded_before_mono(s: Seq<SpectralSubband>, i: int, j: int)
    requires
        0 <= i <= j,
    ensures
        coded_before(s, i) <= coded_before(s, j),
    decreases j,
{
    if j > i {
        lemma_coded_before_mono(s, i, j - 1);
    }
}

proof fn lemma_sf_fields(s: Seq<SpectralSubband>)
    ensures
        seq_bits(s, subband_sf_bits_fn()).len() == 6 * coded_before(s, s.len() as int),
        forall|i: int|
            0 <= i < s.len() && (#[trigger] s[i]).scale_factor_index is Some ==> seq_bits(
                s,
                subband_sf_bits_fn(),
            ).subrange(6 * coded_before(s, i), 6 * coded_before(s, i) + 6) == value_bits(
                s[i].scale_factor_index->Some_0 as u32,
                6,
            ),
    decreases s.len(),
{
    if s.len() > 0 {
        let p = s.drop_last();
        lemma_sf_fields(p);
        let n = s.len() as int;
        assert forall|k: int| 0 <= k <= n - 1 implies #[trigger] coded_before(p, k) == coded_before(s, k) by {
            lemma_coded_before_prefix(s, k);
        }
        let a = seq_bits(p, subband_sf_bits_fn());
        let t = seq_bits(s, subband_sf_bits_fn());
        assert(t == a + subband_sf_bits_fn()(s.last()));
        assert forall|i: int| 0 <= i < s.len() && (#[trigger] s[i]).scale_factor_index is Some implies t.subrange(
            6 * coded_before(s, i),
            6 * coded_before(s, i) + 6,
        ) == value_bits(s[i].scale_factor_index->Some_0 as u32, 6) by {
            if i < n - 1 {
                assert(p[i] == s[i]);
                lemma_coded_before_mono(p, i + 1, n - 1);
                lemma_coded_before_mono(p, 0, i);
                assert(coded_before(p, i + 1) == coded_before(p, i) + 1);
                assert(a.len() == 6 * coded_before(p, n - 1));
                assert(t.subrange(6 * coded_before(s, i), 6 * coded_before(s, i) + 6) =~= a.subrange(
                    6 * coded_before(p, i),
                    6 * coded_before(p, i) + 6,
                ));
            } else {
                assert(t.subrange(6 * coded_before(s, i), 6 * coded_before(s, i) + 6) =~= value_bits(
                    s.last().scale_factor_index->Some_0 as u32,
                    6,
                ));
            }
        }
    }
}

proof fn lemma_coded_before_prefix(s: Seq<SpectralSubband>, k: int)
    requires
        0 <= k < s.len(),
    ensures
        coded_before(s.drop_last(), k) == coded_before(s, k),
    decreases k,
{
    if k > 0 {
        lemma_coded_before_prefix(s, k - 1);
        assert(s.drop_last()[k - 1] == s[k - 1]);
    }
}

/// The spectral part of a written sound unit begins with its header laid out
/// field by field: the subband count less one in 5 bits, the coding mode bit
/// (1 for CLC), then the 3-bit table index of every subband in order, then
/// the 6-bit scale factor of every coded subband in order; so the `i`-th
/// table index sits at bit `6 + 3i` and the scale factor of a coded subband
/// at `6 + 3n` plus six bits per coded subband before it.
pub proof fn law_spectral_header_layout(u: SpectralUnit)
    requires
        spectral_unit_check(u) is Ok,
        spectral_unit_body(u) is Ok,
    ensures
        ({
            let b = spectral_unit_body(u)->Ok_0;
            let s = u.subbands@;
            let n = s.len() as int;
            let sf0 = 6 + 3 * n;
            &&& b.len() >= sf0 + 6 * coded_before(s, n)
            &&& bits_value(b.subrange(0, 5)) == n - 1
            &&& bits_value(b.subrange(5, 6)) == if u.coding_mode == CodingMode::Clc {
                1int
            } else {
                0int
            }
            &&& forall|i: int|
                0 <= i < n ==> bits_value(#[trigger] b.subrange(6 + 3 * i, 9 + 3 * i))
                    == s[i].table_index
            &&& forall|i: int|
                0 <= i < n && (#[trigger] s[i]).scale_factor_index is Some ==> bits_value(
                    b.subrange(sf0 + 6 * coded_before(s, i), sf0 + 6 * coded_before(s, i) + 6),
                ) == s[i].scale_factor_index->Some_0
        }),
{
    vstd::arithmetic::power2::lemma2_to64();
    let s = u.subbands@;
    let n = s.len() as int;
    let sf0 = 6 + 3 * n;
    let cnt = value_bits((n - 1) as u32, 5);
    let mode = value_bits(crate::sound_unit::coding_mode_code(u.coding_mode), 1);
    let t = seq_bits(s, subband_table_bits_fn());
    let f = seq_bits(s, subband_sf_bits_fn());
    let payloads = seq_enc(s, subband_payload_enc_fn())->Ok_0;
    let b = spectral_unit_body(u)->Ok_0;
    assert(b == cnt + mode + t + f + payloads);
    lemma_table_fields(s);
    lemma_sf_fields(s);
    assert(b.subrange(0, 5) =~= cnt);
    lemma_value_bits_spell((n - 1) as u32, 5);
    assert(b.subrange(5, 6) =~= mode);
    lemma_value_bits_spell(crate::sound_unit::coding_mode_code(u.coding_mode), 1);
    assert forall|i: int| 0 <= i < n implies bits_value(#[trigger] b.subrange(6 + 3 * i, 9 + 3 * i))
        == s[i].table_index by {
        assert(b.subrange(6 + 3 * i, 9 + 3 * i) =~= t.subrange(3 * i, 3 * i + 3));
        lemma_seq_check_each(s, subband_check_fn(), i);
        lemma_value_bits_spell(s[i].table_index as u32, 3);
    }
    assert forall|i: int| 0 <= i < n && (#[trigger] s[i]).scale_factor_index is Some implies bits_value(
        b.subrange(sf0 + 6 * coded_before(s, i), sf0 + 6 * coded_before(s, i) + 6),
    ) == s[i].scale_factor_index->Some_0 by {
        lemma_coded_before_mono(s, i + 1, n);
        lemma_coded_before_mono(s, 0, i);
        assert(coded_before(s, i + 1) == coded_before(s, i) + 1);
        assert(cnt.len() == 5 && mode.len() == 1 && t.len() == 3 * n);
        assert(f.len() == 6 * coded_before(s, n));
        assert(b.subrange(sf0 + 6 * coded_before(s, i), sf0 + 6 * coded_before(s, i) + 6)
            =~= f.subrange(6 * coded_before(s, i), 6 * coded_before(s, i) + 6));
        lemma_seq_check_each(s, subband_check_fn(), i);
        lemma_value_bits_spell(s[i].scale_factor_index->Some_0 as u32, 6);
    }
}

} // verus!

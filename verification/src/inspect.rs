use vstd::prelude::*;

use crate::bitstream::{bits_value, bytes_to_bits, BitReader};
use crate::error::Atrac3Error;
use crate::gain::{decoder_window_kind, window_kind, DecoderWindowKind};
use crate::sound_unit::SOUND_UNIT_ID;

verus! {

#[derive(Debug, Clone, Copy, PartialEq, Eq, Structural)]
pub struct ParsedGainPoint {
    pub level: u8,
    pub location: u8,
}

#[derive(Debug, Clone, PartialEq, Eq)]
pub struct ParsedChannelPrefix {
    pub coded_qmf_bands: u8,
    pub gain_bands: Vec<Vec<ParsedGainPoint>>,
    pub tonal_component_count: u8,
    pub tonal_mode_selector: Option<u8>,
    pub consumed_bits: usize,
}

#[derive(Debug, Clone, Copy, PartialEq, Eq, Structural)]
pub struct ParsedAtrac3Container {
    pub channels: u16,
    pub block_align: u16,
    pub data_offset: usize,
    pub data_size: usize,
    pub frame_count: usize,
}

/// What a prefix parse yields: coded QMF bands, the gain points of each
/// band, the tonal component count, the tonal mode selector and the number
/// of bits consumed.
pub type PrefixModel = (u8, Seq<Seq<ParsedGainPoint>>, u8, Option<u8>, nat);

pub open spec fn band_view_fn() -> spec_fn(Vec<ParsedGainPoint>) -> Seq<ParsedGainPoint> {
    |v: Vec<ParsedGainPoint>| v@
}

pub open spec fn prefix_view(pp: ParsedChannelPrefix) -> PrefixModel {
    (
        pp.coded_qmf_bands,
        pp.gain_bands@.map_values(band_view_fn()),
        pp.tonal_component_count,
        pp.tonal_mode_selector,
        pp.consumed_bits as nat,
    )
}

/// Reading an `n`-bit field at bit `p`.
pub open spec fn read_field(bits: Seq<bool>, p: nat, n: nat) -> Result<nat, Atrac3Error> {
    if p + n > bits.len() {
        Err(
            Atrac3Error::NotEnoughBits {
                requested: n as usize,
                remaining: if p <= bits.len() {
                    (bits.len() - p) as usize
                } else {
                    0usize
                },
            },
        )
    } else {
        Ok(bits_value(bits.subrange(p as int, (p + n) as int)))
    }
}

/// The first `count` gain points starting at bit `p` (4-bit level, 5-bit
/// location each), and the position after them.
pub open spec fn parse_points(bits: Seq<bool>, p: nat, count: nat) -> Result<
    (Seq<ParsedGainPoint>, nat),
    Atrac3Error,
>
    decreases count,
{
    if count == 0 {
        Ok((Seq::empty(), p))
    } else {
        match parse_points(bits, p, (count - 1) as nat) {
            Err(e) => Err(e),
            Ok((ps, q)) => match read_field(bits, q, 4) {
                Err(e) => Err(e),
                Ok(level) => match read_field(bits, q + 4, 5) {
                    Err(e) => Err(e),
                    Ok(location) => Ok(
                        (
                            ps.push(ParsedGainPoint { level: level as u8, location: location as u8 }),
                            q + 9,
                        ),
                    ),
                },
            },
        }
    }
}

/// The first `n` gain bands starting at bit `p` (3-bit point count, then
/// the points), and the position after them.
pub open spec fn parse_bands(bits: Seq<bool>, p: nat, n: nat) -> Result<
    (Seq<Seq<ParsedGainPoint>>, nat),
    Atrac3Error,
>
    decreases n,
{
    if n == 0 {
        Ok((Seq::empty(), p))
    } else {
        match parse_bands(bits, p, (n - 1) as nat) {
            Err(e) => Err(e),
            Ok((bs, q)) => match read_field(bits, q, 3) {
                Err(e) => Err(e),
                Ok(count) => match parse_points(bits, q + 3, count) {
                    Err(e) => Err(e),
                    Ok((ps, r)) => Ok((bs.push(ps), r)),
                },
            },
        }
    }
}

/// The rest of the header once the id and the coded QMF band count are read.
pub open spec fn prefix_tail(bits: Seq<bool>, cqb: u8) -> Result<PrefixModel, Atrac3Error> {
    match parse_bands(bits, 8, cqb as nat) {
        Err(e) => Err(e),
        Ok((bands, p)) => match read_field(bits, p, 5) {
            Err(e) => Err(e),
            Ok(tc) => if tc == 0 {
                Ok((cqb, bands, 0u8, None::<u8>, p + 5))
            } else {
                match read_field(bits, p + 5, 2) {
                    Err(e) => Err(e),
                    Ok(sel) => Ok((cqb, bands, tc as u8, Some(sel as u8), p + 7)),
                }
            },
        },
    }
}

/// The header of a channel sound unit read from its bits.
pub open spec fn prefix_parse(bits: Seq<bool>) -> Result<PrefixModel, Atrac3Error> {
    match read_field(bits, 0, 6) {
        Err(e) => Err(e),
        Ok(id) => if id != SOUND_UNIT_ID {
            Err(Atrac3Error::UnexpectedSoundUnitId { id: id as u8 })
        } else {
            match read_field(bits, 6, 2) {
                Err(e) => Err(e),
                Ok(c) => prefix_tail(bits, (c + 1) as u8),
            }
        },
    }
}

proof fn lemma_parse_points_err(bits: Seq<bool>, p: nat, m: nat, n: nat)
    requires
        m <= n,
        parse_points(bits, p, m) is Err,
    ensures
        parse_points(bits, p, n) == parse_points(bits, p, m),
    decreases n,
{
    if m < n {
        lemma_parse_points_err(bits, p, m, (n - 1) as nat);
    }
}

proof fn lemma_parse_bands_err(bits: Seq<bool>, p: nat, m: nat, n: nat)
    requires
        m <= n,
        parse_bands(bits, p, m) is Err,
    ensures
        parse_bands(bits, p, n) == parse_bands(bits, p, m),
    decreases n,
{
    if m < n {
        lemma_parse_bands_err(bits, p, m, (n - 1) as nat);
    }
}

proof fn lemma_field_bound(bits: Seq<bool>, p: nat, n: nat)
    requires
        read_field(bits, p, n) is Ok,
        n <= 8,
    ensures
        read_field(bits, p, n)->Ok_0 < 256,
        n == 2 ==> read_field(bits, p, n)->Ok_0 < 4,
        n == 3 ==> read_field(bits, p, n)->Ok_0 < 8,
        n == 5 ==> read_field(bits, p, n)->Ok_0 < 32,
        n == 6 ==> read_field(bits, p, n)->Ok_0 < 64,
{
    crate::bitstream::lemma_bits_value_bound(bits.subrange(p as int, (p + n) as int));
    crate::bitstream::lemma_pow2_le(n, 8);
    vstd::arithmetic::power2::lemma2_to64();
}

/// Reads one field through the reader, in step with `read_field`.
fn read_u8_field(reader: &mut BitReader, n: u8) -> (r: Result<u8, Atrac3Error>)
    requires
        old(reader).wf(),
        1 <= n <= 8,
    ensures
        final(reader).wf(),
        final(reader).spec_bits() == old(reader).spec_bits(),
        match read_field(old(reader).spec_bits(), old(reader).spec_pos(), n as nat) {
            Ok(v) => r == Ok::<u8, Atrac3Error>(v as u8) && v < 256 && final(reader).spec_pos()
                == old(reader).spec_pos() + n,
            Err(e) => r == Err::<u8, Atrac3Error>(e),
        },
{
    let ghost bits = reader.spec_bits();
    let ghost p = reader.spec_pos();
    let r = reader.read_bits(n);
    match r {
        Ok(v) => {
            proof {
                lemma_field_bound(bits, p, n as nat);
            }
            Ok(v as u8)
        },
        Err(e) => Err(e),
    }
}

pub fn parse_channel_prefix(bytes: &[u8]) -> (r: Result<ParsedChannelPrefix, Atrac3Error>)
    requires
        bytes@.len() * 8 <= usize::MAX,
    ensures
        match prefix_parse(bytes_to_bits(bytes@)) {
            Ok(m) => r is Ok && prefix_view(r->Ok_0) == m,
            Err(e) => r == Err::<ParsedChannelPrefix, Atrac3Error>(e),
        },
{
    let ghost bits = bytes_to_bits(bytes@);
    let mut reader = BitReader::new(bytes);
    let sound_unit_id: u8 = read_u8_field(&mut reader, 6)?;
    if sound_unit_id != SOUND_UNIT_ID {
        return Err(Atrac3Error::UnexpectedSoundUnitId { id: sound_unit_id });
    }
    let c: u8 = read_u8_field(&mut reader, 2)?;
    proof {
        lemma_field_bound(bits, 6, 2);
    }
    let coded_qmf_bands: u8 = c + 1;
    let mut gain_bands: Vec<Vec<ParsedGainPoint>> = Vec::new();
    proof {
        assert(gain_bands@.map_values(band_view_fn()) =~= Seq::<Seq<ParsedGainPoint>>::empty());
        assert(prefix_parse(bits) == prefix_tail(bits, coded_qmf_bands));
    }
    let mut b: u8 = 0;
    while b < coded_qmf_bands
        invariant
            reader.wf(),
            reader.spec_bits() == bits,
            bits == bytes_to_bits(bytes@),
            b <= coded_qmf_bands <= 4,
            prefix_parse(bits) == prefix_tail(bits, coded_qmf_bands),
            parse_bands(bits, 8, b as nat) == Ok::<(Seq<Seq<ParsedGainPoint>>, nat), Atrac3Error>(
                (gain_bands@.map_values(band_view_fn()), reader.spec_pos()),
            ),
        decreases coded_qmf_bands - b,
    {
        let ghost q = reader.spec_pos();
        let count: u8 = match read_u8_field(&mut reader, 3) {
            Ok(v) => v,
            Err(e) => {
                proof {
                    assert(read_field(bits, q, 3) == Err::<nat, Atrac3Error>(e));
                    assert(parse_bands(bits, 8, (b + 1) as nat) == Err::<(Seq<Seq<ParsedGainPoint>>, nat), Atrac3Error>(e));
                    lemma_parse_bands_err(bits, 8, (b + 1) as nat, coded_qmf_bands as nat);
                    assert(prefix_tail(bits, coded_qmf_bands) == Err::<PrefixModel, Atrac3Error>(e));
                }
                return Err(e);
            },
        };
        let ghost start = reader.spec_pos();
        let mut points: Vec<ParsedGainPoint> = Vec::new();
        let mut k: u8 = 0;
        while k < count
            invariant
                reader.wf(),
                reader.spec_bits() == bits,
                bits == bytes_to_bits(bytes@),
                b < coded_qmf_bands <= 4,
                prefix_parse(bits) == prefix_tail(bits, coded_qmf_bands),
                k <= count,
                start == q + 3,
                read_field(bits, q, 3) == Ok::<nat, Atrac3Error>(count as nat),
                parse_bands(bits, 8, b as nat) == Ok::<
                    (Seq<Seq<ParsedGainPoint>>, nat),
                    Atrac3Error,
                >((gain_bands@.map_values(band_view_fn()), q)),
                parse_points(bits, start, k as nat) == Ok::<(Seq<ParsedGainPoint>, nat), Atrac3Error>(
                    (points@, reader.spec_pos()),
                ),
            decreases count - k,
        {
            let level: u8 = match read_u8_field(&mut reader, 4) {
                Ok(v) => v,
                Err(e) => {
                    proof {
                        lemma_parse_points_err(bits, start, (k + 1) as nat, count as nat);
                        lemma_parse_bands_err(bits, 8, (b + 1) as nat, coded_qmf_bands as nat);
                    }
                    return Err(e);
                },
            };
            let location: u8 = match read_u8_field(&mut reader, 5) {
                Ok(v) => v,
                Err(e) => {
                    proof {
                        lemma_parse_points_err(bits, start, (k + 1) as nat, count as nat);
                        lemma_parse_bands_err(bits, 8, (b + 1) as nat, coded_qmf_bands as nat);
                    }
                    return Err(e);
                },
            };
            points.push(ParsedGainPoint { level, location });
            k = k + 1;
        }
        let ghost prev = gain_bands@.map_values(band_view_fn());
        let ghost pts = points@;
        gain_bands.push(points);
        b = b + 1;
        proof {
            assert(gain_bands@.map_values(band_view_fn()) =~= prev.push(pts));
        }
    }
    let ghost p = reader.spec_pos();
    let tonal_component_count: u8 = read_u8_field(&mut reader, 5)?;
    let tonal_mode_selector: Option<u8> = if tonal_component_count == 0 {
        None
    } else {
        let sel: u8 = read_u8_field(&mut reader, 2)?;
        Some(sel)
    };
    Ok(
        ParsedChannelPrefix {
            coded_qmf_bands,
            gain_bands,
            tonal_component_count,
            tonal_mode_selector,
            consumed_bits: reader.bit_pos(),
        },
    )
}


// ---------------------------------------------------------------------
// RIFF/WAVE container.
// ---------------------------------------------------------------------

/// Little-endian 16-bit value at byte `i`.
pub open spec fn le16(b: Seq<u8>, i: int) -> u16 {
    (b[i] as nat + 256 * (b[i + 1] as nat)) as u16
}

/// Little-endian 32-bit value at byte `i`.
pub open spec fn le32(b: Seq<u8>, i: int) -> u32 {
    (b[i] as nat + 256 * (b[i + 1] as nat) + 65536 * (b[i + 2] as nat) + 16777216 * (
    b[i + 3] as nat)) as u32
}

pub open spec fn riff_tag() -> Seq<u8> {
    seq![0x52u8, 0x49u8, 0x46u8, 0x46u8]
}

pub open spec fn wave_tag() -> Seq<u8> {
    seq![0x57u8, 0x41u8, 0x56u8, 0x45u8]
}

pub open spec fn fmt_tag() -> Seq<u8> {
    seq![0x66u8, 0x6du8, 0x74u8, 0x20u8]
}

pub open spec fn data_tag() -> Seq<u8> {
    seq![0x64u8, 0x61u8, 0x74u8, 0x61u8]
}

pub open spec fn tag_at(b: Seq<u8>, i: int, t: Seq<u8>) -> bool {
    b.subrange(i, i + 4) == t
}

/// Channels, block align, data offset and data size gathered so far.
pub type RiffState = (Option<u16>, Option<u16>, Option<usize>, Option<usize>);

/// Walks the chunks from `cursor` on, gathering the format and data chunks.
pub open spec fn riff_walk(b: Seq<u8>, cursor: nat, st: RiffState) -> Result<RiffState, Atrac3Error>
    decreases b.len() - cursor,
{
    if cursor + 8 > b.len() {
        Ok(st)
    } else {
        let size = le32(b, (cursor + 4) as int) as nat;
        let d = cursor + 8;
        let padded = size + size % 2;
        if d + padded > b.len() {
            Err(
                Atrac3Error::ChunkOverrun {
                    chunk_id: [b[cursor as int], b[cursor + 1int], b[cursor + 2int], b[cursor + 3int]],
                },
            )
        } else {
            let next: Result<RiffState, Atrac3Error> = if tag_at(b, cursor as int, fmt_tag()) {
                if size < 16 {
                    Err(Atrac3Error::FmtChunkTooSmall { size: size as usize })
                } else if le16(b, d as int) != 0x0270 {
                    Err(Atrac3Error::UnexpectedFormatTag { tag: le16(b, d as int) })
                } else {
                    Ok((Some(le16(b, (d + 2) as int)), Some(le16(b, (d + 12) as int)), st.2, st.3))
                }
            } else if tag_at(b, cursor as int, data_tag()) {
                Ok((st.0, st.1, Some(d as usize), Some(size as usize)))
            } else {
                Ok(st)
            };
            match next {
                Err(e) => Err(e),
                Ok(s2) => riff_walk(b, d + padded, s2),
            }
        }
    }
}

/// What `parse_riff_atrac3` returns for a file's bytes.
pub open spec fn riff_parse(b: Seq<u8>) -> Result<ParsedAtrac3Container, Atrac3Error> {
    if b.len() < 12 {
        Err(Atrac3Error::FileTooSmall)
    } else if !tag_at(b, 0, riff_tag()) {
        Err(Atrac3Error::MissingRiffSignature)
    } else if !tag_at(b, 8, wave_tag()) {
        Err(Atrac3Error::MissingWaveSignature)
    } else {
        match riff_walk(b, 12, (None, None, None, None)) {
            Err(e) => Err(e),
            Ok((ch, ba, off, size)) => if ch is None || ba is None {
                Err(Atrac3Error::MissingFmtChunk)
            } else if off is None || size is None {
                Err(Atrac3Error::MissingDataChunk)
            } else {
                let channels = ch->Some_0;
                let block_align = ba->Some_0;
                let data_size = size->Some_0;
                if channels == 0 {
                    Err(Atrac3Error::InvalidChannelCount { channels })
                } else if block_align == 0 {
                    Err(Atrac3Error::InvalidBlockAlign { block_align })
                } else if data_size % (block_align as usize) != 0 {
                    Err(Atrac3Error::DataNotAligned { data_size, block_align })
                } else {
                    Ok(
                        ParsedAtrac3Container {
                            channels,
                            block_align,
                            data_offset: off->Some_0,
                            data_size,
                            frame_count: data_size / (block_align as usize),
                        },
                    )
                }
            },
        }
    }
}

fn read_le16(bytes: &[u8], i: usize) -> (v: u16)
    requires
        i + 2 <= bytes@.len(),
    ensures
        v == le16(bytes@, i as int),
{
    bytes[i] as u16 + 256 * (bytes[i + 1] as u16)
}

fn read_le32(bytes: &[u8], i: usize) -> (v: u32)
    requires
        i + 4 <= bytes@.len(),
    ensures
        v == le32(bytes@, i as int),
{
    bytes[i] as u32 + 256 * (bytes[i + 1] as u32) + 65536 * (bytes[i + 2] as u32) + 16777216 * (
    bytes[i + 3] as u32)
}

fn tag_matches(bytes: &[u8], i: usize, t: [u8; 4]) -> (r: bool)
    requires
        i + 4 <= bytes@.len(),
    ensures
        r == tag_at(bytes@, i as int, t@),
{
    let r = bytes[i] == t[0] && bytes[i + 1] == t[1] && bytes[i + 2] == t[2] && bytes[i + 3] == t[3];
    proof {
        if r {
            assert(bytes@.subrange(i as int, i + 4) =~= t@);
        } else {
            if bytes@.subrange(i as int, i + 4) == t@ {
                assert(bytes@.subrange(i as int, i + 4)[0] == t@[0]);
                assert(bytes@.subrange(i as int, i + 4)[1] == t@[1]);
                assert(bytes@.subrange(i as int, i + 4)[2] == t@[2]);
                assert(bytes@.subrange(i as int, i + 4)[3] == t@[3]);
            }
        }
    }
    r
}

pub fn parse_riff_atrac3(bytes: &[u8]) -> (r: Result<ParsedAtrac3Container, Atrac3Error>)
    ensures
        r == riff_parse(bytes@),
{
    let n: usize = bytes.len();
    if n < 12 {
        return Err(Atrac3Error::FileTooSmall);
    }
    let riff: [u8; 4] = [0x52, 0x49, 0x46, 0x46];
    let wave: [u8; 4] = [0x57, 0x41, 0x56, 0x45];
    let fmt: [u8; 4] = [0x66, 0x6d, 0x74, 0x20];
    let data: [u8; 4] = [0x64, 0x61, 0x74, 0x61];
    assert(riff@ =~= riff_tag());
    assert(wave@ =~= wave_tag());
    assert(fmt@ =~= fmt_tag());
    assert(data@ =~= data_tag());
    if !tag_matches(bytes, 0, riff) {
        return Err(Atrac3Error::MissingRiffSignature);
    }
    if !tag_matches(bytes, 8, wave) {
        return Err(Atrac3Error::MissingWaveSignature);
    }
    let mut cursor: usize = 12;
    let mut channels: Option<u16> = None;
    let mut block_align: Option<u16> = None;
    let mut data_offset: Option<usize> = None;
    let mut data_size: Option<usize> = None;
    while cursor <= n && n - cursor >= 8
        invariant
            n == bytes@.len(),
            12 <= cursor <= n,
            tag_at(bytes@, 0, riff_tag()),
            tag_at(bytes@, 8, wave_tag()),
            fmt@ == fmt_tag(),
            data@ == data_tag(),
            riff_walk(bytes@, 12, (None, None, None, None)) == riff_walk(
                bytes@,
                cursor as nat,
                (channels, block_align, data_offset, data_size),
            ),
        decreases n - cursor,
    {
        let chunk_size: u32 = read_le32(bytes, cursor + 4);
        let chunk_data_offset: usize = cursor + 8;
        let padded: u64 = chunk_size as u64 + (chunk_size & 1) as u64;
        assert((chunk_size & 1) == chunk_size % 2) by (bit_vector);
        if padded > (n - chunk_data_offset) as u64 {
            let chunk_id: [u8; 4] = [bytes[cursor], bytes[cursor + 1], bytes[cursor + 2], bytes[cursor + 3]];
            return Err(Atrac3Error::ChunkOverrun { chunk_id });
        }
        let padded_chunk_size: usize = padded as usize;
        if tag_matches(bytes, cursor, fmt) {
            if chunk_size < 16 {
                return Err(Atrac3Error::FmtChunkTooSmall { size: chunk_size as usize });
            }
            let format_tag: u16 = read_le16(bytes, chunk_data_offset);
            if format_tag != 0x0270 {
                return Err(Atrac3Error::UnexpectedFormatTag { tag: format_tag });
            }
            channels = Some(read_le16(bytes, chunk_data_offset + 2));
            block_align = Some(read_le16(bytes, chunk_data_offset + 12));
        } else if tag_matches(bytes, cursor, data) {
            data_offset = Some(chunk_data_offset);
            data_size = Some(chunk_size as usize);
        }
        cursor = chunk_data_offset + padded_chunk_size;
    }
    let channels: u16 = match channels {
        Some(v) => v,
        None => {
            return Err(Atrac3Error::MissingFmtChunk);
        },
    };
    let block_align: u16 = match block_align {
        Some(v) => v,
        None => {
            return Err(Atrac3Error::MissingFmtChunk);
        },
    };
    let data_offset: usize = match data_offset {
        Some(v) => v,
        None => {
            return Err(Atrac3Error::MissingDataChunk);
        },
    };
    let data_size: usize = match data_size {
        Some(v) => v,
        None => {
            return Err(Atrac3Error::MissingDataChunk);
        },
    };
    if channels == 0 {
        return Err(Atrac3Error::InvalidChannelCount { channels });
    }
    if block_align == 0 {
        return Err(Atrac3Error::InvalidBlockAlign { block_align });
    }
    if data_size % block_align as usize != 0 {
        return Err(Atrac3Error::DataNotAligned { data_size, block_align });
    }
    Ok(
        ParsedAtrac3Container {
            channels,
            block_align,
            data_offset,
            data_size,
            frame_count: data_size / block_align as usize,
        },
    )
}

/// Byte offset of a channel's slot within the data chunk.
pub open spec fn slot_offset(c: ParsedAtrac3Container, frame_index: nat, channel_index: nat) -> nat {
    (c.data_offset + frame_index * (c.block_align as nat) + channel_index * ((c.block_align as nat)
        / (c.channels as nat))) as nat
}

/// Size of one channel's slot in a frame.
pub open spec fn slot_size(c: ParsedAtrac3Container) -> nat {
    (c.block_align as nat) / (c.channels as nat)
}

/// The slot fits the file.
pub open spec fn slot_in_bounds(
    len: nat,
    c: ParsedAtrac3Container,
    frame_index: nat,
    channel_index: nat,
) -> bool {
    (frame_index < c.frame_count && channel_index < c.channels) ==> slot_offset(
        c,
        frame_index,
        channel_index,
    ) + slot_size(c) <= len
}

pub fn extract_channel_slot<'a>(
    bytes: &'a [u8],
    container: &ParsedAtrac3Container,
    frame_index: usize,
    channel_index: usize,
) -> (r: Result<&'a [u8], Atrac3Error>)
    requires
        slot_in_bounds(bytes@.len(), *container, frame_index as nat, channel_index as nat),
    ensures
        frame_index >= container.frame_count ==> r == Err::<&[u8], Atrac3Error>(
            Atrac3Error::FrameOutOfRange { frame: frame_index, frame_count: container.frame_count },
        ),
        frame_index < container.frame_count && channel_index >= container.channels ==> r == Err::<
            &[u8],
            Atrac3Error,
        >(Atrac3Error::ChannelOutOfRange { channel: channel_index, channels: container.channels }),
        frame_index < container.frame_count && channel_index < container.channels ==> r is Ok
            && r->Ok_0@ == bytes@.subrange(
            slot_offset(*container, frame_index as nat, channel_index as nat) as int,
            (slot_offset(*container, frame_index as nat, channel_index as nat) + slot_size(
                *container,
            )) as int,
        ),
{
    if frame_index >= container.frame_count {
        return Err(
            Atrac3Error::FrameOutOfRange { frame: frame_index, frame_count: container.frame_count },
        );
    }
    if channel_index >= container.channels as usize {
        return Err(
            Atrac3Error::ChannelOutOfRange { channel: channel_index, channels: container.channels },
        );
    }
    let channel_slot_size: usize = container.block_align as usize / container.channels as usize;
    proof {
        let ba = container.block_align as nat;
        let ch = container.channels as nat;
        let f = frame_index as nat;
        let c = channel_index as nat;
        assert(c * (ba / ch) >= 0) by (nonlinear_arith)
            requires
                ch > 0,
        ;
        assert(f * ba >= 0) by (nonlinear_arith);
        assert(container.data_offset + f * ba + c * (ba / ch) + ba / ch <= bytes@.len());
    }
    let total_len: usize = bytes.len();
    let align: usize = container.block_align as usize;
    assert(frame_index * align + container.data_offset <= usize::MAX);
    assert(channel_index * channel_slot_size + frame_index * align + container.data_offset
        + channel_slot_size <= bytes@.len());
    let frame_offset: usize = container.data_offset + frame_index * align;
    let slot_start: usize = frame_offset + channel_index * channel_slot_size;
    Ok(&bytes[slot_start..slot_start + channel_slot_size])
}

/// The bytes of a channel's slot in a frame.
pub open spec fn slot_bytes(
    b: Seq<u8>,
    c: ParsedAtrac3Container,
    frame_index: nat,
    channel_index: nat,
) -> Seq<u8> {
    let start = slot_offset(c, frame_index, channel_index);
    b.subrange(start as int, (start + slot_size(c)) as int)
}

/// The prefix parse of a channel's slot in a frame.
#[verifier::opaque]
pub open spec fn slot_prefix(
    b: Seq<u8>,
    c: ParsedAtrac3Container,
    frame_index: nat,
    channel_index: nat,
) -> Result<PrefixModel, Atrac3Error> {
    prefix_parse(bytes_to_bits(slot_bytes(b, c, frame_index, channel_index)))
}

/// Every slot of the channel lies inside the file.
pub open spec fn channel_slots_in_bounds(
    len: nat,
    c: ParsedAtrac3Container,
    channel_index: nat,
) -> bool {
    forall|f: nat| #[trigger] slot_in_bounds(len, c, f, channel_index)
}

/// Parses the sound-unit prefix of one channel in every frame.
#[verifier::rlimit(40)]
pub fn parse_prefixes_for_channel(
    bytes: &[u8],
    container: &ParsedAtrac3Container,
    channel_index: usize,
) -> (r: Result<Vec<ParsedChannelPrefix>, Atrac3Error>)
    requires
        channel_slots_in_bounds(bytes@.len(), *container, channel_index as nat),
    ensures
        container.frame_count > 0 && channel_index >= container.channels ==> r == Err::<
            Vec<ParsedChannelPrefix>,
            Atrac3Error,
        >(Atrac3Error::ChannelOutOfRange { channel: channel_index, channels: container.channels }),
        container.frame_count == 0 || channel_index < container.channels ==> match r {
            Ok(v) => v@.len() == container.frame_count && forall|f: int|
                0 <= f < container.frame_count ==> #[trigger] slot_prefix(
                    bytes@,
                    *container,
                    f as nat,
                    channel_index as nat,
                ) == Ok::<PrefixModel, Atrac3Error>(prefix_view(v@[f])),
            Err(e) => exists|f: int|
                0 <= f < container.frame_count && (forall|g: int|
                    0 <= g < f ==> #[trigger] slot_prefix(
                        bytes@,
                        *container,
                        g as nat,
                        channel_index as nat,
                    ) is Ok) && #[trigger] slot_prefix(
                    bytes@,
                    *container,
                    f as nat,
                    channel_index as nat,
                ) is Err && e == Atrac3Error::FrameParseFailed {
                    frame: f as usize,
                    channel: channel_index,
                    cause: Box::new(
                        slot_prefix(bytes@, *container, f as nat, channel_index as nat)->Err_0,
                    ),
                },
        },
{
    let mut prefixes: Vec<ParsedChannelPrefix> = Vec::new();
    let mut frame_index: usize = 0;
    while frame_index < container.frame_count
        invariant
            frame_index <= container.frame_count,
            container.frame_count == 0 || channel_index < container.channels || frame_index == 0,
            channel_slots_in_bounds(bytes@.len(), *container, channel_index as nat),
            prefixes@.len() == frame_index,
            forall|f: int|
                0 <= f < frame_index ==> #[trigger] slot_prefix(
                    bytes@,
                    *container,
                    f as nat,
                    channel_index as nat,
                ) == Ok::<PrefixModel, Atrac3Error>(prefix_view(prefixes@[f])),
        decreases container.frame_count - frame_index,
    {
        assert(slot_in_bounds(bytes@.len(), *container, frame_index as nat, channel_index as nat));
        let slot: &[u8] = extract_channel_slot(bytes, container, frame_index, channel_index)?;
        proof {
            let ba = container.block_align as nat;
            let ch = container.channels as nat;
            assert(ba / ch <= ba) by (nonlinear_arith)
                requires
                    ch > 0,
            ;
        }
        assert(slot@ == slot_bytes(bytes@, *container, frame_index as nat, channel_index as nat));
        let parsed = parse_channel_prefix(slot);
        assert(match parsed {
            Ok(p) => slot_prefix(bytes@, *container, frame_index as nat, channel_index as nat)
                == Ok::<PrefixModel, Atrac3Error>(prefix_view(p)),
            Err(e) => slot_prefix(bytes@, *container, frame_index as nat, channel_index as nat)
                == Err::<PrefixModel, Atrac3Error>(e),
        }) by {
            reveal(slot_prefix);
        }
        match parsed {
            Ok(prefix) => {
                prefixes.push(prefix);
            },
            Err(e) => {
                proof {
                    assert forall|g: int| 0 <= g < frame_index implies #[trigger] slot_prefix(
                        bytes@,
                        *container,
                        g as nat,
                        channel_index as nat,
                    ) is Ok by {}
                    let fi = frame_index as int;
                    assert(slot_prefix(bytes@, *container, fi as nat, channel_index as nat)
                        == Err::<PrefixModel, Atrac3Error>(e));
                }
                return Err(
                    Atrac3Error::FrameParseFailed {
                        frame: frame_index,
                        channel: channel_index,
                        cause: Box::new(e),
                    },
                );
            },
        }
        frame_index = frame_index + 1;
    }
    Ok(prefixes)
}

/// Window kind of each band of `current`, from whether the band carried
/// gain points in the previous and the current frame.
pub fn band_window_kinds(
    previous: Option<&ParsedChannelPrefix>,
    current: &ParsedChannelPrefix,
) -> (kinds: Vec<DecoderWindowKind>)
    ensures
        kinds@.len() == current.gain_bands@.len(),
        forall|i: int|
            0 <= i < kinds@.len() ==> #[trigger] kinds@[i] == window_kind(
                match previous {
                    Some(p) => i < p.gain_bands@.len() && p.gain_bands@[i]@.len() > 0,
                    None => false,
                },
                current.gain_bands@[i]@.len() > 0,
            ),
{
    let mut kinds: Vec<DecoderWindowKind> = Vec::new();
    let mut i: usize = 0;
    while i < current.gain_bands.len()
        invariant
            i <= current.gain_bands@.len(),
            kinds@.len() == i,
            forall|k: int|
                0 <= k < i ==> #[trigger] kinds@[k] == window_kind(
                    match previous {
                        Some(p) => k < p.gain_bands@.len() && p.gain_bands@[k]@.len() > 0,
                        None => false,
                    },
                    current.gain_bands@[k]@.len() > 0,
                ),
        decreases current.gain_bands@.len() - i,
    {
        let previous_active: bool = match previous {
            Some(p) => i < p.gain_bands.len() && !p.gain_bands[i].is_empty(),
            None => false,
        };
        let current_active: bool = !current.gain_bands[i].is_empty();
        kinds.push(decoder_window_kind(previous_active, current_active));
        i = i + 1;
    }
    kinds
}

pub fn format_window_kind(kind: DecoderWindowKind) -> (s: &'static str)
    ensures
        s@ == match kind {
            DecoderWindowKind::Full => "full"@,
            DecoderWindowKind::ZeroTail => "zero_tail"@,
            DecoderWindowKind::ZeroHead => "zero_head"@,
            DecoderWindowKind::ZeroEdges => "zero_edges"@,
        },
{
    match kind {
        DecoderWindowKind::Full => "full",
        DecoderWindowKind::ZeroTail => "zero_tail",
        DecoderWindowKind::ZeroHead => "zero_head",
        DecoderWindowKind::ZeroEdges => "zero_edges",
    }
}

/// Number of prefixes in which band `b` carries gain points.
pub open spec fn active_frames(prefixes: Seq<ParsedChannelPrefix>, b: int) -> nat
    decreases prefixes.len(),
{
    if prefixes.len() == 0 {
        0
    } else {
        active_frames(prefixes.drop_last(), b) + if b < prefixes.last().gain_bands@.len()
            && prefixes.last().gain_bands@[b]@.len() > 0 {
            1nat
        } else {
            0nat
        }
    }
}

/// Total gain points band `b` carries over all prefixes.
pub open spec fn total_points(prefixes: Seq<ParsedChannelPrefix>, b: int) -> nat
    decreases prefixes.len(),
{
    if prefixes.len() == 0 {
        0
    } else {
        total_points(prefixes.drop_last(), b) + if b < prefixes.last().gain_bands@.len() {
            prefixes.last().gain_bands@[b]@.len()
        } else {
            0nat
        }
    }
}

/// Largest band count over the prefixes.
pub open spec fn max_band_count(prefixes: Seq<ParsedChannelPrefix>) -> nat
    decreases prefixes.len(),
{
    if prefixes.len() == 0 {
        0
    } else {
        let m = max_band_count(prefixes.drop_last());
        let l = prefixes.last().gain_bands@.len();
        if l > m {
            l
        } else {
            m
        }
    }
}

/// Every band's point total fits a machine word.
pub open spec fn point_totals_fit(prefixes: Seq<ParsedChannelPrefix>) -> bool {
    forall|b: int| 0 <= b < max_band_count(prefixes) ==> #[trigger] total_points(prefixes, b) <= usize::MAX
}

proof fn lemma_active_frames_le(prefixes: Seq<ParsedChannelPrefix>, b: int)
    ensures
        active_frames(prefixes, b) <= prefixes.len(),
    decreases prefixes.len(),
{
    if prefixes.len() > 0 {
        lemma_active_frames_le(prefixes.drop_last(), b);
    }
}

proof fn lemma_total_points_mono(prefixes: Seq<ParsedChannelPrefix>, i: int, b: int)
    requires
        0 <= i <= prefixes.len(),
    ensures
        total_points(prefixes.take(i), b) <= total_points(prefixes, b),
    decreases prefixes.len(),
{
    if i < prefixes.len() {
        assert(prefixes.drop_last().take(i) =~= prefixes.take(i));
        lemma_total_points_mono(prefixes.drop_last(), i, b);
    } else {
        assert(prefixes.take(i) =~= prefixes);
    }
}

proof fn lemma_max_band_count(prefixes: Seq<ParsedChannelPrefix>)
    ensures
        forall|k: int| 0 <= k < prefixes.len() ==> (#[trigger] prefixes[k]).gain_bands@.len() <= max_band_count(prefixes),
        prefixes.len() > 0 ==> exists|k: int| 0 <= k < prefixes.len() && (#[trigger] prefixes[k]).gain_bands@.len() == max_band_count(prefixes),
    decreases prefixes.len(),
{
    if prefixes.len() > 0 {
        lemma_max_band_count(prefixes.drop_last());
        let last = prefixes.len() - 1;
        assert forall|k: int| 0 <= k < prefixes.len() implies (#[trigger] prefixes[k]).gain_bands@.len() <= max_band_count(prefixes) by {
            if k < last {
                assert(prefixes[k] == prefixes.drop_last()[k]);
            }
        }
        if prefixes[last].gain_bands@.len() > max_band_count(prefixes.drop_last()) {
            assert(prefixes[last].gain_bands@.len() == max_band_count(prefixes));
        } else if prefixes.len() > 1 {
            let k = choose|k: int| 0 <= k < prefixes.drop_last().len() && (#[trigger] prefixes.drop_last()[k]).gain_bands@.len() == max_band_count(prefixes.drop_last());
            assert(prefixes[k] == prefixes.drop_last()[k]);
        } else {
            assert(prefixes[last].gain_bands@.len() == max_band_count(prefixes));
        }
    }
}

/// Per band: in how many prefixes it carries gain points, and how many in all.
pub fn summarize_gain_activity(prefixes: &[ParsedChannelPrefix]) -> (summary: Vec<(usize, usize)>)
    requires
        point_totals_fit(prefixes@),
    ensures
        summary@.len() == max_band_count(prefixes@),
        forall|b: int|
            0 <= b < summary@.len() ==> #[trigger] summary@[b] == (
                active_frames(prefixes@, b) as usize,
                total_points(prefixes@, b) as usize,
            ),
{
    let mut max_bands: usize = 0;
    let mut j: usize = 0;
    while j < prefixes.len()
        invariant
            j <= prefixes@.len(),
            max_bands == max_band_count(prefixes@.take(j as int)),
        decreases prefixes@.len() - j,
    {
        proof {
            assert(prefixes@.take(j + 1).drop_last() =~= prefixes@.take(j as int));
        }
        if prefixes[j].gain_bands.len() > max_bands {
            max_bands = prefixes[j].gain_bands.len();
        }
        j = j + 1;
    }
    proof {
        assert(prefixes@.take(prefixes@.len() as int) =~= prefixes@);
    }
    let mut summary: Vec<(usize, usize)> = Vec::new();
    let mut b: usize = 0;
    while b < max_bands
        invariant
            b <= max_bands,
            summary@.len() == b,
            forall|k: int| 0 <= k < b ==> #[trigger] summary@[k] == (0usize, 0usize),
        decreases max_bands - b,
    {
        summary.push((0, 0));
        b = b + 1;
    }
    proof {
        lemma_max_band_count(prefixes@);
    }
    let mut j: usize = 0;
    while j < prefixes.len()
        invariant
            j <= prefixes@.len(),
            max_bands == max_band_count(prefixes@),
            point_totals_fit(prefixes@),
            forall|k: int| 0 <= k < prefixes@.len() ==> (#[trigger] prefixes@[k]).gain_bands@.len() <= max_band_count(prefixes@),
            summary@.len() == max_bands,
            forall|bb: int|
                0 <= bb < max_bands ==> #[trigger] summary@[bb] == (
                    active_frames(prefixes@.take(j as int), bb) as usize,
                    total_points(prefixes@.take(j as int), bb) as usize,
                ),
        decreases prefixes@.len() - j,
    {
        proof {
            assert(prefixes@.take(j + 1).drop_last() =~= prefixes@.take(j as int));
        }
        let prefix: &ParsedChannelPrefix = &prefixes[j];
        let mut band_index: usize = 0;
        while band_index < prefix.gain_bands.len()
            invariant
                j < prefixes@.len() <= usize::MAX,
                *prefix == prefixes@[j as int],
                band_index <= prefix.gain_bands@.len() <= max_bands,
                max_bands == max_band_count(prefixes@),
                point_totals_fit(prefixes@),
                summary@.len() == max_bands,
                forall|bb: int|
                    0 <= bb < max_bands ==> #[trigger] summary@[bb] == if bb < band_index {
                        (
                            active_frames(prefixes@.take(j + 1), bb) as usize,
                            total_points(prefixes@.take(j + 1), bb) as usize,
                        )
                    } else {
                        (
                            active_frames(prefixes@.take(j as int), bb) as usize,
                            total_points(prefixes@.take(j as int), bb) as usize,
                        )
                    },
            decreases prefix.gain_bands@.len() - band_index,
        {
            proof {
                assert(prefixes@.take(j + 1).drop_last() =~= prefixes@.take(j as int));
                lemma_active_frames_le(prefixes@.take(j + 1), band_index as int);
                lemma_total_points_mono(prefixes@, j + 1, band_index as int);
            }
            let points_len: usize = prefix.gain_bands[band_index].len();
            if points_len != 0 {
                let (a, t) = summary[band_index];
                proof {
                    let bi = band_index as int;
                    assert(prefixes@.take(j + 1).last() == prefixes@[j as int]);
                    assert(total_points(prefixes@.take(j + 1), bi) == total_points(
                        prefixes@.take(j as int),
                        bi,
                    ) + points_len);
                    assert(total_points(prefixes@, bi) <= usize::MAX);
                    assert(active_frames(prefixes@.take(j + 1), bi) <= j + 1);
                    assert(a == active_frames(prefixes@.take(j as int), bi));
                    assert(t == total_points(prefixes@.take(j as int), bi));
                }
                summary.set(band_index, (a + 1, t + points_len));
            }
            band_index = band_index + 1;
        }
        proof {
            assert forall|bb: int| 0 <= bb < max_bands implies #[trigger] summary@[bb] == (
                active_frames(prefixes@.take(j + 1), bb) as usize,
                total_points(prefixes@.take(j + 1), bb) as usize,
            ) by {
                assert(prefixes@.take(j + 1).drop_last() =~= prefixes@.take(j as int));
            }
        }
        j = j + 1;
    }
    proof {
        assert(prefixes@.take(prefixes@.len() as int) =~= prefixes@);
    }
    summary
}

pub fn ensure_channel_slots(container: &ParsedAtrac3Container) -> (r: Result<(), Atrac3Error>)
    requires
        container.channels != 0,
    ensures
        r == if (container.block_align as nat) % (container.channels as nat) != 0 {
            Err::<(), Atrac3Error>(
                Atrac3Error::BlockAlignNotDivisible {
                    block_align: container.block_align,
                    channels: container.channels,
                },
            )
        } else {
            Ok(())
        },
{
    if container.block_align as usize % container.channels as usize != 0 {
        return Err(
            Atrac3Error::BlockAlignNotDivisible {
                block_align: container.block_align,
                channels: container.channels,
            },
        );
    }
    Ok(())
}

} // verus!

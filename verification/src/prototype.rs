//! Framing of encoded channels: padding a spectrum to a minimum subband
//! count and writing a channel's sound unit into whole bytes.
use vstd::prelude::*;

use crate::bitstream::{bytes_to_bits, BitWriter};
use crate::error::Atrac3Error;
use crate::quant::SpectrumEncoding;
use crate::sound_unit::{
    sound_unit_enc, sound_unit_width, ChannelSoundUnit, RawBitPayload, SpectralSubband,
};

verus! {

/// An encoded channel: its sound unit and spectrum, the sound unit's bit
/// length, and its bytes zero-padded to a byte boundary.
#[derive(Debug, Clone)]
pub struct PrototypeFrameChannel {
    pub sound_unit: ChannelSoundUnit,
    pub spectrum: SpectrumEncoding,
    pub bit_len: usize,
    pub bytes: Vec<u8>,
}

/// An encoded frame: its channels, and the bits and bytes of the frame.
#[derive(Debug, Clone)]
pub struct PrototypeFrame {
    pub channels: Vec<PrototypeFrameChannel>,
    pub bit_len: usize,
    pub bytes: Vec<u8>,
}

/// An encoded stream: its sample rate, channel count and frame count, its
/// frames, and all the frames' bytes.
#[derive(Debug, Clone)]
pub struct PrototypeEncodeResult {
    pub sample_rate: u32,
    pub channel_count: usize,
    pub frame_count: usize,
    pub frames: Vec<PrototypeFrame>,
    pub bytes: Vec<u8>,
}

/// Appends uncoded subbands (table index 0, no scale factor, empty payload)
/// until the spectral unit holds at least `min_subband_count` subbands.
pub fn pad_spectral_unit(encoding: &mut SpectrumEncoding, min_subband_count: usize)
    ensures
        ({
            let before = old(encoding).spectral_unit.subbands@;
            let after = final(encoding).spectral_unit.subbands@;
            &&& after.len() == if before.len() < min_subband_count {
                min_subband_count as int
            } else {
                before.len() as int
            }
            &&& after.take(before.len() as int) == before
            &&& forall|i: int|
                before.len() <= i < after.len() ==> {
                    &&& (#[trigger] after[i]).table_index == 0
                    &&& after[i].scale_factor_index is None
                    &&& after[i].payload.chunks@.len() == 0
                }
        }),
        final(encoding).spectral_unit.coding_mode == old(encoding).spectral_unit.coding_mode,
        final(encoding).quantized_subbands == old(encoding).quantized_subbands,
        final(encoding).reconstructed == old(encoding).reconstructed,
        final(encoding).payload_bits == old(encoding).payload_bits,
        final(encoding).mse == old(encoding).mse,
{
    let ghost before = encoding.spectral_unit.subbands@;
    while encoding.spectral_unit.subbands.len() < min_subband_count
        invariant
            encoding.spectral_unit.subbands@.len() >= before.len(),
            encoding.spectral_unit.subbands@.len() <= if before.len() < min_subband_count {
                min_subband_count as int
            } else {
                before.len() as int
            },
            encoding.spectral_unit.subbands@.take(before.len() as int) == before,
            forall|i: int|
                before.len() <= i < encoding.spectral_unit.subbands@.len() ==> {
                    &&& (#[trigger] encoding.spectral_unit.subbands@[i]).table_index == 0
                    &&& encoding.spectral_unit.subbands@[i].scale_factor_index is None
                    &&& encoding.spectral_unit.subbands@[i].payload.chunks@.len() == 0
                },
            before == old(encoding).spectral_unit.subbands@,
            encoding.spectral_unit.coding_mode == old(encoding).spectral_unit.coding_mode,
            encoding.quantized_subbands == old(encoding).quantized_subbands,
            encoding.reconstructed == old(encoding).reconstructed,
            encoding.payload_bits == old(encoding).payload_bits,
            encoding.mse == old(encoding).mse,
        decreases min_subband_count - encoding.spectral_unit.subbands@.len(),
    {
        let ghost prev = encoding.spectral_unit.subbands@;
        encoding.spectral_unit.subbands.push(
            SpectralSubband {
                table_index: 0,
                scale_factor_index: None,
                payload: RawBitPayload { chunks: Vec::new() },
            },
        );
        assert(encoding.spectral_unit.subbands@.take(before.len() as int) =~= prev.take(
            before.len() as int,
        ));
    }
}

/// Writes a channel's sound unit: its bit length and its bytes, the bits
/// padded with zeros to a byte boundary. A unit that cannot be written is
/// refused with the error its writing gives.
pub fn encode_channel(sound_unit: ChannelSoundUnit, spectrum: SpectrumEncoding) -> (r: Result<
    PrototypeFrameChannel,
    Atrac3Error,
>)
    requires
        sound_unit_width(sound_unit) + 8 <= usize::MAX,
    ensures
        match sound_unit_enc(sound_unit) {
            Ok(bits) => r is Ok && {
                let c = r->Ok_0;
                &&& c.bit_len == bits.len()
                &&& c.bytes@.len() == (bits.len() + 7) / 8
                &&& bytes_to_bits(c.bytes@) == bits + Seq::new(
                    (c.bytes@.len() * 8 - bits.len()) as nat,
                    |i: int| false,
                )
                &&& c.sound_unit == sound_unit
                &&& c.spectrum == spectrum
            },
            Err(e) => r is Err && r->Err_0 == e,
        },
{
    let mut writer = BitWriter::new();
    match sound_unit.write_to(&mut writer) {
        Ok(_) => {},
        Err(e) => {
            return Err(e);
        },
    }
    let bit_len: usize = writer.bit_len();
    let ghost written = writer@;
    writer.byte_align_zero();
    proof {
        writer.lemma_bytes_image();
        assert(writer@ =~= written + Seq::new((writer@.len() - written.len()) as nat, |i: int| false));
    }
    let bytes = writer.into_bytes();
    Ok(PrototypeFrameChannel { sound_unit, spectrum, bit_len, bytes })
}

} // verus!

use vstd::prelude::*;

use crate::bitstream::{value_bits, BitWriter};
use crate::encoding::{
    lemma_seq_bits_len, lemma_seq_enc_len_eq, lemma_seq_enc_prefix_ok, lemma_seq_check_each, lemma_seq_check_prefix, lemma_seq_enc_len, lemma_seq_sum_each,
    lemma_seq_sum_prefix, lemma_take_all, lemma_take_last, seq_bits, seq_check, seq_enc, seq_sum,
    then_bits, wrote,
};
use crate::error::Atrac3Error;

verus! {

pub const SOUND_UNIT_ID: u8 = 0x28;
pub const MAX_CODED_QMF_BANDS: usize = 4;
pub const MAX_CODED_SUBBANDS: usize = 32;
pub const MAX_TONAL_COMPONENTS: usize = 64;
pub const TONAL_CELLS_PER_QMF_BAND: usize = 4;
pub const MAX_GAIN_POINTS: usize = 7;
pub const MAX_TONAL_ENTRIES_PER_CELL: usize = 7;

#[derive(Debug, Clone, Copy, PartialEq, Eq, Structural)]
pub enum CodingMode {
    Vlc,
    Clc,
}

/// The one-bit code of a coding mode.
pub open spec fn coding_mode_code(mode: CodingMode) -> u32 {
    match mode {
        CodingMode::Vlc => 0,
        CodingMode::Clc => 1,
    }
}

impl CodingMode {
    fn bit(self) -> (b: u32)
        ensures
            b == coding_mode_code(self),
    {
        match self {
            CodingMode::Vlc => 0,
            CodingMode::Clc => 1,
        }
    }
}

#[derive(Debug, Clone, Copy, PartialEq, Eq, Structural)]
pub enum SpectralTableKind {
    Skip,
    Pairwise,
    Single,
}

#[derive(Debug, Clone, Copy, PartialEq, Eq, Structural)]
pub enum TonalCodingModeSelector {
    AllVlc,
    AllClc,
    PerComponent,
}

/// The two-bit code of a tonal mode selector.
pub open spec fn selector_code(selector: TonalCodingModeSelector) -> u32 {
    match selector {
        TonalCodingModeSelector::AllVlc => 0,
        TonalCodingModeSelector::AllClc => 1,
        TonalCodingModeSelector::PerComponent => 3,
    }
}

/// The coding mode a selector imposes on every component, if any.
pub open spec fn selector_shared_mode(selector: TonalCodingModeSelector) -> Option<CodingMode> {
    match selector {
        TonalCodingModeSelector::AllVlc => Some(CodingMode::Vlc),
        TonalCodingModeSelector::AllClc => Some(CodingMode::Clc),
        TonalCodingModeSelector::PerComponent => None,
    }
}

impl TonalCodingModeSelector {
    fn bits(self) -> (b: u32)
        ensures
            b == selector_code(self),
    {
        match self {
            TonalCodingModeSelector::AllVlc => 0,
            TonalCodingModeSelector::AllClc => 1,
            TonalCodingModeSelector::PerComponent => 3,
        }
    }

    fn shared_mode(self) -> (m: Option<CodingMode>)
        ensures
            m == selector_shared_mode(self),
    {
        match self {
            TonalCodingModeSelector::AllVlc => Some(CodingMode::Vlc),
            TonalCodingModeSelector::AllClc => Some(CodingMode::Clc),
            TonalCodingModeSelector::PerComponent => None,
        }
    }
}

#[derive(Debug, Clone, Copy, PartialEq, Eq, Structural)]
pub struct GainPoint {
    pub level: u8,
    pub location: u8,
}

#[derive(Debug, Clone, Default, PartialEq, Eq)]
pub struct GainBand {
    pub points: Vec<GainPoint>,
}

#[derive(Debug, Clone, Copy, PartialEq, Eq, Structural)]
pub struct BitChunk {
    pub value: u32,
    pub bits: u8,
}

#[derive(Debug, Clone, Default, PartialEq, Eq)]
pub struct RawBitPayload {
    pub chunks: Vec<BitChunk>,
}

#[derive(Debug, Clone, Default, PartialEq, Eq)]
pub struct TonalEntry {
    pub scale_factor_index: u8,
    pub position: u8,
    pub payload: RawBitPayload,
}

#[derive(Debug, Clone, Default, PartialEq, Eq)]
pub struct TonalCell {
    pub entries: Vec<TonalEntry>,
}

#[derive(Debug, Clone, Default, PartialEq, Eq)]
pub struct TonalComponent {
    pub band_flags: Vec<bool>,
    pub coded_values_minus_one: u8,
    pub quant_step_index: u8,
    pub coding_mode: Option<CodingMode>,
    pub cells: Vec<TonalCell>,
}

#[derive(Debug, Clone, Default, PartialEq, Eq)]
pub struct SpectralSubband {
    pub table_index: u8,
    pub scale_factor_index: Option<u8>,
    pub payload: RawBitPayload,
}

#[derive(Debug, Clone, PartialEq, Eq)]
pub struct SpectralUnit {
    pub coding_mode: CodingMode,
    pub subbands: Vec<SpectralSubband>,
}

#[derive(Debug, Clone, PartialEq, Eq)]
pub struct ChannelSoundUnit {
    pub coded_qmf_bands: u8,
    pub gain_bands: Vec<GainBand>,
    pub tonal_mode_selector: TonalCodingModeSelector,
    pub tonal_components: Vec<TonalComponent>,
    pub spectrum: SpectralUnit,
}

// ---------------------------------------------------------------------
// What the structures must satisfy before they can be written.
// ---------------------------------------------------------------------

/// A successful check yields the given bits; a failed one its error.
pub open spec fn checked(check: Result<(), Atrac3Error>, bits: Seq<bool>) -> Result<
    Seq<bool>,
    Atrac3Error,
> {
    match check {
        Err(e) => Err(e),
        Ok(_) => Ok(bits),
    }
}

/// A successful check yields the given emission; a failed one its error.
pub open spec fn checked_then(
    check: Result<(), Atrac3Error>,
    enc: Result<Seq<bool>, Atrac3Error>,
) -> Result<Seq<bool>, Atrac3Error> {
    match check {
        Err(e) => Err(e),
        Ok(_) => enc,
    }
}

pub open spec fn gain_point_check(p: GainPoint) -> Result<(), Atrac3Error> {
    if p.level > 0x0f {
        Err(Atrac3Error::GainLevelTooLarge { level: p.level })
    } else if p.location > 0x1f {
        Err(Atrac3Error::GainLocationTooLarge { location: p.location })
    } else {
        Ok(())
    }
}

pub open spec fn gain_point_check_fn() -> spec_fn(GainPoint) -> Result<(), Atrac3Error> {
    |p: GainPoint| gain_point_check(p)
}

pub open spec fn gain_band_check(b: GainBand) -> Result<(), Atrac3Error> {
    if b.points@.len() > MAX_GAIN_POINTS {
        Err(Atrac3Error::TooManyGainPoints { count: b.points@.len() as usize })
    } else {
        seq_check(b.points@, gain_point_check_fn())
    }
}

pub open spec fn gain_band_check_fn() -> spec_fn(GainBand) -> Result<(), Atrac3Error> {
    |b: GainBand| gain_band_check(b)
}

pub open spec fn tonal_entry_check(e: TonalEntry) -> Result<(), Atrac3Error> {
    if e.scale_factor_index > 0x3f {
        Err(Atrac3Error::TonalSfIndexTooLarge { sf_index: e.scale_factor_index })
    } else if e.position > 0x3f {
        Err(Atrac3Error::TonalPositionTooLarge { position: e.position })
    } else {
        Ok(())
    }
}

pub open spec fn tonal_entry_check_fn() -> spec_fn(TonalEntry) -> Result<(), Atrac3Error> {
    |e: TonalEntry| tonal_entry_check(e)
}

pub open spec fn tonal_cell_check(c: TonalCell) -> Result<(), Atrac3Error> {
    if c.entries@.len() > MAX_TONAL_ENTRIES_PER_CELL {
        Err(Atrac3Error::TooManyTonalEntries { count: c.entries@.len() as usize })
    } else {
        seq_check(c.entries@, tonal_entry_check_fn())
    }
}

pub open spec fn tonal_cell_check_fn() -> spec_fn(TonalCell) -> Result<(), Atrac3Error> {
    |c: TonalCell| tonal_cell_check(c)
}

pub open spec fn tonal_component_check(
    c: TonalComponent,
    coded_qmf_bands: nat,
    selector: TonalCodingModeSelector,
) -> Result<(), Atrac3Error> {
    if c.band_flags@.len() != coded_qmf_bands {
        Err(
            Atrac3Error::BandFlagCountMismatch {
                actual: c.band_flags@.len() as usize,
                expected: coded_qmf_bands as usize,
            },
        )
    } else if c.cells@.len() != coded_qmf_bands * TONAL_CELLS_PER_QMF_BAND {
        Err(
            Atrac3Error::TonalCellCountMismatch {
                actual: c.cells@.len() as usize,
                expected: (coded_qmf_bands * TONAL_CELLS_PER_QMF_BAND) as usize,
            },
        )
    } else if c.coded_values_minus_one > 7 {
        Err(
            Atrac3Error::CodedValuesTooLarge { coded_values_minus_one: c.coded_values_minus_one },
        )
    } else if !(2 <= c.quant_step_index <= 7) {
        Err(Atrac3Error::QuantStepOutOfRange { quant_step_index: c.quant_step_index })
    } else if (selector_shared_mode(selector) matches Some(shared) && (c.coding_mode matches Some(
        mode,
    ) && mode != shared)) {
        Err(Atrac3Error::TonalModeConflict { mode: c.coding_mode->Some_0, selector })
    } else if selector_shared_mode(selector) is None && c.coding_mode is None {
        Err(Atrac3Error::TonalModeMissing)
    } else {
        seq_check(c.cells@, tonal_cell_check_fn())
    }
}

pub open spec fn tonal_component_check_fn(
    coded_qmf_bands: nat,
    selector: TonalCodingModeSelector,
) -> spec_fn(TonalComponent) -> Result<(), Atrac3Error> {
    |c: TonalComponent| tonal_component_check(c, coded_qmf_bands, selector)
}

pub open spec fn subband_check(s: SpectralSubband) -> Result<(), Atrac3Error> {
    if s.table_index > 7 {
        Err(Atrac3Error::TableIndexTooLarge { table_index: s.table_index })
    } else if s.table_index == 0 {
        if s.scale_factor_index is Some {
            Err(Atrac3Error::SkippedSubbandHasScaleFactor)
        } else {
            Ok(())
        }
    } else if s.table_index == 1 {
        if s.scale_factor_index matches Some(v) && v <= 0x3f {
            Ok(())
        } else {
            Err(Atrac3Error::PairwiseSubbandNeedsScaleFactor)
        }
    } else {
        if s.scale_factor_index matches Some(v) && v <= 0x3f {
            Ok(())
        } else {
            Err(Atrac3Error::CodedSubbandNeedsScaleFactor)
        }
    }
}

pub open spec fn subband_check_fn() -> spec_fn(SpectralSubband) -> Result<(), Atrac3Error> {
    |s: SpectralSubband| subband_check(s)
}

pub open spec fn spectral_unit_check(u: SpectralUnit) -> Result<(), Atrac3Error> {
    if !(1 <= u.subbands@.len() <= MAX_CODED_SUBBANDS) {
        Err(Atrac3Error::SubbandCountOutOfRange { count: u.subbands@.len() as usize })
    } else {
        seq_check(u.subbands@, subband_check_fn())
    }
}

pub open spec fn sound_unit_check(u: ChannelSoundUnit) -> Result<(), Atrac3Error> {
    if !(1 <= u.coded_qmf_bands <= MAX_CODED_QMF_BANDS) {
        Err(Atrac3Error::CodedQmfBandsOutOfRange { coded_qmf_bands: u.coded_qmf_bands })
    } else if u.gain_bands@.len() != u.coded_qmf_bands {
        Err(
            Atrac3Error::GainBandCountMismatch {
                actual: u.gain_bands@.len() as usize,
                expected: u.coded_qmf_bands as usize,
            },
        )
    } else if u.tonal_components@.len() > MAX_TONAL_COMPONENTS {
        Err(Atrac3Error::TooManyTonalComponents { count: u.tonal_components@.len() as usize })
    } else {
        match seq_check(u.gain_bands@, gain_band_check_fn()) {
            Err(e) => Err(e),
            Ok(_) => match seq_check(
                u.tonal_components@,
                tonal_component_check_fn(u.coded_qmf_bands as nat, u.tonal_mode_selector),
            ) {
                Err(e) => Err(e),
                Ok(_) => spectral_unit_check(u.spectrum),
            },
        }
    }
}

// ---------------------------------------------------------------------
// The bits each structure is written as.
// ---------------------------------------------------------------------

pub open spec fn chunk_enc(c: BitChunk) -> Result<Seq<bool>, Atrac3Error> {
    if c.bits > 32 {
        Err(Atrac3Error::BitWidthTooLarge { bits: c.bits })
    } else {
        Ok(value_bits(c.value, c.bits as nat))
    }
}

pub open spec fn chunk_enc_fn() -> spec_fn(BitChunk) -> Result<Seq<bool>, Atrac3Error> {
    |c: BitChunk| chunk_enc(c)
}

pub open spec fn chunk_width_fn() -> spec_fn(BitChunk) -> nat {
    |c: BitChunk| c.bits as nat
}

/// The bits a payload is written as: its chunks in order.
pub open spec fn payload_enc(p: RawBitPayload) -> Result<Seq<bool>, Atrac3Error> {
    seq_enc(p.chunks@, chunk_enc_fn())
}

/// Total width of a payload's chunks.
pub open spec fn payload_width(p: RawBitPayload) -> nat {
    seq_sum(p.chunks@, chunk_width_fn())
}

pub open spec fn gain_point_bits(p: GainPoint) -> Seq<bool> {
    value_bits(p.level as u32, 4) + value_bits(p.location as u32, 5)
}

pub open spec fn gain_point_bits_fn() -> spec_fn(GainPoint) -> Seq<bool> {
    |p: GainPoint| gain_point_bits(p)
}

pub open spec fn gain_band_bits(b: GainBand) -> Seq<bool> {
    value_bits(b.points@.len() as u32, 3) + seq_bits(b.points@, gain_point_bits_fn())
}

pub open spec fn gain_band_bits_fn() -> spec_fn(GainBand) -> Seq<bool> {
    |b: GainBand| gain_band_bits(b)
}

pub open spec fn tonal_entry_enc(e: TonalEntry) -> Result<Seq<bool>, Atrac3Error> {
    then_bits(
        Ok(value_bits(e.scale_factor_index as u32, 6) + value_bits(e.position as u32, 6)),
        payload_enc(e.payload),
    )
}

pub open spec fn tonal_entry_enc_fn() -> spec_fn(TonalEntry) -> Result<Seq<bool>, Atrac3Error> {
    |e: TonalEntry| tonal_entry_enc(e)
}

pub open spec fn tonal_cell_enc(c: TonalCell) -> Result<Seq<bool>, Atrac3Error> {
    then_bits(
        Ok(value_bits(c.entries@.len() as u32, 3)),
        seq_enc(c.entries@, tonal_entry_enc_fn()),
    )
}

/// The cells of a component among the first `n` whose QMF band is flagged.
pub open spec fn flagged_cells_enc(cells: Seq<TonalCell>, flags: Seq<bool>, n: nat) -> Result<
    Seq<bool>,
    Atrac3Error,
>
    decreases n,
{
    if n == 0 {
        Ok(Seq::empty())
    } else {
        then_bits(
            flagged_cells_enc(cells, flags, (n - 1) as nat),
            if flags[(n - 1) / 4] {
                tonal_cell_enc(cells[n - 1])
            } else {
                Ok(Seq::empty())
            },
        )
    }
}

pub open spec fn tonal_component_header(
    c: TonalComponent,
    selector: TonalCodingModeSelector,
) -> Seq<bool> {
    c.band_flags@ + value_bits(c.coded_values_minus_one as u32, 3) + value_bits(
        c.quant_step_index as u32,
        3,
    ) + if selector == TonalCodingModeSelector::PerComponent {
        value_bits(coding_mode_code(c.coding_mode->Some_0), 1)
    } else {
        Seq::empty()
    }
}

pub open spec fn tonal_component_body(
    c: TonalComponent,
    selector: TonalCodingModeSelector,
) -> Result<Seq<bool>, Atrac3Error> {
    then_bits(
        Ok(tonal_component_header(c, selector)),
        flagged_cells_enc(c.cells@, c.band_flags@, c.cells@.len()),
    )
}

/// What `TonalComponent::write_to` emits.
pub open spec fn tonal_component_enc(
    c: TonalComponent,
    coded_qmf_bands: nat,
    selector: TonalCodingModeSelector,
) -> Result<Seq<bool>, Atrac3Error> {
    checked_then(
        tonal_component_check(c, coded_qmf_bands, selector),
        tonal_component_body(c, selector),
    )
}

pub open spec fn tonal_component_body_fn(selector: TonalCodingModeSelector) -> spec_fn(
    TonalComponent,
) -> Result<Seq<bool>, Atrac3Error> {
    |c: TonalComponent| tonal_component_body(c, selector)
}

pub open spec fn subband_table_bits_fn() -> spec_fn(SpectralSubband) -> Seq<bool> {
    |s: SpectralSubband| value_bits(s.table_index as u32, 3)
}

pub open spec fn subband_sf_bits_fn() -> spec_fn(SpectralSubband) -> Seq<bool> {
    |s: SpectralSubband|
        match s.scale_factor_index {
            Some(v) => value_bits(v as u32, 6),
            None => Seq::empty(),
        }
}

pub open spec fn subband_payload_enc_fn() -> spec_fn(SpectralSubband) -> Result<
    Seq<bool>,
    Atrac3Error,
> {
    |s: SpectralSubband|
        if s.table_index != 0 {
            payload_enc(s.payload)
        } else {
            Ok(Seq::empty())
        }
}

pub open spec fn spectral_unit_header(u: SpectralUnit) -> Seq<bool> {
    value_bits((u.subbands@.len() - 1) as u32, 5) + value_bits(coding_mode_code(u.coding_mode), 1)
        + seq_bits(u.subbands@, subband_table_bits_fn()) + seq_bits(
        u.subbands@,
        subband_sf_bits_fn(),
    )
}

pub open spec fn spectral_unit_body(u: SpectralUnit) -> Result<Seq<bool>, Atrac3Error> {
    then_bits(Ok(spectral_unit_header(u)), seq_enc(u.subbands@, subband_payload_enc_fn()))
}

pub open spec fn sound_unit_header(u: ChannelSoundUnit) -> Seq<bool> {
    value_bits(SOUND_UNIT_ID as u32, 6) + value_bits((u.coded_qmf_bands - 1) as u32, 2) + seq_bits(
        u.gain_bands@,
        gain_band_bits_fn(),
    ) + value_bits(u.tonal_components@.len() as u32, 5) + if u.tonal_components@.len() > 0 {
        value_bits(selector_code(u.tonal_mode_selector), 2)
    } else {
        Seq::empty()
    }
}

/// What a sound unit that passed its checks is written as.
pub open spec fn sound_unit_body(u: ChannelSoundUnit) -> Result<Seq<bool>, Atrac3Error> {
    then_bits(
        then_bits(
            Ok(sound_unit_header(u)),
            seq_enc(u.tonal_components@, tonal_component_body_fn(u.tonal_mode_selector)),
        ),
        spectral_unit_body(u.spectrum),
    )
}

/// The complete bit serialisation of a channel sound unit, or the error
/// that writing it reports.
pub open spec fn sound_unit_enc(u: ChannelSoundUnit) -> Result<Seq<bool>, Atrac3Error> {
    checked_then(sound_unit_check(u), sound_unit_body(u))
}

// ---------------------------------------------------------------------
// Upper bounds on what writing can append (needed so the bit counter
// cannot overflow).
// ---------------------------------------------------------------------

pub open spec fn tonal_entry_width(e: TonalEntry) -> nat {
    12 + payload_width(e.payload)
}

pub open spec fn tonal_entry_width_fn() -> spec_fn(TonalEntry) -> nat {
    |e: TonalEntry| tonal_entry_width(e)
}

pub open spec fn tonal_cell_width(c: TonalCell) -> nat {
    3 + seq_sum(c.entries@, tonal_entry_width_fn())
}

pub open spec fn tonal_cell_width_fn() -> spec_fn(TonalCell) -> nat {
    |c: TonalCell| tonal_cell_width(c)
}

pub open spec fn tonal_component_width(c: TonalComponent) -> nat {
    c.band_flags@.len() + 7 + seq_sum(c.cells@, tonal_cell_width_fn())
}

pub open spec fn tonal_component_width_fn() -> spec_fn(TonalComponent) -> nat {
    |c: TonalComponent| tonal_component_width(c)
}

pub open spec fn gain_band_width(b: GainBand) -> nat {
    3 + 9 * b.points@.len()
}

pub open spec fn gain_band_width_fn() -> spec_fn(GainBand) -> nat {
    |b: GainBand| gain_band_width(b)
}

pub open spec fn subband_payload_width_fn() -> spec_fn(SpectralSubband) -> nat {
    |s: SpectralSubband| payload_width(s.payload)
}

pub open spec fn spectral_unit_width(u: SpectralUnit) -> nat {
    6 + 9 * u.subbands@.len() + seq_sum(u.subbands@, subband_payload_width_fn())
}

pub open spec fn sound_unit_width(u: ChannelSoundUnit) -> nat {
    8 + seq_sum(u.gain_bands@, gain_band_width_fn()) + 7 + seq_sum(
        u.tonal_components@,
        tonal_component_width_fn(),
    ) + spectral_unit_width(u.spectrum)
}

// ---------------------------------------------------------------------
// Executable checks and writers.
// ---------------------------------------------------------------------

impl GainPoint {
    fn validate(self) -> (r: Result<(), Atrac3Error>)
        ensures
            r == gain_point_check(self),
    {
        if self.level > 0x0f {
            return Err(Atrac3Error::GainLevelTooLarge { level: self.level });
        }
        if self.location > 0x1f {
            return Err(Atrac3Error::GainLocationTooLarge { location: self.location });
        }
        Ok(())
    }

    fn write_to(self, writer: &mut BitWriter) -> (r: Result<(), Atrac3Error>)
        requires
            old(writer).wf(),
            old(writer)@.len() + 9 <= usize::MAX,
        ensures
            final(writer).wf(),
            wrote(old(writer)@, final(writer)@, r, checked(gain_point_check(self), gain_point_bits(self))),
    {
        match self.validate() {
            Err(e) => {
                assert(old(writer)@.is_prefix_of(writer@));
                return Err(e);
            },
            Ok(_) => {},
        }
        let _ = writer.write_bits(self.level as u32, 4);
        let _ = writer.write_bits(self.location as u32, 5);
        assert(writer@ =~= old(writer)@ + gain_point_bits(self));
        Ok(())
    }
}

impl GainBand {
    fn validate(&self) -> (r: Result<(), Atrac3Error>)
        ensures
            r == gain_band_check(*self),
    {
        if self.points.len() > MAX_GAIN_POINTS {
            return Err(Atrac3Error::TooManyGainPoints { count: self.points.len() });
        }
        let mut i: usize = 0;
        while i < self.points.len()
            invariant
                i <= self.points@.len() <= MAX_GAIN_POINTS,
                seq_check(self.points@.take(i as int), gain_point_check_fn()) is Ok,
            decreases self.points@.len() - i,
        {
            proof {
                lemma_take_last(self.points@, i as int);
            }
            match self.points[i].validate() {
                Err(e) => {
                    proof {
                        assert(gain_point_check_fn()(self.points@[i as int]) == Err::<(), Atrac3Error>(e));
                        lemma_seq_check_first_err(self.points@, gain_point_check_fn(), i as int);
                    }
                    return Err(e);
                },
                Ok(_) => {},
            }
            i = i + 1;
        }
        proof {
            lemma_take_all(self.points@);
        }
        Ok(())
    }

    fn write_to(&self, writer: &mut BitWriter) -> (r: Result<(), Atrac3Error>)
        requires
            old(writer).wf(),
            old(writer)@.len() + gain_band_width(*self) <= usize::MAX,
        ensures
            final(writer).wf(),
            wrote(old(writer)@, final(writer)@, r, checked(gain_band_check(*self), gain_band_bits(*self))),
    {
        match self.validate() {
            Err(e) => {
                assert(old(writer)@.is_prefix_of(writer@));
                return Err(e);
            },
            Ok(_) => {},
        }
        let _ = writer.write_bits(self.points.len() as u32, 3);
        let ghost head = writer@;
        let mut i: usize = 0;
        while i < self.points.len()
            invariant
                i <= self.points@.len() <= MAX_GAIN_POINTS,
                writer.wf(),
                gain_band_check(*self) is Ok,
                old(writer)@.len() + gain_band_width(*self) <= usize::MAX,
                head == old(writer)@ + value_bits(self.points@.len() as u32, 3),
                writer@ == head + seq_bits(self.points@.take(i as int), gain_point_bits_fn()),
                writer@.len() == head.len() + 9 * i,
            decreases self.points@.len() - i,
        {
            proof {
                lemma_take_last(self.points@, i as int);
                lemma_seq_check_each(self.points@, gain_point_check_fn(), i as int);
            }
            let _ = self.points[i].write_to(writer);
            i = i + 1;
            proof {
                assert(writer@ =~= head + seq_bits(self.points@.take(i as int), gain_point_bits_fn()));
            }
        }
        proof {
            lemma_take_all(self.points@);
            assert(writer@ =~= old(writer)@ + gain_band_bits(*self));
        }
        Ok(())
    }
}

impl RawBitPayload {
    pub fn push_bits(&mut self, value: u32, bits: u8) -> (r: Result<(), Atrac3Error>)
        ensures
            bits <= 32 ==> r is Ok && final(self).chunks@ == old(self).chunks@.push(
                BitChunk { value, bits },
            ),
            bits > 32 ==> r == Err::<(), Atrac3Error>(Atrac3Error::PayloadChunkTooWide { bits })
                && final(self).chunks@ == old(self).chunks@,
    {
        if bits > 32 {
            return Err(Atrac3Error::PayloadChunkTooWide { bits });
        }
        self.chunks.push(BitChunk { value, bits });
        Ok(())
    }

    pub fn bit_len(&self) -> (n: usize)
        requires
            payload_width(*self) <= usize::MAX,
        ensures
            n == payload_width(*self),
    {
        let mut total: usize = 0;
        let mut i: usize = 0;
        while i < self.chunks.len()
            invariant
                i <= self.chunks@.len(),
                payload_width(*self) <= usize::MAX,
                total == seq_sum(self.chunks@.take(i as int), chunk_width_fn()),
            decreases self.chunks@.len() - i,
        {
            proof {
                lemma_take_last(self.chunks@, i as int);
                lemma_seq_sum_prefix(self.chunks@, chunk_width_fn(), i + 1);
            }
            total = total + self.chunks[i].bits as usize;
            i = i + 1;
        }
        proof {
            lemma_take_all(self.chunks@);
        }
        total
    }

    fn write_to(&self, writer: &mut BitWriter) -> (r: Result<(), Atrac3Error>)
        requires
            old(writer).wf(),
            old(writer)@.len() + payload_width(*self) <= usize::MAX,
        ensures
            final(writer).wf(),
            wrote(old(writer)@, final(writer)@, r, payload_enc(*self)),
            r is Ok ==> final(writer)@.len() == old(writer)@.len() + payload_width(*self),
    {
        let ghost start = writer@;
        let mut i: usize = 0;
        while i < self.chunks.len()
            invariant
                i <= self.chunks@.len(),
                writer.wf(),
                start == old(writer)@,
                start.len() + payload_width(*self) <= usize::MAX,
                seq_enc(self.chunks@.take(i as int), chunk_enc_fn()) matches Ok(b) && writer@
                    == start + b,
                writer@.len() == start.len() + seq_sum(self.chunks@.take(i as int), chunk_width_fn()),
            decreases self.chunks@.len() - i,
        {
            proof {
                lemma_take_last(self.chunks@, i as int);
                lemma_seq_sum_prefix(self.chunks@, chunk_width_fn(), i + 1);
            }
            let chunk = self.chunks[i];
            match writer.write_bits(chunk.value, chunk.bits) {
                Err(e) => {
                    proof {
                        lemma_seq_enc_first_err(self.chunks@, chunk_enc_fn(), i as int);
                        assert(start.is_prefix_of(writer@));
                    }
                    return Err(e);
                },
                Ok(_) => {},
            }
            i = i + 1;
            proof {
                let b = seq_enc(self.chunks@.take(i - 1), chunk_enc_fn())->Ok_0;
                assert(writer@ =~= start + (b + value_bits(chunk.value, chunk.bits as nat)));
            }
        }
        proof {
            lemma_take_all(self.chunks@);
        }
        Ok(())
    }
}

/// If a sequence check failed at item `i` after passing the items before,
/// the whole check reports that item's error.
pub proof fn lemma_seq_check_first_err<T>(
    s: Seq<T>,
    f: spec_fn(T) -> Result<(), Atrac3Error>,
    i: int,
)
    requires
        0 <= i < s.len(),
        seq_check(s.take(i), f) is Ok,
        f(s[i]) is Err,
    ensures
        seq_check(s, f) == f(s[i]),
    decreases s.len(),
{
    lemma_take_last(s, i);
    if i < s.len() - 1 {
        assert(s.drop_last().take(i) =~= s.take(i));
        lemma_seq_check_first_err(s.drop_last(), f, i);
    } else {
        assert(s.drop_last() =~= s.take(i));
    }
}

/// If an emission failed at item `i` after the items before succeeded, the
/// whole emission reports that item's error.
pub proof fn lemma_seq_enc_first_err<T>(
    s: Seq<T>,
    f: spec_fn(T) -> Result<Seq<bool>, Atrac3Error>,
    i: int,
)
    requires
        0 <= i < s.len(),
        seq_enc(s.take(i), f) is Ok,
        f(s[i]) is Err,
    ensures
        seq_enc(s, f) == Err::<Seq<bool>, Atrac3Error>(f(s[i])->Err_0),
    decreases s.len(),
{
    lemma_take_last(s, i);
    if i < s.len() - 1 {
        assert(s.drop_last().take(i) =~= s.take(i));
        lemma_seq_enc_first_err(s.drop_last(), f, i);
    } else {
        assert(s.drop_last() =~= s.take(i));
    }
}


pub proof fn lemma_payload_enc_len(p: RawBitPayload)
    ensures
        payload_enc(p) matches Ok(b) ==> b.len() == payload_width(p),
{
    assert forall|i: int| 0 <= i < p.chunks@.len() implies (#[trigger] chunk_enc_fn()(
        p.chunks@[i],
    ) matches Ok(b) ==> b.len() == chunk_width_fn()(p.chunks@[i])) by {}
    lemma_seq_enc_len_eq(p.chunks@, chunk_enc_fn(), chunk_width_fn());
}

pub proof fn lemma_tonal_entry_enc_len(e: TonalEntry)
    ensures
        tonal_entry_enc(e) matches Ok(b) ==> b.len() == tonal_entry_width(e),
{
    lemma_payload_enc_len(e.payload);
}

pub proof fn lemma_tonal_cell_enc_len(c: TonalCell)
    ensures
        tonal_cell_enc(c) matches Ok(b) ==> b.len() == tonal_cell_width(c),
{
    assert forall|i: int| 0 <= i < c.entries@.len() implies (#[trigger] tonal_entry_enc_fn()(
        c.entries@[i],
    ) matches Ok(b) ==> b.len() == tonal_entry_width_fn()(c.entries@[i])) by {
        lemma_tonal_entry_enc_len(c.entries@[i]);
    }
    lemma_seq_enc_len_eq(c.entries@, tonal_entry_enc_fn(), tonal_entry_width_fn());
}

pub proof fn lemma_flagged_cells_enc_len(cells: Seq<TonalCell>, flags: Seq<bool>, n: nat)
    requires
        n <= cells.len(),
    ensures
        flagged_cells_enc(cells, flags, n) matches Ok(b) ==> b.len() <= seq_sum(
            cells.take(n as int),
            tonal_cell_width_fn(),
        ),
    decreases n,
{
    if n > 0 {
        lemma_flagged_cells_enc_len(cells, flags, (n - 1) as nat);
        lemma_take_last(cells, n - 1);
        lemma_tonal_cell_enc_len(cells[n - 1]);
    } else {
        assert(cells.take(0) =~= Seq::<TonalCell>::empty());
    }
}

pub proof fn lemma_gain_points_bits_len(ps: Seq<GainPoint>)
    ensures
        seq_bits(ps, gain_point_bits_fn()).len() == 9 * ps.len(),
    decreases ps.len(),
{
    if ps.len() > 0 {
        lemma_gain_points_bits_len(ps.drop_last());
    }
}

impl TonalEntry {
    fn validate(&self) -> (r: Result<(), Atrac3Error>)
        ensures
            r == tonal_entry_check(*self),
    {
        if self.scale_factor_index > 0x3f {
            return Err(Atrac3Error::TonalSfIndexTooLarge { sf_index: self.scale_factor_index });
        }
        if self.position > 0x3f {
            return Err(Atrac3Error::TonalPositionTooLarge { position: self.position });
        }
        Ok(())
    }

    fn write_to(&self, writer: &mut BitWriter) -> (r: Result<(), Atrac3Error>)
        requires
            old(writer).wf(),
            old(writer)@.len() + tonal_entry_width(*self) <= usize::MAX,
        ensures
            final(writer).wf(),
            wrote(
                old(writer)@,
                final(writer)@,
                r,
                checked_then(tonal_entry_check(*self), tonal_entry_enc(*self)),
            ),
            r is Ok ==> final(writer)@.len() == old(writer)@.len() + tonal_entry_width(*self),
    {
        match self.validate() {
            Err(e) => {
                assert(old(writer)@.is_prefix_of(writer@));
                return Err(e);
            },
            Ok(_) => {},
        }
        let _ = writer.write_bits(self.scale_factor_index as u32, 6);
        let _ = writer.write_bits(self.position as u32, 6);
        let ghost head = writer@;
        let r = self.payload.write_to(writer);
        proof {
            let h = value_bits(self.scale_factor_index as u32, 6) + value_bits(
                self.position as u32,
                6,
            );
            assert(head =~= old(writer)@ + h);
            match payload_enc(self.payload) {
                Ok(b) => {
                    assert(writer@ =~= old(writer)@ + (h + b));
                },
                Err(e) => {
                    assert(old(writer)@.is_prefix_of(head));
                },
            }
        }
        r
    }
}

impl TonalCell {
    fn validate(&self) -> (r: Result<(), Atrac3Error>)
        ensures
            r == tonal_cell_check(*self),
    {
        if self.entries.len() > MAX_TONAL_ENTRIES_PER_CELL {
            return Err(Atrac3Error::TooManyTonalEntries { count: self.entries.len() });
        }
        let mut i: usize = 0;
        while i < self.entries.len()
            invariant
                i <= self.entries@.len() <= MAX_TONAL_ENTRIES_PER_CELL,
                seq_check(self.entries@.take(i as int), tonal_entry_check_fn()) is Ok,
            decreases self.entries@.len() - i,
        {
            proof {
                lemma_take_last(self.entries@, i as int);
            }
            match self.entries[i].validate() {
                Err(e) => {
                    proof {
                        assert(tonal_entry_check_fn()(self.entries@[i as int]) == Err::<
                            (),
                            Atrac3Error,
                        >(e));
                        lemma_seq_check_first_err(self.entries@, tonal_entry_check_fn(), i as int);
                    }
                    return Err(e);
                },
                Ok(_) => {},
            }
            i = i + 1;
        }
        proof {
            lemma_take_all(self.entries@);
        }
        Ok(())
    }

    fn write_to(&self, writer: &mut BitWriter) -> (r: Result<(), Atrac3Error>)
        requires
            old(writer).wf(),
            old(writer)@.len() + tonal_cell_width(*self) <= usize::MAX,
        ensures
            final(writer).wf(),
            wrote(
                old(writer)@,
                final(writer)@,
                r,
                checked_then(tonal_cell_check(*self), tonal_cell_enc(*self)),
            ),
            r is Ok ==> final(writer)@.len() == old(writer)@.len() + tonal_cell_width(*self),
    {
        match self.validate() {
            Err(e) => {
                assert(old(writer)@.is_prefix_of(writer@));
                return Err(e);
            },
            Ok(_) => {},
        }
        let _ = writer.write_bits(self.entries.len() as u32, 3);
        let ghost head = writer@;
        let mut i: usize = 0;
        while i < self.entries.len()
            invariant
                i <= self.entries@.len(),
                writer.wf(),
                tonal_cell_check(*self) is Ok,
                old(writer)@.len() + tonal_cell_width(*self) <= usize::MAX,
                head == old(writer)@ + value_bits(self.entries@.len() as u32, 3),
                seq_enc(self.entries@.take(i as int), tonal_entry_enc_fn()) matches Ok(b)
                    && writer@ == head + b,
                writer@.len() == head.len() + seq_sum(
                    self.entries@.take(i as int),
                    tonal_entry_width_fn(),
                ),
            decreases self.entries@.len() - i,
        {
            proof {
                lemma_take_last(self.entries@, i as int);
                lemma_seq_sum_prefix(self.entries@, tonal_entry_width_fn(), i + 1);
                lemma_seq_check_each(self.entries@, tonal_entry_check_fn(), i as int);
            }
            let ghost before = writer@;
            match self.entries[i].write_to(writer) {
                Err(e) => {
                    proof {
                        lemma_seq_enc_first_err(self.entries@, tonal_entry_enc_fn(), i as int);
                        assert(old(writer)@.is_prefix_of(before));
                        assert(before.is_prefix_of(writer@));
                    }
                    return Err(e);
                },
                Ok(_) => {},
            }
            i = i + 1;
            proof {
                let b = seq_enc(self.entries@.take(i - 1), tonal_entry_enc_fn())->Ok_0;
                let eb = tonal_entry_enc(self.entries@[i - 1])->Ok_0;
                assert(writer@ =~= head + (b + eb));
            }
        }
        proof {
            lemma_take_all(self.entries@);
            let b = seq_enc(self.entries@, tonal_entry_enc_fn())->Ok_0;
            assert(writer@ =~= old(writer)@ + (value_bits(self.entries@.len() as u32, 3) + b));
        }
        Ok(())
    }
}

impl TonalComponent {
    fn validate(&self, coded_qmf_bands: usize, selector: TonalCodingModeSelector) -> (r: Result<
        (),
        Atrac3Error,
    >)
        requires
            coded_qmf_bands * TONAL_CELLS_PER_QMF_BAND <= usize::MAX,
        ensures
            r == tonal_component_check(*self, coded_qmf_bands as nat, selector),
    {
        if self.band_flags.len() != coded_qmf_bands {
            return Err(
                Atrac3Error::BandFlagCountMismatch {
                    actual: self.band_flags.len(),
                    expected: coded_qmf_bands,
                },
            );
        }
        if self.cells.len() != coded_qmf_bands * TONAL_CELLS_PER_QMF_BAND {
            return Err(
                Atrac3Error::TonalCellCountMismatch {
                    actual: self.cells.len(),
                    expected: coded_qmf_bands * TONAL_CELLS_PER_QMF_BAND,
                },
            );
        }
        if self.coded_values_minus_one > 7 {
            return Err(
                Atrac3Error::CodedValuesTooLarge {
                    coded_values_minus_one: self.coded_values_minus_one,
                },
            );
        }
        if !(2 <= self.quant_step_index && self.quant_step_index <= 7) {
            return Err(Atrac3Error::QuantStepOutOfRange { quant_step_index: self.quant_step_index });
        }
        match selector.shared_mode() {
            Some(shared) => {
                if let Some(mode) = self.coding_mode {
                    if mode != shared {
                        return Err(Atrac3Error::TonalModeConflict { mode, selector });
                    }
                }
            },
            None => {
                if self.coding_mode.is_none() {
                    return Err(Atrac3Error::TonalModeMissing);
                }
            },
        }
        assert(tonal_component_check(*self, coded_qmf_bands as nat, selector) == seq_check(
            self.cells@,
            tonal_cell_check_fn(),
        ));
        let mut i: usize = 0;
        while i < self.cells.len()
            invariant
                i <= self.cells@.len(),
                tonal_component_check(*self, coded_qmf_bands as nat, selector) == seq_check(
                    self.cells@,
                    tonal_cell_check_fn(),
                ),
                seq_check(self.cells@.take(i as int), tonal_cell_check_fn()) is Ok,
            decreases self.cells@.len() - i,
        {
            proof {
                lemma_take_last(self.cells@, i as int);
            }
            match self.cells[i].validate() {
                Err(e) => {
                    proof {
                        assert(tonal_cell_check_fn()(self.cells@[i as int]) == Err::<
                            (),
                            Atrac3Error,
                        >(e));
                        lemma_seq_check_first_err(self.cells@, tonal_cell_check_fn(), i as int);
                    }
                    return Err(e);
                },
                Ok(_) => {},
            }
            i = i + 1;
        }
        proof {
            lemma_take_all(self.cells@);
        }
        Ok(())
    }

    pub fn write_to(
        &self,
        writer: &mut BitWriter,
        coded_qmf_bands: usize,
        selector: TonalCodingModeSelector,
    ) -> (r: Result<(), Atrac3Error>)
        requires
            old(writer).wf(),
            old(writer)@.len() + tonal_component_width(*self) <= usize::MAX,
            coded_qmf_bands * TONAL_CELLS_PER_QMF_BAND <= usize::MAX,
        ensures
            final(writer).wf(),
            wrote(
                old(writer)@,
                final(writer)@,
                r,
                tonal_component_enc(*self, coded_qmf_bands as nat, selector),
            ),
            tonal_component_check(*self, coded_qmf_bands as nat, selector) is Err ==> *final(writer)
                == *old(writer),
            r is Ok ==> final(writer)@.len() <= old(writer)@.len() + tonal_component_width(*self),
    {
        match self.validate(coded_qmf_bands, selector) {
            Err(e) => {
                assert(old(writer)@.is_prefix_of(writer@));
                return Err(e);
            },
            Ok(_) => {},
        }
        let mut f: usize = 0;
        while f < self.band_flags.len()
            invariant
                f <= self.band_flags@.len(),
                writer.wf(),
                old(writer)@.len() + tonal_component_width(*self) <= usize::MAX,
                writer@ == old(writer)@ + self.band_flags@.take(f as int),
            decreases self.band_flags@.len() - f,
        {
            writer.write_bit(self.band_flags[f]);
            f = f + 1;
            assert(writer@ =~= old(writer)@ + self.band_flags@.take(f as int));
        }
        proof {
            lemma_take_all(self.band_flags@);
        }
        let _ = writer.write_bits(self.coded_values_minus_one as u32, 3);
        let _ = writer.write_bits(self.quant_step_index as u32, 3);
        if selector == TonalCodingModeSelector::PerComponent {
            let mode = self.coding_mode.unwrap();
            let _ = writer.write_bits(mode.bit(), 1);
        }
        let ghost head = writer@;
        proof {
            assert(head =~= old(writer)@ + tonal_component_header(*self, selector));
        }
        let mut i: usize = 0;
        while i < self.cells.len()
            invariant
                i <= self.cells@.len(),
                self.cells@.len() == self.band_flags@.len() * 4,
                tonal_component_check(*self, coded_qmf_bands as nat, selector) is Ok,
                writer.wf(),
                seq_check(self.cells@, tonal_cell_check_fn()) is Ok,
                old(writer)@.len() + tonal_component_width(*self) <= usize::MAX,
                head == old(writer)@ + tonal_component_header(*self, selector),
                head.len() <= old(writer)@.len() + self.band_flags@.len() + 7,
                flagged_cells_enc(self.cells@, self.band_flags@, i as nat) matches Ok(b) && writer@
                    == head + b,
                writer@.len() <= head.len() + seq_sum(
                    self.cells@.take(i as int),
                    tonal_cell_width_fn(),
                ),
            decreases self.cells@.len() - i,
        {
            proof {
                lemma_take_last(self.cells@, i as int);
                lemma_seq_sum_prefix(self.cells@, tonal_cell_width_fn(), i + 1);
                lemma_seq_check_each(self.cells@, tonal_cell_check_fn(), i as int);
            }
            if self.band_flags[i / TONAL_CELLS_PER_QMF_BAND] {
                let ghost before = writer@;
                match self.cells[i].write_to(writer) {
                    Err(e) => {
                        proof {
                            assert(flagged_cells_enc(self.cells@, self.band_flags@, (i + 1) as nat)
                                == Err::<Seq<bool>, Atrac3Error>(e));
                            lemma_flagged_cells_err(
                                self.cells@,
                                self.band_flags@,
                                (i + 1) as nat,
                                self.cells@.len(),
                            );
                            assert(old(writer)@.is_prefix_of(before));
                            assert(before.is_prefix_of(writer@));
                        }
                        return Err(e);
                    },
                    Ok(_) => {},
                }
                proof {
                    let b = flagged_cells_enc(self.cells@, self.band_flags@, i as nat)->Ok_0;
                    let cb = tonal_cell_enc(self.cells@[i as int])->Ok_0;
                    assert(writer@ =~= head + (b + cb));
                }
            } else {
                proof {
                    let b = flagged_cells_enc(self.cells@, self.band_flags@, i as nat)->Ok_0;
                    assert(b + Seq::<bool>::empty() =~= b);
                }
            }
            i = i + 1;
        }
        proof {
            lemma_take_all(self.cells@);
            let b = flagged_cells_enc(self.cells@, self.band_flags@, self.cells@.len())->Ok_0;
            assert(writer@ =~= old(writer)@ + (tonal_component_header(*self, selector) + b));
        }
        Ok(())
    }
}

/// Once the flagged cells up to `m` fail, every longer prefix fails the same way.
pub proof fn lemma_flagged_cells_err(cells: Seq<TonalCell>, flags: Seq<bool>, m: nat, n: nat)
    requires
        m <= n,
        flagged_cells_enc(cells, flags, m) is Err,
    ensures
        flagged_cells_enc(cells, flags, n) == flagged_cells_enc(cells, flags, m),
    decreases n,
{
    if m < n {
        lemma_flagged_cells_err(cells, flags, m, (n - 1) as nat);
    }
}

impl SpectralSubband {
    pub fn table_kind(&self) -> (k: SpectralTableKind)
        ensures
            k == (if self.table_index == 0 {
                SpectralTableKind::Skip
            } else if self.table_index == 1 {
                SpectralTableKind::Pairwise
            } else {
                SpectralTableKind::Single
            }),
    {
        match self.table_index {
            0 => SpectralTableKind::Skip,
            1 => SpectralTableKind::Pairwise,
            _ => SpectralTableKind::Single,
        }
    }

    fn validate(&self) -> (r: Result<(), Atrac3Error>)
        ensures
            r == subband_check(*self),
    {
        if self.table_index > 7 {
            return Err(Atrac3Error::TableIndexTooLarge { table_index: self.table_index });
        }
        match self.table_index {
            0 => {
                if self.scale_factor_index.is_some() {
                    return Err(Atrac3Error::SkippedSubbandHasScaleFactor);
                }
            },
            1 => {
                match self.scale_factor_index {
                    Some(v) => {
                        if v > 0x3f {
                            return Err(Atrac3Error::PairwiseSubbandNeedsScaleFactor);
                        }
                    },
                    None => {
                        return Err(Atrac3Error::PairwiseSubbandNeedsScaleFactor);
                    },
                }
            },
            _ => {
                match self.scale_factor_index {
                    Some(v) => {
                        if v > 0x3f {
                            return Err(Atrac3Error::CodedSubbandNeedsScaleFactor);
                        }
                    },
                    None => {
                        return Err(Atrac3Error::CodedSubbandNeedsScaleFactor);
                    },
                }
            },
        }
        Ok(())
    }
}

impl SpectralUnit {
    fn validate(&self) -> (r: Result<(), Atrac3Error>)
        ensures
            r == spectral_unit_check(*self),
    {
        if !(!self.subbands.is_empty() && self.subbands.len() <= MAX_CODED_SUBBANDS) {
            return Err(Atrac3Error::SubbandCountOutOfRange { count: self.subbands.len() });
        }
        let mut i: usize = 0;
        while i < self.subbands.len()
            invariant
                i <= self.subbands@.len(),
                1 <= self.subbands@.len() <= MAX_CODED_SUBBANDS,
                seq_check(self.subbands@.take(i as int), subband_check_fn()) is Ok,
            decreases self.subbands@.len() - i,
        {
            proof {
                lemma_take_last(self.subbands@, i as int);
            }
            match self.subbands[i].validate() {
                Err(e) => {
                    proof {
                        assert(subband_check_fn()(self.subbands@[i as int]) == Err::<
                            (),
                            Atrac3Error,
                        >(e));
                        lemma_seq_check_first_err(self.subbands@, subband_check_fn(), i as int);
                    }
                    return Err(e);
                },
                Ok(_) => {},
            }
            i = i + 1;
        }
        proof {
            lemma_take_all(self.subbands@);
        }
        Ok(())
    }

    fn write_to(&self, writer: &mut BitWriter) -> (r: Result<(), Atrac3Error>)
        requires
            old(writer).wf(),
            old(writer)@.len() + spectral_unit_width(*self) <= usize::MAX,
        ensures
            final(writer).wf(),
            wrote(
                old(writer)@,
                final(writer)@,
                r,
                checked_then(spectral_unit_check(*self), spectral_unit_body(*self)),
            ),
            r is Ok ==> final(writer)@.len() <= old(writer)@.len() + spectral_unit_width(*self),
    {
        match self.validate() {
            Err(e) => {
                assert(old(writer)@.is_prefix_of(writer@));
                return Err(e);
            },
            Ok(_) => {},
        }
        let n: usize = self.subbands.len();
        let _ = writer.write_bits((n - 1) as u32, 5);
        let _ = writer.write_bits(self.coding_mode.bit(), 1);
        let ghost h0 = writer@;
        let mut i: usize = 0;
        while i < n
            invariant
                n == self.subbands@.len() <= MAX_CODED_SUBBANDS,
                i <= n,
                writer.wf(),
                old(writer)@.len() + spectral_unit_width(*self) <= usize::MAX,
                h0.len() == old(writer)@.len() + 6,
                writer@ == h0 + seq_bits(self.subbands@.take(i as int), subband_table_bits_fn()),
                writer@.len() == h0.len() + 3 * i,
            decreases n - i,
        {
            proof {
                lemma_take_last(self.subbands@, i as int);
            }
            let _ = writer.write_bits(self.subbands[i].table_index as u32, 3);
            i = i + 1;
            assert(writer@ =~= h0 + seq_bits(self.subbands@.take(i as int), subband_table_bits_fn()));
        }
        proof {
            lemma_take_all(self.subbands@);
        }
        let ghost h1 = writer@;
        let mut i: usize = 0;
        while i < n
            invariant
                n == self.subbands@.len() <= MAX_CODED_SUBBANDS,
                i <= n,
                writer.wf(),
                old(writer)@.len() + spectral_unit_width(*self) <= usize::MAX,
                h1.len() == old(writer)@.len() + 6 + 3 * n,
                writer@ == h1 + seq_bits(self.subbands@.take(i as int), subband_sf_bits_fn()),
                writer@.len() <= h1.len() + 6 * i,
            decreases n - i,
        {
            proof {
                lemma_take_last(self.subbands@, i as int);
            }
            if let Some(sf) = self.subbands[i].scale_factor_index {
                let _ = writer.write_bits(sf as u32, 6);
            }
            i = i + 1;
            assert(writer@ =~= h1 + seq_bits(self.subbands@.take(i as int), subband_sf_bits_fn()));
        }
        proof {
            lemma_take_all(self.subbands@);
            assert(writer@ =~= old(writer)@ + spectral_unit_header(*self));
        }
        let ghost h2 = writer@;
        let mut i: usize = 0;
        while i < n
            invariant
                n == self.subbands@.len() <= MAX_CODED_SUBBANDS,
                i <= n,
                writer.wf(),
                old(writer)@.len() + spectral_unit_width(*self) <= usize::MAX,
                h2 == old(writer)@ + spectral_unit_header(*self),
                spectral_unit_check(*self) is Ok,
                h2.len() <= old(writer)@.len() + 6 + 9 * n,
                seq_enc(self.subbands@.take(i as int), subband_payload_enc_fn()) matches Ok(b)
                    && writer@ == h2 + b,
                writer@.len() <= h2.len() + seq_sum(
                    self.subbands@.take(i as int),
                    subband_payload_width_fn(),
                ),
            decreases n - i,
        {
            proof {
                lemma_take_last(self.subbands@, i as int);
                lemma_seq_sum_prefix(self.subbands@, subband_payload_width_fn(), i + 1);
            }
            if self.subbands[i].table_index != 0 {
                let ghost before = writer@;
                match self.subbands[i].payload.write_to(writer) {
                    Err(e) => {
                        proof {
                            lemma_seq_enc_first_err(
                                self.subbands@,
                                subband_payload_enc_fn(),
                                i as int,
                            );
                            assert(old(writer)@.is_prefix_of(before));
                            assert(before.is_prefix_of(writer@));
                        }
                        return Err(e);
                    },
                    Ok(_) => {},
                }
                proof {
                    let b = seq_enc(self.subbands@.take(i as int), subband_payload_enc_fn())->Ok_0;
                    let pb = payload_enc(self.subbands@[i as int].payload)->Ok_0;
                    assert(writer@ =~= h2 + (b + pb));
                }
            } else {
                proof {
                    let b = seq_enc(self.subbands@.take(i as int), subband_payload_enc_fn())->Ok_0;
                    assert(b + Seq::<bool>::empty() =~= b);
                }
            }
            i = i + 1;
        }
        proof {
            lemma_take_all(self.subbands@);
            let b = seq_enc(self.subbands@, subband_payload_enc_fn())->Ok_0;
            assert(writer@ =~= old(writer)@ + (spectral_unit_header(*self) + b));
        }
        Ok(())
    }
}


impl Default for SpectralUnit {
    fn default() -> (u: Self)
        ensures
            u.coding_mode == CodingMode::Vlc,
            u.subbands@.len() == 0,
    {
        SpectralUnit { coding_mode: CodingMode::Vlc, subbands: Vec::new() }
    }
}

impl Default for ChannelSoundUnit {
    fn default() -> (u: Self)
        ensures
            u.coded_qmf_bands == 1,
            u.gain_bands@.len() == 1,
            u.gain_bands@[0].points@.len() == 0,
            u.tonal_mode_selector == TonalCodingModeSelector::AllVlc,
            u.tonal_components@.len() == 0,
            u.spectrum.coding_mode == CodingMode::Vlc,
            u.spectrum.subbands@.len() == 0,
    {
        let mut gain_bands: Vec<GainBand> = Vec::new();
        gain_bands.push(GainBand { points: Vec::new() });
        ChannelSoundUnit {
            coded_qmf_bands: 1,
            gain_bands,
            tonal_mode_selector: TonalCodingModeSelector::AllVlc,
            tonal_components: Vec::new(),
            spectrum: SpectralUnit { coding_mode: CodingMode::Vlc, subbands: Vec::new() },
        }
    }
}

proof fn lemma_gain_bands_bits_len(bs: Seq<GainBand>)
    ensures
        seq_bits(bs, gain_band_bits_fn()).len() == seq_sum(bs, gain_band_width_fn()),
    decreases bs.len(),
{
    if bs.len() > 0 {
        lemma_gain_bands_bits_len(bs.drop_last());
        lemma_gain_points_bits_len(bs.last().points@);
    }
}

impl ChannelSoundUnit {
    pub fn validate(&self) -> (r: Result<(), Atrac3Error>)
        ensures
            r == sound_unit_check(*self),
    {
        let coded_qmf_bands: usize = self.coded_qmf_bands as usize;
        if !(1 <= self.coded_qmf_bands && self.coded_qmf_bands <= MAX_CODED_QMF_BANDS as u8) {
            return Err(
                Atrac3Error::CodedQmfBandsOutOfRange { coded_qmf_bands: self.coded_qmf_bands },
            );
        }
        if self.gain_bands.len() != coded_qmf_bands {
            return Err(
                Atrac3Error::GainBandCountMismatch {
                    actual: self.gain_bands.len(),
                    expected: coded_qmf_bands,
                },
            );
        }
        if self.tonal_components.len() > MAX_TONAL_COMPONENTS {
            return Err(
                Atrac3Error::TooManyTonalComponents { count: self.tonal_components.len() },
            );
        }
        let ghost gains = seq_check(self.gain_bands@, gain_band_check_fn());
        let ghost comps = seq_check(
            self.tonal_components@,
            tonal_component_check_fn(coded_qmf_bands as nat, self.tonal_mode_selector),
        );
        assert(sound_unit_check(*self) == match gains {
            Err(e) => Err(e),
            Ok(_) => match comps {
                Err(e) => Err(e),
                Ok(_) => spectral_unit_check(self.spectrum),
            },
        });
        let mut i: usize = 0;
        while i < self.gain_bands.len()
            invariant
                i <= self.gain_bands@.len(),
                1 <= self.coded_qmf_bands <= MAX_CODED_QMF_BANDS,
                self.gain_bands@.len() == self.coded_qmf_bands,
                self.tonal_components@.len() <= MAX_TONAL_COMPONENTS,
                seq_check(self.gain_bands@.take(i as int), gain_band_check_fn()) is Ok,
            decreases self.gain_bands@.len() - i,
        {
            proof {
                lemma_take_last(self.gain_bands@, i as int);
            }
            match self.gain_bands[i].validate() {
                Err(e) => {
                    proof {
                        assert(gain_band_check_fn()(self.gain_bands@[i as int]) == Err::<
                            (),
                            Atrac3Error,
                        >(e));
                        lemma_seq_check_first_err(self.gain_bands@, gain_band_check_fn(), i as int);
                    }
                    return Err(e);
                },
                Ok(_) => {},
            }
            i = i + 1;
        }
        proof {
            lemma_take_all(self.gain_bands@);
        }
        let mut i: usize = 0;
        while i < self.tonal_components.len()
            invariant
                i <= self.tonal_components@.len(),
                1 <= coded_qmf_bands <= MAX_CODED_QMF_BANDS,
                coded_qmf_bands == self.coded_qmf_bands,
                1 <= self.coded_qmf_bands <= MAX_CODED_QMF_BANDS,
                self.gain_bands@.len() == self.coded_qmf_bands,
                self.tonal_components@.len() <= MAX_TONAL_COMPONENTS,
                seq_check(self.gain_bands@, gain_band_check_fn()) is Ok,
                seq_check(
                    self.tonal_components@.take(i as int),
                    tonal_component_check_fn(coded_qmf_bands as nat, self.tonal_mode_selector),
                ) is Ok,
            decreases self.tonal_components@.len() - i,
        {
            proof {
                lemma_take_last(self.tonal_components@, i as int);
            }
            match self.tonal_components[i].validate(coded_qmf_bands, self.tonal_mode_selector) {
                Err(e) => {
                    proof {
                        let f = tonal_component_check_fn(
                            coded_qmf_bands as nat,
                            self.tonal_mode_selector,
                        );
                        assert(f(self.tonal_components@[i as int]) == Err::<(), Atrac3Error>(e));
                        lemma_seq_check_first_err(self.tonal_components@, f, i as int);
                    }
                    return Err(e);
                },
                Ok(_) => {},
            }
            i = i + 1;
        }
        proof {
            lemma_take_all(self.tonal_components@);
        }
        self.spectrum.validate()
    }

    #[verifier::rlimit(60)]
    pub fn write_to(&self, writer: &mut BitWriter) -> (r: Result<(), Atrac3Error>)
        requires
            old(writer).wf(),
            old(writer)@.len() + sound_unit_width(*self) <= usize::MAX,
        ensures
            final(writer).wf(),
            wrote(old(writer)@, final(writer)@, r, sound_unit_enc(*self)),
            sound_unit_check(*self) is Err ==> *final(writer) == *old(writer),
            r is Ok ==> final(writer)@.len() <= old(writer)@.len() + sound_unit_width(*self),
    {
        match self.validate() {
            Err(e) => {
                assert(old(writer)@.is_prefix_of(writer@));
                return Err(e);
            },
            Ok(_) => {},
        }
        let ghost cqb = self.coded_qmf_bands as nat;
        let ghost sel = self.tonal_mode_selector;
        proof {
            assert(seq_check(self.gain_bands@, gain_band_check_fn()) is Ok);
            assert(seq_check(self.tonal_components@, tonal_component_check_fn(cqb, sel)) is Ok);
            assert(spectral_unit_check(self.spectrum) is Ok);
        }
        let _ = writer.write_bits(SOUND_UNIT_ID as u32, 6);
        let _ = writer.write_bits((self.coded_qmf_bands - 1) as u32, 2);
        let ghost h0 = writer@;
        let mut i: usize = 0;
        while i < self.gain_bands.len()
            invariant
                i <= self.gain_bands@.len(),
                writer.wf(),
                seq_check(self.gain_bands@, gain_band_check_fn()) is Ok,
                old(writer)@.len() + sound_unit_width(*self) <= usize::MAX,
                h0.len() == old(writer)@.len() + 8,
                writer@ == h0 + seq_bits(self.gain_bands@.take(i as int), gain_band_bits_fn()),
                writer@.len() == h0.len() + seq_sum(
                    self.gain_bands@.take(i as int),
                    gain_band_width_fn(),
                ),
            decreases self.gain_bands@.len() - i,
        {
            proof {
                lemma_take_last(self.gain_bands@, i as int);
                lemma_seq_sum_prefix(self.gain_bands@, gain_band_width_fn(), i + 1);
                lemma_seq_check_each(self.gain_bands@, gain_band_check_fn(), i as int);
            }
            proof {
                lemma_gain_points_bits_len(self.gain_bands@[i as int].points@);
            }
            let _ = self.gain_bands[i].write_to(writer);
            i = i + 1;
            assert(writer@ =~= h0 + seq_bits(self.gain_bands@.take(i as int), gain_band_bits_fn()));
        }
        proof {
            lemma_take_all(self.gain_bands@);
        }
        let _ = writer.write_bits(self.tonal_components.len() as u32, 5);
        if !self.tonal_components.is_empty() {
            let _ = writer.write_bits(self.tonal_mode_selector.bits(), 2);
        }
        let ghost h1 = writer@;
        proof {
            assert(h1 =~= old(writer)@ + sound_unit_header(*self));
        }
        let cqb_exec: usize = self.coded_qmf_bands as usize;
        let mut i: usize = 0;
        while i < self.tonal_components.len()
            invariant
                i <= self.tonal_components@.len(),
                cqb_exec == cqb,
                1 <= cqb <= 4,
                sound_unit_check(*self) is Ok,
                sel == self.tonal_mode_selector,
                writer.wf(),
                seq_check(self.tonal_components@, tonal_component_check_fn(cqb, sel)) is Ok,
                old(writer)@.len() + sound_unit_width(*self) <= usize::MAX,
                h1 == old(writer)@ + sound_unit_header(*self),
                h1.len() <= old(writer)@.len() + 8 + seq_sum(self.gain_bands@, gain_band_width_fn())
                    + 7,
                seq_enc(
                    self.tonal_components@.take(i as int),
                    tonal_component_body_fn(sel),
                ) matches Ok(b) && writer@ == h1 + b,
                writer@.len() <= h1.len() + seq_sum(
                    self.tonal_components@.take(i as int),
                    tonal_component_width_fn(),
                ),
            decreases self.tonal_components@.len() - i,
        {
            proof {
                lemma_take_last(self.tonal_components@, i as int);
                lemma_seq_sum_prefix(self.tonal_components@, tonal_component_width_fn(), i + 1);
                lemma_seq_check_each(
                    self.tonal_components@,
                    tonal_component_check_fn(cqb, sel),
                    i as int,
                );
            }
            let ghost before = writer@;
            match self.tonal_components[i].write_to(writer, cqb_exec, self.tonal_mode_selector) {
                Err(e) => {
                    proof {
                        assert(tonal_component_body_fn(sel)(self.tonal_components@[i as int])
                            == Err::<Seq<bool>, Atrac3Error>(e));
                        lemma_seq_enc_first_err(
                            self.tonal_components@,
                            tonal_component_body_fn(sel),
                            i as int,
                        );
                        assert(old(writer)@.is_prefix_of(before));
                        assert(before.is_prefix_of(writer@));
                    }
                    return Err(e);
                },
                Ok(_) => {},
            }
            i = i + 1;
            proof {
                let b = seq_enc(
                    self.tonal_components@.take(i - 1),
                    tonal_component_body_fn(sel),
                )->Ok_0;
                let cb = tonal_component_body(self.tonal_components@[i - 1], sel)->Ok_0;
                assert(writer@ =~= h1 + (b + cb));
            }
        }
        proof {
            lemma_take_all(self.tonal_components@);
            lemma_gain_bands_bits_len(self.gain_bands@);
        }
        let ghost h2 = writer@;
        let ghost tb = seq_enc(self.tonal_components@, tonal_component_body_fn(sel))->Ok_0;
        let ghost before = writer@;
        match self.spectrum.write_to(writer) {
            Err(e) => {
                proof {
                    assert(old(writer)@.is_prefix_of(before));
                    assert(before.is_prefix_of(writer@));
                }
                return Err(e);
            },
            Ok(_) => {},
        }
        proof {
            let sb = spectral_unit_body(self.spectrum)->Ok_0;
            assert(writer@ =~= old(writer)@ + ((sound_unit_header(*self) + tb) + sb));
        }
        Ok(())
    }

    /// Number of bits the sound unit is written as.
    pub fn bit_len(&self) -> (r: Result<usize, Atrac3Error>)
        requires
            sound_unit_width(*self) <= usize::MAX,
        ensures
            r == match sound_unit_enc(*self) {
                Ok(b) => Ok::<usize, Atrac3Error>(b.len() as usize),
                Err(e) => Err(e),
            },
    {
        let mut writer = BitWriter::new();
        match self.write_to(&mut writer) {
            Err(e) => Err(e),
            Ok(_) => Ok(writer.bit_len()),
        }
    }
}

} // verus!

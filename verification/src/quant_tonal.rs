use vstd::prelude::*;

use crate::encoding::{lemma_seq_map_res_len, seq_sum};
use crate::error::Atrac3Error;
use crate::quant::{encode_mantissas, mantissa_chunks, subband_index_for_position, ATRAC3_SUBBAND_TAB};
use crate::quant_sony::{
    first_nonzero_from_one, group_sf_seq, shifted_mantissas, sony_group_sf_indices, SonyHbEntry,
    SONY_TONAL_SEP_BIT_LEN,
};
use crate::sound_unit::{
    chunk_width_fn, payload_width, tonal_cell_width, tonal_entry_width, tonal_entry_width_fn,
    BitChunk, CodingMode, RawBitPayload, TonalCell, TonalCodingModeSelector, TonalComponent,
    TonalEntry,
};

verus! {

pub const LOW_BUDGET_QSTEP: u8 = 3;
pub const HIGH_BUDGET_QSTEP_LOW: u8 = 5;
pub const HIGH_BUDGET_QSTEP_HIGH: u8 = 7;
pub const HIGH_BUDGET_COMPONENT_SPLIT_SF: u8 = 30;
pub const HIGH_BUDGET_COMPONENT_COUNT: usize = 2;
pub const MAX_SONY_TONAL_ENTRIES: usize = 64;

/// What tonal extraction hands to the sound-unit builder.
#[derive(Debug, Clone)]
pub struct TonalExtractionResult {
    pub tonal_mode_selector: TonalCodingModeSelector,
    pub tonal_components: Vec<TonalComponent>,
    pub tonal_bits: usize,
    pub coded_qmf_bands: u8,
    pub tonal_subbands: [bool; 32],
    pub low_budget_path: bool,
}

/// No tonal components: nothing coded, no tonal subbands.
pub open spec fn is_empty_result(r: TonalExtractionResult, coded_qmf_bands: u8, low_budget_path: bool) -> bool {
    &&& r.tonal_mode_selector == TonalCodingModeSelector::AllVlc
    &&& r.tonal_components@.len() == 0
    &&& r.tonal_bits == 0
    &&& r.coded_qmf_bands == coded_qmf_bands
    &&& forall|b: int| 0 <= b < 32 ==> !(#[trigger] r.tonal_subbands@[b])
    &&& r.low_budget_path == low_budget_path
}

impl TonalExtractionResult {
    pub fn empty(coded_qmf_bands: u8) -> (r: Self)
        ensures
            is_empty_result(r, coded_qmf_bands, false),
    {
        empty_tonal_result(coded_qmf_bands, false)
    }
}

pub fn empty_tonal_result(coded_qmf_bands: u8, low_budget_path: bool) -> (r: TonalExtractionResult)
    ensures
        is_empty_result(r, coded_qmf_bands, low_budget_path),
{
    TonalExtractionResult {
        tonal_mode_selector: TonalCodingModeSelector::AllVlc,
        tonal_components: Vec::new(),
        tonal_bits: 0,
        coded_qmf_bands,
        tonal_subbands: [false; 32],
        low_budget_path,
    }
}

/// A tonal entry before it is placed in a component: its absolute sample
/// position, scale factor index and four signed mantissas.
#[derive(Debug, Clone, Copy, PartialEq, Eq)]
pub struct PendingTonalEntry {
    pub absolute_position: usize,
    pub scale_factor_index: u8,
    pub mantissas: [i8; 4],
}

/// The first `coded_values_minus_one + 1` mantissas of an entry.
pub open spec fn coded_mantissas(e: PendingTonalEntry, coded_values_minus_one: u8) -> Seq<i8> {
    e.mantissas@.take(coded_values_minus_one + 1)
}

/// The payload chunks an entry's coded mantissas are written as.
pub open spec fn entry_chunks(
    e: PendingTonalEntry,
    coding_mode: CodingMode,
    qstep: u8,
    coded_values_minus_one: u8,
) -> Result<Seq<BitChunk>, Atrac3Error> {
    mantissa_chunks(qstep, coding_mode, coded_mantissas(e, coded_values_minus_one))
}

/// Bits an entry takes: six for the scale factor, six for the position and
/// its payload.
pub open spec fn entry_total_bits(
    e: PendingTonalEntry,
    coding_mode: CodingMode,
    qstep: u8,
    coded_values_minus_one: u8,
) -> Result<nat, Atrac3Error> {
    match entry_chunks(e, coding_mode, qstep, coded_values_minus_one) {
        Ok(cs) => Ok(12 + seq_sum(cs, chunk_width_fn())),
        Err(err) => Err(err),
    }
}

/// A sum of chunk widths is at most 255 per chunk.
pub proof fn lemma_chunk_widths_bound(cs: Seq<BitChunk>)
    ensures
        seq_sum(cs, chunk_width_fn()) <= 255 * cs.len(),
    decreases cs.len(),
{
    if cs.len() > 0 {
        lemma_chunk_widths_bound(cs.drop_last());
    }
}

/// Mantissas are written as at most one chunk each.
pub proof fn lemma_mantissa_chunk_count(selector: u8, mode: CodingMode, m: Seq<i8>)
    ensures
        mantissa_chunks(selector, mode, m) matches Ok(cs) ==> cs.len() <= m.len(),
{
    if 1 <= selector <= 7 {
        lemma_seq_map_res_len(crate::quant::mantissa_pairs(m), crate::quant::clc_pair_chunk_fn());
        lemma_seq_map_res_len(crate::quant::mantissa_pairs(m), crate::quant::vlc_pair_chunk_fn());
        lemma_seq_map_res_len(m, crate::quant::vlc_symbol_chunk_fn(selector));
    }
}

impl PendingTonalEntry {
    /// The QMF band (of 256 samples) the entry lies in.
    pub fn qmf_band(&self) -> (b: usize)
        ensures
            b == self.absolute_position / 256,
    {
        let p = self.absolute_position;
        assert(p >> 8usize == p / 256) by (bit_vector);
        p >> 8
    }

    /// The cell (of 64 samples) the entry lies in.
    pub fn cell_index(&self) -> (c: usize)
        ensures
            c == self.absolute_position / 64,
    {
        let p = self.absolute_position;
        assert(p >> 6usize == p / 64) by (bit_vector);
        p >> 6
    }

    /// The payload of the coded mantissas.
    pub fn payload(
        &self,
        coding_mode: CodingMode,
        qstep: u8,
        coded_values_minus_one: u8,
    ) -> (r: Result<RawBitPayload, Atrac3Error>)
        requires
            coded_values_minus_one <= 3,
        ensures
            match entry_chunks(*self, coding_mode, qstep, coded_values_minus_one) {
                Ok(cs) => r is Ok && r->Ok_0.chunks@ == cs,
                Err(e) => r == Err::<RawBitPayload, Atrac3Error>(e),
            },
    {
        let n: usize = coded_values_minus_one as usize + 1;
        let coded: &[i8] = &self.mantissas.as_slice()[0..n];
        assert(coded@ =~= coded_mantissas(*self, coded_values_minus_one));
        encode_mantissas(qstep, coding_mode, coded)
    }

    /// Bits the entry takes in a tonal cell.
    pub fn total_bits(
        &self,
        coding_mode: CodingMode,
        qstep: u8,
        coded_values_minus_one: u8,
    ) -> (r: Result<usize, Atrac3Error>)
        requires
            coded_values_minus_one <= 3,
        ensures
            match entry_total_bits(*self, coding_mode, qstep, coded_values_minus_one) {
                Ok(n) => r == Ok::<usize, Atrac3Error>(n as usize) && n <= 12 + 255 * 4,
                Err(e) => r == Err::<usize, Atrac3Error>(e),
            },
    {
        let payload = self.payload(coding_mode, qstep, coded_values_minus_one)?;
        proof {
            lemma_mantissa_chunk_count(
                qstep,
                coding_mode,
                coded_mantissas(*self, coded_values_minus_one),
            );
            lemma_chunk_widths_bound(payload.chunks@);
            assert(payload_width(payload) == seq_sum(payload.chunks@, chunk_width_fn()));
        }
        Ok(12 + payload.bit_len())
    }
}

/// Index of the high-budget component a peak goes to: the second one above
/// scale factor 30.
pub fn high_budget_component_index(peak_sf: u8) -> (i: usize)
    ensures
        i == if peak_sf > HIGH_BUDGET_COMPONENT_SPLIT_SF {
            1usize
        } else {
            0usize
        },
{
    if peak_sf > HIGH_BUDGET_COMPONENT_SPLIT_SF {
        1
    } else {
        0
    }
}

/// How many leading subbands end at or before `spectral_end`.
pub open spec fn leading_subbands(spectral_end: nat, b: nat) -> nat
    decreases 32 - b,
{
    if b >= 32 {
        32
    } else if ATRAC3_SUBBAND_TAB@[b + 1 as int] <= spectral_end {
        leading_subbands(spectral_end, b + 1)
    } else {
        b
    }
}

pub fn coded_subband_count(spectral_end: usize) -> (n: usize)
    ensures
        n == leading_subbands(spectral_end as nat, 0),
{
    let mut band: usize = 0;
    while band < 32 && ATRAC3_SUBBAND_TAB[band + 1] <= spectral_end
        invariant
            band <= 32,
            leading_subbands(spectral_end as nat, 0) == leading_subbands(
                spectral_end as nat,
                band as nat,
            ),
        decreases 32 - band,
    {
        band += 1;
    }
    band
}

/// The highest band `b` (counting down from `from`) with
/// `ATRAC3_SUBBAND_TAB[b] <= spectral_end`, or 1 when there is none.
pub open spec fn last_fitting_subband(spectral_end: nat, from: nat) -> nat
    decreases from,
{
    if from == 0 {
        1
    } else if ATRAC3_SUBBAND_TAB@[from as int] <= spectral_end {
        from
    } else {
        last_fitting_subband(spectral_end, (from - 1) as nat)
    }
}

/// The subband count whose range ends at or before `spectral_end`, at
/// least 1; the coded QMF band count does not enter.
pub fn coded_qmf_bands_to_local_514(coded_qmf_bands: u8, spectral_end: usize) -> (n: usize)
    ensures
        n == last_fitting_subband(spectral_end as nat, 32),
{
    let _ = coded_qmf_bands;
    let mut band: usize = 32;
    while band > 0
        invariant
            band <= 32,
            last_fitting_subband(spectral_end as nat, 32) == last_fitting_subband(
                spectral_end as nat,
                band as nat,
            ),
        decreases band,
    {
        if ATRAC3_SUBBAND_TAB[band] <= spectral_end {
            return band;
        }
        band -= 1;
    }
    1
}

/// The row of the low-budget spacing table for a band: 1 for the 32-wide
/// bands, else the QMF band the subband starts in.
pub open spec fn spacing_row(band: int) -> nat {
    let start = ATRAC3_SUBBAND_TAB@[band];
    let width = ATRAC3_SUBBAND_TAB@[band + 1] - start;
    if width == 32 {
        1
    } else {
        (start / 256) as nat
    }
}

pub fn low_budget_spacing_row(band: usize) -> (row: usize)
    requires
        band < 32,
    ensures
        row == spacing_row(band as int),
{
    let start: usize = ATRAC3_SUBBAND_TAB[band];
    assert(forall|k: int| 0 <= k < 32 ==> #[trigger] ATRAC3_SUBBAND_TAB@[k] < ATRAC3_SUBBAND_TAB@[k + 1]);
    let width: usize = ATRAC3_SUBBAND_TAB[band + 1] - start;
    assert(start >> 8usize == start / 256) by (bit_vector);
    if width == 32 {
        1
    } else {
        start >> 8
    }
}

/// Halves all mantissas and raises the scale factor by 3 while they are all
/// even, not all zero, and the scale factor is at most 60.
pub open spec fn stripped_even(m: Seq<i8>, sf: u8) -> (Seq<i8>, u8)
    decreases 64 - sf,
{
    if sf <= 60 && (exists|i: int| 0 <= i < 4 && m[i] != 0) && (forall|i: int|
        0 <= i < 4 ==> #[trigger] m[i] % 2 == 0) {
        stripped_even(Seq::new(4, |i: int| (m[i] / 2) as i8), (sf + 3) as u8)
    } else {
        (m, sf)
    }
}

pub fn strip_even_mantissas(mantissas: &mut [i8; 4], scale_factor_index: &mut u8)
    ensures
        (final(mantissas)@, *final(scale_factor_index)) == stripped_even(
            old(mantissas)@,
            *old(scale_factor_index),
        ),
{
    loop
        invariant
            mantissas@.len() == 4,
            stripped_even(mantissas@, *scale_factor_index) == stripped_even(
                old(mantissas)@,
                *old(scale_factor_index),
            ),
        ensures
            (mantissas@, *scale_factor_index) == stripped_even(
                old(mantissas)@,
                *old(scale_factor_index),
            ),
        decreases 64 - *scale_factor_index,
    {
        let any_nonzero = mantissas[0] != 0 || mantissas[1] != 0 || mantissas[2] != 0
            || mantissas[3] != 0;
        let all_even = mantissas[0] % 2 == 0 && mantissas[1] % 2 == 0 && mantissas[2] % 2 == 0
            && mantissas[3] % 2 == 0;
        let ghost m = mantissas@;
        assert((exists|i: int| 0 <= i < 4 && m[i] != 0) == any_nonzero) by {
            if any_nonzero {
                if m[0] != 0 {
                    assert(0 <= 0 < 4 && m[0] != 0);
                } else if m[1] != 0 {
                    assert(0 <= 1 < 4 && m[1] != 0);
                } else if m[2] != 0 {
                    assert(0 <= 2 < 4 && m[2] != 0);
                } else {
                    assert(0 <= 3 < 4 && m[3] != 0);
                }
            }
        }
        assert((forall|i: int| 0 <= i < 4 ==> #[trigger] m[i] % 2 == 0) == all_even) by {
            if all_even {
                assert forall|i: int| 0 <= i < 4 implies #[trigger] m[i] % 2 == 0 by {
                    if i == 0 {
                    } else if i == 1 {
                    } else if i == 2 {
                    } else {
                    }
                }
            }
        }
        if !(*scale_factor_index <= 60 && any_nonzero && all_even) {
            break;
        }
        let mut i: usize = 0;
        while i < 4
            invariant
                i <= 4,
                mantissas@.len() == 4,
                forall|k: int| 0 <= k < i ==> mantissas@[k] == (m[k] / 2) as i8,
                forall|k: int| i <= k < 4 ==> mantissas@[k] == m[k],
                forall|k: int| 0 <= k < 4 ==> #[trigger] m[k] % 2 == 0,
            decreases 4 - i,
        {
            mantissas[i] = mantissas[i] / 2;
            i += 1;
        }
        assert(mantissas@ =~= Seq::new(4, |k: int| (m[k] / 2) as i8));
        *scale_factor_index += 3;
    }
}

/// Moves an entry right past its zero mantissas after the first: false when all
/// are zero or the new position reaches `band_end` (the entry unchanged),
/// true with the entry unchanged past position 0x3fc, else true and moved.
pub fn shift_tonal_entry_right(entry: &mut PendingTonalEntry, band_end: usize) -> (moved: bool)
    requires
        old(entry).absolute_position + first_nonzero_from_one(old(entry).mantissas@, 0i8)
            <= usize::MAX,
    ensures
        ({
            let shift = first_nonzero_from_one(old(entry).mantissas@, 0i8);
            let np = old(entry).absolute_position + shift;
            if shift == 4 || np >= band_end {
                !moved && *final(entry) == *old(entry)
            } else if np > 0x3fc {
                moved && *final(entry) == *old(entry)
            } else {
                moved && final(entry).absolute_position == np && final(entry).scale_factor_index
                    == old(entry).scale_factor_index && final(entry).mantissas@
                    == shifted_mantissas(old(entry).mantissas@, shift, 0i8)
            }
        }),
{
    let ghost m0 = entry.mantissas@;
    let mut shift: usize = 1;
    while shift < 4 && entry.mantissas[shift] == 0
        invariant
            1 <= shift <= 4,
            *entry == *old(entry),
            m0 == entry.mantissas@,
            forall|k: int| 1 <= k < shift ==> m0[k] == 0i8,
        decreases 4 - shift,
    {
        shift += 1;
    }
    assert(shift == first_nonzero_from_one(m0, 0i8));
    if shift == 4 {
        return false;
    }
    let new_position: usize = entry.absolute_position + shift;
    if new_position >= band_end {
        return false;
    }
    if new_position > 0x3fc {
        return true;
    }
    let mut index: usize = 0;
    while index < 4 - shift
        invariant
            1 <= shift <= 3,
            index <= 4 - shift,
            entry.mantissas@.len() == 4,
            entry.absolute_position == old(entry).absolute_position,
            entry.scale_factor_index == old(entry).scale_factor_index,
            forall|k: int| 0 <= k < index ==> entry.mantissas@[k] == m0[k + shift],
            forall|k: int| index <= k < 4 ==> entry.mantissas@[k] == m0[k],
        decreases 4 - shift - index,
    {
        entry.mantissas[index] = entry.mantissas[index + shift];
        index += 1;
    }
    let mut tail: usize = 4 - shift;
    while tail < 4
        invariant
            1 <= shift <= 3,
            4 - shift <= tail <= 4,
            entry.mantissas@.len() == 4,
            entry.absolute_position == old(entry).absolute_position,
            entry.scale_factor_index == old(entry).scale_factor_index,
            forall|k: int| 0 <= k < 4 - shift ==> entry.mantissas@[k] == m0[k + shift],
            forall|k: int| 4 - shift <= k < tail ==> entry.mantissas@[k] == 0i8,
        decreases 4 - tail,
    {
        entry.mantissas[tail] = 0;
        tail += 1;
    }
    assert(entry.mantissas@ =~= shifted_mantissas(m0, shift as nat, 0i8));
    entry.absolute_position = new_position;
    true
}

/// A component's entries sorted into cells of 64 samples, with a flag for
/// each QMF band that holds any.
#[derive(Debug, Clone)]
pub struct GroupedPendingComponent {
    pub band_flags: Vec<bool>,
    pub cells: Vec<Vec<PendingTonalEntry>>,
}

/// A low-budget layout: the entries of each component and the mantissa
/// count less one they all code.
#[derive(Debug, Clone)]
pub struct PendingLowBudgetLayout {
    pub components: Vec<Vec<PendingTonalEntry>>,
    pub coded_values_minus_one: u8,
}

/// A high-budget component being filled: its quantiser step, band flags
/// and cells.
#[derive(Debug, Clone)]
pub struct PendingTonalComponent {
    pub qstep: u8,
    pub band_flags: Vec<bool>,
    pub cells: Vec<Vec<PendingTonalEntry>>,
}

pub open spec fn cells_view(cells: Seq<Vec<PendingTonalEntry>>) -> Seq<Seq<PendingTonalEntry>> {
    cells.map_values(|c: Vec<PendingTonalEntry>| c@)
}

pub open spec fn grouped_view(g: GroupedPendingComponent) -> (Seq<bool>, Seq<Seq<PendingTonalEntry>>) {
    (g.band_flags@, cells_view(g.cells@))
}

impl PendingTonalComponent {
    /// A component with `qmf_bands` clear band flags and four empty cells per
    /// band.
    pub fn new(qmf_bands: usize, qstep: u8) -> (c: Self)
        requires
            qmf_bands * 4 <= usize::MAX,
        ensures
            c.qstep == qstep,
            c.band_flags@ == Seq::new(qmf_bands as nat, |i: int| false),
            cells_view(c.cells@) == Seq::new((qmf_bands * 4) as nat, |i: int| Seq::<PendingTonalEntry>::empty()),
    {
        let (band_flags, cells) = empty_grouping(qmf_bands);
        PendingTonalComponent { qstep, band_flags, cells }
    }
}

fn empty_grouping(qmf_bands: usize) -> (r: (Vec<bool>, Vec<Vec<PendingTonalEntry>>))
    requires
        qmf_bands * 4 <= usize::MAX,
    ensures
        r.0@ == Seq::new(qmf_bands as nat, |i: int| false),
        cells_view(r.1@) == Seq::new((qmf_bands * 4) as nat, |i: int| Seq::<PendingTonalEntry>::empty()),
{
    let mut band_flags: Vec<bool> = Vec::new();
    let mut i: usize = 0;
    while i < qmf_bands
        invariant
            i <= qmf_bands,
            band_flags@ == Seq::new(i as nat, |k: int| false),
        decreases qmf_bands - i,
    {
        band_flags.push(false);
        i += 1;
        assert(band_flags@ =~= Seq::new(i as nat, |k: int| false));
    }
    let mut cells: Vec<Vec<PendingTonalEntry>> = Vec::new();
    let n: usize = qmf_bands * 4;
    let mut j: usize = 0;
    while j < n
        invariant
            j <= n,
            cells_view(cells@) == Seq::new(j as nat, |k: int| Seq::<PendingTonalEntry>::empty()),
        decreases n - j,
    {
        let ghost before = cells@;
        assert(cells_view(before).len() == before.len());
        assert(before.len() == j);
        let empty: Vec<PendingTonalEntry> = Vec::new();
        assert(empty@ =~= Seq::<PendingTonalEntry>::empty());
        cells.push(empty);
        assert(cells@ == before.push(empty));
        assert forall|k: int| 0 <= k <= j implies #[trigger] cells_view(cells@)[k] == Seq::<PendingTonalEntry>::empty() by {
            if k < j {
                assert(cells@[k] == before[k]);
                assert(cells_view(before)[k] == Seq::<PendingTonalEntry>::empty());
            }
        }
        j += 1;
        assert(cells_view(cells@) =~= Seq::new(j as nat, |k: int| Seq::<PendingTonalEntry>::empty()));
    }
    (band_flags, cells)
}

/// An entry lies in a coded QMF band and in the position range.
pub open spec fn entry_fits(e: PendingTonalEntry, qmf_bands: nat) -> bool {
    &&& e.absolute_position / 256 < qmf_bands
    &&& e.absolute_position / 64 < qmf_bands * 4
    &&& e.absolute_position <= 0x3fc
}

/// The entries sorted into cells in order, or none when an entry does not
/// fit or a cell would hold more than seven.
pub open spec fn grouping(entries: Seq<PendingTonalEntry>, qmf_bands: nat) -> Option<
    (Seq<bool>, Seq<Seq<PendingTonalEntry>>),
>
    decreases entries.len(),
{
    if entries.len() == 0 {
        Some(
            (
                Seq::new(qmf_bands, |i: int| false),
                Seq::new(qmf_bands * 4, |i: int| Seq::<PendingTonalEntry>::empty()),
            ),
        )
    } else {
        match grouping(entries.drop_last(), qmf_bands) {
            None => None,
            Some((flags, cells)) => {
                let e = entries.last();
                let c = e.absolute_position / 64;
                let b = e.absolute_position / 256;
                if !entry_fits(e, qmf_bands) || cells[c as int].len() >= 7 {
                    None
                } else {
                    Some((flags.update(b as int, true), cells.update(c as int, cells[c as int].push(e))))
                }
            },
        }
    }
}

/// Grouping keeps the flag and cell counts.
pub proof fn lemma_grouping_shape(entries: Seq<PendingTonalEntry>, qmf_bands: nat)
    ensures
        grouping(entries, qmf_bands) matches Some((flags, cells)) ==> flags.len() == qmf_bands
            && cells.len() == qmf_bands * 4,
    decreases entries.len(),
{
    if entries.len() > 0 {
        lemma_grouping_shape(entries.drop_last(), qmf_bands);
    }
}

/// Sorts a component's entries into cells of 64 samples and flags the QMF
/// bands they lie in; none when an entry lies outside the coded bands or
/// past position 0x3fc, or a cell would hold more than seven entries.
pub fn group_pending_component(entries: &[PendingTonalEntry], qmf_bands: usize) -> (r: Option<
    GroupedPendingComponent,
>)
    requires
        qmf_bands * 4 <= usize::MAX,
    ensures
        match grouping(entries@, qmf_bands as nat) {
            None => r is None,
            Some(v) => r is Some && grouped_view(r->Some_0) == v,
        },
{
    let (mut band_flags, mut cells) = empty_grouping(qmf_bands);
    let mut i: usize = 0;
    while i < entries.len()
        invariant
            i <= entries@.len(),
            qmf_bands * 4 <= usize::MAX,
            grouping(entries@.take(i as int), qmf_bands as nat) == Some(
                (band_flags@, cells_view(cells@)),
            ),
        decreases entries@.len() - i,
    {
        assert(entries@.take(i + 1).drop_last() =~= entries@.take(i as int));
        assert(entries@.take(i + 1).last() == entries@[i as int]);
        proof {
            lemma_grouping_shape(entries@.take(i as int), qmf_bands as nat);
        }
        let entry: PendingTonalEntry = entries[i];
        let qmf_band: usize = entry.qmf_band();
        let cell_index: usize = entry.cell_index();
        if qmf_band >= qmf_bands || cell_index >= cells.len() || entry.absolute_position > 0x3fc {
            proof {
                lemma_grouping_none_extends(entries@, qmf_bands as nat, i + 1);
            }
            return None;
        }
        if cells[cell_index].len() >= 7 {
            proof {
                lemma_grouping_none_extends(entries@, qmf_bands as nat, i + 1);
            }
            return None;
        }
        band_flags.set(qmf_band, true);
        let ghost before = cells_view(cells@);
        cells[cell_index].push(entry);
        assert(cells_view(cells@) =~= before.update(cell_index as int, before[cell_index as int].push(entry)));
        i += 1;
    }
    assert(entries@.take(entries@.len() as int) =~= entries@);
    Some(GroupedPendingComponent { band_flags, cells })
}

/// Once a prefix fails to group, so does every longer run of entries.
pub proof fn lemma_grouping_none_extends(entries: Seq<PendingTonalEntry>, qmf_bands: nat, k: int)
    requires
        0 <= k <= entries.len(),
        grouping(entries.take(k), qmf_bands) is None,
    ensures
        grouping(entries, qmf_bands) is None,
    decreases entries.len(),
{
    if k == entries.len() {
        assert(entries.take(k) =~= entries);
    } else {
        assert(entries.drop_last().take(k) =~= entries.take(k));
        lemma_grouping_none_extends(entries.drop_last(), qmf_bands, k);
    }
}

/// Every entry of a component that groups fits the coded bands.
pub proof fn lemma_grouping_fits(entries: Seq<PendingTonalEntry>, qmf_bands: nat, i: int)
    requires
        grouping(entries, qmf_bands) is Some,
        0 <= i < entries.len(),
    ensures
        entry_fits(entries[i], qmf_bands),
    decreases entries.len(),
{
    if i < entries.len() - 1 {
        lemma_grouping_fits(entries.drop_last(), qmf_bands, i);
    }
}

/// The layout as its components' entries and the mantissa count less one.
pub open spec fn layout_view(l: PendingLowBudgetLayout) -> (Seq<Seq<PendingTonalEntry>>, u8) {
    (cells_view(l.components@), l.coded_values_minus_one)
}

/// The part of an entry kept in the first component of a split: its last
/// two mantissas cleared.
pub open spec fn split_head(e: PendingTonalEntry) -> PendingTonalEntry {
    PendingTonalEntry {
        absolute_position: e.absolute_position,
        scale_factor_index: e.scale_factor_index,
        mantissas: [e.mantissas[0], e.mantissas[1], 0i8, 0i8],
    }
}

/// The part of an entry moved to the second component: its last two
/// mantissas, two samples further on.
pub open spec fn split_tail(e: PendingTonalEntry) -> PendingTonalEntry {
    PendingTonalEntry {
        absolute_position: (e.absolute_position + 2) as usize,
        scale_factor_index: e.scale_factor_index,
        mantissas: [e.mantissas[2], e.mantissas[3], 0i8, 0i8],
    }
}

/// Splits each entry with a fourth mantissa into a head and a tail, or none
/// when a tail would leave the range or land in a band the component does
/// not flag.
pub open spec fn split_entries(
    entries: Seq<PendingTonalEntry>,
    flags: Seq<bool>,
    qmf_bands: nat,
) -> Option<(Seq<PendingTonalEntry>, Seq<PendingTonalEntry>)>
    decreases entries.len(),
{
    if entries.len() == 0 {
        Some((Seq::empty(), Seq::empty()))
    } else {
        match split_entries(entries.drop_last(), flags, qmf_bands) {
            None => None,
            Some((first, second)) => {
                let e = entries.last();
                if e.mantissas[3] != 0 {
                    let np = e.absolute_position + 2;
                    let t = np / 256;
                    if np > 0x3fd || t >= qmf_bands || !flags[t] {
                        None
                    } else {
                        Some((first.push(split_head(e)), second.push(split_tail(e))))
                    }
                } else {
                    Some((first.push(e), second))
                }
            },
        }
    }
}

/// The two-component layout a one-component layout splits into, if it does.
pub open spec fn split_layout(comps: Seq<Seq<PendingTonalEntry>>, qmf_bands: nat) -> Option<
    (Seq<PendingTonalEntry>, Seq<PendingTonalEntry>),
> {
    if comps.len() != 1 {
        None
    } else {
        match grouping(comps[0], qmf_bands) {
            None => None,
            Some((flags, _)) => match split_entries(comps[0], flags, qmf_bands) {
                None => None,
                Some((first, second)) => if first.len() + second.len() > 64 {
                    None
                } else if grouping(first, qmf_bands) is Some && grouping(second, qmf_bands) is Some {
                    Some((first, second))
                } else {
                    None
                },
            },
        }
    }
}

/// Splits a one-component layout in two: every entry with a fourth mantissa
/// keeps its first two mantissas, and its last two move, two samples on,
/// to a second component.
pub fn split_low_budget_layout(layout: &PendingLowBudgetLayout, qmf_bands: usize) -> (r: Option<
    PendingLowBudgetLayout,
>)
    requires
        qmf_bands * 4 <= usize::MAX,
    ensures
        match split_layout(cells_view(layout.components@), qmf_bands as nat) {
            None => r is None,
            Some((first, second)) => r is Some && layout_view(r->Some_0) == (
                seq![first, second],
                layout.coded_values_minus_one,
            ),
        },
{
    if layout.components.len() != 1 {
        return None;
    }
    let source: &Vec<PendingTonalEntry> = &layout.components[0];
    assert(source@ == cells_view(layout.components@)[0]);
    let grouped = match group_pending_component(source.as_slice(), qmf_bands) {
        Some(g) => g,
        None => {
            return None;
        },
    };
    let source_band_flags: Vec<bool> = grouped.band_flags;
    proof {
        lemma_grouping_shape(source@, qmf_bands as nat);
    }
    let mut first: Vec<PendingTonalEntry> = Vec::new();
    let mut second: Vec<PendingTonalEntry> = Vec::new();
    let mut i: usize = 0;
    while i < source.len()
        invariant
            i <= source@.len(),
            grouping(source@, qmf_bands as nat) is Some,
            source_band_flags@ == grouping(source@, qmf_bands as nat)->Some_0.0,
            source_band_flags@.len() == qmf_bands,
            split_entries(source@.take(i as int), source_band_flags@, qmf_bands as nat) == Some(
                (first@, second@),
            ),
            first@.len() == i,
            second@.len() <= i,
            layout.components@.len() == 1,
            source@ == cells_view(layout.components@)[0],
        decreases source@.len() - i,
    {
        assert(source@.take(i + 1).drop_last() =~= source@.take(i as int));
        assert(source@.take(i + 1).last() == source@[i as int]);
        proof {
            lemma_grouping_fits(source@, qmf_bands as nat, i as int);
        }
        let entry: PendingTonalEntry = source[i];
        let mut first_entry: PendingTonalEntry = entry;
        if entry.mantissas[3] != 0 {
            let new_position: usize = entry.absolute_position + 2;
            let target_qmf_band: usize = new_position >> 8;
            assert(new_position >> 8usize == new_position / 256) by (bit_vector);
            if new_position > 0x3fd || target_qmf_band >= qmf_bands
                || !source_band_flags[target_qmf_band] {
                proof {
                    lemma_split_none_extends(source@, source_band_flags@, qmf_bands as nat, i + 1);
                }
                return None;
            }
            first_entry.mantissas[2] = 0;
            first_entry.mantissas[3] = 0;
            let tail = PendingTonalEntry {
                absolute_position: new_position,
                scale_factor_index: entry.scale_factor_index,
                mantissas: [entry.mantissas[2], entry.mantissas[3], 0, 0],
            };
            assert(first_entry.mantissas =~= split_head(entry).mantissas);
            assert(tail.mantissas =~= split_tail(entry).mantissas);
            assert(first_entry == split_head(entry));
            assert(tail == split_tail(entry));
            second.push(tail);
        }
        first.push(first_entry);
        i += 1;
    }
    assert(source@.take(source@.len() as int) =~= source@);
    if first.len() > 64 || second.len() > 64 - first.len() {
        return None;
    }
    let first_ok = group_pending_component(first.as_slice(), qmf_bands).is_some();
    let second_ok = group_pending_component(second.as_slice(), qmf_bands).is_some();
    let coded_values_minus_one = layout.coded_values_minus_one;
    let mut components: Vec<Vec<PendingTonalEntry>> = Vec::new();
    components.push(first);
    components.push(second);
    let split_layout = PendingLowBudgetLayout { components, coded_values_minus_one };
    assert(cells_view(split_layout.components@) =~= seq![
        cells_view(split_layout.components@)[0],
        cells_view(split_layout.components@)[1],
    ]);
    if first_ok && second_ok {
        Some(split_layout)
    } else {
        None
    }
}

/// Once splitting a prefix fails, so does splitting every longer run.
pub proof fn lemma_split_none_extends(
    entries: Seq<PendingTonalEntry>,
    flags: Seq<bool>,
    qmf_bands: nat,
    k: int,
)
    requires
        0 <= k <= entries.len(),
        split_entries(entries.take(k), flags, qmf_bands) is None,
    ensures
        split_entries(entries, flags, qmf_bands) is None,
    decreases entries.len(),
{
    if k == entries.len() {
        assert(entries.take(k) =~= entries);
    } else {
        assert(entries.drop_last().take(k) =~= entries.take(k));
        lemma_split_none_extends(entries.drop_last(), flags, qmf_bands, k);
    }
}

/// An entry whose mantissa at `tail` is non-zero moves one sample on, its
/// mantissas before `tail` each taking the next one's value.
pub open spec fn reduce_entry(e: PendingTonalEntry, tail: int) -> PendingTonalEntry {
    if e.mantissas[tail] != 0 {
        PendingTonalEntry {
            absolute_position: (e.absolute_position + 1) as usize,
            scale_factor_index: e.scale_factor_index,
            mantissas: [
                if 0 < tail {
                    e.mantissas[1]
                } else {
                    e.mantissas[0]
                },
                if 1 < tail {
                    e.mantissas[2]
                } else {
                    e.mantissas[1]
                },
                if 2 < tail {
                    e.mantissas[3]
                } else {
                    e.mantissas[2]
                },
                e.mantissas[3],
            ],
        }
    } else {
        e
    }
}

pub open spec fn reduce_component(entries: Seq<PendingTonalEntry>, tail: int) -> Seq<PendingTonalEntry> {
    entries.map_values(|e: PendingTonalEntry| reduce_entry(e, tail))
}

pub open spec fn reduce_components(
    comps: Seq<Seq<PendingTonalEntry>>,
    tail: int,
) -> Seq<Seq<PendingTonalEntry>> {
    comps.map_values(|es: Seq<PendingTonalEntry>| reduce_component(es, tail))
}

/// An entry that ends the reduction: its mantissa at the new tail is
/// non-zero, and so is its first one or it sits at the end of a cell.
pub open spec fn stops_reduction(e: PendingTonalEntry, tail: int) -> bool {
    e.mantissas[tail] != 0 && (e.mantissas[0] != 0 || e.absolute_position % 64 == 63)
}

pub open spec fn any_stops(comps: Seq<Seq<PendingTonalEntry>>, tail: int) -> bool {
    exists|c: int, j: int|
        0 <= c < comps.len() && 0 <= j < comps[c].len() && #[trigger] stops_reduction(
            comps[c][j],
            tail,
        )
}

/// Drops the last coded mantissa, one step at a time, until none is left
/// to drop or an entry would lose a mantissa it needs.
pub open spec fn reduced(comps: Seq<Seq<PendingTonalEntry>>, cvm1: nat) -> (
    Seq<Seq<PendingTonalEntry>>,
    nat,
)
    decreases cvm1,
{
    if cvm1 == 0 {
        (comps, 0)
    } else {
        let next = reduce_components(comps, cvm1 as int);
        if any_stops(next, cvm1 - 1) {
            (next, (cvm1 - 1) as nat)
        } else {
            reduced(next, (cvm1 - 1) as nat)
        }
    }
}

/// No position moved on during the reduction passes the machine word.
pub open spec fn reduction_fits(comps: Seq<Seq<PendingTonalEntry>>, cvm1: nat) -> bool
    decreases cvm1,
{
    cvm1 == 0 || ((forall|c: int, j: int|
        0 <= c < comps.len() && 0 <= j < comps[c].len() && (#[trigger] comps[c][j]).mantissas[cvm1
            as int] != 0 ==> comps[c][j].absolute_position < usize::MAX) && ({
        let next = reduce_components(comps, cvm1 as int);
        any_stops(next, cvm1 - 1) || reduction_fits(next, (cvm1 - 1) as nat)
    }))
}

/// One pass: every entry with a non-zero mantissa at `tail` moves on.
fn reduce_pass(components: &Vec<Vec<PendingTonalEntry>>, tail: usize) -> (r: Vec<
    Vec<PendingTonalEntry>,
>)
    requires
        1 <= tail <= 3,
        forall|c: int, j: int|
            0 <= c < components@.len() && 0 <= j < components@[c]@.len() && (
            #[trigger] components@[c]@[j]).mantissas[tail as int] != 0
                ==> components@[c]@[j].absolute_position < usize::MAX,
    ensures
        cells_view(r@) == reduce_components(cells_view(components@), tail as int),
{
    let mut out: Vec<Vec<PendingTonalEntry>> = Vec::new();
    let mut c: usize = 0;
    while c < components.len()
        invariant
            c <= components@.len(),
            1 <= tail <= 3,
            forall|cc: int, j: int|
                0 <= cc < components@.len() && 0 <= j < components@[cc]@.len() && (
                #[trigger] components@[cc]@[j]).mantissas[tail as int] != 0
                    ==> components@[cc]@[j].absolute_position < usize::MAX,
            cells_view(out@) == reduce_components(cells_view(components@.take(c as int)), tail as int),
        decreases components@.len() - c,
    {
        let entries: &Vec<PendingTonalEntry> = &components[c];
        let mut moved: Vec<PendingTonalEntry> = Vec::new();
        let mut j: usize = 0;
        while j < entries.len()
            invariant
                j <= entries@.len(),
                c < components@.len(),
                *entries == components@[c as int],
                1 <= tail <= 3,
                forall|jj: int|
                    0 <= jj < entries@.len() && (#[trigger] entries@[jj]).mantissas[tail as int] != 0
                        ==> entries@[jj].absolute_position < usize::MAX,
                moved@ == reduce_component(entries@.take(j as int), tail as int),
            decreases entries@.len() - j,
        {
            let mut entry: PendingTonalEntry = entries[j];
            if entry.mantissas[tail] != 0 {
                entry.absolute_position += 1;
                let mut index: usize = 0;
                while index < tail
                    invariant
                        index <= tail <= 3,
                        entry.mantissas@.len() == 4,
                        entry.absolute_position == entries@[j as int].absolute_position + 1,
                        entry.scale_factor_index == entries@[j as int].scale_factor_index,
                        forall|k: int| 0 <= k < index ==> entry.mantissas@[k] == entries@[j as int].mantissas@[k + 1],
                        forall|k: int| index <= k < 4 ==> entry.mantissas@[k] == entries@[j as int].mantissas@[k],
                    decreases tail - index,
                {
                    entry.mantissas[index] = entry.mantissas[index + 1];
                    index += 1;
                }
                assert(entry.mantissas =~= reduce_entry(entries@[j as int], tail as int).mantissas);
            }
            assert(entry == reduce_entry(entries@[j as int], tail as int));
            moved.push(entry);
            assert(moved@ =~= reduce_component(entries@.take(j + 1), tail as int));
            j += 1;
        }
        assert(entries@.take(entries@.len() as int) =~= entries@);
        let ghost before = out@;
        let ghost moved_view = moved@;
        out.push(moved);
        assert(cells_view(out@) =~= cells_view(before).push(moved_view));
        assert(cells_view(components@.take(c + 1)) =~= cells_view(components@.take(c as int)).push(
            entries@,
        ));
        assert(cells_view(out@) =~= reduce_components(cells_view(components@.take(c + 1)), tail as int));
        c += 1;
    }
    assert(components@.take(components@.len() as int) =~= components@);
    out
}

/// Whether some entry ends the reduction at `tail`.
fn reduction_stops(components: &Vec<Vec<PendingTonalEntry>>, tail: usize) -> (stop: bool)
    requires
        tail <= 3,
    ensures
        stop == any_stops(cells_view(components@), tail as int),
{
    let ghost comps = cells_view(components@);
    let mut c: usize = 0;
    while c < components.len()
        invariant
            c <= components@.len(),
            tail <= 3,
            comps == cells_view(components@),
            forall|cc: int, j: int|
                0 <= cc < c && 0 <= j < comps[cc].len() ==> !#[trigger] stops_reduction(comps[cc][j], tail as int),
        decreases components@.len() - c,
    {
        let entries: &Vec<PendingTonalEntry> = &components[c];
        assert(entries@ == comps[c as int]);
        let mut j: usize = 0;
        while j < entries.len()
            invariant
                j <= entries@.len(),
                c < components@.len(),
                tail <= 3,
                comps == cells_view(components@),
                entries@ == comps[c as int],
                forall|jj: int| 0 <= jj < j ==> !#[trigger] stops_reduction(comps[c as int][jj], tail as int),
            decreases entries@.len() - j,
        {
            let entry: PendingTonalEntry = entries[j];
            let pos: usize = entry.absolute_position;
            assert((pos & 0x3fusize) == pos % 64) by (bit_vector);
            if entry.mantissas[tail] != 0 && (entry.mantissas[0] != 0 || (pos & 0x3f) == 0x3f) {
                assert(stops_reduction(comps[c as int][j as int], tail as int));
                return true;
            }
            j += 1;
        }
        c += 1;
    }
    false
}

/// Lowers the coded mantissa count while no entry needs its last mantissa:
/// each step moves every entry whose last coded mantissa is non-zero one
/// sample on, and stops once an entry's new last mantissa and its first are
/// non-zero, or the entry sits at the end of a cell.
pub fn reduce_low_budget_layout(layout: &mut PendingLowBudgetLayout)
    requires
        old(layout).coded_values_minus_one <= 3,
        reduction_fits(cells_view(old(layout).components@), old(layout).coded_values_minus_one as nat),
    ensures
        (cells_view(final(layout).components@), final(layout).coded_values_minus_one as nat)
            == reduced(cells_view(old(layout).components@), old(layout).coded_values_minus_one as nat),
{
    let ghost start = reduced(
        cells_view(layout.components@),
        layout.coded_values_minus_one as nat,
    );
    while layout.coded_values_minus_one > 0
        invariant_except_break
            layout.coded_values_minus_one <= 3,
            reduction_fits(cells_view(layout.components@), layout.coded_values_minus_one as nat),
            reduced(cells_view(layout.components@), layout.coded_values_minus_one as nat) == start,
        ensures
            (cells_view(layout.components@), layout.coded_values_minus_one as nat) == start,
        decreases layout.coded_values_minus_one,
    {
        let tail_index: usize = layout.coded_values_minus_one as usize;
        proof {
            let comps = cells_view(layout.components@);
            assert forall|c: int, j: int|
                0 <= c < layout.components@.len() && 0 <= j < layout.components@[c]@.len() && (
                #[trigger] layout.components@[c]@[j]).mantissas[tail_index as int] != 0 implies layout.components@[c]@[j].absolute_position
                    < usize::MAX by {
                assert(comps[c][j] == layout.components@[c]@[j]);
            }
        }
        let next = reduce_pass(&layout.components, tail_index);
        layout.components = next;
        layout.coded_values_minus_one -= 1;
        let new_tail_index: usize = layout.coded_values_minus_one as usize;
        if reduction_stops(&layout.components, new_tail_index) {
            break;
        }
    }
}

/// Bits counted so far, and the error that stopped the count, if any.
pub type CostRun = (nat, Option<Atrac3Error>);

/// Adds a term to a running count; after an error the count stands still.
pub open spec fn add_cost(run: CostRun, term: Result<nat, Atrac3Error>) -> CostRun {
    match run.1 {
        Some(_) => run,
        None => match term {
            Ok(t) => (run.0 + t, None),
            Err(e) => (run.0, Some(e)),
        },
    }
}

pub open spec fn cost_entries(
    run: CostRun,
    entries: Seq<PendingTonalEntry>,
    coding_mode: CodingMode,
    cvm1: u8,
) -> CostRun
    decreases entries.len(),
{
    if entries.len() == 0 {
        run
    } else {
        cost_entries(
            add_cost(run, entry_total_bits(entries[0], coding_mode, LOW_BUDGET_QSTEP, cvm1)),
            entries.skip(1),
            coding_mode,
            cvm1,
        )
    }
}

pub open spec fn cost_cells(
    run: CostRun,
    cells: Seq<Seq<PendingTonalEntry>>,
    coding_mode: CodingMode,
    cvm1: u8,
) -> CostRun
    decreases cells.len(),
{
    if cells.len() == 0 {
        run
    } else {
        cost_cells(cost_entries(run, cells[0], coding_mode, cvm1), cells.skip(1), coding_mode, cvm1)
    }
}

/// How many flags are set.
pub open spec fn count_true(flags: Seq<bool>) -> nat
    decreases flags.len(),
{
    if flags.len() == 0 {
        0
    } else {
        count_true(flags.drop_last()) + if flags.last() {
            1nat
        } else {
            0nat
        }
    }
}

/// A component's bits: 12 per flagged band, then every entry of every
/// cell; a component that does not group is an invalid layout.
pub open spec fn cost_component(
    run: CostRun,
    entries: Seq<PendingTonalEntry>,
    qmf_bands: nat,
    coding_mode: CodingMode,
    cvm1: u8,
) -> CostRun {
    if run.1 is Some {
        run
    } else {
        match grouping(entries, qmf_bands) {
            None => (run.0, Some(Atrac3Error::InvalidTonalLayout)),
            Some((flags, cells)) => cost_cells(
                (run.0 + 12 * count_true(flags), None),
                cells,
                coding_mode,
                cvm1,
            ),
        }
    }
}

pub open spec fn cost_components(
    run: CostRun,
    comps: Seq<Seq<PendingTonalEntry>>,
    qmf_bands: nat,
    coding_mode: CodingMode,
    cvm1: u8,
) -> CostRun
    decreases comps.len(),
{
    if comps.len() == 0 {
        run
    } else {
        cost_components(
            cost_component(run, comps[0], qmf_bands, coding_mode, cvm1),
            comps.skip(1),
            qmf_bands,
            coding_mode,
            cvm1,
        )
    }
}

/// The bits of a low-budget layout in one coding mode: the base, six plus
/// one per QMF band for each component after the first, and each
/// component's bits.
pub open spec fn layout_cost_run(
    comps: Seq<Seq<PendingTonalEntry>>,
    cvm1: u8,
    qmf_bands: nat,
    base_bits: nat,
    coding_mode: CodingMode,
) -> CostRun {
    let extra = if comps.len() > 0 {
        (comps.len() - 1) as nat
    } else {
        0nat
    };
    cost_components((base_bits + extra * (qmf_bands + 3 + 3), None), comps, qmf_bands, coding_mode, cvm1)
}

pub open spec fn run_result(run: CostRun) -> Result<nat, Atrac3Error> {
    match run.1 {
        Some(e) => Err(e),
        None => Ok(run.0),
    }
}

pub proof fn lemma_cost_entries_mono(run: CostRun, entries: Seq<PendingTonalEntry>, m: CodingMode, cvm1: u8)
    ensures
        cost_entries(run, entries, m, cvm1).0 >= run.0,
        run.1 is Some ==> cost_entries(run, entries, m, cvm1) == run,
    decreases entries.len(),
{
    if entries.len() > 0 {
        lemma_cost_entries_mono(
            add_cost(run, entry_total_bits(entries[0], m, LOW_BUDGET_QSTEP, cvm1)),
            entries.skip(1),
            m,
            cvm1,
        );
    }
}

pub proof fn lemma_cost_cells_mono(run: CostRun, cells: Seq<Seq<PendingTonalEntry>>, m: CodingMode, cvm1: u8)
    ensures
        cost_cells(run, cells, m, cvm1).0 >= run.0,
        run.1 is Some ==> cost_cells(run, cells, m, cvm1) == run,
    decreases cells.len(),
{
    if cells.len() > 0 {
        lemma_cost_entries_mono(run, cells[0], m, cvm1);
        lemma_cost_cells_mono(cost_entries(run, cells[0], m, cvm1), cells.skip(1), m, cvm1);
    }
}

pub proof fn lemma_cost_components_mono(
    run: CostRun,
    comps: Seq<Seq<PendingTonalEntry>>,
    qmf_bands: nat,
    m: CodingMode,
    cvm1: u8,
)
    ensures
        cost_components(run, comps, qmf_bands, m, cvm1).0 >= run.0,
        run.1 is Some ==> cost_components(run, comps, qmf_bands, m, cvm1) == run,
    decreases comps.len(),
{
    if comps.len() > 0 {
        let next = cost_component(run, comps[0], qmf_bands, m, cvm1);
        if run.1 is None {
            match grouping(comps[0], qmf_bands) {
                None => {},
                Some((flags, cells)) => {
                    lemma_cost_cells_mono((run.0 + 12 * count_true(flags), None), cells, m, cvm1);
                },
            }
        }
        lemma_cost_components_mono(next, comps.skip(1), qmf_bands, m, cvm1);
    }
}

/// Number of set flags.
fn count_set_flags(flags: &Vec<bool>) -> (n: usize)
    ensures
        n == count_true(flags@),
{
    let mut n: usize = 0;
    let mut i: usize = 0;
    while i < flags.len()
        invariant
            i <= flags@.len(),
            n == count_true(flags@.take(i as int)),
            n <= i,
        decreases flags@.len() - i,
    {
        assert(flags@.take(i + 1).drop_last() =~= flags@.take(i as int));
        if flags[i] {
            n += 1;
        }
        i += 1;
    }
    assert(flags@.take(flags@.len() as int) =~= flags@);
    n
}

/// Bits a low-budget layout takes in one coding mode; an invalid component
/// or an entry that cannot be coded is refused.
pub fn low_budget_layout_cost(
    layout: &PendingLowBudgetLayout,
    qmf_bands: usize,
    base_bits: usize,
    coding_mode: CodingMode,
) -> (r: Result<usize, Atrac3Error>)
    requires
        layout.coded_values_minus_one <= 3,
        qmf_bands * 4 <= usize::MAX,
        layout_cost_run(
            cells_view(layout.components@),
            layout.coded_values_minus_one,
            qmf_bands as nat,
            base_bits as nat,
            coding_mode,
        ).0 <= usize::MAX,
    ensures
        r == match run_result(
            layout_cost_run(
                cells_view(layout.components@),
                layout.coded_values_minus_one,
                qmf_bands as nat,
                base_bits as nat,
                coding_mode,
            ),
        ) {
            Ok(n) => Ok::<usize, Atrac3Error>(n as usize),
            Err(e) => Err(e),
        },
{
    let ghost comps = cells_view(layout.components@);
    let cvm1: u8 = layout.coded_values_minus_one;
    let ghost target = layout_cost_run(comps, cvm1, qmf_bands as nat, base_bits as nat, coding_mode);
    let n_comps: usize = layout.components.len();
    let extra: usize = if n_comps > 0 {
        n_comps - 1
    } else {
        0
    };
    let ghost start: CostRun = ((base_bits + extra * (qmf_bands + 6)) as nat, None);
    proof {
        lemma_cost_components_mono(start, comps, qmf_bands as nat, coding_mode, cvm1);
        assert(extra * (qmf_bands + 6) <= usize::MAX);
    }
    let mut total_bits: usize = base_bits + extra * (qmf_bands + 3 + 3);
    assert(comps.len() == n_comps);
    assert(comps.skip(0) =~= comps);
    assert(total_bits as nat == start.0);
    let mut c: usize = 0;
    while c < n_comps
        invariant
            c <= n_comps == layout.components@.len(),
            comps == cells_view(layout.components@),
            cvm1 == layout.coded_values_minus_one <= 3,
            qmf_bands * 4 <= usize::MAX,
            target.0 <= usize::MAX,
            target == layout_cost_run(
                cells_view(layout.components@),
                layout.coded_values_minus_one,
                qmf_bands as nat,
                base_bits as nat,
                coding_mode,
            ),
            target == cost_components(
                (total_bits as nat, None),
                comps.skip(c as int),
                qmf_bands as nat,
                coding_mode,
                cvm1,
            ),
        decreases n_comps - c,
    {
        let entries: &Vec<PendingTonalEntry> = &layout.components[c];
        let ghost rest = comps.skip(c as int);
        assert(rest[0] == entries@);
        assert(rest.skip(1) =~= comps.skip(c + 1));
        assert(target == cost_components(
            cost_component((total_bits as nat, None), entries@, qmf_bands as nat, coding_mode, cvm1),
            comps.skip(c + 1),
            qmf_bands as nat,
            coding_mode,
            cvm1,
        ));
        let grouped = match group_pending_component(entries.as_slice(), qmf_bands) {
            Some(g) => g,
            None => {
                assert(cost_component((total_bits as nat, None), entries@, qmf_bands as nat, coding_mode, cvm1)
                    == (total_bits as nat, Some(Atrac3Error::InvalidTonalLayout)));
                proof {
                    lemma_cost_components_mono(
                        (total_bits as nat, Some(Atrac3Error::InvalidTonalLayout)),
                        comps.skip(c + 1),
                        qmf_bands as nat,
                        coding_mode,
                        cvm1,
                    );
                }
                return Err(Atrac3Error::InvalidTonalLayout);
            },
        };
        let ghost cells = cells_view(grouped.cells@);
        let flagged: usize = count_set_flags(&grouped.band_flags);
        proof {
            lemma_cost_cells_mono(
                ((total_bits + 12 * flagged) as nat, None),
                cells,
                coding_mode,
                cvm1,
            );
            lemma_cost_components_mono(
                cost_cells(((total_bits + 12 * flagged) as nat, None), cells, coding_mode, cvm1),
                comps.skip(c + 1),
                qmf_bands as nat,
                coding_mode,
                cvm1,
            );
        }
        assert(cost_component((total_bits as nat, None), entries@, qmf_bands as nat, coding_mode, cvm1)
            == cost_cells(((total_bits + 12 * flagged) as nat, None), cells, coding_mode, cvm1));
        total_bits += flagged * 12;
        assert(cells.skip(0) =~= cells);
        let mut k: usize = 0;
        while k < grouped.cells.len()
            invariant
                k <= grouped.cells@.len(),
                cells == cells_view(grouped.cells@),
                cvm1 <= 3,
                target.0 <= usize::MAX,
                target == layout_cost_run(
                    cells_view(layout.components@),
                    layout.coded_values_minus_one,
                    qmf_bands as nat,
                    base_bits as nat,
                    coding_mode,
                ),
                target == cost_components(
                    cost_cells((total_bits as nat, None), cells.skip(k as int), coding_mode, cvm1),
                    comps.skip(c + 1),
                    qmf_bands as nat,
                    coding_mode,
                    cvm1,
                ),
            decreases grouped.cells@.len() - k,
        {
            let cell: &Vec<PendingTonalEntry> = &grouped.cells[k];
            let ghost crest = cells.skip(k as int);
            assert(crest[0] == cell@);
            assert(crest.skip(1) =~= cells.skip(k + 1));
            assert(cost_cells((total_bits as nat, None), crest, coding_mode, cvm1) == cost_cells(
                cost_entries((total_bits as nat, None), cell@, coding_mode, cvm1),
                cells.skip(k + 1),
                coding_mode,
                cvm1,
            ));
            assert(cell@.skip(0) =~= cell@);
            let mut j: usize = 0;
            while j < cell.len()
                invariant
                    j <= cell@.len(),
                    cvm1 <= 3,
                    target.0 <= usize::MAX,
                    target == layout_cost_run(
                        cells_view(layout.components@),
                        layout.coded_values_minus_one,
                        qmf_bands as nat,
                        base_bits as nat,
                        coding_mode,
                    ),
                    target == cost_components(
                        cost_cells(
                            cost_entries((total_bits as nat, None), cell@.skip(j as int), coding_mode, cvm1),
                            cells.skip(k + 1),
                            coding_mode,
                            cvm1,
                        ),
                        comps.skip(c + 1),
                        qmf_bands as nat,
                        coding_mode,
                        cvm1,
                    ),
                decreases cell@.len() - j,
            {
                let ghost erest = cell@.skip(j as int);
                assert(erest[0] == cell@[j as int]);
                assert(erest.skip(1) =~= cell@.skip(j + 1));
                let bits = match cell[j].total_bits(coding_mode, LOW_BUDGET_QSTEP, cvm1) {
                    Ok(b) => b,
                    Err(e) => {
                        assert(cost_entries((total_bits as nat, None), erest, coding_mode, cvm1)
                            == cost_entries((total_bits as nat, Some(e)), cell@.skip(j + 1), coding_mode, cvm1));
                        proof {
                            let stuck: CostRun = (total_bits as nat, Some(e));
                            lemma_cost_entries_mono(stuck, cell@.skip(j + 1), coding_mode, cvm1);
                            lemma_cost_cells_mono(stuck, cells.skip(k + 1), coding_mode, cvm1);
                            lemma_cost_components_mono(stuck, comps.skip(c + 1), qmf_bands as nat, coding_mode, cvm1);
                        }
                        return Err(e);
                    },
                };
                assert(cost_entries((total_bits as nat, None), erest, coding_mode, cvm1)
                    == cost_entries(((total_bits + bits) as nat, None), cell@.skip(j + 1), coding_mode, cvm1));
                proof {
                    let next: CostRun = ((total_bits + bits) as nat, None);
                    lemma_cost_entries_mono(next, cell@.skip(j + 1), coding_mode, cvm1);
                    lemma_cost_cells_mono(
                        cost_entries(next, cell@.skip(j + 1), coding_mode, cvm1),
                        cells.skip(k + 1),
                        coding_mode,
                        cvm1,
                    );
                    lemma_cost_components_mono(
                        cost_cells(
                            cost_entries(next, cell@.skip(j + 1), coding_mode, cvm1),
                            cells.skip(k + 1),
                            coding_mode,
                            cvm1,
                        ),
                        comps.skip(c + 1),
                        qmf_bands as nat,
                        coding_mode,
                        cvm1,
                    );
                }
                total_bits += bits;
                j += 1;
            }
            assert(cell@.skip(cell@.len() as int) =~= Seq::<PendingTonalEntry>::empty());
            k += 1;
        }
        assert(cells.skip(cells.len() as int) =~= Seq::<Seq<PendingTonalEntry>>::empty());
        c += 1;
    }
    assert(comps.skip(n_comps as int) =~= Seq::<Seq<PendingTonalEntry>>::empty());
    Ok(total_bits)
}

/// The cheaper of the layout's costs in CLC and in VLC.
pub fn best_low_budget_layout_cost(
    layout: &PendingLowBudgetLayout,
    qmf_bands: usize,
    base_bits: usize,
) -> (r: Result<usize, Atrac3Error>)
    requires
        layout.coded_values_minus_one <= 3,
        qmf_bands * 4 <= usize::MAX,
        layout_cost_run(
            cells_view(layout.components@),
            layout.coded_values_minus_one,
            qmf_bands as nat,
            base_bits as nat,
            CodingMode::Clc,
        ).0 <= usize::MAX,
        layout_cost_run(
            cells_view(layout.components@),
            layout.coded_values_minus_one,
            qmf_bands as nat,
            base_bits as nat,
            CodingMode::Vlc,
        ).0 <= usize::MAX,
    ensures
        ({
            let comps = cells_view(layout.components@);
            let cvm1 = layout.coded_values_minus_one;
            let clc = run_result(layout_cost_run(comps, cvm1, qmf_bands as nat, base_bits as nat, CodingMode::Clc));
            let vlc = run_result(layout_cost_run(comps, cvm1, qmf_bands as nat, base_bits as nat, CodingMode::Vlc));
            match (clc, vlc) {
                (Err(e), _) => r == Err::<usize, Atrac3Error>(e),
                (Ok(_), Err(e)) => r == Err::<usize, Atrac3Error>(e),
                (Ok(a), Ok(b)) => r == Ok::<usize, Atrac3Error>(if a <= b { a as usize } else { b as usize }),
            }
        }),
{
    let clc = low_budget_layout_cost(layout, qmf_bands, base_bits, CodingMode::Clc)?;
    let vlc = low_budget_layout_cost(layout, qmf_bands, base_bits, CodingMode::Vlc)?;
    if clc <= vlc {
        Ok(clc)
    } else {
        Ok(vlc)
    }
}

impl PendingTonalEntry {
    /// The tonal entry this pending entry is written as: its scale factor,
    /// its position within its cell and its payload.
    pub fn to_tonal_entry(
        &self,
        coding_mode: CodingMode,
        qstep: u8,
        coded_values_minus_one: u8,
    ) -> (r: Result<TonalEntry, Atrac3Error>)
        requires
            coded_values_minus_one <= 3,
        ensures
            match entry_chunks(*self, coding_mode, qstep, coded_values_minus_one) {
                Ok(cs) => r is Ok && entry_written_as(r->Ok_0, *self, cs),
                Err(e) => r is Err && r->Err_0 == e,
            },
    {
        let payload = self.payload(coding_mode, qstep, coded_values_minus_one)?;
        let p = self.absolute_position;
        assert((p & 0x3fusize) == p % 64) by (bit_vector);
        Ok(
            TonalEntry {
                scale_factor_index: self.scale_factor_index,
                position: (self.absolute_position & 0x3f) as u8,
                payload,
            },
        )
    }
}

/// A tonal entry carries a pending entry's scale factor, its position within
/// its cell, and the given payload chunks.
pub open spec fn entry_written_as(t: TonalEntry, e: PendingTonalEntry, cs: Seq<BitChunk>) -> bool {
    &&& t.scale_factor_index == e.scale_factor_index
    &&& t.position == e.absolute_position % 64
    &&& t.payload.chunks@ == cs
}

/// The first entry (cell by cell, in order) whose mantissas cannot be coded.
pub open spec fn first_entry_error(
    entries: Seq<PendingTonalEntry>,
    coding_mode: CodingMode,
    qstep: u8,
    cvm1: u8,
) -> Option<Atrac3Error>
    decreases entries.len(),
{
    if entries.len() == 0 {
        None
    } else {
        match first_entry_error(entries.drop_last(), coding_mode, qstep, cvm1) {
            Some(e) => Some(e),
            None => match entry_chunks(entries.last(), coding_mode, qstep, cvm1) {
                Err(e) => Some(e),
                Ok(_) => None,
            },
        }
    }
}

pub open spec fn first_cell_error(
    cells: Seq<Seq<PendingTonalEntry>>,
    coding_mode: CodingMode,
    qstep: u8,
    cvm1: u8,
) -> Option<Atrac3Error>
    decreases cells.len(),
{
    if cells.len() == 0 {
        None
    } else {
        match first_cell_error(cells.drop_last(), coding_mode, qstep, cvm1) {
            Some(e) => Some(e),
            None => first_entry_error(cells.last(), coding_mode, qstep, cvm1),
        }
    }
}

/// A component of tonal cells written from pending cells.
pub open spec fn component_written_as(
    t: TonalComponent,
    band_flags: Seq<bool>,
    cells: Seq<Seq<PendingTonalEntry>>,
    coding_mode: CodingMode,
    qstep: u8,
    cvm1: u8,
) -> bool {
    &&& t.band_flags@ == band_flags
    &&& t.coded_values_minus_one == cvm1
    &&& t.quant_step_index == qstep
    &&& t.coding_mode is None
    &&& t.cells@.len() == cells.len()
    &&& forall|i: int| 0 <= i < cells.len() ==> (#[trigger] t.cells@[i]).entries@.len() == cells[i].len()
    &&& forall|i: int, j: int|
        0 <= i < cells.len() && 0 <= j < cells[i].len() ==> entry_written_as(
            #[trigger] t.cells@[i].entries@[j],
            cells[i][j],
            entry_chunks(cells[i][j], coding_mode, qstep, cvm1)->Ok_0,
        )
}

/// Writes pending cells as a tonal component; the first entry whose
/// mantissas cannot be coded refuses it.
pub fn pending_cells_to_tonal_component(
    band_flags: Vec<bool>,
    cells: Vec<Vec<PendingTonalEntry>>,
    coding_mode: CodingMode,
    qstep: u8,
    coded_values_minus_one: u8,
) -> (r: Result<TonalComponent, Atrac3Error>)
    requires
        coded_values_minus_one <= 3,
    ensures
        match first_cell_error(cells_view(cells@), coding_mode, qstep, coded_values_minus_one) {
            Some(e) => r is Err && r->Err_0 == e,
            None => r is Ok && component_written_as(
                r->Ok_0,
                band_flags@,
                cells_view(cells@),
                coding_mode,
                qstep,
                coded_values_minus_one,
            ),
        },
{
    let ghost cv = cells_view(cells@);
    let mut out: Vec<TonalCell> = Vec::new();
    let mut i: usize = 0;
    while i < cells.len()
        invariant
            i <= cells@.len(),
            cv == cells_view(cells@),
            coded_values_minus_one <= 3,
            first_cell_error(cv.take(i as int), coding_mode, qstep, coded_values_minus_one) is None,
            out@.len() == i,
            forall|k: int| 0 <= k < i ==> (#[trigger] out@[k]).entries@.len() == cv[k].len(),
            forall|k: int, j: int|
                0 <= k < i && 0 <= j < cv[k].len() ==> entry_written_as(
                    #[trigger] out@[k].entries@[j],
                    cv[k][j],
                    entry_chunks(cv[k][j], coding_mode, qstep, coded_values_minus_one)->Ok_0,
                ),
        decreases cells@.len() - i,
    {
        let entries: &Vec<PendingTonalEntry> = &cells[i];
        assert(entries@ == cv[i as int]);
        assert(cv.take(i + 1).drop_last() =~= cv.take(i as int));
        assert(cv.take(i + 1).last() == cv[i as int]);
        let mut tonal_entries: Vec<TonalEntry> = Vec::new();
        let mut j: usize = 0;
        while j < entries.len()
            invariant
                j <= entries@.len(),
                i < cells@.len(),
                cv == cells_view(cells@),
                entries@ == cv[i as int],
                cv.take(i + 1).drop_last() == cv.take(i as int),
                cv.take(i + 1).last() == cv[i as int],
                first_cell_error(cv.take(i as int), coding_mode, qstep, coded_values_minus_one) is None,
                coded_values_minus_one <= 3,
                first_entry_error(entries@.take(j as int), coding_mode, qstep, coded_values_minus_one) is None,
                tonal_entries@.len() == j,
                forall|jj: int|
                    0 <= jj < j ==> entry_written_as(
                        #[trigger] tonal_entries@[jj],
                        entries@[jj],
                        entry_chunks(entries@[jj], coding_mode, qstep, coded_values_minus_one)->Ok_0,
                    ),
            decreases entries@.len() - j,
        {
            assert(entries@.take(j + 1).drop_last() =~= entries@.take(j as int));
            assert(entries@.take(j + 1).last() == entries@[j as int]);
            match entries[j].to_tonal_entry(coding_mode, qstep, coded_values_minus_one) {
                Ok(t) => {
                    tonal_entries.push(t);
                },
                Err(e) => {
                    proof {
                        lemma_first_entry_error_extends(entries@, coding_mode, qstep, coded_values_minus_one, j + 1);
                        lemma_first_cell_error_extends(cv, coding_mode, qstep, coded_values_minus_one, i + 1);
                    }
                    return Err(e);
                },
            }
            j += 1;
        }
        assert(entries@.take(entries@.len() as int) =~= entries@);
        out.push(TonalCell { entries: tonal_entries });
        i += 1;
    }
    assert(cv.take(cv.len() as int) =~= cv);
    Ok(
        TonalComponent {
            band_flags,
            coded_values_minus_one,
            quant_step_index: qstep,
            coding_mode: None,
            cells: out,
        },
    )
}

/// Once entries of a prefix fail, the first error of the whole is theirs.
pub proof fn lemma_first_entry_error_extends(
    entries: Seq<PendingTonalEntry>,
    coding_mode: CodingMode,
    qstep: u8,
    cvm1: u8,
    k: int,
)
    requires
        0 <= k <= entries.len(),
        first_entry_error(entries.take(k), coding_mode, qstep, cvm1) is Some,
    ensures
        first_entry_error(entries, coding_mode, qstep, cvm1) == first_entry_error(
            entries.take(k),
            coding_mode,
            qstep,
            cvm1,
        ),
    decreases entries.len(),
{
    if k == entries.len() {
        assert(entries.take(k) =~= entries);
    } else {
        assert(entries.drop_last().take(k) =~= entries.take(k));
        lemma_first_entry_error_extends(entries.drop_last(), coding_mode, qstep, cvm1, k);
    }
}

pub proof fn lemma_first_cell_error_extends(
    cells: Seq<Seq<PendingTonalEntry>>,
    coding_mode: CodingMode,
    qstep: u8,
    cvm1: u8,
    k: int,
)
    requires
        0 <= k <= cells.len(),
        first_cell_error(cells.take(k), coding_mode, qstep, cvm1) is Some,
    ensures
        first_cell_error(cells, coding_mode, qstep, cvm1) == first_cell_error(
            cells.take(k),
            coding_mode,
            qstep,
            cvm1,
        ),
    decreases cells.len(),
{
    if k == cells.len() {
        assert(cells.take(k) =~= cells);
    } else {
        assert(cells.drop_last().take(k) =~= cells.take(k));
        lemma_first_cell_error_extends(cells.drop_last(), coding_mode, qstep, cvm1, k);
    }
}

/// Writes a grouped component as a tonal component.
pub fn pending_component_to_tonal_component(
    component: GroupedPendingComponent,
    coding_mode: CodingMode,
    qstep: u8,
    coded_values_minus_one: u8,
) -> (r: Result<TonalComponent, Atrac3Error>)
    requires
        coded_values_minus_one <= 3,
    ensures
        match first_cell_error(cells_view(component.cells@), coding_mode, qstep, coded_values_minus_one) {
            Some(e) => r is Err && r->Err_0 == e,
            None => r is Ok && component_written_as(
                r->Ok_0,
                component.band_flags@,
                cells_view(component.cells@),
                coding_mode,
                qstep,
                coded_values_minus_one,
            ),
        },
{
    pending_cells_to_tonal_component(
        component.band_flags,
        component.cells,
        coding_mode,
        qstep,
        coded_values_minus_one,
    )
}

/// Bits of the flagged cells among the first `n` of a component: three for
/// the entry count and each entry's bits.
pub open spec fn flagged_cells_bits(cells: Seq<TonalCell>, flags: Seq<bool>, n: nat) -> nat
    decreases n,
{
    if n == 0 {
        0
    } else {
        flagged_cells_bits(cells, flags, (n - 1) as nat) + if flags[(n - 1) / 4] {
            tonal_cell_width(cells[n - 1])
        } else {
            0
        }
    }
}

/// Bits of a component: its band flags, three each for the coded value
/// count and the quantiser step, a coding-mode bit when each component
/// carries its own, and its flagged cells.
pub open spec fn component_bits(c: TonalComponent, selector: TonalCodingModeSelector) -> nat {
    c.band_flags@.len() + 6 + (if selector == TonalCodingModeSelector::PerComponent {
        1nat
    } else {
        0nat
    }) + flagged_cells_bits(c.cells@, c.band_flags@, c.cells@.len())
}

pub open spec fn components_bits(cs: Seq<TonalComponent>, selector: TonalCodingModeSelector) -> nat
    decreases cs.len(),
{
    if cs.len() == 0 {
        0
    } else {
        components_bits(cs.drop_last(), selector) + component_bits(cs.last(), selector)
    }
}

/// Bits of the tonal section: five for the component count, and with any
/// component two for the mode selector and the components' bits.
pub open spec fn tonal_cost(cs: Seq<TonalComponent>, selector: TonalCodingModeSelector) -> nat {
    if cs.len() == 0 {
        5
    } else {
        7 + components_bits(cs, selector)
    }
}

/// Every component has a band flag for each group of four cells.
pub open spec fn cells_within_flags(cs: Seq<TonalComponent>) -> bool {
    forall|k: int| 0 <= k < cs.len() ==> (#[trigger] cs[k]).cells@.len() <= 4 * cs[k].band_flags@.len()
}

proof fn lemma_flagged_cells_bits_mono(cells: Seq<TonalCell>, flags: Seq<bool>, i: nat, n: nat)
    requires
        i <= n,
    ensures
        flagged_cells_bits(cells, flags, i) <= flagged_cells_bits(cells, flags, n),
    decreases n,
{
    if i < n {
        lemma_flagged_cells_bits_mono(cells, flags, i, (n - 1) as nat);
    }
}

proof fn lemma_components_bits_prefix(cs: Seq<TonalComponent>, selector: TonalCodingModeSelector, i: int)
    requires
        0 <= i <= cs.len(),
    ensures
        components_bits(cs.take(i), selector) <= components_bits(cs, selector),
    decreases cs.len(),
{
    if i == cs.len() {
        assert(cs.take(i) =~= cs);
    } else {
        assert(cs.drop_last().take(i) =~= cs.take(i));
        lemma_components_bits_prefix(cs.drop_last(), selector, i);
    }
}

proof fn lemma_entries_width_prefix(es: Seq<TonalEntry>, j: int)
    requires
        0 <= j <= es.len(),
    ensures
        seq_sum(es.take(j), tonal_entry_width_fn()) <= seq_sum(es, tonal_entry_width_fn()),
    decreases es.len(),
{
    if j == es.len() {
        assert(es.take(j) =~= es);
    } else {
        assert(es.drop_last().take(j) =~= es.take(j));
        lemma_entries_width_prefix(es.drop_last(), j);
    }
}

/// Bits the tonal section of a sound unit takes with these components.
pub fn tonal_bit_cost(components: &[TonalComponent], selector: TonalCodingModeSelector) -> (bits: usize)
    requires
        cells_within_flags(components@),
        tonal_cost(components@, selector) <= usize::MAX,
    ensures
        bits == tonal_cost(components@, selector),
{
    let mut total_bits: usize = 5;
    if components.len() == 0 {
        return total_bits;
    }
    total_bits += 2;
    let ghost cs = components@;
    let mut c: usize = 0;
    while c < components.len()
        invariant
            c <= cs.len(),
            cs == components@,
            cs.len() > 0,
            cells_within_flags(cs),
            tonal_cost(cs, selector) <= usize::MAX,
            total_bits == 7 + components_bits(cs.take(c as int), selector),
        decreases cs.len() - c,
    {
        let component: &TonalComponent = &components[c];
        assert(cs.take(c + 1).drop_last() =~= cs.take(c as int));
        assert(cs.take(c + 1).last() == cs[c as int]);
        proof {
            lemma_components_bits_prefix(cs, selector, c + 1);
        }
        let ghost base = total_bits as nat;
        let ghost cells = component.cells@;
        let ghost flags = component.band_flags@;
        total_bits += component.band_flags.len() + 6;
        if selector == TonalCodingModeSelector::PerComponent {
            total_bits += 1;
        }
        let mut k: usize = 0;
        while k < component.cells.len()
            invariant
                k <= cells.len(),
                cells == component.cells@,
                flags == component.band_flags@,
                cells.len() <= 4 * flags.len(),
                base + component_bits(*component, selector) <= usize::MAX,
                total_bits == base + flags.len() + 6 + (if selector
                    == TonalCodingModeSelector::PerComponent {
                    1nat
                } else {
                    0nat
                }) + flagged_cells_bits(cells, flags, k as nat),
            decreases cells.len() - k,
        {
            proof {
                lemma_flagged_cells_bits_mono(cells, flags, (k + 1) as nat, cells.len());
            }
            if component.band_flags[k / 4] {
                let cell: &TonalCell = &component.cells[k];
                let ghost before = total_bits as nat;
                total_bits += 3;
                let mut j: usize = 0;
                while j < cell.entries.len()
                    invariant
                        j <= cell.entries@.len(),
                        before + tonal_cell_width(*cell) <= usize::MAX,
                        total_bits == before + 3 + seq_sum(cell.entries@.take(j as int), tonal_entry_width_fn()),
                    decreases cell.entries@.len() - j,
                {
                    proof {
                        lemma_entries_width_prefix(cell.entries@, j + 1);
                        crate::encoding::lemma_take_last(cell.entries@, j as int);
                    }
                    assert(cell.entries@.take(j + 1).drop_last() =~= cell.entries@.take(j as int));
                    let payload_bits: usize = cell.entries[j].payload.bit_len();
                    total_bits += 12 + payload_bits;
                    j += 1;
                }
                assert(cell.entries@.take(cell.entries@.len() as int) =~= cell.entries@);
            }
            k += 1;
        }
        c += 1;
    }
    assert(cs.take(cs.len() as int) =~= cs);
    total_bits
}

/// Absolute position of an entry at `position` within cell `cell_index`.
pub open spec fn cell_position(cell_index: int, position: u8) -> int {
    (((cell_index as usize) << 6usize) as int) + position as int
}

/// Subband `b`'s coefficient range holds `p`.
pub open spec fn in_subband(p: int, b: int) -> bool {
    ATRAC3_SUBBAND_TAB@[b] <= p < ATRAC3_SUBBAND_TAB@[b + 1]
}

/// One of the first `j` entries of cell `cell_index` lies in subband `b`.
pub open spec fn cell_hits(entries: Seq<TonalEntry>, cell_index: int, j: nat, b: int) -> bool
    decreases j,
{
    j > 0 && (cell_hits(entries, cell_index, (j - 1) as nat, b) || in_subband(
        cell_position(cell_index, entries[j - 1].position),
        b,
    ))
}

/// One of the first `k` cells of a component is flagged and holds an entry
/// in subband `b`.
pub open spec fn component_hits(c: TonalComponent, k: nat, b: int) -> bool
    decreases k,
{
    k > 0 && (component_hits(c, (k - 1) as nat, b) || (c.band_flags@[(k - 1) / 4] && cell_hits(
        c.cells@[k - 1].entries@,
        k - 1,
        c.cells@[k - 1].entries@.len(),
        b,
    )))
}

/// One of the first `n` components has an entry in subband `b`.
pub open spec fn components_hit(cs: Seq<TonalComponent>, n: nat, b: int) -> bool
    decreases n,
{
    n > 0 && (components_hit(cs, (n - 1) as nat, b) || component_hits(
        cs[n - 1],
        cs[n - 1].cells@.len(),
        b,
    ))
}

/// No absolute entry position passes the machine word.
pub open spec fn positions_fit(cs: Seq<TonalComponent>) -> bool {
    forall|c: int, i: int, j: int|
        0 <= c < cs.len() && 0 <= i < cs[c].cells@.len() && 0 <= j < cs[c].cells@[i].entries@.len()
            ==> cell_position(i, (#[trigger] cs[c].cells@[i].entries@[j]).position) <= usize::MAX
}

proof fn lemma_subband_unique(p: int, b: int, found: int)
    requires
        0 <= b < 32,
        0 <= found < 32,
        in_subband(p, found),
    ensures
        in_subband(p, b) <==> b == found,
{
    assert(forall|k: int, l: int|
        0 <= k < l <= 32 ==> #[trigger] ATRAC3_SUBBAND_TAB@[k] < #[trigger] ATRAC3_SUBBAND_TAB@[l]);
}

/// The subbands that hold an entry of a flagged cell of some component.
pub fn tonal_subbands_from_components(components: &[TonalComponent]) -> (r: [bool; 32])
    requires
        cells_within_flags(components@),
        positions_fit(components@),
    ensures
        forall|b: int| 0 <= b < 32 ==> (#[trigger] r@[b] <==> components_hit(
            components@,
            components@.len(),
            b,
        )),
{
    let ghost cs = components@;
    let mut tonal_subbands: [bool; 32] = [false; 32];
    let mut c: usize = 0;
    while c < components.len()
        invariant
            c <= cs.len(),
            cs == components@,
            cells_within_flags(cs),
            positions_fit(cs),
            forall|b: int| 0 <= b < 32 ==> (#[trigger] tonal_subbands@[b] <==> components_hit(cs, c as nat, b)),
        decreases cs.len() - c,
    {
        let component: &TonalComponent = &components[c];
        assert(component.cells@.len() <= 4 * component.band_flags@.len());
        let mut k: usize = 0;
        while k < component.cells.len()
            invariant
                c < cs.len(),
                cs == components@,
                *component == cs[c as int],
                component.cells@.len() <= 4 * component.band_flags@.len(),
                positions_fit(cs),
                k <= component.cells@.len(),
                forall|b: int|
                    0 <= b < 32 ==> (#[trigger] tonal_subbands@[b] <==> (components_hit(cs, c as nat, b)
                        || component_hits(*component, k as nat, b))),
            decreases component.cells@.len() - k,
        {
            if component.band_flags[k / 4] {
                let cell: &TonalCell = &component.cells[k];
                let cell_start: usize = k << 6;
                let mut j: usize = 0;
                while j < cell.entries.len()
                    invariant
                        c < cs.len(),
                        cs == components@,
                        *component == cs[c as int],
                        k < component.cells@.len(),
                        *cell == component.cells@[k as int],
                        component.band_flags@[k as int / 4],
                        cell_start == (k as usize) << 6usize,
                        positions_fit(cs),
                        j <= cell.entries@.len(),
                        forall|b: int|
                            0 <= b < 32 ==> (#[trigger] tonal_subbands@[b] <==> (components_hit(
                                cs,
                                c as nat,
                                b,
                            ) || component_hits(*component, k as nat, b) || cell_hits(
                                cell.entries@,
                                k as int,
                                j as nat,
                                b,
                            ))),
                    decreases cell.entries@.len() - j,
                {
                    assert(cell_position(k as int, cs[c as int].cells@[k as int].entries@[j as int].position) <= usize::MAX);
                    let absolute_position: usize = cell_start + cell.entries[j].position as usize;
                    let ghost before = tonal_subbands@;
                    match subband_index_for_position(absolute_position) {
                        Some(subband) => {
                            tonal_subbands[subband] = true;
                            assert forall|b: int| 0 <= b < 32 implies (#[trigger] tonal_subbands@[b] <==> (
                            components_hit(cs, c as nat, b) || component_hits(*component, k as nat, b)
                                || cell_hits(cell.entries@, k as int, (j + 1) as nat, b))) by {
                                lemma_subband_unique(absolute_position as int, b, subband as int);
                            }
                        },
                        None => {
                            assert forall|b: int| 0 <= b < 32 implies (#[trigger] tonal_subbands@[b] <==> (
                            components_hit(cs, c as nat, b) || component_hits(*component, k as nat, b)
                                || cell_hits(cell.entries@, k as int, (j + 1) as nat, b))) by {
                                assert(ATRAC3_SUBBAND_TAB@[b + 1] <= 1024);
                            }
                        },
                    }
                    j += 1;
                }
            }
            k += 1;
        }
        c += 1;
    }
    tonal_subbands
}

/// Of the entries of a cell weaker than `candidate_sf`, the index of the
/// first with the lowest scale factor; none when no entry is weaker.
pub fn weakest_replaceable_high_budget_entry_index(
    component: &PendingTonalComponent,
    cell_index: usize,
    candidate_sf: u8,
) -> (r: Option<usize>)
    requires
        cell_index < component.cells@.len(),
    ensures
        ({
            let es = component.cells@[cell_index as int]@;
            match r {
                None => forall|j: int| 0 <= j < es.len() ==> (#[trigger] es[j]).scale_factor_index >= candidate_sf,
                Some(k) => {
                    &&& k < es.len()
                    &&& es[k as int].scale_factor_index < candidate_sf
                    &&& forall|j: int|
                        0 <= j < es.len() && (#[trigger] es[j]).scale_factor_index < candidate_sf
                            ==> es[k as int].scale_factor_index <= es[j].scale_factor_index && (
                        es[j].scale_factor_index == es[k as int].scale_factor_index ==> k <= j)
                },
            }
        }),
{
    let entries: &Vec<PendingTonalEntry> = &component.cells[cell_index];
    let ghost es = entries@;
    let mut best: Option<usize> = None;
    let mut j: usize = 0;
    while j < entries.len()
        invariant
            j <= es.len(),
            es == entries@,
            match best {
                None => forall|jj: int| 0 <= jj < j ==> (#[trigger] es[jj]).scale_factor_index >= candidate_sf,
                Some(k) => {
                    &&& k < j
                    &&& es[k as int].scale_factor_index < candidate_sf
                    &&& forall|jj: int|
                        0 <= jj < j && (#[trigger] es[jj]).scale_factor_index < candidate_sf
                            ==> es[k as int].scale_factor_index <= es[jj].scale_factor_index && (
                        es[jj].scale_factor_index == es[k as int].scale_factor_index ==> k <= jj)
                },
            },
        decreases es.len() - j,
    {
        let sf: u8 = entries[j].scale_factor_index;
        if sf < candidate_sf {
            match best {
                None => {
                    best = Some(j);
                },
                Some(k) => {
                    if sf < entries[k].scale_factor_index {
                        best = Some(j);
                    }
                },
            }
        }
        j += 1;
    }
    best
}

/// A separator-coded mantissa read back as a signed value: its low
/// `bit_len` bits in two's complement, or 0 for a table without separators.
pub open spec fn signed_sep_value(m: u32, bit_len: u8) -> i8 {
    if bit_len == 0 {
        0
    } else {
        let w = vstd::arithmetic::power2::pow2(bit_len as nat);
        let low = m % (w as u32);
        if low >= w / 2 {
            (low - w) as i8
        } else {
            low as i8
        }
    }
}

fn sign_extend_sep(m: u32, bit_len: u8) -> (v: i8)
    requires
        bit_len == 0 || bit_len == 3 || bit_len == 4 || bit_len == 6,
    ensures
        v == signed_sep_value(m, bit_len),
{
    if bit_len == 0 {
        return 0;
    }
    proof {
        vstd::arithmetic::power2::lemma2_to64();
    }
    let shift_half: u8 = bit_len - 1;
    let one_shifted: u32 = 1u32 << bit_len;
    assert(one_shifted >= 8) by (bit_vector)
        requires
            one_shifted == 1u32 << bit_len,
            bit_len == 3 || bit_len == 4 || bit_len == 6,
    ;
    let mask: u32 = one_shifted - 1;
    let masked: u32 = m & mask;
    let half: u32 = 1u32 << shift_half;
    let full: i32 = 1i32 << bit_len;
    assert(bit_len == 3 ==> mask == 7 && half == 4 && full == 8) by (bit_vector)
        requires
            mask == one_shifted - 1,
            one_shifted == 1u32 << bit_len,
            half == 1u32 << shift_half,
            shift_half + 1 == bit_len,
            full == 1i32 << bit_len,
    ;
    assert(bit_len == 4 ==> mask == 15 && half == 8 && full == 16) by (bit_vector)
        requires
            mask == one_shifted - 1,
            one_shifted == 1u32 << bit_len,
            half == 1u32 << shift_half,
            shift_half + 1 == bit_len,
            full == 1i32 << bit_len,
    ;
    assert(bit_len == 6 ==> mask == 63 && half == 32 && full == 64) by (bit_vector)
        requires
            mask == one_shifted - 1,
            one_shifted == 1u32 << bit_len,
            half == 1u32 << shift_half,
            shift_half + 1 == bit_len,
            full == 1i32 << bit_len,
    ;
    assert(mask == 7 ==> masked == m % 8) by (bit_vector)
        requires
            masked == m & mask,
    ;
    assert(mask == 15 ==> masked == m % 16) by (bit_vector)
        requires
            masked == m & mask,
    ;
    assert(mask == 63 ==> masked == m % 64) by (bit_vector)
        requires
            masked == m & mask,
    ;
    let signed: i32 = if masked >= half {
        masked as i32 - full
    } else {
        masked as i32
    };
    signed as i8
}

/// A high-budget entry as a pending entry: same position and scale factor,
/// its mantissas read back through the table's separator width.
pub fn sony_hb_entry_to_pending(entry: &SonyHbEntry, tbl: u8) -> (p: PendingTonalEntry)
    requires
        tbl < 8,
    ensures
        p.absolute_position == entry.position as usize,
        p.scale_factor_index == entry.sf_index,
        forall|i: int| 0 <= i < 4 ==> #[trigger] p.mantissas@[i] == signed_sep_value(
            entry.mantissas@[i],
            SONY_TONAL_SEP_BIT_LEN@[tbl as int],
        ),
{
    let bit_len: u8 = SONY_TONAL_SEP_BIT_LEN[tbl as usize];
    assert(forall|k: int| 0 <= k < 8 ==> {
        let b = #[trigger] SONY_TONAL_SEP_BIT_LEN@[k];
        b == 0 || b == 3 || b == 4 || b == 6
    });
    let mut mantissas_i8: [i8; 4] = [0; 4];
    let mut i: usize = 0;
    while i < 4
        invariant
            i <= 4,
            bit_len == SONY_TONAL_SEP_BIT_LEN@[tbl as int],
            bit_len == 0 || bit_len == 3 || bit_len == 4 || bit_len == 6,
            mantissas_i8@.len() == 4,
            forall|k: int| 0 <= k < i ==> #[trigger] mantissas_i8@[k] == signed_sep_value(
                entry.mantissas@[k],
                bit_len,
            ),
        decreases 4 - i,
    {
        mantissas_i8[i] = sign_extend_sep(entry.mantissas[i], bit_len);
        i += 1;
    }
    PendingTonalEntry {
        absolute_position: entry.position as usize,
        scale_factor_index: entry.sf_index,
        mantissas: mantissas_i8,
    }
}

/// How many of the scale factor indices exceed `limit`.
pub open spec fn count_above(sfs: Seq<u8>, limit: u8) -> nat
    decreases sfs.len(),
{
    if sfs.len() == 0 {
        0
    } else {
        count_above(sfs.drop_last(), limit) + if sfs.last() > limit {
            1nat
        } else {
            0nat
        }
    }
}

/// How many groups of four coefficients peak above scale factor 7, from
/// the coefficients' bit patterns.
pub fn tonal_hot_group_count(coefficient_bits: &[u32]) -> (n: usize)
    ensures
        n == count_above(group_sf_seq(coefficient_bits@), 7),
{
    let sfs = sony_group_sf_indices(coefficient_bits);
    let mut count: usize = 0;
    let mut i: usize = 0;
    while i < sfs.len()
        invariant
            i <= sfs@.len(),
            count == count_above(sfs@.take(i as int), 7),
            count <= i,
        decreases sfs@.len() - i,
    {
        assert(sfs@.take(i + 1).drop_last() =~= sfs@.take(i as int));
        if sfs[i] > 7 {
            count += 1;
        }
        i += 1;
    }
    assert(sfs@.take(sfs@.len() as int) =~= sfs@);
    count
}

} // verus!

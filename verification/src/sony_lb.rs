//! The low-budget tonal workspace and its two repacking passes.
//!
//! Entries of the low-budget layout hold four mantissas at a sample
//! position; cells group them by 64-sample block. The final repack trims
//! trailing mantissa slots from every entry; the split repack moves the
//! upper half of a full entry into an entry of its own two samples later.
use vstd::prelude::*;

use crate::quant::ATRAC3_SUBBAND_TAB;
use crate::quant_tonal::{coded_subband_count, leading_subbands};
use crate::quant_sony::{
    clamp_int, grown_band_limit, max_doubled_bits, peak_sf_index, sony_maybe_grow_coded_band_limit,
    sony_peak_to_sf_index_group, sony_score_to_tbl, LbCell, LbEntry, SonyLbPhase1Inputs,
    SONY_ENERGY_THRESHOLD,
};

verus! {

/// What a low-budget entry holds: its mantissas, position and scale factor.
pub struct LbEntryModel {
    pub mantissas: Seq<u32>,
    pub position: int,
    pub sf_index: int,
}

impl View for LbEntry {
    type V = LbEntryModel;

    open spec fn view(&self) -> LbEntryModel {
        LbEntryModel {
            mantissas: self.mantissas@,
            position: self.position as int,
            sf_index: self.sf_index as int,
        }
    }
}

/// What a cell holds: its entry count and its entry references.
pub struct LbCellModel {
    pub count: int,
    pub entry_refs: Seq<u32>,
}

impl View for LbCell {
    type V = LbCellModel;

    open spec fn view(&self) -> LbCellModel {
        LbCellModel { count: self.count as int, entry_refs: self.entry_refs@ }
    }
}

pub open spec fn entry_models(es: Seq<LbEntry>) -> Seq<LbEntryModel> {
    es.map_values(|e: LbEntry| e@)
}

pub open spec fn cell_models(cs: Seq<LbCell>) -> Seq<LbCellModel> {
    cs.map_values(|c: LbCell| c@)
}

/// The low-budget tonal workspace: per-band state, the sixteen cells, the
/// entry pool, a backup of the cell state, and the residual spectrum held
/// as the bit patterns of its `f32` samples.
#[derive(Debug, Clone)]
pub struct SonyLbWorkbench {
    pub band_state_low: [i32; 32],
    pub band_peak: [i32; 32],
    pub band_count: i32,
    pub base_bits: i32,
    pub use_b_path: u32,
    pub nonempty: i32,
    pub qmf_band_active: [i32; 4],
    pub tbl: i32,
    pub count_minus_one: i32,
    pub cells: [LbCell; 16],
    pub backup: [i32; 134],
    pub entries: Vec<LbEntry>,
    pub spectrum: Vec<u32>,
    pub band_score: [i32; 32],
}

/// Everything of a workspace but its entries, cells, repack width and backup.
pub open spec fn same_context(a: SonyLbWorkbench, b: SonyLbWorkbench) -> bool {
    &&& a.band_state_low == b.band_state_low
    &&& a.band_peak == b.band_peak
    &&& a.band_count == b.band_count
    &&& a.base_bits == b.base_bits
    &&& a.use_b_path == b.use_b_path
    &&& a.nonempty == b.nonempty
    &&& a.qmf_band_active == b.qmf_band_active
    &&& a.tbl == b.tbl
    &&& a.spectrum@ == b.spectrum@
    &&& a.band_score == b.band_score
}

fn empty_cell() -> (c: LbCell)
    ensures
        c.count == 0,
        forall|j: int| 0 <= j < 7 ==> c.entry_refs@[j] == 0u32,
{
    LbCell { count: 0, entry_refs: [0u32; 7] }
}

impl SonyLbWorkbench {
    /// A workspace over `spectrum` with the caller's per-band context: no
    /// entries, empty cells, no active QMF band, table 3 and four mantissa
    /// slots per entry.
    pub fn new(
        spectrum: Vec<u32>,
        band_count: i32,
        base_bits: i32,
        band_score: [i32; 32],
        band_state_low: [i32; 32],
        band_peak: [i32; 32],
    ) -> (wb: Self)
        ensures
            wb.spectrum@ == spectrum@,
            wb.band_count == band_count,
            wb.base_bits == base_bits,
            wb.band_score == band_score,
            wb.band_state_low == band_state_low,
            wb.band_peak == band_peak,
            wb.use_b_path == 0,
            wb.nonempty == 0,
            forall|q: int| 0 <= q < 4 ==> wb.qmf_band_active@[q] == 0i32,
            wb.tbl == 3,
            wb.count_minus_one == 3,
            forall|c: int|
                0 <= c < 16 ==> (#[trigger] wb.cells@[c]).count == 0 && forall|j: int|
                    0 <= j < 7 ==> wb.cells@[c].entry_refs@[j] == 0u32,
            forall|i: int| 0 <= i < 134 ==> wb.backup@[i] == 0i32,
            wb.entries@.len() == 0,
    {
        let cell = empty_cell();
        let wb = SonyLbWorkbench {
            band_state_low,
            band_peak,
            band_count,
            base_bits,
            use_b_path: 0,
            nonempty: 0,
            qmf_band_active: [0i32; 4],
            tbl: 3,
            count_minus_one: 3,
            cells: [cell; 16],
            backup: [0i32; 134],
            entries: Vec::new(),
            spectrum,
            band_score,
        };
        wb
    }

    /// A workspace built from the first-phase inputs of the low-budget
    /// tonal search.
    pub fn new_from_phase1(spectrum: Vec<u32>, phase1: &SonyLbPhase1Inputs) -> (wb: Self)
        ensures
            wb.spectrum@ == spectrum@,
            wb.band_count == phase1.band_count,
            wb.base_bits == phase1.base_bits,
            wb.band_score == phase1.band_score,
            wb.band_state_low == phase1.band_state_low,
            wb.band_peak == phase1.band_peak,
            wb.use_b_path == 0,
            wb.nonempty == 0,
            forall|q: int| 0 <= q < 4 ==> wb.qmf_band_active@[q] == 0i32,
            wb.tbl == 3,
            wb.count_minus_one == 3,
            forall|c: int|
                0 <= c < 16 ==> (#[trigger] wb.cells@[c]).count == 0 && forall|j: int|
                    0 <= j < 7 ==> wb.cells@[c].entry_refs@[j] == 0u32,
            forall|i: int| 0 <= i < 134 ==> wb.backup@[i] == 0i32,
            wb.entries@.len() == 0,
    {
        Self::new(
            spectrum,
            phase1.band_count,
            phase1.base_bits,
            phase1.band_score,
            phase1.band_state_low,
            phase1.band_peak,
        )
    }
}

// ---------------------------------------------------------------------------
// Final repack
// ---------------------------------------------------------------------------

/// One trimming step on an entry with `cm + 1` mantissa slots: when the
/// last slot is used, the mantissas move one slot down (the last slot keeps
/// its value) and the position moves one sample up.
pub open spec fn trimmed_entry(e: LbEntryModel, cm: int) -> LbEntryModel {
    if e.mantissas[cm] != 0 {
        LbEntryModel {
            mantissas: Seq::new(
                4,
                |i: int|
                    if i < cm {
                        e.mantissas[i + 1]
                    } else {
                        e.mantissas[i]
                    },
            ),
            position: e.position + 1,
            sf_index: e.sf_index,
        }
    } else {
        e
    }
}

/// An entry stops the trimming when its slot below `cm` is used and its
/// first slot is used or it sits on the last sample of its cell.
pub open spec fn trim_stops(e: LbEntryModel, cm: int) -> bool {
    e.mantissas[cm - 1] != 0 && (e.mantissas[0] != 0 || (e.position as u32) % 64 == 63)
}

/// One trimming step applied to the first `n` entries.
pub open spec fn trimmed_entries(es: Seq<LbEntryModel>, n: int, cm: int) -> Seq<LbEntryModel> {
    Seq::new(
        es.len(),
        |i: int|
            if i < n {
                trimmed_entry(es[i], cm)
            } else {
                es[i]
            },
    )
}

/// Trimming steps from width `cm` down until an entry stops them or the
/// width reaches one: the entries after the last step and the final width.
pub open spec fn final_repack_model(es: Seq<LbEntryModel>, n: int, cm: int) -> (Seq<LbEntryModel>, int)
    decreases cm,
{
    let next = trimmed_entries(es, n, cm);
    if cm <= 1 || exists|i: int| 0 <= i < n && #[trigger] trim_stops(next[i], cm) {
        (next, cm - 1)
    } else {
        final_repack_model(next, n, cm - 1)
    }
}

proof fn lemma_low_six_bits(x: u32)
    ensures
        x & 0x3f == x % 64,
{
    assert(x & 0x3f == x % 64) by (bit_vector);
}

/// The positions reached by at most `k` further trimming steps stay below
/// `bound + k` where the entries start below `bound`.
pub open spec fn positions_below(es: Seq<LbEntryModel>, n: int, bound: int) -> bool {
    forall|i: int| 0 <= i < n ==> (#[trigger] es[i]).position < bound
}

/// Trims trailing mantissa slots from the first `entry_count` entries: each
/// step moves the used last slot of every entry down by one (the position
/// moves up by one sample) and narrows the width `count_minus_one` by one,
/// until some entry stops it or the width reaches zero. Returns how far the
/// width was narrowed below three.
#[verifier::spinoff_prover]
#[verifier::rlimit(50)]
pub fn sony_lb_final_repack(wb: &mut SonyLbWorkbench, entry_count: i32) -> (r: i32)
    requires
        1 <= old(wb).count_minus_one <= 3,
        i32::MIN < entry_count <= old(wb).entries@.len(),
        positions_below(
            entry_models(old(wb).entries@),
            entry_count as int,
            i32::MAX - old(wb).count_minus_one + 1,
        ),
    ensures
        ({
            let m = final_repack_model(
                entry_models(old(wb).entries@),
                entry_count as int,
                old(wb).count_minus_one as int,
            );
            &&& entry_models(final(wb).entries@) == m.0
            &&& final(wb).count_minus_one == m.1
            &&& r == 3 - m.1
        }),
        same_context(*final(wb), *old(wb)),
        final(wb).cells == old(wb).cells,
        final(wb).backup == old(wb).backup,
{
    let ghost es0 = entry_models(wb.entries@);
    let ghost cm0 = wb.count_minus_one as int;
    let ghost n = entry_count as int;
    let mut b_var1 = false;
    loop
        invariant
            1 <= wb.count_minus_one <= cm0,
            cm0 <= 3,
            es0 == entry_models(old(wb).entries@),
            cm0 == old(wb).count_minus_one,
            n == entry_count,
            i32::MIN < n <= wb.entries@.len(),
            !b_var1,
            wb.entries@.len() == es0.len(),
            positions_below(entry_models(wb.entries@), n, i32::MAX - wb.count_minus_one + 1),
            final_repack_model(entry_models(wb.entries@), n, wb.count_minus_one as int)
                == final_repack_model(es0, n, cm0),
            same_context(*wb, *old(wb)),
            wb.cells == old(wb).cells,
            wb.backup == old(wb).backup,
        decreases wb.count_minus_one,
    {
        let cm: i32 = wb.count_minus_one;
        let ghost before = entry_models(wb.entries@);
        let mut entry_idx: i32 = entry_count - 1;
        while entry_idx >= 0
            invariant
                wb.count_minus_one == cm,
                1 <= cm <= 3,
                entry_idx < n,
                entry_idx >= -1 || entry_idx == n - 1,
                n <= wb.entries@.len(),
                wb.entries@.len() == before.len(),
                positions_below(before, n, i32::MAX - cm + 1),
                forall|i: int|
                    0 <= i < wb.entries@.len() ==> (#[trigger] entry_models(wb.entries@)[i]) == if entry_idx < i < n {
                        trimmed_entry(before[i], cm as int)
                    } else {
                        before[i]
                    },
                b_var1 <==> exists|i: int|
                    entry_idx < i < n && #[trigger] trim_stops(trimmed_entry(before[i], cm as int), cm as int),
                same_context(*wb, *old(wb)),
                wb.cells == old(wb).cells,
                wb.backup == old(wb).backup,
            decreases entry_idx + 1,
        {
            let idx: usize = entry_idx as usize;
            let mut ent: LbEntry = wb.entries[idx];
            assert(entry_models(wb.entries@)[entry_idx as int] == before[entry_idx as int]);
            assert(ent@ == before[entry_idx as int]);
            let ghost m0 = ent.mantissas@;
            if ent.mantissas[cm as usize] != 0 {
                ent.position = ent.position + 1;
                let ghost moved = ent;
                let mut i: i32 = 0;
                while i < cm
                    invariant
                        ent.position == moved.position,
                        ent.sf_index == moved.sf_index,
                        0 <= i <= cm,
                        1 <= cm <= 3,
                        ent.mantissas@.len() == 4,
                        forall|k: int| 0 <= k < i ==> ent.mantissas@[k] == m0[k + 1],
                        forall|k: int| i <= k < 4 ==> ent.mantissas@[k] == m0[k],
                    decreases cm - i,
                {
                    ent.mantissas[i as usize] = ent.mantissas[(i + 1) as usize];
                    i += 1;
                }
            }
            let ghost expected = trimmed_entry(before[entry_idx as int], cm as int);
            assert(ent@.mantissas =~= expected.mantissas);
            assert(ent@.position == expected.position);
            assert(ent@.sf_index == expected.sf_index);
            assert(ent@ == expected);
            let trailing: u32 = ent.mantissas[(cm - 1) as usize];
            proof {
                lemma_low_six_bits(ent.position as u32);
            }
            let low: u32 = (#[verifier::truncate] (ent.position as u32)) & 0x3f;
            if trailing != 0 && (ent.mantissas[0] != 0 || low == 0x3f) {
                b_var1 = true;
            }
            assert(trim_stops(ent@, cm as int) <==> (trailing != 0 && (ent.mantissas[0] != 0 || low
                == 0x3f)));
            let ghost prev_models = entry_models(wb.entries@);
            wb.entries.set(idx, ent);
            proof {
                assert forall|i: int| 0 <= i < wb.entries@.len() implies (#[trigger] entry_models(wb.entries@)[i])
                    == if entry_idx - 1 < i < n {
                    trimmed_entry(before[i], cm as int)
                } else {
                    before[i]
                } by {
                    if i != entry_idx {
                        assert(entry_models(wb.entries@)[i] == prev_models[i]);
                    }
                }
            }
            entry_idx -= 1;
        }
        let ghost next = entry_models(wb.entries@);
        assert(next =~= trimmed_entries(before, n, cm as int));
        assert(final_repack_model(before, n, cm as int) == if cm <= 1 || exists|i: int|
            0 <= i < n && #[trigger] trim_stops(next[i], cm as int) {
            (next, cm - 1)
        } else {
            final_repack_model(next, n, cm - 1)
        });
        assert(b_var1 <==> exists|i: int| 0 <= i < n && #[trigger] trim_stops(next[i], cm as int)) by {
            if b_var1 {
                let i = choose|i: int| -1 < i < n && #[trigger] trim_stops(trimmed_entry(before[i], cm as int), cm as int);
                assert(next[i] == trimmed_entry(before[i], cm as int));
            }
            if exists|i: int| 0 <= i < n && #[trigger] trim_stops(next[i], cm as int) {
                let i = choose|i: int| 0 <= i < n && #[trigger] trim_stops(next[i], cm as int);
                assert(next[i] == trimmed_entry(before[i], cm as int));
                assert(trim_stops(trimmed_entry(before[i], cm as int), cm as int));
            }
        }
        let new_count_m1: i32 = cm - 1;
        wb.count_minus_one = new_count_m1;
        if b_var1 {
            assert(final_repack_model(before, n, cm as int) == (next, cm - 1));
            assert(final_repack_model(es0, n, cm0) == (next, cm - 1));
            return 3 - new_count_m1;
        }
        if new_count_m1 <= 0 {
            assert(final_repack_model(es0, n, cm0) == (next, cm - 1));
            return 3 - new_count_m1;
        }
        assert(positions_below(next, n, i32::MAX - new_count_m1 + 1)) by {
            assert forall|i: int| 0 <= i < n implies (#[trigger] next[i]).position < i32::MAX - new_count_m1 + 1 by {
                assert(next[i] == trimmed_entry(before[i], cm as int));
            }
        }
    }
}


// ---------------------------------------------------------------------------
// Split repack
// ---------------------------------------------------------------------------

/// The flat image of the QMF flags, the table, the width and the cells
/// (count, then the seven references, for each cell) that the split repack
/// keeps in `backup` before it changes anything.
pub open spec fn lb_backup_image(wb: SonyLbWorkbench) -> Seq<i32> {
    Seq::new(
        134,
        |i: int|
            if i < 4 {
                wb.qmf_band_active@[i]
            } else if i == 4 {
                wb.tbl
            } else if i == 5 {
                wb.count_minus_one
            } else {
                let c = (i - 6) / 8;
                let j = (i - 6) % 8;
                if j == 0 {
                    wb.cells@[c].count
                } else {
                    wb.cells@[c].entry_refs@[j - 1] as i32
                }
            },
    )
}

/// A split is refused when the half it would move lands before the start,
/// past sample 0x3fd or in an inactive QMF band, when the target cell is
/// full, or when the entry pool holds 64 entries.
pub open spec fn split_refused(e: LbEntryModel, qmf: Seq<i32>, cells: Seq<LbCellModel>, count: int) -> bool {
    let np = e.position + 2;
    np < 0 || np > 0x3fd || qmf[np / 256] == 0 || cells[np / 64].count > 6 || count == 64
}

pub open spec fn with_count(c: LbCellModel, count: int) -> LbCellModel {
    LbCellModel { count, entry_refs: c.entry_refs }
}

/// The reservation pass over the first `k` entries: whether every split so
/// far was accepted, the cells with a place counted for each accepted split,
/// and the running entry count. The pass stops at the first refusal.
pub open spec fn split_reserve(
    es: Seq<LbEntryModel>,
    qmf: Seq<i32>,
    cells: Seq<LbCellModel>,
    count: int,
    k: nat,
) -> (bool, Seq<LbCellModel>, int)
    decreases k,
{
    if k == 0 {
        (true, cells, count)
    } else {
        let p = split_reserve(es, qmf, cells, count, (k - 1) as nat);
        let e = es[k - 1];
        if !p.0 || e.mantissas[3] == 0 {
            p
        } else if split_refused(e, qmf, p.1, p.2) {
            (false, p.1, p.2)
        } else {
            let c = (e.position + 2) / 64;
            (true, p.1.update(c, with_count(p.1[c], p.1[c].count + 1)), p.2 + 1)
        }
    }
}

/// How many of the first `k` entries use their last mantissa slot.
pub open spec fn split_count(es: Seq<LbEntryModel>, k: nat) -> int
    decreases k,
{
    if k == 0 {
        0
    } else {
        split_count(es, (k - 1) as nat) + if es[k - 1].mantissas[3] != 0 {
            1int
        } else {
            0int
        }
    }
}

/// The upper half of an entry, two samples later.
pub open spec fn split_half(e: LbEntryModel) -> LbEntryModel {
    LbEntryModel {
        mantissas: seq![e.mantissas[2], e.mantissas[3], 0u32, 0u32],
        position: e.position + 2,
        sf_index: e.sf_index,
    }
}

/// The lower half of an entry, in place.
pub open spec fn split_kept(e: LbEntryModel) -> LbEntryModel {
    LbEntryModel {
        mantissas: e.mantissas.update(2, 0u32).update(3, 0u32),
        position: e.position,
        sf_index: e.sf_index,
    }
}

/// The move pass over the first `k` entries, writing new entries from index
/// `start` on: each split entry keeps its lower half, its upper half goes to
/// the next free index, and the index is recorded in the target cell at the
/// place its count points to.
pub open spec fn split_move(es: Seq<LbEntryModel>, cells: Seq<LbCellModel>, start: int, k: nat) -> (
    Seq<LbEntryModel>,
    Seq<LbCellModel>,
    int,
)
    decreases k,
{
    if k == 0 {
        (es, cells, start)
    } else {
        let p = split_move(es, cells, start, (k - 1) as nat);
        let e = es[k - 1];
        if e.mantissas[3] == 0 {
            p
        } else {
            let d = p.2;
            let placed = if d < p.0.len() {
                p.0.update(d, split_half(e))
            } else {
                p.0.push(split_half(e))
            };
            let c = (e.position + 2) / 64;
            let slot = p.1[c].count - 1;
            let cells2 = if 0 <= slot < 7 {
                p.1.update(c, LbCellModel { count: p.1[c].count, entry_refs: p.1[c].entry_refs.update(slot, d as u32) })
            } else {
                p.1
            };
            (placed.update(k - 1, split_kept(e)), cells2, d + 1)
        }
    }
}

pub open spec fn counts_in_range(cells: Seq<LbCellModel>) -> bool {
    &&& cells.len() == 16
    &&& forall|c: int| 0 <= c < 16 ==> i32::MIN <= (#[trigger] cells[c]).count <= i32::MAX
    &&& forall|c: int| 0 <= c < 16 ==> (#[trigger] cells[c]).entry_refs.len() == 7
}

proof fn lemma_split_reserve(es: Seq<LbEntryModel>, qmf: Seq<i32>, cells: Seq<LbCellModel>, count: int, k: nat)
    requires
        k <= es.len(),
        qmf.len() == 4,
        counts_in_range(cells),
        forall|i: int| 0 <= i < es.len() ==> (#[trigger] es[i]).mantissas.len() == 4,
    ensures
        ({
            let r = split_reserve(es, qmf, cells, count, k);
            &&& counts_in_range(r.1)
            &&& forall|c: int| 0 <= c < 16 ==> cells[c].count <= (#[trigger] r.1[c]).count
            &&& forall|c: int| 0 <= c < 16 ==> (#[trigger] r.1[c]).entry_refs == cells[c].entry_refs
            &&& forall|c: int| 0 <= c < 16 && (#[trigger] r.1[c]).count != cells[c].count ==> r.1[c].count <= 7
            &&& r.0 ==> r.2 == count + split_count(es, k)
            &&& r.0 ==> forall|s: int|
                0 <= s < k && (#[trigger] es[s]).mantissas[3] != 0 ==> {
                    let np = es[s].position + 2;
                    &&& 0 <= np <= 0x3fd
                    &&& i32::MIN < r.1[np / 64].count <= 7
                }
        }),
    decreases k,
{
    if k > 0 {
        lemma_split_reserve(es, qmf, cells, count, (k - 1) as nat);
        let p = split_reserve(es, qmf, cells, count, (k - 1) as nat);
        let e = es[k - 1];
        if p.0 && e.mantissas[3] != 0 && !split_refused(e, qmf, p.1, p.2) {
            let c = (e.position + 2) / 64;
            let r = split_reserve(es, qmf, cells, count, k);
            assert(r.1 == p.1.update(c, with_count(p.1[c], p.1[c].count + 1)));
            assert forall|s: int| 0 <= s < k && (#[trigger] es[s]).mantissas[3] != 0 implies ({
                let np = es[s].position + 2;
                &&& 0 <= np <= 0x3fd
                &&& i32::MIN < r.1[np / 64].count <= 7
            }) by {
                let np = es[s].position + 2;
                if s < k - 1 {
                    if np / 64 == c {
                        assert(r.1[c].count == p.1[c].count + 1);
                    }
                }
            }
        }
    }
}

/// Once a refusal is reached, the reservation pass stays where it stopped.
proof fn lemma_split_reserve_stops(es: Seq<LbEntryModel>, qmf: Seq<i32>, cells: Seq<LbCellModel>, count: int, k: nat, k2: nat)
    requires
        k <= k2,
        !split_reserve(es, qmf, cells, count, k).0,
    ensures
        split_reserve(es, qmf, cells, count, k2) == split_reserve(es, qmf, cells, count, k),
    decreases k2,
{
    if k2 > k {
        lemma_split_reserve_stops(es, qmf, cells, count, k, (k2 - 1) as nat);
    }
}

proof fn lemma_split_count_bounds(es: Seq<LbEntryModel>, k: nat, k2: nat)
    requires
        k <= k2,
    ensures
        0 <= split_count(es, k) <= split_count(es, k2),
        split_count(es, k) <= k,
        split_count(es, k2) - split_count(es, k) <= k2 - k,
    decreases k2,
{
    if k2 > k {
        lemma_split_count_bounds(es, k, (k2 - 1) as nat);
    } else if k2 > 0 {
        lemma_split_count_bounds(es, (k2 - 1) as nat, (k2 - 1) as nat);
    }
}

proof fn lemma_flat_index(c: int, j: int)
    requires
        0 <= c,
        0 <= j < 8,
    ensures
        (8 * c + j) / 8 == c,
        (8 * c + j) % 8 == j,
{
    assert((8 * c + j) / 8 == c && (8 * c + j) % 8 == j) by (nonlinear_arith)
        requires
            0 <= c,
            0 <= j < 8,
    ;
}

/// Splits every one of the first `entry_count` entries that uses its last
/// mantissa slot: its upper two mantissas move to a new entry two samples
/// later, appended after the existing ones and recorded in its cell. The
/// QMF flags, table, width and cells are first copied to `backup`. A
/// reservation pass counts a place in the target cell for each split and
/// returns 0 at the first split it must refuse, leaving the places counted
/// so far; otherwise the move pass runs and the new entry count is returned.
#[verifier::spinoff_prover]
#[verifier::rlimit(50)]
pub fn sony_lb_split_repack(wb: &mut SonyLbWorkbench, entry_count: i32) -> (r: i32)
    requires
        entry_count <= old(wb).entries@.len(),
        old(wb).entries@.len() < 0x4000_0000,
        entry_count - split_count(entry_models(old(wb).entries@), old(wb).entries@.len()) >= i32::MIN,
    ensures
        final(wb).backup@ == lb_backup_image(*old(wb)),
        same_context(*final(wb), *old(wb)),
        final(wb).count_minus_one == old(wb).count_minus_one,
        ({
            let es = entry_models(old(wb).entries@);
            let n = entry_count as int;
            let res = split_reserve(
                es,
                old(wb).qmf_band_active@,
                cell_models(old(wb).cells@),
                n,
                if n > 0 {
                    n as nat
                } else {
                    0
                },
            );
            if !res.0 {
                &&& r == 0
                &&& entry_models(final(wb).entries@) == es
                &&& cell_models(final(wb).cells@) == res.1
            } else {
                let iv = res.2 - split_count(es, es.len());
                let moved = split_move(
                    es,
                    res.1,
                    iv,
                    if iv > 0 {
                        iv as nat
                    } else {
                        0
                    },
                );
                &&& r == res.2
                &&& entry_models(final(wb).entries@) == moved.0
                &&& cell_models(final(wb).cells@) == moved.1
            }
        }),
{
    let ghost es = entry_models(wb.entries@);
    let ghost cells0 = cell_models(wb.cells@);
    let ghost qmf0 = wb.qmf_band_active@;
    let ghost image = lb_backup_image(*wb);
    let ghost n = entry_count as int;
    // The backup image.
    let mut flat: [i32; 134] = [0i32; 134];
    flat[0] = wb.qmf_band_active[0];
    flat[1] = wb.qmf_band_active[1];
    flat[2] = wb.qmf_band_active[2];
    flat[3] = wb.qmf_band_active[3];
    flat[4] = wb.tbl;
    flat[5] = wb.count_minus_one;
    let mut ci: usize = 0;
    while ci < 16
        invariant
            ci <= 16,
            image == lb_backup_image(*wb),
            flat@.len() == 134,
            forall|x: int| 0 <= x < 6 + 8 * ci ==> #[trigger] flat@[x] == image[x],
        decreases 16 - ci,
    {
        let cell: LbCell = wb.cells[ci];
        let base: usize = 6 + ci * 8;
        proof {
            lemma_flat_index(ci as int, 0);
        }
        flat[base] = cell.count;
        let mut j: usize = 0;
        while j < 7
            invariant
                ci < 16,
                base == 6 + ci * 8,
                j <= 7,
                cell == wb.cells@[ci as int],
                image == lb_backup_image(*wb),
                flat@.len() == 134,
                forall|x: int| 0 <= x < base + 1 + j ==> #[trigger] flat@[x] == image[x],
            decreases 7 - j,
        {
            proof {
                lemma_flat_index(ci as int, (j + 1) as int);
            }
            flat[base + 1 + j] = #[verifier::truncate] (cell.entry_refs[j] as i32);
            j += 1;
        }
        ci += 1;
    }
    assert(flat@ =~= image);
    wb.backup = flat;

    proof {
        assert(counts_in_range(cells0));
        lemma_split_reserve(es, qmf0, cells0, n, 0);
    }
    // Reservation pass.
    let mut count: i32 = entry_count;
    if entry_count > 0 {
        let mut k: usize = 0;
        while k < entry_count as usize
            invariant
                n == entry_count,
                0 < n <= es.len(),
                k <= n,
                es.len() < 0x4000_0000,
                entry_models(wb.entries@) == es,
                wb.backup@ == image,
                image == lb_backup_image(*old(wb)),
                qmf0 == old(wb).qmf_band_active@,
                cells0 == cell_models(old(wb).cells@),
                es == entry_models(old(wb).entries@),
                same_context(*wb, *old(wb)),
                wb.count_minus_one == old(wb).count_minus_one,
                split_reserve(es, qmf0, cells0, n, k as nat) == (true, cell_models(wb.cells@), count as int),
                count == n + split_count(es, k as nat),
            decreases n - k,
        {
            proof {
                lemma_split_reserve(es, qmf0, cells0, n, k as nat);
                lemma_split_reserve(es, qmf0, cells0, n, (k + 1) as nat);
                lemma_split_count_bounds(es, 0, k as nat);
            }
            let ent: LbEntry = wb.entries[k];
            assert(entry_models(wb.entries@)[k as int] == ent@);
            if ent.mantissas[3] != 0 {
                let np: i64 = ent.position as i64 + 2;
                if np < 0 || np >= 1024 {
                    proof {
                        lemma_split_reserve_stops(es, qmf0, cells0, n, (k + 1) as nat, n as nat);
                    }
                    return 0;
                }
                if wb.backup[(np / 256) as usize] == 0 {
                    proof {
                        lemma_split_reserve_stops(es, qmf0, cells0, n, (k + 1) as nat, n as nat);
                    }
                    return 0;
                }
                let c: usize = (np / 64) as usize;
                let cell_count: i32 = wb.cells[c].count;
                assert(cell_models(wb.cells@)[c as int].count == cell_count);
                if 6 < cell_count {
                    proof {
                        lemma_split_reserve_stops(es, qmf0, cells0, n, (k + 1) as nat, n as nat);
                    }
                    return 0;
                }
                if count == 64 {
                    proof {
                        lemma_split_reserve_stops(es, qmf0, cells0, n, (k + 1) as nat, n as nat);
                    }
                    return 0;
                }
                if 0x3fd < np {
                    proof {
                        lemma_split_reserve_stops(es, qmf0, cells0, n, (k + 1) as nat, n as nat);
                    }
                    return 0;
                }
                let ghost before_cells = cell_models(wb.cells@);
                let mut cell: LbCell = wb.cells[c];
                cell.count = cell_count + 1;
                wb.cells[c] = cell;
                assert(cell_models(wb.cells@) =~= before_cells.update(
                    c as int,
                    with_count(before_cells[c as int], before_cells[c as int].count + 1),
                ));
                count += 1;
            }
            k += 1;
        }
    }
    proof {
        lemma_split_reserve(es, qmf0, cells0, n, if n > 0 { n as nat } else { 0 });
        lemma_split_count_bounds(es, if n > 0 { n as nat } else { 0 }, es.len());
    }
    let ghost cells1 = cell_models(wb.cells@);
    // Splits among all entries of the pool.
    let mut s_all: i32 = 0;
    let mut t: usize = 0;
    while t < wb.entries.len()
        invariant
            t <= es.len(),
            es.len() < 0x4000_0000,
            entry_models(wb.entries@) == es,
            s_all == split_count(es, t as nat),
        decreases es.len() - t,
    {
        proof {
            lemma_split_count_bounds(es, t as nat, (t + 1) as nat);
            lemma_split_count_bounds(es, 0, t as nat);
        }
        assert(entry_models(wb.entries@)[t as int] == wb.entries@[t as int]@);
        if wb.entries[t].mantissas[3] != 0 {
            s_all += 1;
        }
        t += 1;
    }
    let iv: i32 = count - s_all;
    // Move pass.
    if iv > 0 {
        let mut src: i32 = 0;
        let mut dst: i32 = iv;
        while src < iv
            invariant
                0 < iv <= n,
                0 <= src <= iv,
                n <= es.len() < 0x4000_0000,
                iv <= dst <= iv + src,
                dst <= wb.entries@.len(),
                es.len() <= wb.entries@.len(),
                split_move(es, cells1, iv as int, src as nat) == (
                    entry_models(wb.entries@),
                    cell_models(wb.cells@),
                    dst as int,
                ),
                forall|i: int| src <= i < iv ==> (#[trigger] entry_models(wb.entries@)[i]) == es[i],
                split_reserve(es, qmf0, cells0, n, n as nat).0,
                cells1 == split_reserve(es, qmf0, cells0, n, n as nat).1,
                counts_in_range(cells1),
                forall|c: int| 0 <= c < 16 ==> (#[trigger] cell_models(wb.cells@)[c]).count == cells1[c].count,
                forall|c: int| 0 <= c < 16 ==> (#[trigger] cell_models(wb.cells@)[c]).entry_refs.len() == 7,
                forall|s: int|
                    0 <= s < n && (#[trigger] es[s]).mantissas[3] != 0 ==> {
                        let np = es[s].position + 2;
                        &&& 0 <= np <= 0x3fd
                        &&& i32::MIN < cells1[np / 64].count <= 7
                    },
                same_context(*wb, *old(wb)),
                wb.count_minus_one == old(wb).count_minus_one,
                wb.backup@ == image,
            decreases iv - src,
        {
            let ghost p_entries = entry_models(wb.entries@);
            let ghost p_cells = cell_models(wb.cells@);
            let src_ent: LbEntry = wb.entries[src as usize];
            assert(entry_models(wb.entries@)[src as int] == wb.entries@[src as int]@);
            assert(src_ent@ == es[src as int]);
            if src_ent.mantissas[3] != 0 {
                let dst_pos: i32 = src_ent.position + 2;
                let new_entry = LbEntry {
                    mantissas: [src_ent.mantissas[2], src_ent.mantissas[3], 0u32, 0u32],
                    position: dst_pos,
                    sf_index: src_ent.sf_index,
                };
                assert(new_entry@.mantissas =~= split_half(es[src as int]).mantissas);
                assert(new_entry@ == split_half(es[src as int]));
                if wb.entries.len() <= dst as usize {
                    wb.entries.push(new_entry);
                } else {
                    wb.entries.set(dst as usize, new_entry);
                }
                let mut kept: LbEntry = src_ent;
                kept.mantissas[2] = 0;
                kept.mantissas[3] = 0;
                assert(kept@.mantissas =~= split_kept(es[src as int]).mantissas);
                assert(kept@ == split_kept(es[src as int]));
                wb.entries.set(src as usize, kept);
                let c: usize = (dst_pos / 64) as usize;
                let mut cell: LbCell = wb.cells[c];
                assert(cell@ == p_cells[c as int]);
                let slot: i32 = cell.count - 1;
                if 0 <= slot && slot < 7 {
                    cell.entry_refs[slot as usize] = dst as u32;
                    wb.cells[c] = cell;
                }
                proof {
                    let placed = if dst < p_entries.len() {
                        p_entries.update(dst as int, split_half(es[src as int]))
                    } else {
                        p_entries.push(split_half(es[src as int]))
                    };
                    assert(entry_models(wb.entries@) =~= placed.update(src as int, split_kept(es[src as int])));
                    if 0 <= slot && slot < 7 {
                        assert(cell_models(wb.cells@) =~= p_cells.update(
                            c as int,
                            LbCellModel {
                                count: p_cells[c as int].count,
                                entry_refs: p_cells[c as int].entry_refs.update(slot as int, dst as u32),
                            },
                        ));
                    } else {
                        assert(cell_models(wb.cells@) =~= p_cells);
                    }
                }
                dst += 1;
            }
            src += 1;
        }
    }
    count
}


// ---------------------------------------------------------------------------
// First-phase inputs of the low-budget search
// ---------------------------------------------------------------------------

/// The scale factor index of the `i`-th group of four coefficients (the
/// last group may be shorter; past the end it is 0).
pub open spec fn group_sf(bits: Seq<u32>, i: int) -> int {
    if 4 * i < bits.len() {
        let end = if 4 * i + 4 <= bits.len() {
            4 * i + 4
        } else {
            bits.len() as int
        };
        peak_sf_index(max_doubled_bits(bits.subrange(4 * i, end))) as int
    } else {
        0
    }
}

/// The scale factor indices of the 256 groups of a frame.
pub open spec fn group_sfs(bits: Seq<u32>) -> Seq<int> {
    Seq::new(256, |i: int| group_sf(bits, i))
}

pub open spec fn range_sum(g: Seq<int>, lo: int, hi: int) -> int
    decreases hi - lo,
{
    if hi <= lo {
        0
    } else {
        range_sum(g, lo, hi - 1) + g[hi - 1]
    }
}

pub open spec fn range_max(g: Seq<int>, lo: int, hi: int) -> int
    decreases hi - lo,
{
    if hi <= lo {
        0
    } else {
        let m = range_max(g, lo, hi - 1);
        if m < g[hi - 1] {
            g[hi - 1]
        } else {
            m
        }
    }
}

/// How many of the first `hi` groups have a scale factor index above 7.
pub open spec fn hot_count(g: Seq<int>, hi: int) -> int
    decreases hi,
{
    if hi <= 0 {
        0
    } else {
        hot_count(g, hi - 1) + if g[hi - 1] > 7 {
            1int
        } else {
            0int
        }
    }
}

/// The groups of subband `b`.
pub open spec fn group_start(b: int) -> int {
    (ATRAC3_SUBBAND_TAB@[b] / 4) as int
}

pub open spec fn group_end(b: int) -> int {
    (ATRAC3_SUBBAND_TAB@[b + 1] / 4) as int
}

/// The scan over the first `b` subbands: the running peak, the coded band
/// limit (grown whenever a subband raises the running peak), the sum of the
/// kept subband sums, and each subband's kept peak. A subband that does not
/// raise the running peak is dropped (sum and peak 0) when its sum is under
/// its energy threshold or its peak under 3.
pub open spec fn phase1_scan(g: Seq<int>, budget: nat, l0: int, b: nat) -> (int, int, int, Seq<int>)
    decreases b,
{
    if b == 0 {
        (0, l0, 0, Seq::empty())
    } else {
        let p = phase1_scan(g, budget, l0, (b - 1) as nat);
        let band = b - 1;
        let sum = range_sum(g, group_start(band), group_end(band));
        let peak = range_max(g, group_start(band), group_end(band));
        if p.0 < peak {
            (
                peak,
                grown_band_limit(p.1 as nat, band as nat, hot_count(g, group_end(band)) as nat, budget),
                p.2 + sum,
                p.3.push(peak),
            )
        } else if sum < SONY_ENERGY_THRESHOLD@[band] || peak < 3 {
            (p.0, p.1, p.2, p.3.push(0))
        } else {
            (p.0, p.1, p.2 + sum, p.3.push(peak))
        }
    }
}

proof fn lemma_group_bounds()
    ensures
        forall|b: int| 0 <= b < 32 ==> #[trigger] group_start(b) <= group_end(b),
        forall|b: int| 0 <= b < 31 ==> #[trigger] group_end(b) == group_start(b + 1),
        group_start(0) == 0,
        group_end(31) == 256,
        forall|b: int| 0 <= b <= 32 ==> #[trigger] ATRAC3_SUBBAND_TAB@[b] <= 1024,
{
    assert(forall|k: int| 0 <= k < 32 ==> #[trigger] ATRAC3_SUBBAND_TAB@[k] < ATRAC3_SUBBAND_TAB@[k + 1]);
}

proof fn lemma_range_bounds(g: Seq<int>, lo: int, hi: int)
    requires
        0 <= lo <= hi <= g.len(),
        forall|i: int| 0 <= i < g.len() ==> 0 <= #[trigger] g[i] <= 63,
    ensures
        0 <= range_sum(g, lo, hi) <= 63 * (hi - lo),
        0 <= range_max(g, lo, hi) <= 63,
    decreases hi - lo,
{
    if hi > lo {
        lemma_range_bounds(g, lo, hi - 1);
    }
}

proof fn lemma_hot_count_bounds(g: Seq<int>, hi: int)
    requires
        0 <= hi <= g.len(),
    ensures
        0 <= hot_count(g, hi) <= hi,
    decreases hi,
{
    if hi > 0 {
        lemma_hot_count_bounds(g, hi - 1);
    }
}

proof fn lemma_small_mask(v: u8)
    requires
        v < 32,
    ensures
        v & 0x1f == v,
{
    assert(v & 0x1f == v) by (bit_vector)
        requires
            v < 32,
    ;
}

/// The first-phase inputs of the low-budget tonal search, from the bit
/// patterns of a frame's 1024 coefficients: the peak scale factor of every
/// group of four, per-subband sums and peaks, the coded band limit grown
/// from `initial_band_limit` as the running peak rises, the mode flag (11
/// where twice the budget is under twelve times the hot groups of the coded
/// bands, else 10), the header bits, and each coded subband's score (its
/// peak times 256 less the total) and table index.
#[verifier::spinoff_prover]
#[verifier::rlimit(50)]
pub fn sony_phase1_lb_inputs(
    coefficient_bits: &[u32],
    channel_budget_bits: i32,
    is_follower: bool,
    initial_band_limit: u8,
) -> (r: SonyLbPhase1Inputs)
    ensures
        ({
            let g = group_sfs(coefficient_bits@);
            let scan = phase1_scan(
                g,
                (channel_budget_bits as usize) as nat,
                clamp_int(initial_band_limit as int, 1, 32),
                32,
            );
            let limit = clamp_int(scan.1, 1, 32);
            let bvar: u8 = if channel_budget_bits * 2 < hot_count(g, group_start(limit)) * 12 {
                11
            } else {
                10
            };
            &&& r.band_count == limit
            &&& r.bvar1 == bvar
            &&& r.base_bits == (ATRAC3_SUBBAND_TAB@[limit] + 255) / 256
            &&& forall|b: int| 0 <= b < 32 ==> #[trigger] r.band_peak@[b] == scan.3[b]
            &&& forall|b: int|
                0 <= b < 32 ==> #[trigger] r.band_score@[b] == if b < limit {
                    scan.3[b] * 256 - scan.2
                } else {
                    0
                }
            &&& forall|b: int|
                0 <= b < 32 ==> #[trigger] r.band_state_low@[b] == if b < limit && scan.3[b] > 2 {
                    clamp_int((((scan.3[b] * 256 - scan.2) as i32) >> bvar) as int, 1, 7)
                } else {
                    0
                }
        }),
{
    let ghost bits = coefficient_bits@;
    let ghost g = group_sfs(bits);
    let ghost budget: nat = (channel_budget_bits as usize) as nat;
    let ghost l0 = clamp_int(initial_band_limit as int, 1, 32);
    let mut local_514: usize = if initial_band_limit < 1 {
        1
    } else if initial_band_limit > 32 {
        32
    } else {
        initial_band_limit as usize
    };
    // Peak scale factor of every group of four.
    let mut local_400: [u8; 256] = [0u8; 256];
    let mut gi: usize = 0;
    while gi < 256
        invariant
            gi <= 256,
            bits == coefficient_bits@,
            g == group_sfs(bits),
            local_400@.len() == 256,
            forall|i: int| 0 <= i < gi ==> local_400@[i] as int == #[trigger] g[i],
            forall|i: int| gi <= i < 256 ==> local_400@[i] == 0u8,
        decreases 256 - gi,
    {
        if gi < coefficient_bits.len() / 4 || (gi == coefficient_bits.len() / 4 && coefficient_bits.len() % 4 != 0) {
            let start: usize = 4 * gi;
            let end: usize = if start + 4 <= coefficient_bits.len() {
                start + 4
            } else {
                coefficient_bits.len()
            };
            let mut chunk: Vec<u32> = Vec::new();
            let mut k: usize = start;
            while k < end
                invariant
                    start <= k <= end <= coefficient_bits@.len(),
                    chunk@ == coefficient_bits@.subrange(start as int, k as int),
                decreases end - k,
            {
                chunk.push(coefficient_bits[k]);
                assert(chunk@ =~= coefficient_bits@.subrange(start as int, (k + 1) as int));
                k += 1;
            }
            local_400[gi] = sony_peak_to_sf_index_group(chunk.as_slice());
        } else {
            assert(!(4 * gi < bits.len()));
        }
        gi += 1;
    }
    let ghost sfs = local_400@;
    assert forall|i: int| 0 <= i < 256 implies 0 <= #[trigger] g[i] <= 63 by {
        assert(local_400@[i] as int == g[i]);
        if 4 * i < bits.len() {
        }
    }
    proof {
        lemma_group_bounds();
    }
    let mut stack_520: u32 = 0;
    let mut stack_518: u32 = 0;
    let mut stack_510: u32 = 0;
    let mut band_peak: [i32; 32] = [0i32; 32];
    let mut au_504: [i32; 33] = [0i32; 33];
    let mut group_idx: usize = 0;
    let mut band: usize = 0;
    while band < 32
        invariant
            band <= 32,
            g == group_sfs(bits),
            budget == (channel_budget_bits as usize) as nat,
            forall|i: int| 0 <= i < 256 ==> local_400@[i] as int == #[trigger] g[i],
            forall|i: int| 0 <= i < 256 ==> 0 <= #[trigger] g[i] <= 63,
            group_idx == if band == 0 { 0 } else { group_end(band - 1) },
            ({
                let scan = phase1_scan(g, budget, l0, band as nat);
                &&& stack_518 == scan.0
                &&& local_514 == scan.1
                &&& stack_520 == scan.2
                &&& scan.3.len() == band
                &&& forall|b: int| 0 <= b < band ==> #[trigger] band_peak@[b] == scan.3[b]
                &&& forall|b: int| 0 <= b < band ==> 0 <= #[trigger] scan.3[b] <= 63
                &&& 0 <= scan.2 <= 63 * group_idx
                &&& 0 <= scan.0 <= 63
                &&& 1 <= scan.1 <= 32
            }),
            forall|b: int| band <= b < 32 ==> #[trigger] band_peak@[b] == 0,
            stack_510 == hot_count(g, group_idx as int),
            forall|b: int| 1 <= b <= band ==> #[trigger] au_504@[b] == hot_count(g, group_end(b - 1)),
            au_504@[0] == 0,
            forall|b: int| 0 <= b < 32 ==> #[trigger] group_start(b) <= group_end(b),
            forall|b: int| 0 <= b < 31 ==> #[trigger] group_end(b) == group_start(b + 1),
            group_start(0) == 0,
            group_end(31) == 256,
        decreases 32 - band,
    {
        let band_group_end: usize = ATRAC3_SUBBAND_TAB[band + 1] >> 2;
        assert(band_group_end == group_end(band as int)) by {
            let t = ATRAC3_SUBBAND_TAB[band + 1];
            assert(t >> 2 == t / 4) by (bit_vector);
        }
        assert(group_idx == group_start(band as int));
        let ghost lo = group_idx as int;
        proof {
            lemma_hot_count_bounds(g, lo);
        }
        let mut sum_val: u32 = 0;
        let mut peak_val: u32 = 0;
        while group_idx < band_group_end
            invariant
                lo <= group_idx <= band_group_end <= 256,
                g.len() == 256,
                forall|i: int| 0 <= i < 256 ==> local_400@[i] as int == #[trigger] g[i],
                forall|i: int| 0 <= i < 256 ==> 0 <= #[trigger] g[i] <= 63,
                sum_val == range_sum(g, lo, group_idx as int),
                peak_val == range_max(g, lo, group_idx as int),
                stack_510 == hot_count(g, group_idx as int),
                0 <= lo,
            decreases band_group_end - group_idx,
        {
            proof {
                lemma_range_bounds(g, lo, group_idx as int);
                lemma_hot_count_bounds(g, group_idx as int);
            }
            let v: u32 = local_400[group_idx] as u32;
            sum_val = sum_val + v;
            if peak_val < v {
                peak_val = v;
            }
            if v > 7 {
                stack_510 = stack_510 + 1;
            }
            group_idx += 1;
        }
        proof {
            lemma_range_bounds(g, lo, group_idx as int);
            lemma_hot_count_bounds(g, group_idx as int);
        }
        au_504[band + 1] = stack_510 as i32;
        let ghost p = phase1_scan(g, budget, l0, band as nat);
        if stack_518 < peak_val {
            stack_518 = peak_val;
            local_514 = sony_maybe_grow_coded_band_limit(
                local_514,
                band,
                stack_510 as usize,
                #[verifier::truncate] (channel_budget_bits as usize),
                is_follower,
            );
            proof {
                assert(grown_band_limit(p.1 as nat, band as nat, hot_count(g, group_end(band as int)) as nat, budget) >= 1);
            }
        } else if (sum_val as i32) < SONY_ENERGY_THRESHOLD[band] || (peak_val as i32) < 3 {
            sum_val = 0;
            peak_val = 0;
        }
        band_peak[band] = peak_val as i32;
        stack_520 = stack_520 + sum_val;
        band += 1;
    }
    let local_514: usize = if local_514 < 1 {
        1
    } else if local_514 > 32 {
        32
    } else {
        local_514
    };
    let bvar1: u8 = if (channel_budget_bits as i64) * 2 < (au_504[local_514] as i64) * 12 {
        11
    } else {
        10
    };
    let base_bits: i32 = ((ATRAC3_SUBBAND_TAB[local_514] + 0xff) >> 8) as i32;
    assert(base_bits == (ATRAC3_SUBBAND_TAB@[local_514 as int] + 255) / 256) by {
        let t: usize = ATRAC3_SUBBAND_TAB@[local_514 as int];
        assert(t <= 1024);
        assert(((t + 0xff) as usize) >> 8 == (t + 255) / 256) by (bit_vector)
            requires
                t <= 1024,
        ;
    }
    let ghost scan = phase1_scan(g, budget, l0, 32);
    let mut band_state_low: [i32; 32] = [0i32; 32];
    let mut band_score: [i32; 32] = [0i32; 32];
    let mut b: usize = 0;
    proof {
        lemma_small_mask(bvar1);
    }
    while b < local_514
        invariant
            1 <= local_514 <= 32,
            b <= local_514,
            bvar1 & 0x1f == bvar1,
            stack_520 == scan.2,
            0 <= scan.2 <= 63 * 256,
            forall|x: int| 0 <= x < 32 ==> #[trigger] band_peak@[x] == scan.3[x],
            forall|x: int| 0 <= x < 32 ==> 0 <= #[trigger] scan.3[x] <= 63,
            forall|x: int| 0 <= x < b ==> #[trigger] band_score@[x] == scan.3[x] * 256 - scan.2,
            forall|x: int| b <= x < 32 ==> #[trigger] band_score@[x] == 0,
            forall|x: int|
                0 <= x < b ==> #[trigger] band_state_low@[x] == if scan.3[x] > 2 {
                    clamp_int((((scan.3[x] * 256 - scan.2) as i32) >> bvar1) as int, 1, 7)
                } else {
                    0
                },
            forall|x: int| b <= x < 32 ==> #[trigger] band_state_low@[x] == 0,
        decreases local_514 - b,
    {
        let peak: i32 = band_peak[b];
        let score: i32 = peak * 256 - stack_520 as i32;
        band_score[b] = score;
        if peak > 2 {
            band_state_low[b] = sony_score_to_tbl(score, bvar1, 1);
        } else {
            band_state_low[b] = 0;
        }
        b += 1;
    }
    SonyLbPhase1Inputs {
        band_count: local_514 as i32,
        band_peak,
        band_state_low,
        band_score,
        base_bits,
        bvar1,
    }
}


// ---------------------------------------------------------------------------
// Per-subband state of the low-budget search
// ---------------------------------------------------------------------------

/// The scan over the first `b` subbands without any band limit: the running
/// peak, the sum of the kept subband sums and each subband's kept peak.
pub open spec fn lb_band_scan(g: Seq<int>, b: nat) -> (int, int, Seq<int>)
    decreases b,
{
    if b == 0 {
        (0, 0, Seq::empty())
    } else {
        let p = lb_band_scan(g, (b - 1) as nat);
        let band = b - 1;
        let sum = range_sum(g, group_start(band), group_end(band));
        let peak = range_max(g, group_start(band), group_end(band));
        if p.0 < peak {
            (peak, p.1 + sum, p.2.push(peak))
        } else if sum < SONY_ENERGY_THRESHOLD@[band] || peak < 3 {
            (p.0, p.1, p.2.push(0))
        } else {
            (p.0, p.1 + sum, p.2.push(peak))
        }
    }
}

proof fn lemma_tab_monotone(k: int, l: int)
    requires
        0 <= k <= l <= 32,
    ensures
        ATRAC3_SUBBAND_TAB@[k] <= ATRAC3_SUBBAND_TAB@[l],
    decreases l - k,
{
    if k < l {
        lemma_tab_monotone(k, l - 1);
        assert(forall|i: int| 0 <= i < 32 ==> #[trigger] ATRAC3_SUBBAND_TAB@[i] < ATRAC3_SUBBAND_TAB@[i + 1]);
    }
}

proof fn lemma_leading_subbands(spectral_end: nat, b: nat)
    requires
        b <= 32,
    ensures
        b <= leading_subbands(spectral_end, b) <= 32,
    decreases 32 - b,
{
    if b < 32 && ATRAC3_SUBBAND_TAB@[b + 1 as int] <= spectral_end {
        lemma_leading_subbands(spectral_end, b + 1);
    }
}

/// The sum, the peak and the running hot-group count over the groups of
/// subband `band`.
fn subband_group_stats(residual: &[u32], band: usize, active_in: u32) -> (r: (u32, u32, u32))
    requires
        band < 32,
        ATRAC3_SUBBAND_TAB@[band + 1] <= residual@.len(),
        active_in == hot_count(group_sfs(residual@), group_start(band as int)),
    ensures
        ({
            let g = group_sfs(residual@);
            &&& r.0 == range_sum(g, group_start(band as int), group_end(band as int))
            &&& r.1 == range_max(g, group_start(band as int), group_end(band as int))
            &&& r.2 == hot_count(g, group_end(band as int))
        }),
{
    let ghost bits = residual@;
    let ghost g = group_sfs(bits);
    let start: usize = ATRAC3_SUBBAND_TAB[band];
    let end: usize = ATRAC3_SUBBAND_TAB[band + 1];
    let ghost lo = group_start(band as int);
    let ghost hi = group_end(band as int);
    assert(start % 8 == 0 && end % 8 == 0 && start < end && end <= 1024);
    assert forall|i: int| 0 <= i < 256 implies 0 <= #[trigger] g[i] <= 63 by {
        if 4 * i < bits.len() {
        }
    }
    proof {
        lemma_hot_count_bounds(g, lo);
    }
    let mut active_group_count: u32 = active_in;
    let mut band_sum: u32 = 0;
    let mut band_peak: u32 = 0;
    let mut pos: usize = start;
    while pos < end
        invariant
            start <= pos <= end,
            end <= bits.len(),
            end <= 1024,
            bits == residual@,
            g == group_sfs(bits),
            start % 8 == 0,
            end % 8 == 0,
            pos % 4 == 0,
            lo == start / 4,
            hi == end / 4,
            0 <= lo <= hi <= 256,
            band_sum == range_sum(g, lo, (pos / 4) as int),
            band_peak == range_max(g, lo, (pos / 4) as int),
            active_group_count == hot_count(g, (pos / 4) as int),
            forall|i: int| 0 <= i < 256 ==> 0 <= #[trigger] g[i] <= 63,
        decreases end - pos,
    {
        let mut chunk: Vec<u32> = Vec::new();
        let mut k: usize = pos;
        while k < pos + 4
            invariant
                pos <= k <= pos + 4,
                pos + 4 <= end <= residual@.len(),
                chunk@ == residual@.subrange(pos as int, k as int),
            decreases pos + 4 - k,
        {
            chunk.push(residual[k]);
            assert(chunk@ =~= residual@.subrange(pos as int, (k + 1) as int));
            k += 1;
        }
        let group_sf: u8 = sony_peak_to_sf_index_group(chunk.as_slice());
        assert(group_sf as int == g[(pos / 4) as int]);
        proof {
            lemma_range_bounds(g, lo, (pos / 4) as int);
            lemma_hot_count_bounds(g, (pos / 4) as int);
        }
        let v: u32 = group_sf as u32;
        band_sum = band_sum + v;
        if band_peak < v {
            band_peak = v;
        }
        if v > 7 {
            active_group_count = active_group_count + 1;
        }
        pos += 4;
    }
    (band_sum, band_peak, active_group_count)
}

/// The per-subband state of the low-budget tonal search over the coded
/// subbands of `residual` (bit patterns of its `f32` samples): the coded
/// subband count, each subband's kept peak scale factor, its table index
/// (peaks above 2 only) and its score (its peak times 256 less the total of
/// the kept sums). The mode flag is 11 where twice the budget (saturating,
/// as a `u32`) is under twelve times the hot groups, else 10.
#[verifier::spinoff_prover]
#[verifier::rlimit(50)]
pub fn low_budget_band_state(residual: &[u32], spectral_end: usize, budget_bits: usize) -> (r: (
    usize,
    [u8; 32],
    [u8; 32],
    [i32; 32],
))
    requires
        ATRAC3_SUBBAND_TAB@[leading_subbands(spectral_end as nat, 0) as int] <= residual@.len(),
    ensures
        ({
            let n = leading_subbands(spectral_end as nat, 0) as int;
            let g = group_sfs(residual@);
            let scan = lb_band_scan(g, n as nat);
            let doubled = if (budget_bits as u32) * 2 > u32::MAX {
                u32::MAX as int
            } else {
                (budget_bits as u32) * 2
            };
            let bvar: u8 = if doubled < hot_count(g, group_start(n)) * 12 {
                11
            } else {
                10
            };
            &&& r.0 == n
            &&& forall|b: int|
                0 <= b < 32 ==> #[trigger] r.1@[b] as int == if b < n {
                    scan.2[b]
                } else {
                    0
                }
            &&& forall|b: int|
                0 <= b < 32 ==> #[trigger] r.3@[b] == if b < n && scan.2[b] > 2 {
                    scan.2[b] * 256 - scan.1
                } else {
                    0
                }
            &&& forall|b: int|
                0 <= b < 32 ==> #[trigger] r.2@[b] as int == if b < n && scan.2[b] > 2 {
                    clamp_int((((scan.2[b] * 256 - scan.1) as i32) >> bvar) as int, 1, 7)
                } else {
                    0
                }
        }),
{
    let ghost bits = residual@;
    let ghost g = group_sfs(bits);
    let subband_count: usize = coded_subband_count(spectral_end);
    proof {
        lemma_leading_subbands(spectral_end as nat, 0);
        lemma_group_bounds();
    }
    let ghost n = subband_count as int;
    assert forall|i: int| 0 <= i < 256 implies 0 <= #[trigger] g[i] <= 63 by {
        if 4 * i < bits.len() {
        }
    }
    let mut band_peaks: [u8; 32] = [0u8; 32];
    let mut band_active_groups: [u32; 33] = [0u32; 33];
    let mut band_scores: [i32; 32] = [0i32; 32];
    let mut total_sum: u32 = 0;
    let mut global_peak: u32 = 0;
    let mut active_group_count: u32 = 0;
    let mut band: usize = 0;
    while band < subband_count
        invariant
            band <= subband_count <= 32,
            n == subband_count,
            g == group_sfs(bits),
            bits == residual@,
            ATRAC3_SUBBAND_TAB@[n] <= bits.len(),
            forall|i: int| 0 <= i < 256 ==> 0 <= #[trigger] g[i] <= 63,
            ({
                let scan = lb_band_scan(g, band as nat);
                &&& global_peak == scan.0
                &&& total_sum == scan.1
                &&& scan.2.len() == band
                &&& forall|b: int| 0 <= b < band ==> #[trigger] band_peaks@[b] as int == scan.2[b]
                &&& forall|b: int| 0 <= b < band ==> 0 <= #[trigger] scan.2[b] <= 63
                &&& 0 <= scan.1 <= 63 * group_start(band as int)
                &&& 0 <= scan.0 <= 63
            }),
            forall|b: int| band <= b < 32 ==> #[trigger] band_peaks@[b] == 0u8,
            active_group_count == hot_count(g, group_start(band as int)),
            forall|b: int| 0 <= b <= band ==> #[trigger] band_active_groups@[b] == hot_count(g, group_start(b)),
            forall|b: int| 0 <= b < 32 ==> #[trigger] group_start(b) <= group_end(b),
            forall|b: int| 0 <= b < 31 ==> #[trigger] group_end(b) == group_start(b + 1),
            group_start(0) == 0,
            group_end(31) == 256,
            forall|b: int| band_scores@.len() == 32 && 0 <= b < 32 ==> #[trigger] band_scores@[b] == 0,
        decreases subband_count - band,
    {
        proof {
            lemma_tab_monotone((band + 1) as int, n);
        }
        let (mut band_sum, mut band_peak, active) = subband_group_stats(residual, band, active_group_count);
        active_group_count = active;
        proof {
            lemma_range_bounds(g, group_start(band as int), group_end(band as int));
            lemma_hot_count_bounds(g, group_end(band as int));
        }
        if band_peak > global_peak {
            global_peak = band_peak;
        } else if (band_sum as i32) < SONY_ENERGY_THRESHOLD[band] || band_peak < 3 {
            band_sum = 0;
            band_peak = 0;
        }
        band_peaks[band] = band_peak as u8;
        band_active_groups[band + 1] = active_group_count;
        total_sum = total_sum + band_sum;
        band += 1;
    }
    let budget: u32 = #[verifier::truncate] (budget_bits as u32);
    let doubled: u32 = if budget > u32::MAX / 2 {
        u32::MAX
    } else {
        budget * 2
    };
    proof {
        lemma_hot_count_bounds(g, group_start(n));
    }
    let bvar1: u8 = if doubled < band_active_groups[subband_count] * 12 {
        11
    } else {
        10
    };
    proof {
        lemma_small_mask(bvar1);
    }
    let ghost scan = lb_band_scan(g, n as nat);
    let mut tbl_indices: [u8; 32] = [0u8; 32];
    let mut b: usize = 0;
    while b < subband_count
        invariant
            subband_count <= 32,
            b <= subband_count,
            n == subband_count,
            bvar1 & 0x1f == bvar1,
            total_sum == scan.1,
            0 <= scan.1 <= 63 * 256,
            forall|x: int| 0 <= x < n ==> #[trigger] band_peaks@[x] as int == scan.2[x],
            forall|x: int| 0 <= x < n ==> 0 <= #[trigger] scan.2[x] <= 63,
            forall|x: int|
                0 <= x < b ==> #[trigger] band_scores@[x] == if scan.2[x] > 2 {
                    scan.2[x] * 256 - scan.1
                } else {
                    0
                },
            forall|x: int| b <= x < 32 ==> #[trigger] band_scores@[x] == 0,
            forall|x: int|
                0 <= x < b ==> #[trigger] tbl_indices@[x] as int == if scan.2[x] > 2 {
                    clamp_int((((scan.2[x] * 256 - scan.1) as i32) >> bvar1) as int, 1, 7)
                } else {
                    0
                },
            forall|x: int| b <= x < 32 ==> #[trigger] tbl_indices@[x] == 0u8,
        decreases subband_count - b,
    {
        let peak: u8 = band_peaks[b];
        if peak > 2 {
            let score: i32 = (peak as i32) * 256 - total_sum as i32;
            band_scores[b] = score;
            tbl_indices[b] = sony_score_to_tbl(score, bvar1, 1) as u8;
        }
        b += 1;
    }
    (subband_count, band_peaks, tbl_indices, band_scores)
}


// ---------------------------------------------------------------------------
// Candidate scan of the low-budget search
// ---------------------------------------------------------------------------

/// The prominence thresholds of the low-budget scan, by class, as the bit
/// patterns of their `f32` values (1/32 up to 1, three steps per octave).
pub const SONY_TONAL_PROMINENCE_THRESHOLD_BITS: [u32; 16] = [
    0x3d000000, 0x3d214518, 0x3d4b2ff5, 0x3d800000, 0x3da14518, 0x3dcb2ff5, 0x3e000000, 0x3e214518,
    0x3e4b2ff5, 0x3e800000, 0x3ea14518, 0x3ecb2ff5, 0x3f000000, 0x3f214518, 0x3f4b2ff5, 0x3f800000,
];

/// A sample at or above the threshold, both compared without their sign bit.
pub open spec fn scan_hit(sample: u32, threshold: u32) -> bool {
    ((sample << 1u32) as u32) >= ((threshold << 1u32) as u32)
}

/// The scan from `pos` to `end` with `found` recorded so far: the count (or
/// -1 when a hit comes with `max` already recorded) and the recorded
/// positions; none where the scan would read past the samples, write past
/// `out_len` slots, or step past the largest index.
pub open spec fn lb_scan(
    bits: Seq<u32>,
    threshold: u32,
    pos: int,
    end: int,
    max: int,
    out_len: int,
    found: Seq<i32>,
) -> Option<(int, Seq<i32>)>
    decreases (if pos < end {
        end - pos
    } else {
        0
    }),
{
    if pos >= end {
        Some((found.len() as int, found))
    } else if pos >= bits.len() {
        None
    } else if scan_hit(bits[pos], threshold) {
        if found.len() == max {
            Some((-1, found))
        } else if found.len() >= out_len || found.len() >= i32::MAX || pos + 4 > usize::MAX {
            None
        } else {
            lb_scan(bits, threshold, pos + 4, end, max, out_len, found.push(#[verifier::truncate] (pos as i32)))
        }
    } else {
        lb_scan(bits, threshold, pos + 1, end, max, out_len, found)
    }
}

/// Scans `residual` (bit patterns of `f32` samples) from `start_pos` up to
/// `end_pos` for samples at or above the class's prominence threshold,
/// recording each hit's position in `out_positions` and stepping four
/// samples on after it. Returns the number of hits, or -1 when a hit comes
/// after `max_candidates` were already recorded.
pub fn sony_lb_scan_positions(
    class_idx: usize,
    start_pos: usize,
    end_pos: usize,
    max_candidates: usize,
    out_positions: &mut [i32],
    residual: &[u32],
) -> (r: i32)
    requires
        class_idx < 16,
        lb_scan(
            residual@,
            SONY_TONAL_PROMINENCE_THRESHOLD_BITS@[class_idx as int],
            start_pos as int,
            end_pos as int,
            max_candidates as int,
            old(out_positions)@.len() as int,
            Seq::empty(),
        ) is Some,
    ensures
        ({
            let res = lb_scan(
                residual@,
                SONY_TONAL_PROMINENCE_THRESHOLD_BITS@[class_idx as int],
                start_pos as int,
                end_pos as int,
                max_candidates as int,
                old(out_positions)@.len() as int,
                Seq::empty(),
            )->Some_0;
            &&& r == res.0
            &&& final(out_positions)@.len() == old(out_positions)@.len()
            &&& forall|i: int| 0 <= i < res.1.len() ==> #[trigger] final(out_positions)@[i] == res.1[i]
            &&& forall|i: int|
                res.1.len() <= i < old(out_positions)@.len() ==> #[trigger] final(out_positions)@[i]
                    == old(out_positions)@[i]
        }),
{
    let threshold: u32 = SONY_TONAL_PROMINENCE_THRESHOLD_BITS[class_idx];
    let ghost thr = threshold;
    let ghost total = lb_scan(
        residual@,
        thr,
        start_pos as int,
        end_pos as int,
        max_candidates as int,
        out_positions@.len() as int,
        Seq::empty(),
    );
    let ghost out0 = out_positions@;
    let threshold_bits_shifted: u32 = threshold << 1u32;
    let mut pos: usize = start_pos;
    let mut count: i32 = 0;
    let ghost mut found: Seq<i32> = Seq::empty();
    while pos < end_pos
        invariant
            thr == threshold,
            threshold_bits_shifted == ((threshold << 1u32) as u32),
            total == lb_scan(
                residual@,
                thr,
                pos as int,
                end_pos as int,
                max_candidates as int,
                out0.len() as int,
                found,
            ),
            total is Some,
            count == found.len(),
            out_positions@.len() == out0.len(),
            forall|i: int| 0 <= i < found.len() ==> #[trigger] out_positions@[i] == found[i],
            forall|i: int| found.len() <= i < out0.len() ==> #[trigger] out_positions@[i] == out0[i],
            thr == SONY_TONAL_PROMINENCE_THRESHOLD_BITS@[class_idx as int],
            out0 == old(out_positions)@,
            total == lb_scan(
                residual@,
                thr,
                start_pos as int,
                end_pos as int,
                max_candidates as int,
                out0.len() as int,
                Seq::empty(),
            ),
        decreases (if pos < end_pos {
            end_pos - pos
        } else {
            0
        }),
    {
        assert(pos < residual@.len());
        let sample_bits: u32 = residual[pos];
        if (sample_bits << 1u32) >= threshold_bits_shifted {
            assert(scan_hit(residual@[pos as int], thr));
            if (count as usize) == max_candidates {
                assert(total == Some::<(int, Seq<i32>)>((-1, found)));
                return -1;
            }
            let p: i32 = #[verifier::truncate] (pos as i32);
            out_positions[count as usize] = p;
            proof {
                found = found.push(p);
            }
            count += 1;
            pos += 3;
        }
        pos += 1;
    }
    count
}

} // verus!

use vstd::prelude::*;

use crate::quant::{count_below, ATRAC3_SUBBAND_TAB};

verus! {

pub const SONY_SUBBAND_BOUNDARIES: [usize; 33] = [
    0, 8, 16, 24, 32, 40, 48, 56, 64, 80, 96, 112, 128, 144, 160, 176, 192, 224, 256, 288, 320,
    352, 384, 416, 448, 480, 512, 576, 640, 704, 768, 896, 1024,
];

pub const SONY_SUBBAND_START_OFFSETS: [usize; 32] = [
    0, 8, 16, 24, 32, 40, 48, 56, 64, 80, 96, 112, 128, 144, 160, 176, 192, 224, 256, 288, 320,
    352, 384, 416, 448, 480, 512, 576, 640, 704, 768, 896,
];

pub const SONY_SUBBAND_END_OFFSETS: [usize; 32] = [
    8, 16, 24, 32, 40, 48, 56, 64, 80, 96, 112, 128, 144, 160, 176, 192, 224, 256, 288, 320, 352,
    384, 416, 448, 480, 512, 576, 640, 704, 768, 896, 1024,
];

pub const SONY_ACTIVE_COUNT_WEIGHT: [i32; 32] = [
    8, 8, 8, 8, 8, 8, 8, 8, 16, 16, 16, 16, 16, 16, 16, 16, 32, 32, 32, 32, 32, 32, 32, 32, 32, 32,
    64, 64, 64, 64, 128, 128,
];

pub const SONY_ENERGY_THRESHOLD: [i32; 32] = [
    7, 5, 5, 4, 4, 4, 4, 3, 3, 3, 3, 4, 5, 5, 5, 6, 6, 7, 7, 8, 10, 13, 17, 22, 28, 35, 49, 74,
    109, 155, 250, 441,
];

pub const SONY_SATURATION_BOUNDARY: [i32; 8] = [441, 1, 2, 2, 2, 4, 6, 6];

pub const SONY_PROMOTION_BOUNDARY: [i32; 8] = [1, 2, 2, 2, 4, 6, 6, 40];

pub const SONY_COST_REDUCTION: [i32; 8] = [6, 40, 40, 60, 76, 60, 60, 100];

pub const SONY_BASE_COST_SCALAR: [i32; 8] = [100, 15, 20, 25, 29, 35, 45, 55];

pub const SONY_SF_THRESHOLD_OFFSET: [i32; 8] = [55, 3, 5, 7, 9, 12, 15, 18];

pub const SONY_LOW_BUDGET_SPACING_BIAS: [i32; 32] = [
    11, 9, 9, 9, 9, 9, 10, 13, 9, 8, 8, 8, 8, 9, 10, 13, 8, 7, 7, 7, 8, 9, 10, 13, 7, 7, 7, 7, 8,
    9, 9, 9,
];

pub const SONY_TONAL_SPREAD_Q0: [i32; 5] = [-225, -266, -307, -317, -1024];

pub const SONY_TONAL_MASK_LUT: [u32; 8] = [0x44480335, 0x447c0000, 0x7, 0x7, 0xf, 0xf, 0x1f, 0x3f];

pub const SONY_TONAL_SEP_BIT_LEN: [u8; 8] = [0, 0, 0, 3, 0, 4, 0, 6];

pub const SONY_TBL1_GROUP_BITCOST_LUT: [i32; 16] = [
    2, 5, 4, 6, 5, 8, 7, 9, 4, 7, 6, 8, 6, 9, 8, 10,
];

pub const SONY_LB_SEP_UNIT_BITS: [i32; 8] = [0, 0, 0, 3, 0, 4, 0, 6];

pub const SONY_LB_MAG_UNIT_BITS: [i32; 8] = [0, 0, 0, 3, 0, 4, 0, 6];

// Tonal VLC codebooks: (code, bit length) per magnitude index.
pub const CB_48B618: [(u32, u8); 16] = [
    (0x00000000, 1),
    (0x80000000, 3),
    (0x00000000, 1),
    (0xa0000000, 3),
    (0xc0000000, 4),
    (0xe0000000, 5),
    (0x00000000, 1),
    (0xe8000000, 5),
    (0x00000000, 1),
    (0x00000000, 1),
    (0x00000000, 1),
    (0x00000000, 1),
    (0xd0000000, 4),
    (0xf0000000, 5),
    (0x00000000, 1),
    (0xf8000000, 5),
];

pub const CB_48B698: [(u32, u8); 8] = [
    (0x00000000, 1),
    (0x00800000, 3),
    (0x00c00000, 3),
    (0x00000000, 1),
    (0x00000000, 1),
    (0x00000000, 1),
    (0x00e00000, 3),
    (0x00a00000, 3),
];

pub const CB_48B6D8: [(u32, u8); 8] = [
    (0x00000000, 1),
    (0x00800000, 3),
    (0x00c00000, 4),
    (0x00e00000, 4),
    (0x00000000, 1),
    (0x00f00000, 4),
    (0x00d00000, 4),
    (0x00a00000, 3),
];

pub const CB_48B718: [(u32, u8); 16] = [
    (0x00000000, 1),
    (0x00800000, 3),
    (0x00c00000, 4),
    (0x00e00000, 5),
    (0x00f00000, 5),
    (0x00000000, 1),
    (0x00000000, 1),
    (0x00000000, 1),
    (0x00000000, 1),
    (0x00000000, 1),
    (0x00000000, 1),
    (0x00000000, 1),
    (0x00f80000, 5),
    (0x00e80000, 5),
    (0x00d00000, 4),
    (0x00a00000, 3),
];

pub const CB_48B798: [(u32, u8); 16] = [
    (0x00000000, 2),
    (0x00400000, 3),
    (0x00800000, 4),
    (0x00a00000, 4),
    (0x00e00000, 5),
    (0x00f00000, 6),
    (0x00f80000, 6),
    (0x00c00000, 4),
    (0x00000000, 2),
    (0x00d00000, 4),
    (0x00fc0000, 6),
    (0x00f40000, 6),
    (0x00e80000, 5),
    (0x00b00000, 4),
    (0x00900000, 4),
    (0x00600000, 3),
];

pub const CB_48B818: [(u32, u8); 32] = [
    (0x00000000, 3),
    (0x00200000, 4),
    (0x00400000, 4),
    (0x00600000, 4),
    (0x00a00000, 5),
    (0x00b00000, 5),
    (0x00c00000, 5),
    (0x00d00000, 6),
    (0x00d80000, 6),
    (0x00e00000, 6),
    (0x00e80000, 6),
    (0x00f00000, 7),
    (0x00f40000, 7),
    (0x00f80000, 7),
    (0x00fc0000, 7),
    (0x00800000, 4),
    (0x00000000, 3),
    (0x00900000, 4),
    (0x00fe0000, 7),
    (0x00fa0000, 7),
    (0x00f60000, 7),
    (0x00f20000, 7),
    (0x00ec0000, 6),
    (0x00e40000, 6),
    (0x00dc0000, 6),
    (0x00d40000, 6),
    (0x00c80000, 5),
    (0x00b80000, 5),
    (0x00a80000, 5),
    (0x00700000, 4),
    (0x00500000, 4),
    (0x00300000, 4),
];

pub const CB_48B918: [(u32, u8); 64] = [
    (0x00000000, 3),
    (0x00400000, 5),
    (0x00500000, 5),
    (0x00600000, 5),
    (0x00700000, 5),
    (0x00800000, 5),
    (0x00900000, 6),
    (0x00980000, 6),
    (0x00a00000, 6),
    (0x00a80000, 6),
    (0x00b00000, 6),
    (0x00b80000, 6),
    (0x00c00000, 6),
    (0x00c80000, 6),
    (0x00d00000, 7),
    (0x00d40000, 7),
    (0x00d80000, 7),
    (0x00dc0000, 7),
    (0x00e00000, 7),
    (0x00e40000, 7),
    (0x00e80000, 7),
    (0x00ec0000, 8),
    (0x00ee0000, 8),
    (0x00f00000, 8),
    (0x00f20000, 8),
    (0x00f40000, 8),
    (0x00f60000, 8),
    (0x00f80000, 8),
    (0x00fa0000, 8),
    (0x00fc0000, 8),
    (0x00fe0000, 8),
    (0x00200000, 4),
    (0x00000000, 3),
    (0x00300000, 4),
    (0x00ff0000, 8),
    (0x00fd0000, 8),
    (0x00fb0000, 8),
    (0x00f90000, 8),
    (0x00f70000, 8),
    (0x00f50000, 8),
    (0x00f30000, 8),
    (0x00f10000, 8),
    (0x00ef0000, 8),
    (0x00ed0000, 8),
    (0x00ea0000, 7),
    (0x00e60000, 7),
    (0x00e20000, 7),
    (0x00de0000, 7),
    (0x00da0000, 7),
    (0x00d60000, 7),
    (0x00d20000, 7),
    (0x00cc0000, 6),
    (0x00c40000, 6),
    (0x00bc0000, 6),
    (0x00b40000, 6),
    (0x00ac0000, 6),
    (0x00a40000, 6),
    (0x009c0000, 6),
    (0x00940000, 6),
    (0x00880000, 5),
    (0x00780000, 5),
    (0x00680000, 5),
    (0x00580000, 5),
    (0x00480000, 5),
];

pub const CB_48BB18: [(u32, u8); 8] = [
    (0x00000000, 3),
    (0x00200000, 3),
    (0x00400000, 3),
    (0x00600000, 3),
    (0x00000000, 3),
    (0x00a00000, 3),
    (0x00c00000, 3),
    (0x00e00000, 3),
];

pub const CB_48BB58: [(u32, u8); 16] = [
    (0x00000000, 4),
    (0x00100000, 4),
    (0x00200000, 4),
    (0x00300000, 4),
    (0x00400000, 4),
    (0x00500000, 4),
    (0x00600000, 4),
    (0x00700000, 4),
    (0x00000000, 4),
    (0x00900000, 4),
    (0x00a00000, 4),
    (0x00b00000, 4),
    (0x00c00000, 4),
    (0x00d00000, 4),
    (0x00e00000, 4),
    (0x00f00000, 4),
];

pub const CB_48BBD8: [(u32, u8); 32] = [
    (0x00000000, 6),
    (0x00040000, 6),
    (0x00080000, 6),
    (0x000c0000, 6),
    (0x00100000, 6),
    (0x00140000, 6),
    (0x00180000, 6),
    (0x001c0000, 6),
    (0x00200000, 6),
    (0x00240000, 6),
    (0x00280000, 6),
    (0x002c0000, 6),
    (0x00300000, 6),
    (0x00340000, 6),
    (0x00380000, 6),
    (0x003c0000, 6),
    (0x00400000, 6),
    (0x00440000, 6),
    (0x00480000, 6),
    (0x004c0000, 6),
    (0x00500000, 6),
    (0x00540000, 6),
    (0x00580000, 6),
    (0x005c0000, 6),
    (0x00600000, 6),
    (0x00640000, 6),
    (0x00680000, 6),
    (0x006c0000, 6),
    (0x00700000, 6),
    (0x00740000, 6),
    (0x00780000, 6),
    (0x007c0000, 6),
];

/// The magnitude codebook of a tonal table; tables outside 1..=7 have none.
pub open spec fn mag_codebook(tbl: u8) -> Seq<(u32, u8)> {
    if tbl == 1 {
        CB_48B618@
    } else if tbl == 2 {
        CB_48B698@
    } else if tbl == 3 {
        CB_48B6D8@
    } else if tbl == 4 {
        CB_48B718@
    } else if tbl == 5 {
        CB_48B798@
    } else if tbl == 6 {
        CB_48B818@
    } else if tbl == 7 {
        CB_48B918@
    } else {
        Seq::empty()
    }
}

/// The separator codebook of a tonal table; only tables 3, 5 and 7 have one.
pub open spec fn sep_codebook(tbl: u8) -> Seq<(u32, u8)> {
    if tbl == 3 {
        CB_48BB18@
    } else if tbl == 5 {
        CB_48BB58@
    } else if tbl == 7 {
        CB_48BBD8@
    } else {
        Seq::empty()
    }
}

pub fn sony_tonal_mag_codebook(tbl: u8) -> (r: &'static [(u32, u8)])
    ensures
        r@ == mag_codebook(tbl),
{
    match tbl {
        1 => CB_48B618.as_slice(),
        2 => CB_48B698.as_slice(),
        3 => CB_48B6D8.as_slice(),
        4 => CB_48B718.as_slice(),
        5 => CB_48B798.as_slice(),
        6 => CB_48B818.as_slice(),
        7 => CB_48B918.as_slice(),
        _ => {
            let empty: &'static [(u32, u8); 0] = &[];
            empty.as_slice()
        },
    }
}

pub fn sony_tonal_sep_codebook(tbl: u8) -> (r: &'static [(u32, u8)])
    ensures
        r@ == sep_codebook(tbl),
{
    match tbl {
        3 => CB_48BB18.as_slice(),
        5 => CB_48BB58.as_slice(),
        7 => CB_48BBD8.as_slice(),
        _ => {
            let empty: &'static [(u32, u8); 0] = &[];
            empty.as_slice()
        },
    }
}

/// Index of the first non-zero mantissa among 1..=3, or 4 when all are zero.
pub open spec fn first_nonzero_from_one<T>(m: Seq<T>, zero: T) -> nat {
    if m[1] != zero {
        1
    } else if m[2] != zero {
        2
    } else if m[3] != zero {
        3
    } else {
        4
    }
}

/// The mantissas moved `shift` places to the front, the freed tail zeroed;
/// a shift over all four leaves them as they were.
pub open spec fn shifted_mantissas<T>(m: Seq<T>, shift: nat, zero: T) -> Seq<T> {
    if shift >= 4 {
        m
    } else {
        Seq::new(4, |i: int| if i < 4 - shift { m[i + shift] } else { zero })
    }
}

/// Drops the zero mantissas after the first and moves the entry's position
/// on by as many; returns the shift (0..=3), `-1` (and changes nothing) when
/// the new position reaches `band_end`, and `0` (likewise) past position
/// 0x3fc. When mantissas 1..=3 are all zero there is nothing to bring
/// forward: it returns `0` and changes nothing.
pub fn sony_lb_strip_leading_zeros(
    entry_mantissas: &mut [i32; 4],
    entry_position: &mut u32,
    band_end: u32,
) -> (r: i32)
    requires
        first_nonzero_from_one(old(entry_mantissas)@, 0i32) == 4 || (*old(entry_position) as i32)
            + first_nonzero_from_one(old(entry_mantissas)@, 0i32) <= i32::MAX,
    ensures
        ({
            let shift = first_nonzero_from_one(old(entry_mantissas)@, 0i32);
            let np = ((*old(entry_position) as i32) + shift) as i32;
            if shift == 4 {
                r == 0 && final(entry_mantissas)@ == old(entry_mantissas)@ && *final(entry_position) == *old(entry_position)
            } else if (np as u32) >= band_end {
                r == -1 && final(entry_mantissas)@ == old(entry_mantissas)@ && *final(entry_position) == *old(entry_position)
            } else if np > 0x3fc {
                r == 0 && final(entry_mantissas)@ == old(entry_mantissas)@ && *final(entry_position) == *old(entry_position)
            } else {
                r == shift && *final(entry_position) == np as u32 && final(entry_mantissas)@
                    == shifted_mantissas(old(entry_mantissas)@, shift, 0i32)
            }
        }),
{
    let ghost m0 = entry_mantissas@;
    let mut first_nonzero: usize = 1;
    while first_nonzero < 4 && entry_mantissas[first_nonzero] == 0
        invariant
            1 <= first_nonzero <= 4,
            entry_mantissas@ == m0,
            forall|k: int| 1 <= k < first_nonzero ==> m0[k] == 0i32,
        decreases 4 - first_nonzero,
    {
        first_nonzero += 1;
    }
    assert(first_nonzero == first_nonzero_from_one(m0, 0i32));
    if first_nonzero == 4 {
        return 0;
    }
    let shift: usize = first_nonzero;
    let new_position: i32 = *entry_position as i32 + shift as i32;
    if (new_position as u32) >= band_end {
        return -1;
    }
    if new_position > 0x3fc {
        return 0;
    }
    let mut dst: usize = 0;
    let mut src: usize = shift;
    let limit: usize = 4 - shift;
    while dst < limit
        invariant
            1 <= shift <= 4,
            limit == 4 - shift,
            dst <= limit,
            src == dst + shift,
            entry_mantissas@.len() == 4,
            forall|k: int| 0 <= k < dst ==> entry_mantissas@[k] == m0[k + shift],
            forall|k: int| dst <= k < 4 ==> entry_mantissas@[k] == m0[k],
        decreases limit - dst,
    {
        entry_mantissas[dst] = entry_mantissas[src];
        dst += 1;
        src += 1;
    }
    match limit {
        1 => {
            entry_mantissas[1] = 0;
            entry_mantissas[2] = 0;
            entry_mantissas[3] = 0;
        },
        2 => {
            entry_mantissas[2] = 0;
            entry_mantissas[3] = 0;
        },
        3 => {
            entry_mantissas[3] = 0;
        },
        _ => {},
    }
    assert(entry_mantissas@ =~= shifted_mantissas(m0, shift as nat, 0i32));
    *entry_position = new_position as u32;
    shift as i32
}

/// Drops the zero mantissas after the first of a low-budget entry and moves
/// its position on by as many (the band end compared as a signed position);
/// returns the shift (up to 4, when mantissas 1..=3 are all zero), `-1`
/// (changing nothing) when the new position reaches `band_end`, and `0`
/// (likewise) past position 0x3fc.
pub fn sony_lb_shift_leading_zeros(entry: &mut LbEntry, band_end: i32) -> (r: i32)
    requires
        old(entry).position + first_nonzero_from_one(old(entry).mantissas@, 0u32) <= i32::MAX,
    ensures
        ({
            let shift = first_nonzero_from_one(old(entry).mantissas@, 0u32);
            let np = old(entry).position + shift;
            if band_end <= np {
                r == -1 && *final(entry) == *old(entry)
            } else if 0x3fc < np {
                r == 0 && *final(entry) == *old(entry)
            } else {
                r == shift && final(entry).position == np && final(entry).sf_index == old(entry).sf_index && final(entry).mantissas@ == shifted_mantissas(
                    old(entry).mantissas@,
                    shift,
                    0u32,
                )
            }
        }),
{
    let ghost m0 = entry.mantissas@;
    let mut shift: i32 = 1;
    while shift < 4 && entry.mantissas[shift as usize] == 0
        invariant
            1 <= shift <= 4,
            entry.mantissas@ == m0,
            entry.sf_index == old(entry).sf_index,
            entry.position == old(entry).position,
            forall|k: int| 1 <= k < shift ==> m0[k] == 0u32,
        decreases 4 - shift,
    {
        shift += 1;
    }
    assert(shift == first_nonzero_from_one(m0, 0u32));
    let new_position: i32 = entry.position + shift;
    if band_end <= new_position {
        return -1;
    }
    if 0x3fc < new_position {
        return 0;
    }
    let limit: usize = (4 - shift) as usize;
    let mut dst: usize = 0;
    let mut src: usize = shift as usize;
    while dst < limit
        invariant
            1 <= shift <= 4,
            limit == 4 - shift,
            dst <= limit,
            src == dst + shift,
            entry.mantissas@.len() == 4,
            entry.sf_index == old(entry).sf_index,
            forall|k: int| 0 <= k < dst ==> entry.mantissas@[k] == m0[k + shift],
            forall|k: int| dst <= k < 4 ==> entry.mantissas@[k] == m0[k],
        decreases limit - dst,
    {
        entry.mantissas[dst] = entry.mantissas[src];
        dst += 1;
        src += 1;
    }
    match limit {
        1 => {
            entry.mantissas[1] = 0;
            entry.mantissas[2] = 0;
            entry.mantissas[3] = 0;
        },
        2 => {
            entry.mantissas[2] = 0;
            entry.mantissas[3] = 0;
        },
        3 => {
            entry.mantissas[3] = 0;
        },
        _ => {},
    }
    assert(entry.mantissas@ =~= shifted_mantissas(m0, shift as nat, 0u32));
    entry.position = new_position;
    shift
}

/// A low-budget tonal entry: four mantissas, a sample position and a scale
/// factor index.
#[derive(Debug, Clone, Copy, Default, PartialEq, Eq)]
pub struct LbEntry {
    pub mantissas: [u32; 4],
    pub position: i32,
    pub sf_index: i32,
}

/// A cell of the low-budget workspace: how many entries it holds and their
/// indices.
#[derive(Debug, Clone, Copy, Default)]
pub struct LbCell {
    pub count: i32,
    pub entry_refs: [u32; 7],
}

/// A high-budget tonal entry: four mantissas, a position, a scale factor.
#[derive(Debug, Clone)]
pub struct SonyHbEntry {
    pub mantissas: [u32; 4],
    pub position: u32,
    pub sf_index: u8,
}

/// A low-budget tonal entry with a signed scale factor index.
#[derive(Debug, Clone, Default)]
pub struct SonyTonalEntry {
    pub mantissas: [u32; 4],
    pub position: u32,
    pub sf_index: i32,
}

/// A cell of 64 samples: how many entries it holds (at most seven) and their
/// indices in the entry pool.
#[derive(Debug, Clone, Default)]
pub struct SonyHbCell {
    pub count: u8,
    pub entry_indices: [u32; 7],
}

/// One of the two high-budget channels: its table, the mantissa count less
/// one, and sixteen cells.
#[derive(Debug, Clone)]
pub struct SonyHbChannel {
    pub tbl: u8,
    pub count_minus_one: u8,
    pub cells: [SonyHbCell; 16],
}

impl Default for SonyHbChannel {
    fn default() -> (c: Self)
        ensures
            c.tbl == 0,
            c.count_minus_one == 3,
            forall|i: int|
                0 <= i < 16 ==> (#[trigger] c.cells@[i]).count == 0 && c.cells@[i].entry_indices@
                    == seq![0u32, 0, 0, 0, 0, 0, 0],
    {
        let cells: [SonyHbCell; 16] = [
            empty_hb_cell(),
            empty_hb_cell(),
            empty_hb_cell(),
            empty_hb_cell(),
            empty_hb_cell(),
            empty_hb_cell(),
            empty_hb_cell(),
            empty_hb_cell(),
            empty_hb_cell(),
            empty_hb_cell(),
            empty_hb_cell(),
            empty_hb_cell(),
            empty_hb_cell(),
            empty_hb_cell(),
            empty_hb_cell(),
            empty_hb_cell(),
        ];
        SonyHbChannel { tbl: 0, count_minus_one: 3, cells }
    }
}

fn empty_hb_cell() -> (c: SonyHbCell)
    ensures
        c.count == 0,
        c.entry_indices@ == seq![0u32, 0, 0, 0, 0, 0, 0],
{
    let c = SonyHbCell { count: 0, entry_indices: [0, 0, 0, 0, 0, 0, 0] };
    assert(c.entry_indices@ =~= seq![0u32, 0, 0, 0, 0, 0, 0]);
    c
}

/// What the low-budget tonal builder starts from: the band count, each
/// band's peak, table state and score, the base bit cost and the mode flag.
#[derive(Debug, Clone)]
pub struct SonyLbPhase1Inputs {
    pub band_count: i32,
    pub band_peak: [i32; 32],
    pub band_state_low: [i32; 32],
    pub band_score: [i32; 32],
    pub base_bits: i32,
    pub bvar1: u8,
}

/// `v` limited to `lo..=hi`.
pub open spec fn clamp_int(v: int, lo: int, hi: int) -> int {
    if v < lo {
        lo
    } else if v > hi {
        hi
    } else {
        v
    }
}

pub fn sony_active_count_weight(band: usize) -> (w: i32)
    requires
        band < 32,
    ensures
        w == SONY_ACTIVE_COUNT_WEIGHT@[band as int],
{
    SONY_ACTIVE_COUNT_WEIGHT[band]
}

/// QMF bands (of 256 coefficients) that the first `local_514` subbands
/// reach into.
pub open spec fn coded_qmf_bands_for(local_514: nat) -> nat {
    let end = ATRAC3_SUBBAND_TAB@[if local_514 < 32 {
        local_514 as int
    } else {
        32
    }];
    ((end + 0xff) / 256) as nat
}

pub fn sony_coded_qmf_bands(local_514: usize) -> (n: usize)
    ensures
        n == coded_qmf_bands_for(local_514 as nat),
{
    let capped: usize = if local_514 < 32 {
        local_514
    } else {
        32
    };
    let band_end: usize = ATRAC3_SUBBAND_TAB[capped];
    assert(band_end <= 1024);
    assert(((band_end + 0xff) as usize >> 8usize) == (band_end + 0xff) / 256) by (bit_vector)
        requires
            band_end <= 1024,
    ;
    (band_end + 0xff) >> 8
}

/// The coded band limit after a band's check: raised to 28 (or two past a
/// band above 26) while the active groups fit the channel budget, always
/// kept within 1..=32.
pub open spec fn grown_band_limit(
    current_limit: nat,
    band: nat,
    active_group_count: nat,
    channel_budget: nat,
) -> int {
    if band >= 32 {
        clamp_int(current_limit as int, 1, 32)
    } else if !(active_group_count * 8 < channel_budget) && !(active_group_count * 16
        < channel_budget) {
        clamp_int(current_limit as int, 1, 32)
    } else {
        let candidate: int = if band > 0x1a {
            if band + 2 < 0x20 {
                (band + 2) as int
            } else {
                0x20
            }
        } else {
            0x1c
        };
        clamp_int(
            if current_limit >= candidate {
                current_limit as int
            } else {
                candidate
            },
            1,
            32,
        )
    }
}

fn clamp_band_limit(v: usize) -> (r: usize)
    ensures
        r == clamp_int(v as int, 1, 32),
{
    if v < 1 {
        1
    } else if v > 32 {
        32
    } else {
        v
    }
}

/// Raises the coded band limit while the band's active groups fit the
/// channel budget; whether the channel follows another changes nothing.
pub fn sony_maybe_grow_coded_band_limit(
    current_limit: usize,
    band: usize,
    active_group_count: usize,
    channel_budget: usize,
    is_follower: bool,
) -> (r: usize)
    requires
        active_group_count * 16 <= usize::MAX,
    ensures
        r == grown_band_limit(
            current_limit as nat,
            band as nat,
            active_group_count as nat,
            channel_budget as nat,
        ),
{
    let _ = is_follower;
    if band >= 32 {
        return clamp_band_limit(current_limit);
    }
    let within_primary_gate = active_group_count * 8 < channel_budget;
    let within_secondary_gate = active_group_count * 16 < channel_budget;
    if !within_primary_gate && !within_secondary_gate {
        return clamp_band_limit(current_limit);
    }
    let candidate: usize = if band > 0x1a {
        if band + 2 < 0x20 {
            band + 2
        } else {
            0x20
        }
    } else {
        0x1c
    };
    let raised: usize = if current_limit >= candidate {
        current_limit
    } else {
        candidate
    };
    clamp_band_limit(raised)
}

/// Sum of the first `n` gain point counts.
pub open spec fn gain_point_sum(counts: Seq<u8>, n: int) -> int
    decreases n,
{
    if n <= 0 {
        0
    } else {
        gain_point_sum(counts, n - 1) + counts[n - 1] as int
    }
}

/// The coded QMF bands of `local_514`, at most four.
pub open spec fn capped_qmf_bands(local_514: nat) -> nat {
    let n = coded_qmf_bands_for(local_514);
    if n < 4 {
        n
    } else {
        4
    }
}

/// Bits reserved for the gain data of the coded QMF bands: three bits per
/// band for the point count and nine per point, as
/// `(3 * points + bands) * 3`.
pub fn sony_gain_reserve_bits(local_514: usize, gain_point_counts: &[u8; 4]) -> (bits: i32)
    ensures
        bits == (gain_point_sum(gain_point_counts@, capped_qmf_bands(local_514 as nat) as int) * 3
            + capped_qmf_bands(local_514 as nat)) * 3,
{
    let qmf: usize = sony_coded_qmf_bands(local_514);
    let coded_qmf_bands: usize = if qmf < 4 {
        qmf
    } else {
        4
    };
    let mut gain_point_sum_acc: i32 = 0;
    let mut i: usize = 0;
    while i < coded_qmf_bands
        invariant
            i <= coded_qmf_bands <= 4,
            gain_point_counts@.len() == 4,
            gain_point_sum_acc == gain_point_sum(gain_point_counts@, i as int),
            0 <= gain_point_sum_acc <= 255 * i,
        decreases coded_qmf_bands - i,
    {
        gain_point_sum_acc = gain_point_sum_acc + gain_point_counts[i] as i32;
        i = i + 1;
    }
    (gain_point_sum_acc * 3 + coded_qmf_bands as i32) * 3
}

/// The QMF band count left once trailing bands without gain points and
/// without tonal components are dropped, keeping at least one.
pub open spec fn trimmed_qmf_bands(counts: Seq<u8>, active: Seq<bool>, n: nat) -> nat
    decreases n,
{
    if n > 1 && counts[n - 1] == 0 && !active[n - 1] {
        trimmed_qmf_bands(counts, active, (n - 1) as nat)
    } else {
        n
    }
}

/// Bits refunded by dropping trailing silent QMF bands: the tonal component
/// count plus three, per band dropped.
pub fn sony_hf_trim_refund_bits(
    local_514: usize,
    gain_point_counts: &[u8; 4],
    tonal_component_count: u8,
    tonal_active_qmf_bands: &[bool; 4],
) -> (bits: i32)
    ensures
        bits == (tonal_component_count + 3) * (capped_qmf_bands(local_514 as nat)
            - trimmed_qmf_bands(
            gain_point_counts@,
            tonal_active_qmf_bands@,
            capped_qmf_bands(local_514 as nat),
        )),
{
    let qmf: usize = sony_coded_qmf_bands(local_514);
    let initial_coded_qmf_bands: usize = if qmf < 4 {
        qmf
    } else {
        4
    };
    let mut coded_qmf_bands: usize = initial_coded_qmf_bands;
    while coded_qmf_bands > 1 && gain_point_counts[coded_qmf_bands - 1] == 0
        && !tonal_active_qmf_bands[coded_qmf_bands - 1]
        invariant
            coded_qmf_bands <= initial_coded_qmf_bands <= 4,
            gain_point_counts@.len() == 4,
            tonal_active_qmf_bands@.len() == 4,
            trimmed_qmf_bands(
                gain_point_counts@,
                tonal_active_qmf_bands@,
                initial_coded_qmf_bands as nat,
            ) == trimmed_qmf_bands(
                gain_point_counts@,
                tonal_active_qmf_bands@,
                coded_qmf_bands as nat,
            ),
        decreases coded_qmf_bands,
    {
        coded_qmf_bands -= 1;
    }
    let factor: i32 = tonal_component_count as i32 + 3;
    let dropped: i32 = initial_coded_qmf_bands as i32 - coded_qmf_bands as i32;
    assert(factor * dropped <= 258 * 4) by (nonlinear_arith)
        requires
            0 <= factor <= 258,
            0 <= dropped <= 4,
    ;
    factor * dropped
}

/// A score scaled down by `bvar1` (modulo 32) bits, limited to `min..=7`.
pub fn sony_score_to_tbl(score: i32, bvar1: u8, min: i32) -> (t: i32)
    requires
        min <= 7,
    ensures
        t == clamp_int((score >> (bvar1 & 0x1f)) as int, min as int, 7),
{
    let amount: u8 = bvar1 & 0x1f;
    assert(amount < 32) by (bit_vector)
        requires
            amount == bvar1 & 0x1f,
    ;
    let shifted: i32 = score >> amount;
    if shifted < min {
        min
    } else if shifted > 7 {
        7
    } else {
        shifted
    }
}

/// The largest coefficient bit pattern shifted left by one, which drops the
/// sign and orders the magnitudes.
pub open spec fn max_doubled_bits(bits: Seq<u32>) -> u32
    decreases bits.len(),
{
    if bits.len() == 0 {
        0
    } else {
        let m = max_doubled_bits(bits.drop_last());
        let d = (bits.last() << 1u32) as u32;
        if d > m {
            d
        } else {
            m
        }
    }
}

/// The scale factor index of a doubled peak bit pattern: three steps per
/// binary exponent, one up or down by the mantissa, and 0 outside 0..=63.
pub open spec fn peak_sf_index(max_abs_bits: u32) -> u8 {
    if max_abs_bits == 0 {
        0
    } else {
        let exponent = (max_abs_bits >> 24u32) as int;
        let mantissa = max_abs_bits & 0x00ff_ffffu32;
        let base = 3 * exponent - 0x16c;
        let up = if mantissa > 0x0096_5fe9u32 {
            base + 1
        } else {
            base
        };
        let sf = if mantissa < 0x0042_8a30u32 {
            up - 1
        } else {
            up
        };
        if 0 <= sf <= 0x3f {
            sf as u8
        } else {
            0
        }
    }
}

/// The scale factor index of a group's peak, from the IEEE-754 bit patterns
/// of its coefficients.
pub fn sony_peak_to_sf_index_group(coefficient_bits: &[u32]) -> (sf: u8)
    ensures
        sf == peak_sf_index(max_doubled_bits(coefficient_bits@)),
{
    let mut max_abs_bits: u32 = 0;
    let mut i: usize = 0;
    while i < coefficient_bits.len()
        invariant
            i <= coefficient_bits@.len(),
            max_abs_bits == max_doubled_bits(coefficient_bits@.take(i as int)),
        decreases coefficient_bits@.len() - i,
    {
        assert(coefficient_bits@.take(i + 1).drop_last() =~= coefficient_bits@.take(i as int));
        let doubled: u32 = coefficient_bits[i] << 1u32;
        if doubled > max_abs_bits {
            max_abs_bits = doubled;
        }
        i = i + 1;
    }
    assert(coefficient_bits@.take(coefficient_bits@.len() as int) =~= coefficient_bits@);
    if max_abs_bits == 0 {
        return 0;
    }
    let exponent: i32 = (max_abs_bits >> 24u32) as i32;
    let mantissa: u32 = max_abs_bits & 0x00ff_ffff;
    assert((max_abs_bits >> 24u32) <= 255) by (bit_vector);
    let mut sf_index: i32 = 3 * exponent - 0x16c;
    if mantissa > 0x0096_5fe9 {
        sf_index += 1;
    }
    if mantissa < 0x0042_8a30 {
        sf_index -= 1;
    }
    if !(0 <= sf_index && sf_index <= 0x3f) {
        0
    } else {
        sf_index as u8
    }
}

/// The coefficients of group `g`: four from `4 * g`, fewer at the end.
pub open spec fn group_bits(bits: Seq<u32>, g: int) -> Seq<u32> {
    bits.subrange(4 * g, if 4 * g + 4 <= bits.len() {
        4 * g + 4
    } else {
        bits.len() as int
    })
}

/// The peak scale factor index of every group of four coefficients.
pub open spec fn group_sf_seq(bits: Seq<u32>) -> Seq<u8> {
    Seq::new((bits.len() + 3) / 4, |g: int| peak_sf_index(max_doubled_bits(group_bits(bits, g))))
}

/// The peak scale factor index of each group of four coefficients (the last
/// group may be shorter), from their bit patterns.
pub fn sony_group_sf_indices(coefficient_bits: &[u32]) -> (r: Vec<u8>)
    ensures
        r@ == group_sf_seq(coefficient_bits@),
{
    let n: usize = coefficient_bits.len();
    let groups: usize = n / 4 + if n % 4 != 0 {
        1
    } else {
        0
    };
    let mut r: Vec<u8> = Vec::new();
    let mut g: usize = 0;
    while g < groups
        invariant
            n == coefficient_bits@.len(),
            groups == (n + 3) / 4,
            g <= groups,
            r@.len() == g,
            forall|k: int| 0 <= k < g ==> #[trigger] r@[k] == group_sf_seq(coefficient_bits@)[k],
        decreases groups - g,
    {
        let start: usize = 4 * g;
        let end: usize = if n - start >= 4 {
            start + 4
        } else {
            n
        };
        r.push(sony_peak_to_sf_index_group(&coefficient_bits[start..end]));
        g = g + 1;
    }
    assert(r@ =~= group_sf_seq(coefficient_bits@));
    r
}

/// Bit cost of a band at table `tbl_index` and scale factor `sf_index`: a
/// base cost for the band's width plus 60, less a reduction for every
/// group below the table's threshold; table 0 costs nothing.
pub open spec fn sony_band_cost(groups: Seq<u8>, band: int, tbl_index: u8, sf_index: int) -> int {
    if tbl_index == 0 {
        0
    } else {
        let t = tbl_index as int;
        SONY_BASE_COST_SCALAR@[t] * SONY_ACTIVE_COUNT_WEIGHT@[band] + 0x3c
            - SONY_COST_REDUCTION@[t] * count_below(groups, sf_index - SONY_SF_THRESHOLD_OFFSET@[t])
    }
}

pub fn sony_band_bit_cost(
    group_sf_indices: &[u8],
    band: usize,
    tbl_index: u8,
    sf_index: i32,
) -> (cost: i32)
    requires
        tbl_index != 0 ==> tbl_index < 8 && band < 32,
        tbl_index != 0 ==> sf_index - SONY_SF_THRESHOLD_OFFSET@[tbl_index as int] >= i32::MIN,
        sony_band_cost(group_sf_indices@, band as int, tbl_index, sf_index as int) >= i32::MIN,
    ensures
        cost == sony_band_cost(group_sf_indices@, band as int, tbl_index, sf_index as int),
{
    if tbl_index == 0 {
        return 0;
    }
    let table_index: usize = tbl_index as usize;
    assert(forall|k: int| 0 <= k < 8 ==> 0 <= #[trigger] SONY_BASE_COST_SCALAR@[k] <= 100);
    assert(forall|k: int| 0 <= k < 32 ==> 0 <= #[trigger] SONY_ACTIVE_COUNT_WEIGHT@[k] <= 128);
    assert(forall|k: int| 1 <= k < 8 ==> 0 < #[trigger] SONY_COST_REDUCTION@[k] <= 100);
    let threshold: i32 = sf_index - SONY_SF_THRESHOLD_OFFSET[table_index];
    let base: i32 = SONY_BASE_COST_SCALAR[table_index];
    let weight: i32 = SONY_ACTIVE_COUNT_WEIGHT[band];
    assert(base * weight <= 100 * 128) by (nonlinear_arith)
        requires
            0 <= base <= 100,
            0 <= weight <= 128,
    ;
    let mut cost: i32 = base * weight + 0x3c;
    let ghost top = cost as int;
    let ghost red = SONY_COST_REDUCTION@[table_index as int] as int;
    assert(count_below(group_sf_indices@.take(0), threshold as int) == 0);
    let mut i: usize = 0;
    while i < group_sf_indices.len()
        invariant
            i <= group_sf_indices@.len(),
            table_index == tbl_index,
            1 <= table_index < 8,
            red == SONY_COST_REDUCTION@[table_index as int],
            0 < red <= 100,
            top - red * count_below(group_sf_indices@, threshold as int) >= i32::MIN,
            cost == top - red * count_below(group_sf_indices@.take(i as int), threshold as int),
        decreases group_sf_indices@.len() - i,
    {
        assert(group_sf_indices@.take(i + 1).drop_last() =~= group_sf_indices@.take(i as int));
        proof {
            lemma_count_below_prefix(group_sf_indices@, threshold as int, i + 1);
            let c1 = count_below(group_sf_indices@.take(i + 1), threshold as int);
            let c = count_below(group_sf_indices@.take(i as int), threshold as int);
            let call = count_below(group_sf_indices@, threshold as int);
            assert(red * c1 <= red * call) by (nonlinear_arith)
                requires
                    c1 <= call,
                    red > 0,
            ;
            assert(red * (c + 1) == red * c + red) by (nonlinear_arith);
        }
        if (group_sf_indices[i] as i32) < threshold {
            cost -= SONY_COST_REDUCTION[table_index];
        }
        i = i + 1;
    }
    assert(group_sf_indices@.take(group_sf_indices@.len() as int) =~= group_sf_indices@);
    cost
}

/// A prefix counts no more groups than the whole.
pub proof fn lemma_count_below_prefix(groups: Seq<u8>, threshold: int, k: int)
    requires
        0 <= k <= groups.len(),
    ensures
        count_below(groups.take(k), threshold) <= count_below(groups, threshold),
    decreases groups.len(),
{
    if k == groups.len() {
        assert(groups.take(k) =~= groups);
    } else {
        assert(groups.drop_last().take(k) =~= groups.take(k));
        lemma_count_below_prefix(groups.drop_last(), threshold, k);
    }
}

} // verus!

use vstd::prelude::*;
use vstd::arithmetic::power2::{pow2, lemma_pow2_unfold, lemma2_to64};
use vstd::bits::{lemma_u32_shl_is_mul, lemma_u32_low_bits_mask_is_mod, low_bits_mask};

use crate::encoding::{lemma_seq_map_res_first_err, lemma_take_all, lemma_take_last, seq_map_res};
use crate::error::Atrac3Error;
use crate::sound_unit::{
    BitChunk, ChannelSoundUnit, CodingMode, GainBand, RawBitPayload, SpectralSubband, SpectralUnit,
    TonalCodingModeSelector,
};

verus! {

pub const ATRAC3_HUFF_TAB_SIZES: [u8; 7] = [9, 5, 7, 9, 15, 31, 63];
pub const ATRAC3_CLC_LENGTH_TAB: [u8; 8] = [0, 4, 3, 3, 4, 4, 5, 6];
pub const ATRAC3_MANTISSA_CLC_TAB: [i8; 4] = [0, 1, -2, -1];
pub const ATRAC3_MANTISSA_VLC_TAB: [i8; 18] = [
    0, 0, 0, 1, 0, -1, 1, 0, -1, 0, 1, 1, 1, -1, -1, 1, -1, -1,
];
pub const ATRAC3_SUBBAND_TAB: [usize; 33] = [
    0, 8, 16, 24, 32, 40, 48, 56, 64, 80, 96, 112, 128, 144, 160, 176, 192, 224, 256, 288, 320,
    352, 384, 416, 448, 480, 512, 576, 640, 704, 768, 896, 1024,
];

/// Cost reduction per below-threshold group of 4 coefficients, by table index.
pub const COST_REDUCTION: [i32; 8] = [6, 40, 40, 60, 76, 60, 60, 100];

/// Base cost scalar per table index.
pub const BASE_COST_SCALAR: [i32; 8] = [100, 15, 20, 25, 29, 35, 45, 55];

/// Scale-factor threshold offset per table index.
pub const SF_THRESHOLD_OFFSET: [i32; 8] = [55, 3, 5, 7, 9, 12, 15, 18];

/// (symbol + 31, code length) of every Huffman code, the seven
/// selector codebooks one after another.
pub const ATRAC3_HUFF_TABS: [(u8, u8); 139] = [
    (31, 1), (32, 3), (33, 3), (34, 4), (35, 4), (36, 5), (37, 5), (38, 5),
    (39, 5), (31, 1), (32, 3), (30, 3), (33, 3), (29, 3), (31, 1), (32, 3),
    (30, 3), (33, 4), (29, 4), (34, 4), (28, 4), (31, 1), (32, 3), (30, 3),
    (33, 4), (29, 4), (34, 5), (28, 5), (35, 5), (27, 5), (31, 2), (32, 3),
    (30, 3), (33, 4), (29, 4), (34, 4), (28, 4), (38, 4), (24, 4), (35, 5),
    (27, 5), (36, 6), (26, 6), (37, 6), (25, 6), (31, 3), (32, 4), (30, 4),
    (33, 4), (29, 4), (34, 4), (28, 4), (46, 4), (16, 4), (35, 5), (27, 5),
    (36, 5), (26, 5), (37, 5), (25, 5), (38, 6), (24, 6), (39, 6), (23, 6),
    (40, 6), (22, 6), (41, 6), (21, 6), (42, 7), (20, 7), (43, 7), (19, 7),
    (44, 7), (18, 7), (45, 7), (17, 7), (31, 3), (62, 4), (0, 4), (32, 5),
    (30, 5), (33, 5), (29, 5), (34, 5), (28, 5), (35, 5), (27, 5), (36, 5),
    (26, 5), (37, 6), (25, 6), (38, 6), (24, 6), (39, 6), (23, 6), (40, 6),
    (22, 6), (41, 6), (21, 6), (42, 6), (20, 6), (43, 6), (19, 6), (44, 6),
    (18, 6), (45, 7), (17, 7), (46, 7), (16, 7), (47, 7), (15, 7), (48, 7),
    (14, 7), (49, 7), (13, 7), (50, 7), (12, 7), (51, 7), (11, 7), (52, 8),
    (10, 8), (53, 8), (9, 8), (54, 8), (8, 8), (55, 8), (7, 8), (56, 8),
    (6, 8), (57, 8), (5, 8), (58, 8), (4, 8), (59, 8), (3, 8), (60, 8),
    (2, 8), (61, 8), (1, 8),
];

pub const ATRAC3_MANTISSA_VLC_PAIRS: [[i8; 2]; 9] = [
    [0, 0],
    [0, 1],
    [0, -1],
    [1, 0],
    [-1, 0],
    [1, 1],
    [1, -1],
    [-1, 1],
    [-1, -1],
];

#[derive(Debug, Clone, Copy, PartialEq, Eq, Structural)]
pub struct HuffmanEntry {
    pub symbol: i8,
    pub code: u32,
    pub bits: u8,
}

// ---------------------------------------------------------------------
// Canonical Huffman codes.
// ---------------------------------------------------------------------

/// How many codes in `raw` have length `b`.
pub open spec fn count_width(raw: Seq<(u8, u8)>, b: nat) -> nat
    decreases raw.len(),
{
    if raw.len() == 0 {
        0
    } else {
        count_width(raw.drop_last(), b) + if raw.last().1 == b {
            1nat
        } else {
            0nat
        }
    }
}

/// The first canonical code of length `b`: every shorter length's codes
/// come first, and moving one length down doubles the code space.
pub open spec fn first_code(raw: Seq<(u8, u8)>, b: nat) -> nat
    decreases b,
{
    if b == 0 {
        0
    } else {
        (first_code(raw, (b - 1) as nat) + count_width(raw, (b - 1) as nat)) * 2
    }
}

/// The canonical code of the `j`-th entry: the first code of its length plus
/// the number of earlier entries of the same length.
pub open spec fn canonical_entry(raw: Seq<(u8, u8)>, j: int) -> HuffmanEntry {
    HuffmanEntry {
        symbol: ((raw[j].0 as i8) - 31) as i8,
        code: (first_code(raw, raw[j].1 as nat) + count_width(raw.take(j), raw[j].1 as nat)) as u32,
        bits: raw[j].1,
    }
}

pub open spec fn canonical_codebook(raw: Seq<(u8, u8)>) -> Seq<HuffmanEntry> {
    Seq::new(raw.len(), |j: int| canonical_entry(raw, j))
}

/// Tables small enough that canonical codes fit in 32 bits.
pub open spec fn codebook_table_ok(raw: Seq<(u8, u8)>) -> bool {
    &&& raw.len() <= 256
    &&& forall|j: int| 0 <= j < raw.len() ==> (#[trigger] raw[j]).1 <= 16 && raw[j].0 <= 127
}

/// Where the codes of selector `k + 1` start in `ATRAC3_HUFF_TABS`.
pub open spec fn huff_offset(k: nat) -> nat
    decreases k,
{
    if k == 0 {
        0
    } else {
        huff_offset((k - 1) as nat) + ATRAC3_HUFF_TAB_SIZES@[k - 1] as nat
    }
}

/// The raw (symbol, length) list of selector `k + 1`.
pub open spec fn huff_table(k: nat) -> Seq<(u8, u8)> {
    ATRAC3_HUFF_TABS@.subrange(
        huff_offset(k) as int,
        (huff_offset(k) + ATRAC3_HUFF_TAB_SIZES@[k as int]) as int,
    )
}

/// The first codebook entry for `symbol`, scanning from the front.
pub open spec fn first_entry_with_symbol(cb: Seq<HuffmanEntry>, symbol: i8) -> Option<HuffmanEntry>
    decreases cb.len(),
{
    if cb.len() == 0 {
        None
    } else if cb[0].symbol == symbol {
        Some(cb[0])
    } else {
        first_entry_with_symbol(cb.drop_first(), symbol)
    }
}

/// The code for `symbol` under selector `selector` (1..=7), if it has one.
pub open spec fn huffman_lookup(selector: u8, symbol: i8) -> Option<HuffmanEntry> {
    first_entry_with_symbol(canonical_codebook(huff_table((selector - 1) as nat)), symbol)
}

proof fn lemma_count_width_le(raw: Seq<(u8, u8)>, b: nat)
    ensures
        count_width(raw, b) <= raw.len(),
    decreases raw.len(),
{
    if raw.len() > 0 {
        lemma_count_width_le(raw.drop_last(), b);
    }
}

proof fn lemma_first_code_bound(raw: Seq<(u8, u8)>, b: nat)
    ensures
        first_code(raw, b) + 2 * raw.len() <= pow2(b + 1) * raw.len(),
    decreases b,
{
    lemma_pow2_unfold(b + 1);
    if b == 0 {
        lemma2_to64();
    } else {
        lemma_first_code_bound(raw, (b - 1) as nat);
        lemma_count_width_le(raw, (b - 1) as nat);
        let p = pow2(b);
        let n = raw.len();
        let f = first_code(raw, (b - 1) as nat);
        let c = count_width(raw, (b - 1) as nat);
        assert(pow2(b + 1) == 2 * p);
        assert(f + 2 * n <= p * n);
        assert(c <= n);
        assert((f + c) * 2 + 2 * n <= 2 * p * n) by (nonlinear_arith)
            requires
                f + 2 * n <= p * n,
                c <= n,
        ;
        assert(2 * p * n == pow2(b + 1) * n) by (nonlinear_arith)
            requires
                pow2(b + 1) == 2 * p,
        ;
    }
}

proof fn lemma_first_code_small(raw: Seq<(u8, u8)>, b: nat)
    requires
        b <= 16,
        raw.len() <= 256,
    ensures
        first_code(raw, b) + 2 * raw.len() <= 0x200_0000,
{
    lemma_first_code_bound(raw, b);
    lemma_pow2_le_local(b + 1, 17);
    lemma2_to64();
    let n = raw.len();
    let p = pow2(b + 1);
    assert(p * n <= 0x2_0000 * 256) by (nonlinear_arith)
        requires
            p <= 0x2_0000,
            n <= 256,
    ;
}

proof fn lemma_pow2_le_local(a: nat, b: nat)
    requires
        a <= b,
    ensures
        pow2(a) <= pow2(b),
    decreases b,
{
    if a < b {
        lemma_pow2_le_local(a, (b - 1) as nat);
        lemma_pow2_unfold(b);
    }
}

proof fn lemma_count_width_take_step(raw: Seq<(u8, u8)>, j: int, b: nat)
    requires
        0 <= j < raw.len(),
    ensures
        count_width(raw.take(j + 1), b) == count_width(raw.take(j), b) + if raw[j].1 == b {
            1nat
        } else {
            0nat
        },
{
    assert(raw.take(j + 1).drop_last() =~= raw.take(j));
}

/// Builds the canonical Huffman codebook for a (symbol + 31, length) list.
pub fn build_canonical_codebook(raw: &[(u8, u8)]) -> (cb: Vec<HuffmanEntry>)
    requires
        codebook_table_ok(raw@),
    ensures
        cb@ == canonical_codebook(raw@),
{
    let n: usize = raw.len();
    let mut max_bits: usize = 0;
    let mut j: usize = 0;
    while j < n
        invariant
            n == raw@.len(),
            j <= n,
            codebook_table_ok(raw@),
            max_bits <= 16,
            forall|k: int| 0 <= k < j ==> raw@[k].1 <= max_bits,
        decreases n - j,
    {
        if raw[j].1 as usize > max_bits {
            max_bits = raw[j].1 as usize;
        }
        j = j + 1;
    }
    let mut counts: Vec<u32> = vec![0u32; max_bits + 1];
    let mut j: usize = 0;
    while j < n
        invariant
            n == raw@.len(),
            j <= n,
            codebook_table_ok(raw@),
            max_bits <= 16,
            forall|k: int| 0 <= k < n ==> raw@[k].1 <= max_bits,
            counts@.len() == max_bits + 1,
            forall|b: int| 0 <= b <= max_bits ==> #[trigger] counts@[b] == count_width(
                raw@.take(j as int),
                b as nat,
            ),
        decreases n - j,
    {
        let bits: usize = raw[j].1 as usize;
        proof {
            assert forall|b: int| 0 <= b <= max_bits implies #[trigger] count_width(
                raw@.take(j + 1),
                b as nat,
            ) == count_width(raw@.take(j as int), b as nat) + if raw@[j as int].1 == b {
                1nat
            } else {
                0nat
            } by {
                lemma_count_width_take_step(raw@, j as int, b as nat);
            }
            lemma_count_width_le(raw@.take(j as int), bits as nat);
        }
        let c: u32 = counts[bits];
        counts.set(bits, c + 1);
        j = j + 1;
    }
    proof {
        assert(raw@.take(n as int) =~= raw@);
    }
    let mut next_codes: Vec<u32> = vec![0u32; max_bits + 1];
    let mut code: u32 = 0;
    let mut bits: usize = 1;
    while bits <= max_bits
        invariant
            n == raw@.len(),
            1 <= bits <= max_bits + 1,
            max_bits <= 16,
            codebook_table_ok(raw@),
            counts@.len() == max_bits + 1,
            forall|b: int| 0 <= b <= max_bits ==> #[trigger] counts@[b] == count_width(
                raw@,
                b as nat,
            ),
            next_codes@.len() == max_bits + 1,
            code == first_code(raw@, (bits - 1) as nat),
            next_codes@[0] == 0,
            forall|b: int| 1 <= b < bits ==> #[trigger] next_codes@[b] == first_code(raw@, b as nat),
        decreases max_bits + 1 - bits,
    {
        proof {
            lemma_first_code_small(raw@, (bits - 1) as nat);
            lemma_first_code_small(raw@, bits as nat);
            lemma_count_width_le(raw@, (bits - 1) as nat);
        }
        let sum: u32 = code + counts[bits - 1];
        assert(sum << 1u32 == sum * 2) by (bit_vector)
            requires
                sum < 0x1000_0000u32,
        ;
        code = sum << 1;
        next_codes.set(bits, code);
        bits = bits + 1;
    }
    let mut cb: Vec<HuffmanEntry> = Vec::new();
    let mut j: usize = 0;
    while j < n
        invariant
            n == raw@.len(),
            j <= n,
            max_bits <= 16,
            codebook_table_ok(raw@),
            forall|k: int| 0 <= k < n ==> raw@[k].1 <= max_bits,
            next_codes@.len() == max_bits + 1,
            forall|b: int|
                0 <= b <= max_bits ==> #[trigger] next_codes@[b] == first_code(raw@, b as nat)
                    + count_width(raw@.take(j as int), b as nat),
            cb@ == canonical_codebook(raw@).take(j as int),
        decreases n - j,
    {
        let symbol: u8 = raw[j].0;
        let b: usize = raw[j].1 as usize;
        proof {
            assert forall|bb: int| 0 <= bb <= max_bits implies #[trigger] count_width(
                raw@.take(j + 1),
                bb as nat,
            ) == count_width(raw@.take(j as int), bb as nat) + if raw@[j as int].1 == bb {
                1nat
            } else {
                0nat
            } by {
                lemma_count_width_take_step(raw@, j as int, bb as nat);
            }
            lemma_first_code_small(raw@, b as nat);
            lemma_count_width_le(raw@.take(j as int), b as nat);
            if b == 0 {
                assert(first_code(raw@, 0) == 0);
            }
        }
        let c: u32 = next_codes[b];
        next_codes.set(b, c + 1);
        cb.push(HuffmanEntry { symbol: symbol as i8 - 31, code: c, bits: raw[j].1 });
        j = j + 1;
        proof {
            assert(cb@ =~= canonical_codebook(raw@).take(j as int));
        }
    }
    proof {
        assert(canonical_codebook(raw@).take(n as int) =~= canonical_codebook(raw@));
    }
    cb
}

proof fn lemma_huff_tables_ok()
    ensures
        huff_offset(7) == 139,
        forall|k: nat| k < 7 ==> huff_offset(k) + ATRAC3_HUFF_TAB_SIZES@[k as int] <= 139,
        forall|j: int| 0 <= j < 139 ==> (#[trigger] ATRAC3_HUFF_TABS@[j]).1 <= 8 && ATRAC3_HUFF_TABS@[j].0 <= 127,
{
    reveal_with_fuel(huff_offset, 8);
    assert(huff_offset(7) == 139);
    assert forall|k: nat| k < 7 implies huff_offset(k) + ATRAC3_HUFF_TAB_SIZES@[k as int] <= 139 by {
        reveal_with_fuel(huff_offset, 8);
    }
}

proof fn lemma_huff_table_ok(k: nat)
    requires
        k < 7,
    ensures
        codebook_table_ok(huff_table(k)),
        forall|j: int| 0 <= j < huff_table(k).len() ==> (#[trigger] huff_table(k)[j]).1 <= 8,
{
    lemma_huff_tables_ok();
    let t = huff_table(k);
    assert forall|j: int| 0 <= j < t.len() implies (#[trigger] t[j]).1 <= 16 && t[j].0 <= 127 && t[j].1 <= 8 by {
        assert(t[j] == ATRAC3_HUFF_TABS@[huff_offset(k) + j]);
    }
}

/// The seven selector codebooks, built from `ATRAC3_HUFF_TABS`.
pub fn huffman_codebooks() -> (books: Vec<Vec<HuffmanEntry>>)
    ensures
        books@.len() == 7,
        forall|k: int| 0 <= k < 7 ==> (#[trigger] books@[k])@ == canonical_codebook(huff_table(k as nat)),
{
    proof {
        lemma_huff_tables_ok();
    }
    let mut books: Vec<Vec<HuffmanEntry>> = Vec::new();
    let mut offset: usize = 0;
    let mut k: usize = 0;
    while k < 7
        invariant
            k <= 7,
            offset == huff_offset(k as nat),
            huff_offset(7) == 139,
            forall|kk: nat| kk < 7 ==> huff_offset(kk) + ATRAC3_HUFF_TAB_SIZES@[kk as int] <= 139,
            books@.len() == k,
            forall|i: int| 0 <= i < k ==> (#[trigger] books@[i])@ == canonical_codebook(huff_table(i as nat)),
        decreases 7 - k,
    {
        let next: usize = offset + ATRAC3_HUFF_TAB_SIZES[k] as usize;
        proof {
            lemma_huff_table_ok(k as nat);
            reveal_with_fuel(huff_offset, 2);
        }
        let table: &[(u8, u8)] = &ATRAC3_HUFF_TABS[offset..next];
        assert(table@ == huff_table(k as nat));
        let book = build_canonical_codebook(table);
        books.push(book);
        offset = next;
        k = k + 1;
    }
    books
}

/// Looks up the code for `symbol` under `selector`.
pub fn find_huffman_entry(selector: u8, symbol: i8) -> (r: Result<HuffmanEntry, Atrac3Error>)
    requires
        1 <= selector <= 7,
    ensures
        r == match huffman_lookup(selector, symbol) {
            Some(e) => Ok(e),
            None => Err(Atrac3Error::SymbolNotRepresentable { symbol, selector }),
        },
{
    let books = huffman_codebooks();
    let book: &Vec<HuffmanEntry> = &books[selector as usize - 1];
    let ghost cb = book@;
    assert(cb == canonical_codebook(huff_table((selector - 1) as nat)));
    assert(cb.skip(0) =~= cb);
    let mut i: usize = 0;
    while i < book.len()
        invariant
            cb == book@,
            cb == canonical_codebook(huff_table((selector - 1) as nat)),
            i <= cb.len(),
            first_entry_with_symbol(cb, symbol) == first_entry_with_symbol(cb.skip(i as int), symbol),
        decreases cb.len() - i,
    {
        proof {
            assert(cb.skip(i as int).drop_first() =~= cb.skip(i + 1));
        }
        if book[i].symbol == symbol {
            assert(cb.skip(i as int)[0] == cb[i as int]);
            return Ok(book[i]);
        }
        i = i + 1;
    }
    Err(Atrac3Error::SymbolNotRepresentable { symbol, selector })
}

// ---------------------------------------------------------------------
// Table lookups.
// ---------------------------------------------------------------------

pub fn clc_bit_width(selector: u8) -> (r: Option<u8>)
    ensures
        r == if selector < 8 {
            Some(ATRAC3_CLC_LENGTH_TAB@[selector as int])
        } else {
            None::<u8>
        },
{
    if (selector as usize) < ATRAC3_CLC_LENGTH_TAB.len() {
        Some(ATRAC3_CLC_LENGTH_TAB[selector as usize])
    } else {
        None
    }
}

pub fn huff_table_size(selector: u8) -> (r: Option<u8>)
    ensures
        r == if 1 <= selector <= 7 {
            Some(ATRAC3_HUFF_TAB_SIZES@[selector - 1])
        } else {
            None::<u8>
        },
{
    if selector < 1 {
        return None;
    }
    let index: usize = (selector - 1) as usize;
    if index < ATRAC3_HUFF_TAB_SIZES.len() {
        Some(ATRAC3_HUFF_TAB_SIZES[index])
    } else {
        None
    }
}

/// The `bits`-wide two's-complement field of `value`.
pub fn twos_complement_bits(value: i32, bits: u8) -> (r: u32)
    requires
        bits <= 32,
    ensures
        r as nat == (value as u32) as nat % pow2(bits as nat),
{
    if bits == 32 {
        proof {
            lemma2_to64();
            vstd::arithmetic::div_mod::lemma_small_mod((value as u32) as nat, pow2(32));
        }
        value as u32
    } else {
        let b: u32 = bits as u32;
        proof {
            lemma_pow2_le_local(bits as nat, 31);
            lemma2_to64();
            lemma_u32_shl_is_mul(1u32, b);
        }
        let mask: u32 = (1u32 << b) - 1;
        let x: u32 = value as u32;
        proof {
            lemma_u32_low_bits_mask_is_mod(x, bits as nat);
            assert(1u32 << b == pow2(bits as nat));
            assert(mask == low_bits_mask(bits as nat) as u32);
            assert(pow2(bits as nat) < 0x1_0000_0000);
            assert((x % (pow2(bits as nat) as u32)) as nat == x as nat % pow2(bits as nat));
        }
        x & mask
    }
}

/// The selector-1 CLC index of a mantissa: its position in `ATRAC3_MANTISSA_CLC_TAB`.
pub open spec fn clc_index(value: i8) -> Option<u8> {
    if value == 0 {
        Some(0u8)
    } else if value == 1 {
        Some(1u8)
    } else if value == -2 {
        Some(2u8)
    } else if value == -1 {
        Some(3u8)
    } else {
        None
    }
}

pub fn clc_symbol_index(value: i8) -> (r: Result<u8, Atrac3Error>)
    ensures
        r == match clc_index(value) {
            Some(i) => Ok(i),
            None => Err(Atrac3Error::ClcMantissaNotRepresentable { mantissa: value }),
        },
{
    let mut i: usize = 0;
    while i < 4
        invariant
            i <= 4,
            forall|k: int| 0 <= k < i ==> ATRAC3_MANTISSA_CLC_TAB@[k] != value,
        decreases 4 - i,
    {
        if ATRAC3_MANTISSA_CLC_TAB[i] == value {
            return Ok(i as u8);
        }
        i = i + 1;
    }
    Err(Atrac3Error::ClcMantissaNotRepresentable { mantissa: value })
}

/// The selector-1 VLC symbol of a mantissa pair: its position in
/// `ATRAC3_MANTISSA_VLC_PAIRS`.
pub open spec fn vlc_pair_index(left: i8, right: i8) -> Option<i8> {
    if left == 0 && right == 0 {
        Some(0i8)
    } else if left == 0 && right == 1 {
        Some(1i8)
    } else if left == 0 && right == -1 {
        Some(2i8)
    } else if left == 1 && right == 0 {
        Some(3i8)
    } else if left == -1 && right == 0 {
        Some(4i8)
    } else if left == 1 && right == 1 {
        Some(5i8)
    } else if left == 1 && right == -1 {
        Some(6i8)
    } else if left == -1 && right == 1 {
        Some(7i8)
    } else if left == -1 && right == -1 {
        Some(8i8)
    } else {
        None
    }
}

pub fn vlc_pair_symbol(left: i8, right: i8) -> (r: Result<i8, Atrac3Error>)
    ensures
        r == match vlc_pair_index(left, right) {
            Some(i) => Ok(i),
            None => Err(Atrac3Error::VlcPairNotRepresentable { left, right }),
        },
{
    let mut i: usize = 0;
    while i < 9
        invariant
            i <= 9,
            forall|k: int|
                0 <= k < i ==> !(ATRAC3_MANTISSA_VLC_PAIRS@[k]@[0] == left
                    && ATRAC3_MANTISSA_VLC_PAIRS@[k]@[1] == right),
        decreases 9 - i,
    {
        let pair: [i8; 2] = ATRAC3_MANTISSA_VLC_PAIRS[i];
        if pair[0] == left && pair[1] == right {
            return Ok(i as i8);
        }
        i = i + 1;
    }
    Err(Atrac3Error::VlcPairNotRepresentable { left, right })
}


// ---------------------------------------------------------------------
// Mantissa coding.
// ---------------------------------------------------------------------

pub open spec fn entry_chunk(e: HuffmanEntry) -> BitChunk {
    BitChunk { value: e.code, bits: e.bits }
}

/// The VLC chunk of one symbol under `selector`.
pub open spec fn vlc_symbol_chunk(selector: u8, symbol: i8) -> Result<BitChunk, Atrac3Error> {
    match huffman_lookup(selector, symbol) {
        Some(e) => Ok(entry_chunk(e)),
        None => Err(Atrac3Error::SymbolNotRepresentable { symbol, selector }),
    }
}

pub open spec fn vlc_symbol_chunk_fn(selector: u8) -> spec_fn(i8) -> Result<BitChunk, Atrac3Error> {
    |m: i8| vlc_symbol_chunk(selector, m)
}

/// The selector-1 VLC chunk of a mantissa pair.
pub open spec fn vlc_pair_chunk(p: (i8, i8)) -> Result<BitChunk, Atrac3Error> {
    match vlc_pair_index(p.0, p.1) {
        None => Err(Atrac3Error::VlcPairNotRepresentable { left: p.0, right: p.1 }),
        Some(symbol) => vlc_symbol_chunk(1, symbol),
    }
}

pub open spec fn vlc_pair_chunk_fn() -> spec_fn((i8, i8)) -> Result<BitChunk, Atrac3Error> {
    |p: (i8, i8)| vlc_pair_chunk(p)
}

/// The selector-1 CLC chunk of a mantissa pair: two 2-bit indices.
pub open spec fn clc_pair_chunk(p: (i8, i8)) -> Result<BitChunk, Atrac3Error> {
    match clc_index(p.0) {
        None => Err(Atrac3Error::ClcMantissaNotRepresentable { mantissa: p.0 }),
        Some(hi) => match clc_index(p.1) {
            None => Err(Atrac3Error::ClcMantissaNotRepresentable { mantissa: p.1 }),
            Some(lo) => Ok(BitChunk { value: (hi * 4 + lo) as u32, bits: 4 }),
        },
    }
}

pub open spec fn clc_pair_chunk_fn() -> spec_fn((i8, i8)) -> Result<BitChunk, Atrac3Error> {
    |p: (i8, i8)| clc_pair_chunk(p)
}

/// The CLC chunk of one mantissa: its `width`-bit two's-complement field.
pub open spec fn clc_chunk(width: u8, m: i8) -> BitChunk {
    BitChunk { value: (((m as i32) as u32) as nat % pow2(width as nat)) as u32, bits: width }
}

/// Consecutive mantissa pairs.
pub open spec fn mantissa_pairs(m: Seq<i8>) -> Seq<(i8, i8)> {
    Seq::new(m.len() / 2, |k: int| (m[2 * k], m[2 * k + 1]))
}

/// The chunks `encode_mantissas` produces, or its error.
pub open spec fn mantissa_chunks(selector: u8, mode: CodingMode, m: Seq<i8>) -> Result<
    Seq<BitChunk>,
    Atrac3Error,
> {
    if !(1 <= selector <= 7) {
        Err(Atrac3Error::SelectorOutOfRange { selector })
    } else {
        match mode {
            CodingMode::Clc => if selector == 1 {
                if m.len() % 2 != 0 {
                    Err(Atrac3Error::OddMantissaCount)
                } else {
                    seq_map_res(mantissa_pairs(m), clc_pair_chunk_fn())
                }
            } else {
                Ok(m.map_values(|x: i8| clc_chunk(ATRAC3_CLC_LENGTH_TAB@[selector as int], x)))
            },
            CodingMode::Vlc => if selector == 1 {
                if m.len() % 2 != 0 {
                    Err(Atrac3Error::OddMantissaCount)
                } else {
                    seq_map_res(mantissa_pairs(m), vlc_pair_chunk_fn())
                }
            } else {
                seq_map_res(m, vlc_symbol_chunk_fn(selector))
            },
        }
    }
}

proof fn lemma_first_entry_in(cb: Seq<HuffmanEntry>, symbol: i8)
    ensures
        first_entry_with_symbol(cb, symbol) matches Some(e) ==> exists|j: int|
            0 <= j < cb.len() && cb[j] == e,
    decreases cb.len(),
{
    if cb.len() > 0 && cb[0].symbol != symbol {
        lemma_first_entry_in(cb.drop_first(), symbol);
        if first_entry_with_symbol(cb, symbol) is Some {
            let e = first_entry_with_symbol(cb, symbol)->Some_0;
            let j = choose|j: int| 0 <= j < cb.drop_first().len() && cb.drop_first()[j] == e;
            assert(cb[j + 1] == e);
        }
    } else if cb.len() > 0 {
        assert(cb[0] == cb[0]);
    }
}

proof fn lemma_lookup_bits(selector: u8, symbol: i8)
    requires
        1 <= selector <= 7,
    ensures
        huffman_lookup(selector, symbol) matches Some(e) ==> e.bits <= 8,
{
    let k = (selector - 1) as nat;
    lemma_huff_table_ok(k);
    let cb = canonical_codebook(huff_table(k));
    lemma_first_entry_in(cb, symbol);
    if huffman_lookup(selector, symbol) is Some {
        let e = huffman_lookup(selector, symbol)->Some_0;
        let j = choose|j: int| 0 <= j < cb.len() && cb[j] == e;
        assert(huff_table(k)[j].1 <= 8);
    }
}

pub fn encode_mantissas(selector: u8, coding_mode: CodingMode, mantissas: &[i8]) -> (r: Result<
    RawBitPayload,
    Atrac3Error,
>)
    ensures
        match mantissa_chunks(selector, coding_mode, mantissas@) {
            Ok(cs) => r is Ok && r->Ok_0.chunks@ == cs,
            Err(e) => r == Err::<RawBitPayload, Atrac3Error>(e),
        },
{
    if !(1 <= selector && selector <= 7) {
        return Err(Atrac3Error::SelectorOutOfRange { selector });
    }
    let mut payload = RawBitPayload { chunks: Vec::new() };
    let n: usize = mantissas.len();
    match coding_mode {
        CodingMode::Clc => {
            if selector == 1 {
                if n % 2 != 0 {
                    return Err(Atrac3Error::OddMantissaCount);
                }
                let ghost pairs = mantissa_pairs(mantissas@);
                let mut k: usize = 0;
                while k < n / 2
                    invariant
                        n == mantissas@.len(),
                        pairs == mantissa_pairs(mantissas@),
                        k <= n / 2,
                        mantissa_chunks(selector, coding_mode, mantissas@) == seq_map_res(
                            pairs,
                            clc_pair_chunk_fn(),
                        ),
                        seq_map_res(pairs.take(k as int), clc_pair_chunk_fn()) == Ok::<
                            Seq<BitChunk>,
                            Atrac3Error,
                        >(payload.chunks@),
                    decreases n / 2 - k,
                {
                    proof {
                        lemma_take_last(pairs, k as int);
                    }
                    let a: i8 = mantissas[2 * k];
                    let b: i8 = mantissas[2 * k + 1];
                    let hi: u8 = match clc_symbol_index(a) {
                        Ok(v) => v,
                        Err(e) => {
                            proof {
                                lemma_seq_map_res_first_err(pairs, clc_pair_chunk_fn(), k as int);
                            }
                            return Err(e);
                        },
                    };
                    let lo: u8 = match clc_symbol_index(b) {
                        Ok(v) => v,
                        Err(e) => {
                            proof {
                                lemma_seq_map_res_first_err(pairs, clc_pair_chunk_fn(), k as int);
                            }
                            return Err(e);
                        },
                    };
                    assert((hi << 2u8) | lo == hi * 4 + lo) by (bit_vector)
                        requires
                            hi <= 3,
                            lo <= 3,
                    ;
                    match payload.push_bits(((hi << 2) | lo) as u32, ATRAC3_CLC_LENGTH_TAB[1]) {
                        Ok(_) => {},
                        Err(e) => {
                            return Err(e);
                        },
                    }
                    k = k + 1;
                }
                proof {
                    lemma_take_all(pairs);
                }
            } else {
                let width: u8 = ATRAC3_CLC_LENGTH_TAB[selector as usize];
                let ghost f = |x: i8| clc_chunk(ATRAC3_CLC_LENGTH_TAB@[selector as int], x);
                let mut k: usize = 0;
                while k < n
                    invariant
                        n == mantissas@.len(),
                        k <= n,
                        2 <= selector <= 7,
                        width == ATRAC3_CLC_LENGTH_TAB@[selector as int],
                        coding_mode == CodingMode::Clc,
                        f == (|x: i8| clc_chunk(ATRAC3_CLC_LENGTH_TAB@[selector as int], x)),
                        payload.chunks@ == mantissas@.take(k as int).map_values(f),
                    decreases n - k,
                {
                    let m: i8 = mantissas[k];
                    let v: u32 = twos_complement_bits(m as i32, width);
                    match payload.push_bits(v, width) {
                        Ok(_) => {},
                        Err(e) => {
                            return Err(e);
                        },
                    }
                    k = k + 1;
                    proof {
                        assert(payload.chunks@ =~= mantissas@.take(k as int).map_values(f));
                    }
                }
                proof {
                    lemma_take_all(mantissas@);
                }
            }
        },
        CodingMode::Vlc => {
            if selector == 1 {
                if n % 2 != 0 {
                    return Err(Atrac3Error::OddMantissaCount);
                }
                let ghost pairs = mantissa_pairs(mantissas@);
                let mut k: usize = 0;
                while k < n / 2
                    invariant
                        n == mantissas@.len(),
                        pairs == mantissa_pairs(mantissas@),
                        k <= n / 2,
                        mantissa_chunks(selector, coding_mode, mantissas@) == seq_map_res(
                            pairs,
                            vlc_pair_chunk_fn(),
                        ),
                        seq_map_res(pairs.take(k as int), vlc_pair_chunk_fn()) == Ok::<
                            Seq<BitChunk>,
                            Atrac3Error,
                        >(payload.chunks@),
                    decreases n / 2 - k,
                {
                    proof {
                        lemma_take_last(pairs, k as int);
                    }
                    let a: i8 = mantissas[2 * k];
                    let b: i8 = mantissas[2 * k + 1];
                    let symbol: i8 = match vlc_pair_symbol(a, b) {
                        Ok(v) => v,
                        Err(e) => {
                            proof {
                                lemma_seq_map_res_first_err(pairs, vlc_pair_chunk_fn(), k as int);
                            }
                            return Err(e);
                        },
                    };
                    let entry = match find_huffman_entry(1, symbol) {
                        Ok(v) => v,
                        Err(e) => {
                            proof {
                                lemma_seq_map_res_first_err(pairs, vlc_pair_chunk_fn(), k as int);
                            }
                            return Err(e);
                        },
                    };
                    proof {
                        lemma_lookup_bits(1, symbol);
                    }
                    match payload.push_bits(entry.code, entry.bits) {
                        Ok(_) => {},
                        Err(e) => {
                            return Err(e);
                        },
                    }
                    k = k + 1;
                }
                proof {
                    lemma_take_all(pairs);
                }
            } else {
                let mut k: usize = 0;
                while k < n
                    invariant
                        n == mantissas@.len(),
                        k <= n,
                        2 <= selector <= 7,
                        mantissa_chunks(selector, coding_mode, mantissas@) == seq_map_res(
                            mantissas@,
                            vlc_symbol_chunk_fn(selector),
                        ),
                        seq_map_res(mantissas@.take(k as int), vlc_symbol_chunk_fn(selector))
                            == Ok::<Seq<BitChunk>, Atrac3Error>(payload.chunks@),
                    decreases n - k,
                {
                    proof {
                        lemma_take_last(mantissas@, k as int);
                    }
                    let m: i8 = mantissas[k];
                    let entry = match find_huffman_entry(selector, m) {
                        Ok(v) => v,
                        Err(e) => {
                            proof {
                                lemma_seq_map_res_first_err(
                                    mantissas@,
                                    vlc_symbol_chunk_fn(selector),
                                    k as int,
                                );
                            }
                            return Err(e);
                        },
                    };
                    proof {
                        lemma_lookup_bits(selector, m);
                    }
                    match payload.push_bits(entry.code, entry.bits) {
                        Ok(_) => {},
                        Err(e) => {
                            return Err(e);
                        },
                    }
                    k = k + 1;
                }
                proof {
                    lemma_take_all(mantissas@);
                }
            }
        },
    }
    Ok(payload)
}


// ---------------------------------------------------------------------
// Subband layout and cost estimates.
// ---------------------------------------------------------------------

/// How many 256-coefficient QMF bands the first `subband_count` subbands
/// (at least one, at most 32) reach into, between 1 and 4.
pub open spec fn qmf_bands_for_subbands(subband_count: nat) -> u8 {
    let n = if subband_count < 1 {
        1
    } else if subband_count > 32 {
        32
    } else {
        subband_count
    };
    let last_end = ATRAC3_SUBBAND_TAB@[n as int];
    let bands = (if last_end >= 1 {
        (last_end - 1) as nat
    } else {
        0nat
    }) / 256 + 1;
    (if bands > 4 {
        4
    } else {
        bands
    }) as u8
}

pub fn coded_qmf_bands_for_subband_count(subband_count: usize) -> (r: u8)
    ensures
        r == qmf_bands_for_subbands(subband_count as nat),
        1 <= r <= 4,
{
    let n: usize = if subband_count < 1 {
        1
    } else if subband_count > 32 {
        32
    } else {
        subband_count
    };
    let last_end: usize = ATRAC3_SUBBAND_TAB[n];
    assert(forall|k: int| 0 <= k < 33 ==> ATRAC3_SUBBAND_TAB@[k] <= 1024);
    let prev: usize = last_end.saturating_sub(1);
    assert(prev >> 8 == prev / 256) by (bit_vector);
    let bands: usize = (prev >> 8) + 1;
    let clamped: usize = if bands < 1 {
        1
    } else if bands > 4 {
        4
    } else {
        bands
    };
    clamped as u8
}

/// Bits of a sound unit outside its spectral payload when it carries no
/// gain points and no tonal components: header, empty gain bands, tonal
/// count and the spectrum's subband count and coding mode.
pub open spec fn fixed_bits_for_subbands(subband_count: nat) -> nat {
    19 + 3 * (qmf_bands_for_subbands(subband_count) as nat)
}

pub fn fixed_sound_unit_bits(subband_count: usize) -> (r: usize)
    ensures
        r == fixed_bits_for_subbands(subband_count as nat),
{
    let coded_qmf_bands: u8 = coded_qmf_bands_for_subband_count(subband_count);
    6 + 2 + (coded_qmf_bands as usize * 3) + 5 + 5 + 1
}

/// How many scale-factor groups fall below `threshold`.
pub open spec fn count_below(groups: Seq<u8>, threshold: int) -> nat
    decreases groups.len(),
{
    if groups.len() == 0 {
        0
    } else {
        count_below(groups.drop_last(), threshold) + if (groups.last() as int) < threshold {
            1nat
        } else {
            0nat
        }
    }
}

/// Table-driven bit cost of coding a subband with table `tbl_index` at
/// scale factor `sf_index`: a base cost per coefficient plus a header
/// allowance, less a reduction for every group well below the scale
/// factor, never negative; table 0 costs nothing.
pub open spec fn band_bit_cost(groups: Seq<u8>, tbl_index: u8, sf_index: int, width: nat) -> int {
    if tbl_index == 0 {
        0
    } else {
        let t = tbl_index as int;
        let threshold = sf_index - SF_THRESHOLD_OFFSET@[t];
        let cost = BASE_COST_SCALAR@[t] * width + 60 - COST_REDUCTION@[t] * count_below(
            groups,
            threshold,
        );
        if cost < 0 {
            0
        } else {
            cost
        }
    }
}

pub fn estimate_band_bit_cost(
    group_sf_indices: &[u8],
    tbl_index: u8,
    sf_index: i32,
    subband_width: usize,
) -> (r: i32)
    requires
        tbl_index <= 7,
        tbl_index != 0 ==> sf_index - SF_THRESHOLD_OFFSET@[tbl_index as int] >= i32::MIN,
        tbl_index != 0 ==> BASE_COST_SCALAR@[tbl_index as int] * subband_width + 60 <= i32::MAX,
        tbl_index != 0 ==> BASE_COST_SCALAR@[tbl_index as int] * subband_width + 60
            - COST_REDUCTION@[tbl_index as int] * count_below(
            group_sf_indices@,
            sf_index - SF_THRESHOLD_OFFSET@[tbl_index as int],
        ) >= i32::MIN,
    ensures
        r == band_bit_cost(group_sf_indices@, tbl_index, sf_index as int, subband_width as nat),
{
    if tbl_index == 0 {
        return 0;
    }
    let ti: usize = tbl_index as usize;
    assert(forall|k: int| 1 <= k < 8 ==> 15 <= #[trigger] BASE_COST_SCALAR@[k] <= 100);
    assert(forall|k: int| 1 <= k < 8 ==> 0 < #[trigger] COST_REDUCTION@[k] <= 100);
    let threshold: i32 = sf_index - SF_THRESHOLD_OFFSET[ti];
    let base: i32 = BASE_COST_SCALAR[ti];
    assert(subband_width <= i32::MAX) by (nonlinear_arith)
        requires
            base * subband_width + 60 <= i32::MAX,
            base >= 15,
    ;
    let w: i32 = subband_width as i32;
    let mut cost: i32 = base * w + 60;
    let ghost top = cost as int;
    let ghost red = COST_REDUCTION@[ti as int] as int;
    assert(count_below(group_sf_indices@.take(0), threshold as int) == 0);
    let mut i: usize = 0;
    while i < group_sf_indices.len()
        invariant
            i <= group_sf_indices@.len(),
            1 <= ti <= 7,
            red == COST_REDUCTION@[ti as int],
            0 < red <= 100,
            top - red * count_below(group_sf_indices@, threshold as int) >= i32::MIN,
            cost == top - red * count_below(group_sf_indices@.take(i as int), threshold as int),
        decreases group_sf_indices@.len() - i,
    {
        proof {
            lemma_take_last(group_sf_indices@, i as int);
            crate::quant_sony::lemma_count_below_prefix(group_sf_indices@, threshold as int, i + 1);
            let c1 = count_below(group_sf_indices@.take(i + 1), threshold as int);
            let c = count_below(group_sf_indices@.take(i as int), threshold as int);
            let call = count_below(group_sf_indices@, threshold as int);
            assert(red * c1 <= red * call) by (nonlinear_arith)
                requires
                    c1 <= call,
                    red > 0,
            ;
            assert(red * (c + 1) == red * c + red) by (nonlinear_arith);
        }
        if (group_sf_indices[i] as i32) < threshold {
            cost = cost - COST_REDUCTION[ti];
        }
        i = i + 1;
    }
    proof {
        lemma_take_all(group_sf_indices@);
    }
    if cost < 0 {
        0
    } else {
        cost
    }
}

/// The subband (0..32) whose coefficient range holds `pos`, if `pos` is
/// inside the coded range.
pub fn subband_index_for_position(pos: usize) -> (r: Option<usize>)
    ensures
        r matches Some(b) ==> b < 32 && ATRAC3_SUBBAND_TAB@[b as int] <= pos
            < ATRAC3_SUBBAND_TAB@[b + 1],
        r is None <==> pos >= 1024,
{
    let mut band: usize = 0;
    while band < 32
        invariant
            band <= 32,
            pos >= ATRAC3_SUBBAND_TAB@[band as int],
        decreases 32 - band,
    {
        if pos >= ATRAC3_SUBBAND_TAB[band] && pos < ATRAC3_SUBBAND_TAB[band + 1] {
            return Some(band);
        }
        band = band + 1;
    }
    None
}

/// The smallest subband count the budgeted allocator keeps coded at a
/// given budget: from 1536 bits on, every subband below the one whose
/// boundary first reaches coefficient 768; none below that budget.
pub fn minimum_subband_count_for_target_bits(target_bits: usize) -> (r: usize)
    ensures
        target_bits >= 1536 ==> r < 33 && ATRAC3_SUBBAND_TAB@[r as int] >= 768 && forall|k: int|
            0 <= k < r ==> ATRAC3_SUBBAND_TAB@[k] < 768,
        target_bits < 1536 ==> r == 0,
{
    if target_bits >= 1_536 {
        let mut index: usize = 0;
        while index < 33
            invariant
                index <= 33,
                target_bits >= 1536,
                forall|k: int| 0 <= k < index ==> ATRAC3_SUBBAND_TAB@[k] < 768,
            decreases 33 - index,
        {
            if ATRAC3_SUBBAND_TAB[index] >= 768 {
                return index;
            }
            index = index + 1;
        }
        0
    } else {
        0
    }
}


/// A subband quantized at one table index: its scale factor, mantissas and
/// payload size. The error measures are the bit patterns of their `f32`
/// values.
#[derive(Debug, Clone, PartialEq)]
pub struct QuantizedSubband {
    pub table_index: u8,
    pub scale_factor_index: Option<u8>,
    pub mantissas: Vec<i8>,
    pub payload_bits: usize,
    pub mse: u32,
    pub max_abs_err: u32,
}

/// The payload a quantized subband is written with: empty at table index 0,
/// else its mantissas coded at its table index.
pub open spec fn quantized_payload(table_index: u8, mode: CodingMode, m: Seq<i8>) -> Result<Seq<BitChunk>, Atrac3Error> {
    if table_index == 0 {
        Ok(Seq::empty())
    } else {
        mantissa_chunks(table_index, mode, m)
    }
}

impl QuantizedSubband {
    pub fn payload(&self, coding_mode: CodingMode) -> (r: Result<RawBitPayload, Atrac3Error>)
        ensures
            match quantized_payload(self.table_index, coding_mode, self.mantissas@) {
                Ok(cs) => r is Ok && r->Ok_0.chunks@ == cs,
                Err(e) => r == Err::<RawBitPayload, Atrac3Error>(e),
            },
    {
        if self.table_index == 0 {
            return Ok(RawBitPayload { chunks: Vec::new() });
        }
        encode_mantissas(self.table_index, coding_mode, self.mantissas.as_slice())
    }

    /// The spectral subband this quantization is written as.
    pub fn spectral_subband(&self, coding_mode: CodingMode) -> (r: Result<SpectralSubband, Atrac3Error>)
        ensures
            match quantized_payload(self.table_index, coding_mode, self.mantissas@) {
                Ok(cs) => r is Ok && r->Ok_0.table_index == self.table_index
                    && r->Ok_0.scale_factor_index == self.scale_factor_index && r->Ok_0.payload.chunks@ == cs,
                Err(e) => r is Err && r->Err_0 == e,
            },
    {
        let payload = match self.payload(coding_mode) {
            Ok(p) => p,
            Err(e) => {
                return Err(e);
            },
        };
        Ok(
            SpectralSubband {
                table_index: self.table_index,
                scale_factor_index: self.scale_factor_index,
                payload,
            },
        )
    }
}

/// The bits a candidate costs in the spectrum: its 3-bit table index, and
/// for a coded subband its 6-bit scale factor and its payload.
pub fn candidate_total_bits(candidate: &QuantizedSubband) -> (r: usize)
    requires
        candidate.payload_bits + 9 <= usize::MAX,
    ensures
        r == 3 + if candidate.table_index == 0 {
            0
        } else {
            6 + candidate.payload_bits
        },
{
    3 + if candidate.table_index == 0 {
        0
    } else {
        6 + candidate.payload_bits
    }
}

/// A spectrum quantized for writing: the spectral unit, the quantized
/// subbands, and the reconstruction and its error as `f32` bit patterns.
#[derive(Debug, Clone, PartialEq)]
pub struct SpectrumEncoding {
    pub spectral_unit: SpectralUnit,
    pub quantized_subbands: Vec<QuantizedSubband>,
    pub reconstructed: Vec<u32>,
    pub payload_bits: usize,
    pub mse: u32,
}

pub(crate) fn copy_payload(p: &RawBitPayload) -> (q: RawBitPayload)
    ensures
        q.chunks@ == p.chunks@,
{
    let mut chunks: Vec<BitChunk> = Vec::new();
    let mut i: usize = 0;
    while i < p.chunks.len()
        invariant
            i <= p.chunks@.len(),
            chunks@ == p.chunks@.take(i as int),
        decreases p.chunks@.len() - i,
    {
        chunks.push(p.chunks[i]);
        assert(chunks@ =~= p.chunks@.take(i + 1));
        i += 1;
    }
    assert(chunks@ =~= p.chunks@);
    RawBitPayload { chunks }
}

/// Two spectral units with the same mode and the same subbands, field by
/// field.
pub open spec fn same_spectral_unit(a: SpectralUnit, b: SpectralUnit) -> bool {
    &&& a.coding_mode == b.coding_mode
    &&& a.subbands@.len() == b.subbands@.len()
    &&& forall|i: int|
        0 <= i < a.subbands@.len() ==> {
            &&& (#[trigger] a.subbands@[i]).table_index == b.subbands@[i].table_index
            &&& a.subbands@[i].scale_factor_index == b.subbands@[i].scale_factor_index
            &&& a.subbands@[i].payload.chunks@ == b.subbands@[i].payload.chunks@
        }
}

pub(crate) fn copy_spectral_unit(u: &SpectralUnit) -> (v: SpectralUnit)
    ensures
        same_spectral_unit(v, *u),
{
    let mut subbands: Vec<SpectralSubband> = Vec::new();
    let mut i: usize = 0;
    while i < u.subbands.len()
        invariant
            i <= u.subbands@.len(),
            subbands@.len() == i,
            forall|k: int|
                0 <= k < i ==> {
                    &&& (#[trigger] subbands@[k]).table_index == u.subbands@[k].table_index
                    &&& subbands@[k].scale_factor_index == u.subbands@[k].scale_factor_index
                    &&& subbands@[k].payload.chunks@ == u.subbands@[k].payload.chunks@
                },
        decreases u.subbands@.len() - i,
    {
        let s = &u.subbands[i];
        subbands.push(
            SpectralSubband {
                table_index: s.table_index,
                scale_factor_index: s.scale_factor_index,
                payload: copy_payload(&s.payload),
            },
        );
        i += 1;
    }
    SpectralUnit { coding_mode: u.coding_mode, subbands }
}

/// The plainest sound unit around an encoded spectrum: as many QMF bands as
/// its subbands need, each with no gain points, no tonal components, and
/// the all-VLC tonal selector.
pub fn build_basic_sound_unit_from_encoding(encoding: &SpectrumEncoding) -> (u: ChannelSoundUnit)
    ensures
        u.coded_qmf_bands == qmf_bands_for_subbands(encoding.spectral_unit.subbands@.len()),
        u.gain_bands@.len() == u.coded_qmf_bands,
        forall|b: int| 0 <= b < u.gain_bands@.len() ==> (#[trigger] u.gain_bands@[b]).points@.len() == 0,
        u.tonal_mode_selector == TonalCodingModeSelector::AllVlc,
        u.tonal_components@.len() == 0,
        same_spectral_unit(u.spectrum, encoding.spectral_unit),
{
    let coded_qmf_bands: u8 = coded_qmf_bands_for_subband_count(encoding.spectral_unit.subbands.len());
    let mut gain_bands: Vec<GainBand> = Vec::new();
    let mut b: u8 = 0;
    while b < coded_qmf_bands
        invariant
            b <= coded_qmf_bands <= 4,
            gain_bands@.len() == b,
            forall|k: int| 0 <= k < b ==> (#[trigger] gain_bands@[k]).points@.len() == 0,
        decreases coded_qmf_bands - b,
    {
        gain_bands.push(GainBand { points: Vec::new() });
        b += 1;
    }
    ChannelSoundUnit {
        coded_qmf_bands,
        gain_bands,
        tonal_mode_selector: TonalCodingModeSelector::AllVlc,
        tonal_components: Vec::new(),
        spectrum: copy_spectral_unit(&encoding.spectral_unit),
    }
}


/// The scale factor index of the peak of some coefficients, from their bit
/// patterns (the same rule the tonal search uses).
pub fn fast_peak_to_sf_index(coefficient_bits: &[u32]) -> (sf: u8)
    ensures
        sf == crate::quant_sony::peak_sf_index(crate::quant_sony::max_doubled_bits(coefficient_bits@)),
{
    crate::quant_sony::sony_peak_to_sf_index_group(coefficient_bits)
}

/// The peak scale factor index of each group of four coefficients of a
/// subband, from their bit patterns.
pub fn compute_group_sf_indices(coefficient_bits: &[u32]) -> (r: Vec<u8>)
    ensures
        r@ == crate::quant_sony::group_sf_seq(coefficient_bits@),
{
    crate::quant_sony::sony_group_sf_indices(coefficient_bits)
}

} // verus!

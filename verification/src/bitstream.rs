use vstd::prelude::*;
use vstd::arithmetic::power2::{pow2, lemma_pow2_unfold, lemma_pow2_pos, lemma2_to64};

use crate::error::Atrac3Error;

verus! {

/// Bit `k` (0 = most significant) of a byte.
pub open spec fn byte_bit(b: u8, k: int) -> bool {
    ((b >> ((7 - k) as u8)) & 1u8) == 1u8
}

/// The bits of a byte sequence, most significant bit of each byte first.
pub open spec fn bytes_to_bits(bytes: Seq<u8>) -> Seq<bool> {
    Seq::new(bytes.len() * 8, |i: int| byte_bit(bytes[i / 8], i % 8))
}

/// The `n` low bits of `value`, most significant first.
pub open spec fn value_bits(value: u32, n: nat) -> Seq<bool> {
    Seq::new(n, |i: int| ((value >> ((n - 1 - i) as u32)) & 1u32) == 1u32)
}

/// The unsigned integer that a bit sequence spells, most significant bit first.
pub open spec fn bits_value(s: Seq<bool>) -> nat
    decreases s.len(),
{
    if s.len() == 0 {
        0
    } else {
        2 * bits_value(s.drop_last()) + (if s.last() {
            1nat
        } else {
            0nat
        })
    }
}

/// The two's-complement bits that `write_signed` emits for `value` in `bits` bits.
pub open spec fn signed_bits(value: i32, bits: u8) -> Seq<bool> {
    value_bits(value as u32, bits as nat)
}

/// Append-only bit sink: bits are packed MSB-first into bytes, the last
/// byte zero-padded.
#[derive(Debug, Clone, Default)]
pub struct BitWriter {
    bytes: Vec<u8>,
    bit_len: usize,
}

impl View for BitWriter {
    type V = Seq<bool>;

    /// The bits written so far.
    closed spec fn view(&self) -> Seq<bool> {
        bytes_to_bits(self.bytes@).take(self.bit_len as int)
    }
}

impl BitWriter {
    /// The bytes hold exactly the written bits followed by zero padding up
    /// to the next byte boundary.
    pub closed spec fn wf(&self) -> bool {
        &&& self.bytes@.len() == (self.bit_len + 7) / 8
        &&& forall|i: int|
            self.bit_len <= i < self.bytes@.len() * 8 ==> !#[trigger] byte_bit(
                self.bytes@[i / 8],
                i % 8,
            )
    }

    /// The byte image of the writer: its bits padded with zeros to whole bytes.
    pub closed spec fn spec_bytes(&self) -> Seq<u8> {
        self.bytes@
    }

    pub proof fn lemma_bytes_image(&self)
        requires
            self.wf(),
        ensures
            self.spec_bytes().len() == (self@.len() + 7) / 8,
            bytes_to_bits(self.spec_bytes()) =~= self@ + Seq::new(
                (self.spec_bytes().len() * 8 - self@.len()) as nat,
                |i: int| false,
            ),
    {
        assert(self@.len() == self.bit_len);
    }

    pub fn new() -> (w: Self)
        ensures
            w.wf(),
            w@ == Seq::<bool>::empty(),
    {
        let w = BitWriter { bytes: Vec::new(), bit_len: 0 };
        assert(w@ =~= Seq::<bool>::empty());
        w
    }

    pub fn with_capacity(bytes: usize) -> (w: Self)
        ensures
            w.wf(),
            w@ == Seq::<bool>::empty(),
    {
        let w = BitWriter { bytes: Vec::with_capacity(bytes), bit_len: 0 };
        assert(w@ =~= Seq::<bool>::empty());
        w
    }

    pub fn bit_len(&self) -> (n: usize)
        requires
            self.wf(),
        ensures
            n == self@.len(),
    {
        self.bit_len
    }

    pub fn byte_len(&self) -> (n: usize)
        requires
            self.wf(),
        ensures
            n == (self@.len() + 7) / 8,
            n == self.spec_bytes().len(),
    {
        self.bytes.len()
    }

    pub fn as_bytes(&self) -> (b: &[u8])
        requires
            self.wf(),
        ensures
            b@ == self.spec_bytes(),
    {
        self.bytes.as_slice()
    }

    pub fn into_bytes(self) -> (b: Vec<u8>)
        requires
            self.wf(),
        ensures
            b@ == self.spec_bytes(),
    {
        self.bytes
    }

    pub fn write_bit(&mut self, bit: bool)
        requires
            old(self).wf(),
            old(self)@.len() < usize::MAX,
        ensures
            final(self).wf(),
            final(self)@ == old(self)@.push(bit),
            !bit && old(self)@.len() % 8 != 0 ==> final(self).spec_bytes() == old(self).spec_bytes(),
    {
        let ghost old_bytes = self.bytes@;
        let bl: usize = self.bit_len;
        let bit_offset: usize = bl & 7;
        assert(bit_offset == bl % 8) by (bit_vector)
            requires
                bit_offset == bl & 7,
        ;
        if bit_offset == 0 {
            self.bytes.push(0);
            proof {
                assert forall|k: int| 0 <= k < 8 implies !#[trigger] byte_bit(0u8, k) by {
                    lemma_zero_byte_bits(k as u8);
                }
            }
        }
        let ghost mid_bytes = self.bytes@;
        assert(self.bytes@.len() == self.bit_len / 8 + 1);
        if bit {
            let byte_index: usize = self.bytes.len() - 1;
            let off: u8 = bit_offset as u8;
            let old_byte: u8 = self.bytes[byte_index];
            let new_byte: u8 = old_byte | (1u8 << (7 - off));
            self.bytes.set(byte_index, new_byte);
            proof {
                assert forall|k: int| 0 <= k < 8 implies #[trigger] byte_bit(new_byte, k) == (k
                    == off || byte_bit(old_byte, k)) by {
                    lemma_set_bit(old_byte, off, k as u8);
                }
            }
        }
        self.bit_len = self.bit_len + 1;
        proof {
            let nb = self.bytes@;
            let n = self.bit_len;
            assert forall|i: int| 0 <= i < n - 1 implies #[trigger] byte_bit(nb[i / 8], i % 8) == byte_bit(
                old_bytes[i / 8],
                i % 8,
            ) by {
                if i / 8 == (n - 1) / 8 {
                    assert(i % 8 != bit_offset);
                }
            }
            assert(byte_bit(nb[(n - 1) / 8], (n - 1) % 8) == bit);
            assert forall|i: int| n <= i < nb.len() * 8 implies !#[trigger] byte_bit(
                nb[i / 8],
                i % 8,
            ) by {
                if bit_offset != 0 {
                    assert(i < old_bytes.len() * 8);
                    assert(!byte_bit(old_bytes[i / 8], i % 8));
                    if i / 8 == (n - 1) / 8 {
                        assert(i % 8 != bit_offset);
                    }
                } else {
                    assert(i / 8 == (n - 1) / 8);
                    assert(!byte_bit(0u8, i % 8)) by {
                        lemma_zero_byte_bits((i % 8) as u8);
                    }
                    if bit {
                        assert(i % 8 != bit_offset);
                    }
                }
            }
            assert(self@ =~= old(self)@.push(bit));
        }
    }

    /// Writes the `bits` low bits of `value`, most significant first.
    pub fn write_bits(&mut self, value: u32, bits: u8) -> (r: Result<(), Atrac3Error>)
        requires
            old(self).wf(),
            old(self)@.len() + bits <= usize::MAX,
        ensures
            final(self).wf(),
            bits <= 32 ==> r is Ok && final(self)@ == old(self)@ + value_bits(value, bits as nat),
            bits > 32 ==> r == Err::<(), Atrac3Error>(Atrac3Error::BitWidthTooLarge { bits })
                && final(self)@ == old(self)@,
    {
        if bits > 32 {
            return Err(Atrac3Error::BitWidthTooLarge { bits });
        }
        if bits == 0 {
            assert(value_bits(value, 0) =~= Seq::<bool>::empty());
            assert(self@ =~= old(self)@ + value_bits(value, 0));
            return Ok(());
        }
        let masked: u32 = if bits == 32 {
            value
        } else {
            assert(1u32 << bits >= 1u32) by (bit_vector)
                requires
                    bits < 32,
            ;
            value & ((1u32 << bits) - 1)
        };
        proof {
            assert forall|s: u32| s < bits implies ((masked >> s) & 1u32) == ((value >> s) & 1u32) by {
                lemma_mask_keeps_low_bits(value, bits as u32, s, masked);
            }
        }
        let mut j: u8 = 0;
        while j < bits
            invariant
                0 < bits <= 32,
                j <= bits,
                self.wf(),
                old(self)@.len() + bits <= usize::MAX,
                forall|s: u32| s < bits ==> ((masked >> s) & 1u32) == ((value >> s) & 1u32),
                self@ == old(self)@ + value_bits(value, bits as nat).take(j as int),
            decreases bits - j,
        {
            let shift: u8 = bits - 1 - j;
            let b: bool = ((masked >> shift) & 1) != 0;
            proof {
                assert(((masked >> (shift as u32)) & 1u32) == ((value >> (shift as u32)) & 1u32));
                lemma_and_one_is_bool(masked >> (shift as u32));
            }
            self.write_bit(b);
            proof {
                assert(value_bits(value, bits as nat).take(j + 1) =~= value_bits(
                    value,
                    bits as nat,
                ).take(j as int).push(b));
            }
            j = j + 1;
        }
        assert(value_bits(value, bits as nat).take(bits as int) =~= value_bits(value, bits as nat));
        Ok(())
    }

    /// Writes `value` as a `bits`-wide two's-complement field.
    pub fn write_signed(&mut self, value: i32, bits: u8) -> (r: Result<(), Atrac3Error>)
        requires
            old(self).wf(),
            old(self)@.len() + bits <= usize::MAX,
        ensures
            final(self).wf(),
            0 < bits <= 32 ==> r is Ok && final(self)@ == old(self)@ + signed_bits(value, bits),
            !(0 < bits <= 32) ==> r == Err::<(), Atrac3Error>(
                Atrac3Error::SignedBitWidthOutOfRange { bits },
            ) && final(self)@ == old(self)@,
    {
        if !(bits > 0 && bits <= 32) {
            return Err(Atrac3Error::SignedBitWidthOutOfRange { bits });
        }
        let encoded: u32 = if bits == 32 {
            value as u32
        } else {
            assert(1i64 << bits >= 1i64) by (bit_vector)
                requires
                    0 < bits < 32,
            ;
            let mask: i64 = (1i64 << bits) - 1;
            let e: u32 = (value as i64 & mask) as u32;
            proof {
                assert forall|s: u32| s < bits implies ((e >> s) & 1u32) == (((value as u32) >> s)
                    & 1u32) by {
                    lemma_signed_mask_low_bits(value, bits as u64, s);
                }
                assert(value_bits(e, bits as nat) =~= value_bits(value as u32, bits as nat));
            }
            e
        };
        self.write_bits(encoded, bits)
    }

    /// Pads with zero bits up to the next byte boundary.
    pub fn byte_align_zero(&mut self)
        requires
            old(self).wf(),
            old(self)@.len() + 8 <= usize::MAX,
        ensures
            final(self).wf(),
            final(self)@.len() == (old(self)@.len() + 7) / 8 * 8,
            final(self)@ == old(self)@ + Seq::new(
                (final(self)@.len() - old(self)@.len()) as nat,
                |i: int| false,
            ),
            final(self).spec_bytes() == old(self).spec_bytes(),
    {
        let ghost start = self@;
        while (self.bit_len & 7) != 0
            invariant
                self.wf(),
                start.len() + 8 <= usize::MAX,
                start.len() <= self@.len() <= (start.len() + 7) / 8 * 8,
                self.spec_bytes() == old(self).spec_bytes(),
                self@ == start + Seq::new((self@.len() - start.len()) as nat, |i: int| false),
            decreases (start.len() + 7) / 8 * 8 - self@.len(),
        {
            let bl: usize = self.bit_len;
            assert(bl % 8 != 0) by (bit_vector)
                requires
                    (bl & 7) != 0,
            ;
            let ghost before = self.bytes@;
            self.write_bit(false);
            proof {
                // Writing a zero bit into the padded tail leaves the bytes untouched.
                assert(self.bytes@ =~= before);
                assert(self@ =~= start + Seq::new(
                    (self@.len() - start.len()) as nat,
                    |i: int| false,
                ));
            }
        }
        let bl: usize = self.bit_len;
        assert(bl % 8 == 0) by (bit_vector)
            requires
                (bl & 7) == 0,
        ;
    }
}

/// Cursor over a byte slice that reads bits MSB-first.
#[derive(Debug, Clone, Copy)]
pub struct BitReader<'a> {
    bytes: &'a [u8],
    bit_len: usize,
    bit_pos: usize,
}

impl<'a> BitReader<'a> {
    /// All bits of the underlying bytes.
    pub closed spec fn spec_bits(&self) -> Seq<bool> {
        bytes_to_bits(self.bytes@)
    }

    /// The current read position in bits.
    pub closed spec fn spec_pos(&self) -> nat {
        self.bit_pos as nat
    }

    pub closed spec fn wf(&self) -> bool {
        &&& self.bit_len == self.bytes@.len() * 8
        &&& self.bit_pos <= self.bit_len
    }

    /// A well-formed reader's position lies within its bits.
    pub proof fn lemma_pos_within_bits(&self)
        requires
            self.wf(),
        ensures
            self.spec_pos() <= self.spec_bits().len(),
    {
    }

    pub fn new(bytes: &'a [u8]) -> (r: Self)
        requires
            bytes@.len() * 8 <= usize::MAX,
        ensures
            r.wf(),
            r.spec_bits() == bytes_to_bits(bytes@),
            r.spec_pos() == 0,
            r.spec_pos() <= r.spec_bits().len(),
    {
        BitReader { bytes, bit_len: bytes.len() * 8, bit_pos: 0 }
    }

    pub fn bit_pos(&self) -> (p: usize)
        ensures
            p == self.spec_pos(),
    {
        self.bit_pos
    }

    pub fn bits_remaining(&self) -> (n: usize)
        requires
            self.wf(),
        ensures
            n == if self.spec_pos() <= self.spec_bits().len() {
                self.spec_bits().len() - self.spec_pos()
            } else {
                0
            },
    {
        if self.bit_len >= self.bit_pos {
            self.bit_len - self.bit_pos
        } else {
            0
        }
    }

    pub fn read_bit(&mut self) -> (r: Result<bool, Atrac3Error>)
        requires
            old(self).wf(),
        ensures
            final(self).wf(),
            final(self).spec_bits() == old(self).spec_bits(),
            final(self).spec_pos() <= final(self).spec_bits().len(),
            old(self).spec_pos() < old(self).spec_bits().len() ==> r == Ok::<bool, Atrac3Error>(
                old(self).spec_bits()[old(self).spec_pos() as int],
            ) && final(self).spec_pos() == old(self).spec_pos() + 1,
            old(self).spec_pos() >= old(self).spec_bits().len() ==> r == Err::<bool, Atrac3Error>(
                Atrac3Error::UnexpectedEndOfBitstream,
            ) && final(self).spec_pos() == old(self).spec_pos(),
    {
        if self.bit_pos >= self.bit_len {
            return Err(Atrac3Error::UnexpectedEndOfBitstream);
        }
        let p: usize = self.bit_pos;
        assert((p >> 3) == p / 8 && (p & 7) == p % 8) by (bit_vector);
        proof {
            let q = p as int;
            let l = self.bytes@.len() as int;
            assert(q / 8 < l) by (nonlinear_arith)
                requires
                    0 <= q < l * 8,
            ;
        }
        let byte: u8 = self.bytes[p >> 3];
        let off: usize = p & 7;
        let sh: u8 = 7 - off as u8;
        let bit: u8 = (byte >> sh) & 1;
        assert(((bit != 0) == (bit == 1u8))) by (bit_vector)
            requires
                bit == (byte >> sh) & 1,
        ;
        self.bit_pos = self.bit_pos + 1;
        Ok(bit != 0)
    }

    pub fn read_bits(&mut self, bits: u8) -> (r: Result<u32, Atrac3Error>)
        requires
            old(self).wf(),
        ensures
            final(self).wf(),
            final(self).spec_bits() == old(self).spec_bits(),
            final(self).spec_pos() <= final(self).spec_bits().len(),
            ({
                let remaining = if old(self).spec_pos() <= old(self).spec_bits().len() {
                    old(self).spec_bits().len() - old(self).spec_pos()
                } else {
                    0
                };
                let p = old(self).spec_pos() as int;
                if bits > 32 {
                    r == Err::<u32, Atrac3Error>(Atrac3Error::BitWidthTooLarge { bits })
                        && final(self).spec_pos() == old(self).spec_pos()
                } else if remaining < bits {
                    r == Err::<u32, Atrac3Error>(
                        Atrac3Error::NotEnoughBits { requested: bits as usize, remaining: remaining as usize },
                    ) && final(self).spec_pos() == old(self).spec_pos()
                } else {
                    r == Ok::<u32, Atrac3Error>(
                        bits_value(old(self).spec_bits().subrange(p, p + bits)) as u32,
                    ) && final(self).spec_pos() == p + bits
                }
            }),
    {
        if bits > 32 {
            return Err(Atrac3Error::BitWidthTooLarge { bits });
        }
        let remaining: usize = self.bits_remaining();
        if remaining < bits as usize {
            return Err(Atrac3Error::NotEnoughBits { requested: bits as usize, remaining });
        }
        let ghost p = self.bit_pos as int;
        let ghost all = self.spec_bits();
        let mut value: u32 = 0;
        let mut k: u8 = 0;
        while k < bits
            invariant
                bits <= 32,
                k <= bits,
                self.wf(),
                self.spec_bits() == all,
                self.bit_pos == p + k,
                0 <= p,
                p + bits <= all.len(),
                value as nat == bits_value(all.subrange(p, p + k)),
            decreases bits - k,
        {
            let b: bool = match self.read_bit() {
                Ok(b) => b,
                Err(e) => {
                    return Err(e);
                },
            };
            proof {
                lemma_bits_value_bound(all.subrange(p, p + k));
                lemma_pow2_le(k as nat, 31);
                lemma2_to64();
                assert(all.subrange(p, p + k + 1).drop_last() =~= all.subrange(p, p + k));
            }
            let add: u32 = if b {
                1
            } else {
                0
            };
            assert((value << 1u32) | add == value * 2 + add) by (bit_vector)
                requires
                    value < 0x8000_0000u32,
                    add <= 1,
            ;
            value = (value << 1) | add;
            k = k + 1;
        }
        proof {
            lemma_bits_value_bound(all.subrange(p, p + bits));
            lemma_pow2_le(bits as nat, 32);
            lemma2_to64();
        }
        Ok(value)
    }

    pub fn skip_bits(&mut self, bits: usize) -> (r: Result<(), Atrac3Error>)
        requires
            old(self).wf(),
        ensures
            final(self).wf(),
            final(self).spec_bits() == old(self).spec_bits(),
            final(self).spec_pos() <= final(self).spec_bits().len(),
            ({
                let remaining = if old(self).spec_pos() <= old(self).spec_bits().len() {
                    old(self).spec_bits().len() - old(self).spec_pos()
                } else {
                    0
                };
                if remaining < bits {
                    r == Err::<(), Atrac3Error>(
                        Atrac3Error::SkipPastEnd { requested: bits, remaining: remaining as usize },
                    ) && final(self).spec_pos() == old(self).spec_pos()
                } else {
                    r is Ok && final(self).spec_pos() == old(self).spec_pos() + bits
                }
            }),
    {
        let remaining: usize = self.bits_remaining();
        if remaining < bits {
            return Err(Atrac3Error::SkipPastEnd { requested: bits, remaining });
        }
        self.bit_pos = self.bit_pos + bits;
        Ok(())
    }
}

proof fn lemma_zero_byte_bits(k: u8)
    requires
        k < 8,
    ensures
        ((0u8 >> (7 - k) as u8) & 1u8) != 1u8,
{
    assert(((0u8 >> (7 - k) as u8) & 1u8) != 1u8) by (bit_vector)
        requires
            k < 8,
    ;
}

proof fn lemma_set_bit(b: u8, off: u8, k: u8)
    requires
        off < 8,
        k < 8,
    ensures
        byte_bit(b | (1u8 << (7 - off) as u8), k as int) == (k == off || byte_bit(b, k as int)),
{
    assert((((b | (1u8 << (7 - off) as u8)) >> (7 - k) as u8) & 1u8 == 1u8) == (k == off || ((b
        >> (7 - k) as u8) & 1u8) == 1u8)) by (bit_vector)
        requires
            off < 8,
            k < 8,
    ;
}

proof fn lemma_mask_keeps_low_bits(value: u32, bits: u32, s: u32, masked: u32)
    requires
        0 < bits <= 32,
        s < bits,
        bits == 32 ==> masked == value,
        bits < 32 ==> masked == value & (((1u32 << bits) - 1u32) as u32),
    ensures
        ((masked >> s) & 1u32) == ((value >> s) & 1u32),
{
    assert(((masked >> s) & 1u32) == ((value >> s) & 1u32)) by (bit_vector)
        requires
            0 < bits <= 32,
            s < bits,
            bits == 32 ==> masked == value,
            bits < 32 ==> masked == value & (((1u32 << bits) - 1u32) as u32),
    ;
}

proof fn lemma_signed_mask_low_bits(value: i32, bits: u64, s: u32)
    requires
        0 < bits < 32,
        s < bits,
    ensures
        ((((value as i64) & (((1i64 << bits) - 1i64) as i64)) as u32 >> s) & 1u32) == (((value as u32) >> s)
            & 1u32),
{
    assert(((((value as i64) & (((1i64 << bits) - 1i64) as i64)) as u32 >> s) & 1u32) == (((value as u32)
        >> s) & 1u32)) by (bit_vector)
        requires
            0 < bits < 32,
            s < bits,
    ;
}

proof fn lemma_and_one_is_bool(x: u32)
    ensures
        ((x & 1u32) != 0) == ((x & 1u32) == 1u32),
{
    assert(((x & 1u32) != 0) == ((x & 1u32) == 1u32)) by (bit_vector);
}

pub proof fn lemma_pow2_le(a: nat, b: nat)
    requires
        a <= b,
    ensures
        pow2(a) <= pow2(b),
    decreases b,
{
    if a < b {
        lemma_pow2_le(a, (b - 1) as nat);
        lemma_pow2_unfold(b);
    }
}

/// A bit sequence spells a value below two to the power of its length.
pub proof fn lemma_bits_value_bound(s: Seq<bool>)
    ensures
        bits_value(s) < pow2(s.len()),
    decreases s.len(),
{
    if s.len() == 0 {
        lemma_pow2_pos(0);
        reveal_with_fuel(pow2, 1);
    } else {
        lemma_bits_value_bound(s.drop_last());
        lemma_pow2_unfold(s.len());
    }
}

} // verus!

use vstd::prelude::*;

verus! {

pub const MDCT_COEFFS_PER_BAND: usize = 256;
pub const MDCT_INPUT_SAMPLES: usize = 512;
pub const PRE_ROTATION_BINS: usize = 128;

/// The low `n` bits of `x`, read in reverse order, appended to `acc`.
pub open spec fn reversed_bits(x: nat, n: nat, acc: nat) -> nat
    decreases n,
{
    if n == 0 {
        acc
    } else {
        reversed_bits(x / 2, (n - 1) as nat, acc * 2 + x % 2)
    }
}

/// The seven-bit reversal of `i`.
pub open spec fn bit_reverse7(i: nat) -> nat {
    reversed_bits(i, 7, 0)
}

/// The FFT's input permutation: entry `i` is `i` with its seven bits
/// reversed.
pub fn build_bit_reverse_table() -> (out: [usize; 128])
    ensures
        forall|i: int| 0 <= i < PRE_ROTATION_BINS ==> #[trigger] out@[i] == bit_reverse7(i as nat),
{
    let mut out: [usize; 128] = [0; 128];
    let mut index: usize = 0;
    while index < PRE_ROTATION_BINS
        invariant
            index <= PRE_ROTATION_BINS,
            forall|i: int| 0 <= i < index ==> #[trigger] out@[i] == bit_reverse7(i as nat),
        decreases PRE_ROTATION_BINS - index,
    {
        let mut x: usize = index;
        let mut acc: usize = 0;
        let mut n: usize = 7;
        proof {
            vstd::arithmetic::power2::lemma2_to64();
        }
        while n > 0
            invariant
                n <= 7,
                x <= index,
                acc < vstd::arithmetic::power2::pow2((7 - n) as nat),
                reversed_bits(x as nat, n as nat, acc as nat) == bit_reverse7(index as nat),
            decreases n,
        {
            proof {
                vstd::arithmetic::power2::lemma2_to64();
                vstd::arithmetic::power2::lemma_pow2_unfold((8 - n) as nat);
            }
            acc = acc * 2 + x % 2;
            x = x / 2;
            n = n - 1;
        }
        out[index] = acc;
        index += 1;
    }
    out
}

} // verus!

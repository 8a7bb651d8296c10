//! How shifts on a 64-bit word read as arithmetic.

use vstd::prelude::*;
use vstd::arithmetic::power2::{lemma_pow2_strictly_increases, pow2};
use vstd::bits::{lemma_u64_pow2_no_overflow, lemma_u64_shl_is_mul};

verus! {

/// Powers of two grow with the exponent.
pub proof fn lemma_pow2_monotone(a: nat, b: nat)
    requires
        a <= b,
    ensures
        pow2(a) <= pow2(b),
{
    if a < b {
        lemma_pow2_strictly_increases(a, b);
    }
}

/// `1 << bits` is `2^bits` for every shift that a 64-bit word allows.
pub proof fn lemma_one_shl(bits: u64)
    requires
        bits < 64,
    ensures
        (1u64 << bits) == pow2(bits as nat),
        pow2(bits as nat) >= 1,
{
    lemma_u64_pow2_no_overflow(bits as nat);
    lemma_u64_shl_is_mul(1, bits);
}

/// Shifting `acc` up by `bits` and filling the freed bits with `v` puts `v`
/// below `acc` as a new lowest digit.
pub proof fn lemma_push_digit(acc: u64, v: u64, bits: u64)
    requires
        bits < 64,
        acc * pow2(bits as nat) <= u64::MAX,
        (v as nat) < pow2(bits as nat),
    ensures
        ((acc << bits) | v) == acc * pow2(bits as nat) + v,
{
    lemma_u64_shl_is_mul(acc, bits);
    lemma_one_shl(bits);
    let high = acc << bits;
    assert((high | v) == high + v) by (bit_vector)
        requires
            high == acc << bits,
            bits < 64,
            v < (1u64 << bits),
    ;
}

} // verus!

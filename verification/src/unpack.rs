//! Unpacking: from one word to the values it stands for, layout by layout.

use vstd::prelude::*;
use vstd::arithmetic::div_mod::lemma_div_denominator;
use vstd::arithmetic::power2::{lemma2_to64, lemma_pow2_adds, lemma_pow2_pos, pow2};
use vstd::bits::{
    lemma_u64_low_bits_mask_is_mod,
    lemma_u64_pow2_no_overflow,
    lemma_u64_shr_is_div,
    low_bits_mask,
};
use crate::bits::lemma_one_shl;
use crate::selector::{selector_bits, selector_n};
use crate::word::{field, unpacked_as};

verus! {

/// Writes the value one into the first `n` slots of `dst`.
fn fill_ones(dst: &mut [u64], id: u64, n: usize)
    requires
        id < 2,
        n == selector_n(id as int),
        old(dst)@.len() >= n,
    ensures
        final(dst)@.len() == old(dst)@.len(),
        forall|i: int| 0 <= i < n ==> #[trigger] final(dst)@[i] == 1,
        forall|v: u64| final(dst)@.take(n as int) == #[trigger] unpacked_as(id as int, v),
        final(dst)@.skip(n as int) == old(dst)@.skip(n as int),
{
    let mut i: usize = 0;
    while i < n
        invariant
            0 <= i <= n <= dst@.len(),
            dst@.len() == old(dst)@.len(),
            forall|k: int| 0 <= k < i ==> #[trigger] dst@[k] == 1,
            forall|k: int| i <= k < dst@.len() ==> #[trigger] dst@[k] == old(dst)@[k],
        decreases n - i,
    {
        dst[i] = 1;
        i = i + 1;
    }
    assert forall|v: u64| dst@.take(n as int) == #[trigger] unpacked_as(id as int, v) by {
        assert(dst@.take(n as int) =~= unpacked_as(id as int, v));
    }
}

/// Reads `n` digits of `bits` bits each out of `v`, lowest first, into the
/// first `n` slots of `dst`.
fn unpack_values(v: u64, dst: &mut [u64], id: u64, n: usize, bits: u64)
    requires
        2 <= id < 16,
        n == selector_n(id as int),
        bits == selector_bits(id as int),
        old(dst)@.len() >= n,
    ensures
        final(dst)@.len() == old(dst)@.len(),
        forall|i: int| 0 <= i < n ==> #[trigger] final(dst)@[i] == field(v, i as nat, bits as nat),
        final(dst)@.take(n as int) == unpacked_as(id as int, v),
        final(dst)@.skip(n as int) == old(dst)@.skip(n as int),
{
    proof {
        lemma_one_shl(bits);
    }
    let mask: u64 = (1u64 << bits) - 1;
    let mut rest: u64 = v;
    let mut i: usize = 0;
    proof {
        lemma2_to64();
        assert(pow2((i * bits) as nat) == 1);
    }
    while i < n
        invariant
            0 <= i <= n <= dst@.len(),
            dst@.len() == old(dst)@.len(),
            0 < bits <= 60,
            mask == low_bits_mask(bits as nat),
            rest == v as nat / pow2((i * bits) as nat),
            forall|k: int| 0 <= k < i ==> #[trigger] dst@[k] == field(v, k as nat, bits as nat),
            forall|k: int| i <= k < dst@.len() ==> #[trigger] dst@[k] == old(dst)@[k],
        decreases n - i,
    {
        proof {
            // Masking takes the digit at the bottom; shifting drops it.
            let below = pow2((i * bits) as nat);
            lemma_u64_pow2_no_overflow(bits as nat);
            lemma_u64_low_bits_mask_is_mod(rest, bits as nat);
            lemma_u64_shr_is_div(rest, bits);
            lemma_pow2_pos((i * bits) as nat);
            lemma_pow2_pos(bits as nat);
            lemma_div_denominator(v as int, below as int, pow2(bits as nat) as int);
            lemma_pow2_adds((i * bits) as nat, bits as nat);
            assert(i * bits + bits == (i + 1) * bits) by (nonlinear_arith);
        }
        dst[i] = rest & mask;
        rest = rest >> bits;
        i = i + 1;
    }
}

/// Selector 0: fills the first two hundred and forty slots of `dst`
/// with ones, whatever the payload of `v` holds.
pub fn unpack240(v: u64, dst: &mut [u64])
    requires
        old(dst)@.len() >= 240,
    ensures
        final(dst)@.len() == old(dst)@.len(),
        final(dst)@.take(240) == unpacked_as(0, v),
        forall|i: int| 0 <= i < 240 ==> #[trigger] final(dst)@[i] == 1,
        final(dst)@.skip(240) == old(dst)@.skip(240),
{
    fill_ones(dst, 0, 240);
}

/// Selector 1: fills the first one hundred and twenty slots of `dst`
/// with ones, whatever the payload of `v` holds.
pub fn unpack120(v: u64, dst: &mut [u64])
    requires
        old(dst)@.len() >= 120,
    ensures
        final(dst)@.len() == old(dst)@.len(),
        final(dst)@.take(120) == unpacked_as(1, v),
        forall|i: int| 0 <= i < 120 ==> #[trigger] final(dst)@[i] == 1,
        final(dst)@.skip(120) == old(dst)@.skip(120),
{
    fill_ones(dst, 1, 120);
}

/// Selector 2: reads sixty values of 1 bit each out of `v`.
pub fn unpack60(v: u64, dst: &mut [u64])
    requires
        old(dst)@.len() >= 60,
    ensures
        final(dst)@.len() == old(dst)@.len(),
        final(dst)@.take(60) == unpacked_as(2, v),
        forall|i: int| 0 <= i < 60 ==> #[trigger] final(dst)@[i] == field(v, i as nat, 1),
        final(dst)@.skip(60) == old(dst)@.skip(60),
{
    unpack_values(v, dst, 2, 60, 1);
}

/// Selector 3: reads thirty values of 2 bits each out of `v`.
pub fn unpack30(v: u64, dst: &mut [u64])
    requires
        old(dst)@.len() >= 30,
    ensures
        final(dst)@.len() == old(dst)@.len(),
        final(dst)@.take(30) == unpacked_as(3, v),
        forall|i: int| 0 <= i < 30 ==> #[trigger] final(dst)@[i] == field(v, i as nat, 2),
        final(dst)@.skip(30) == old(dst)@.skip(30),
{
    unpack_values(v, dst, 3, 30, 2);
}

/// Selector 4: reads twenty values of 3 bits each out of `v`.
pub fn unpack20(v: u64, dst: &mut [u64])
    requires
        old(dst)@.len() >= 20,
    ensures
        final(dst)@.len() == old(dst)@.len(),
        final(dst)@.take(20) == unpacked_as(4, v),
        forall|i: int| 0 <= i < 20 ==> #[trigger] final(dst)@[i] == field(v, i as nat, 3),
        final(dst)@.skip(20) == old(dst)@.skip(20),
{
    unpack_values(v, dst, 4, 20, 3);
}

/// Selector 5: reads fifteen values of 4 bits each out of `v`.
pub fn unpack15(v: u64, dst: &mut [u64])
    requires
        old(dst)@.len() >= 15,
    ensures
        final(dst)@.len() == old(dst)@.len(),
        final(dst)@.take(15) == unpacked_as(5, v),
        forall|i: int| 0 <= i < 15 ==> #[trigger] final(dst)@[i] == field(v, i as nat, 4),
        final(dst)@.skip(15) == old(dst)@.skip(15),
{
    unpack_values(v, dst, 5, 15, 4);
}

/// Selector 6: reads twelve values of 5 bits each out of `v`.
pub fn unpack12(v: u64, dst: &mut [u64])
    requires
        old(dst)@.len() >= 12,
    ensures
        final(dst)@.len() == old(dst)@.len(),
        final(dst)@.take(12) == unpacked_as(6, v),
        forall|i: int| 0 <= i < 12 ==> #[trigger] final(dst)@[i] == field(v, i as nat, 5),
        final(dst)@.skip(12) == old(dst)@.skip(12),
{
    unpack_values(v, dst, 6, 12, 5);
}

/// Selector 7: reads ten values of 6 bits each out of `v`.
pub fn unpack10(v: u64, dst: &mut [u64])
    requires
        old(dst)@.len() >= 10,
    ensures
        final(dst)@.len() == old(dst)@.len(),
        final(dst)@.take(10) == unpacked_as(7, v),
        forall|i: int| 0 <= i < 10 ==> #[trigger] final(dst)@[i] == field(v, i as nat, 6),
        final(dst)@.skip(10) == old(dst)@.skip(10),
{
    unpack_values(v, dst, 7, 10, 6);
}

/// Selector 8: reads eight values of 7 bits each out of `v`.
pub fn unpack8(v: u64, dst: &mut [u64])
    requires
        old(dst)@.len() >= 8,
    ensures
        final(dst)@.len() == old(dst)@.len(),
        final(dst)@.take(8) == unpacked_as(8, v),
        forall|i: int| 0 <= i < 8 ==> #[trigger] final(dst)@[i] == field(v, i as nat, 7),
        final(dst)@.skip(8) == old(dst)@.skip(8),
{
    unpack_values(v, dst, 8, 8, 7);
}

/// Selector 9: reads seven values of 8 bits each out of `v`.
pub fn unpack7(v: u64, dst: &mut [u64])
    requires
        old(dst)@.len() >= 7,
    ensures
        final(dst)@.len() == old(dst)@.len(),
        final(dst)@.take(7) == unpacked_as(9, v),
        forall|i: int| 0 <= i < 7 ==> #[trigger] final(dst)@[i] == field(v, i as nat, 8),
        final(dst)@.skip(7) == old(dst)@.skip(7),
{
    unpack_values(v, dst, 9, 7, 8);
}

/// Selector 10: reads six values of 10 bits each out of `v`.
pub fn unpack6(v: u64, dst: &mut [u64])
    requires
        old(dst)@.len() >= 6,
    ensures
        final(dst)@.len() == old(dst)@.len(),
        final(dst)@.take(6) == unpacked_as(10, v),
        forall|i: int| 0 <= i < 6 ==> #[trigger] final(dst)@[i] == field(v, i as nat, 10),
        final(dst)@.skip(6) == old(dst)@.skip(6),
{
    unpack_values(v, dst, 10, 6, 10);
}

/// Selector 11: reads five values of 12 bits each out of `v`.
pub fn unpack5(v: u64, dst: &mut [u64])
    requires
        old(dst)@.len() >= 5,
    ensures
        final(dst)@.len() == old(dst)@.len(),
        final(dst)@.take(5) == unpacked_as(11, v),
        forall|i: int| 0 <= i < 5 ==> #[trigger] final(dst)@[i] == field(v, i as nat, 12),
        final(dst)@.skip(5) == old(dst)@.skip(5),
{
    unpack_values(v, dst, 11, 5, 12);
}

/// Selector 12: reads four values of 15 bits each out of `v`.
pub fn unpack4(v: u64, dst: &mut [u64])
    requires
        old(dst)@.len() >= 4,
    ensures
        final(dst)@.len() == old(dst)@.len(),
        final(dst)@.take(4) == unpacked_as(12, v),
        forall|i: int| 0 <= i < 4 ==> #[trigger] final(dst)@[i] == field(v, i as nat, 15),
        final(dst)@.skip(4) == old(dst)@.skip(4),
{
    unpack_values(v, dst, 12, 4, 15);
}

/// Selector 13: reads three values of 20 bits each out of `v`.
pub fn unpack3(v: u64, dst: &mut [u64])
    requires
        old(dst)@.len() >= 3,
    ensures
        final(dst)@.len() == old(dst)@.len(),
        final(dst)@.take(3) == unpacked_as(13, v),
        forall|i: int| 0 <= i < 3 ==> #[trigger] final(dst)@[i] == field(v, i as nat, 20),
        final(dst)@.skip(3) == old(dst)@.skip(3),
{
    unpack_values(v, dst, 13, 3, 20);
}

/// Selector 14: reads two values of 30 bits each out of `v`.
pub fn unpack2(v: u64, dst: &mut [u64])
    requires
        old(dst)@.len() >= 2,
    ensures
        final(dst)@.len() == old(dst)@.len(),
        final(dst)@.take(2) == unpacked_as(14, v),
        forall|i: int| 0 <= i < 2 ==> #[trigger] final(dst)@[i] == field(v, i as nat, 30),
        final(dst)@.skip(2) == old(dst)@.skip(2),
{
    unpack_values(v, dst, 14, 2, 30);
}

/// Selector 15: reads one value of 60 bits each out of `v`.
pub fn unpack1(v: u64, dst: &mut [u64])
    requires
        old(dst)@.len() >= 1,
    ensures
        final(dst)@.len() == old(dst)@.len(),
        final(dst)@.take(1) == unpacked_as(15, v),
        forall|i: int| 0 <= i < 1 ==> #[trigger] final(dst)@[i] == field(v, i as nat, 60),
        final(dst)@.skip(1) == old(dst)@.skip(1),
{
    unpack_values(v, dst, 15, 1, 60);
}

} // verus!

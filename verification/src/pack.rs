//! Packing: from the head of a buffer to one word, layout by layout.

use vstd::prelude::*;
use vstd::arithmetic::power2::{lemma2_to64_rest, lemma_pow2_adds, pow2};
use crate::bits::{lemma_one_shl, lemma_pow2_monotone, lemma_push_digit};
use crate::selector::{selector_bits, selector_n, selector_of};
use crate::word::{
    can_pack_spec,
    lemma_payload_bound,
    lemma_word_round_trip,
    packed_word,
    payload,
    unpacked,
};

verus! {

/// Decides whether the next `n` values of `src` can be packed at the width
/// `bits`: there must be `n` of them, and each must fit the width. At width
/// zero a value fits when it is one; at any other width, when it is at most
/// `2^bits - 1`.
pub fn can_pack(src: &[u64], n: usize, bits: usize) -> (r: bool)
    ensures
        r == can_pack_spec(src@, n as nat, bits as nat),
        src@.len() < n ==> !r,
        bits > 0 ==> (r <==> src@.len() >= n && forall|i: int|
            0 <= i < n ==> #[trigger] src@[i] <= pow2(bits as nat) - 1),
        bits == 0 ==> (r <==> src@.len() >= n && forall|i: int|
            0 <= i < n ==> #[trigger] src@[i] == 1),
{
    if src.len() < n {
        return false;
    }
    if bits == 0 {
        let mut i: usize = 0;
        while i < n
            invariant
                0 <= i <= n <= src@.len(),
                bits == 0,
                forall|k: int| 0 <= k < i ==> #[trigger] src@[k] == 1,
            decreases n - i,
        {
            if src[i] != 1 {
                return false;
            }
            i = i + 1;
        }
        return true;
    }
    if bits >= 64 {
        proof {
            lemma2_to64_rest();
            lemma_pow2_monotone(64, bits as nat);
        }
        return true;
    }
    let width: u64 = bits as u64;
    proof {
        lemma_one_shl(width);
    }
    let max: u64 = (1u64 << width) - 1;
    let mut i: usize = 0;
    while i < n
        invariant
            0 <= i <= n <= src@.len(),
            0 < bits < 64,
            max == pow2(bits as nat) - 1,
            forall|k: int| 0 <= k < i ==> #[trigger] src@[k] <= max,
        decreases n - i,
    {
        if src[i] > max {
            return false;
        }
        i = i + 1;
    }
    true
}

/// Packs the first `n` values of `src` at the width `bits` under the
/// selector `id`, last value first, so that the first value ends in the
/// lowest bits.
fn pack_values(src: &[u64], id: u64, n: usize, bits: u64) -> (w: u64)
    requires
        id < 16,
        n == selector_n(id as int),
        bits == selector_bits(id as int),
        bits > 0,
        can_pack_spec(src@, n as nat, bits as nat),
    ensures
        w == packed_word(id as int, src@.take(n as int)),
        selector_of(w) == id,
        unpacked(w) == src@.take(n as int),
{
    let mut acc: u64 = 0;
    let mut i: usize = n;
    while i > 0
        invariant
            0 <= i <= n <= src@.len(),
            0 < bits <= 60,
            n * bits <= 60,
            forall|k: int| 0 <= k < n ==> (#[trigger] src@[k] as nat) < pow2(bits as nat),
            acc == payload(src@.subrange(i as int, n as int), bits as nat),
        decreases i,
    {
        i = i - 1;
        proof {
            // What is packed so far leaves room for one more value.
            let tail = src@.subrange(i + 1, n as int);
            let here = src@.subrange(i as int, n as int);
            let a = pow2(bits as nat);
            let b = pow2(tail.len() * bits as nat);
            lemma_payload_bound(tail, bits as nat);
            assert(tail.len() * bits + bits <= 60) by (nonlinear_arith)
                requires
                    tail.len() + 1 <= n,
                    n * bits <= 60,
                    bits > 0,
            ;
            lemma_pow2_adds(tail.len() * bits as nat, bits as nat);
            lemma_pow2_monotone(tail.len() * bits as nat + bits as nat, 60);
            lemma2_to64_rest();
            assert(acc * a <= b * a) by (nonlinear_arith)
                requires
                    acc < b,
                    a >= 0,
            ;
            lemma_push_digit(acc, src@[i as int], bits);
            assert(here.drop_first() =~= tail);
            assert(payload(here, bits as nat) == src@[i as int] + a * payload(tail, bits as nat));
            assert(a * acc == acc * a) by (nonlinear_arith);
        }
        acc = (acc << bits) | src[i];
    }
    proof {
        lemma_payload_bound(src@.take(n as int), bits as nat);
        lemma2_to64_rest();
        lemma_push_digit(id, acc, 60);
        lemma_word_round_trip(id as int, src@.take(n as int));
    }
    (id << 60) | acc
}

/// Selector 0: a run of two hundred and forty ones. The word is zero.
pub fn pack240(src: &[u64]) -> (w: u64)
    requires
        can_pack_spec(src@, 240, 0),
    ensures
        w == packed_word(0, src@.take(240)),
        w == 0,
        selector_of(w) == 0,
        unpacked(w) == src@.take(240),
{
    proof {
        lemma2_to64_rest();
    }
    0
}

/// Selector 1: a run of one hundred and twenty ones. The word carries no
/// payload.
pub fn pack120(src: &[u64]) -> (w: u64)
    requires
        can_pack_spec(src@, 120, 0),
    ensures
        w == packed_word(1, src@.take(120)),
        w == pow2(60),
        selector_of(w) == 1,
        unpacked(w) == src@.take(120),
{
    proof {
        lemma_one_shl(60);
    }
    1u64 << 60
}

/// Selector 2: sixty values of 1 bit each.
pub fn pack60(src: &[u64]) -> (w: u64)
    requires
        can_pack_spec(src@, 60, 1),
    ensures
        w == packed_word(2, src@.take(60)),
        selector_of(w) == 2,
        unpacked(w) == src@.take(60),
{
    pack_values(src, 2, 60, 1)
}

/// Selector 3: thirty values of 2 bits each.
pub fn pack30(src: &[u64]) -> (w: u64)
    requires
        can_pack_spec(src@, 30, 2),
    ensures
        w == packed_word(3, src@.take(30)),
        selector_of(w) == 3,
        unpacked(w) == src@.take(30),
{
    pack_values(src, 3, 30, 2)
}

/// Selector 4: twenty values of 3 bits each.
pub fn pack20(src: &[u64]) -> (w: u64)
    requires
        can_pack_spec(src@, 20, 3),
    ensures
        w == packed_word(4, src@.take(20)),
        selector_of(w) == 4,
        unpacked(w) == src@.take(20),
{
    pack_values(src, 4, 20, 3)
}

/// Selector 5: fifteen values of 4 bits each.
pub fn pack15(src: &[u64]) -> (w: u64)
    requires
        can_pack_spec(src@, 15, 4),
    ensures
        w == packed_word(5, src@.take(15)),
        selector_of(w) == 5,
        unpacked(w) == src@.take(15),
{
    pack_values(src, 5, 15, 4)
}

/// Selector 6: twelve values of 5 bits each.
pub fn pack12(src: &[u64]) -> (w: u64)
    requires
        can_pack_spec(src@, 12, 5),
    ensures
        w == packed_word(6, src@.take(12)),
        selector_of(w) == 6,
        unpacked(w) == src@.take(12),
{
    pack_values(src, 6, 12, 5)
}

/// Selector 7: ten values of 6 bits each.
pub fn pack10(src: &[u64]) -> (w: u64)
    requires
        can_pack_spec(src@, 10, 6),
    ensures
        w == packed_word(7, src@.take(10)),
        selector_of(w) == 7,
        unpacked(w) == src@.take(10),
{
    pack_values(src, 7, 10, 6)
}

/// Selector 8: eight values of 7 bits each.
pub fn pack8(src: &[u64]) -> (w: u64)
    requires
        can_pack_spec(src@, 8, 7),
    ensures
        w == packed_word(8, src@.take(8)),
        selector_of(w) == 8,
        unpacked(w) == src@.take(8),
{
    pack_values(src, 8, 8, 7)
}

/// Selector 9: seven values of 8 bits each.
pub fn pack7(src: &[u64]) -> (w: u64)
    requires
        can_pack_spec(src@, 7, 8),
    ensures
        w == packed_word(9, src@.take(7)),
        selector_of(w) == 9,
        unpacked(w) == src@.take(7),
{
    pack_values(src, 9, 7, 8)
}

/// Selector 10: six values of 10 bits each.
pub fn pack6(src: &[u64]) -> (w: u64)
    requires
        can_pack_spec(src@, 6, 10),
    ensures
        w == packed_word(10, src@.take(6)),
        selector_of(w) == 10,
        unpacked(w) == src@.take(6),
{
    pack_values(src, 10, 6, 10)
}

/// Selector 11: five values of 12 bits each.
pub fn pack5(src: &[u64]) -> (w: u64)
    requires
        can_pack_spec(src@, 5, 12),
    ensures
        w == packed_word(11, src@.take(5)),
        selector_of(w) == 11,
        unpacked(w) == src@.take(5),
{
    pack_values(src, 11, 5, 12)
}

/// Selector 12: four values of 15 bits each.
pub fn pack4(src: &[u64]) -> (w: u64)
    requires
        can_pack_spec(src@, 4, 15),
    ensures
        w == packed_word(12, src@.take(4)),
        selector_of(w) == 12,
        unpacked(w) == src@.take(4),
{
    pack_values(src, 12, 4, 15)
}

/// Selector 13: three values of 20 bits each.
pub fn pack3(src: &[u64]) -> (w: u64)
    requires
        can_pack_spec(src@, 3, 20),
    ensures
        w == packed_word(13, src@.take(3)),
        selector_of(w) == 13,
        unpacked(w) == src@.take(3),
{
    pack_values(src, 13, 3, 20)
}

/// Selector 14: two values of 30 bits each.
pub fn pack2(src: &[u64]) -> (w: u64)
    requires
        can_pack_spec(src@, 2, 30),
    ensures
        w == packed_word(14, src@.take(2)),
        selector_of(w) == 14,
        unpacked(w) == src@.take(2),
{
    pack_values(src, 14, 2, 30)
}

/// Selector 15: one value of 60 bits each.
pub fn pack1(src: &[u64]) -> (w: u64)
    requires
        can_pack_spec(src@, 1, 60),
    ensures
        w == packed_word(15, src@.take(1)),
        selector_of(w) == 15,
        unpacked(w) == src@.take(1),
{
    pack_values(src, 15, 1, 60)
}

} // verus!

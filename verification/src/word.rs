//! What a word stands for: the arithmetic reading of the sixteen layouts.
//!
//! A word is the number `id * 2^60 + payload`. For a layout of width
//! `bits > 0` the payload is the little-endian number whose digits in base
//! `2^bits` are the packed values, so the value at index `i` sits `i * bits`
//! bits above the bottom of the word. The two layouts of width zero carry no
//! payload: they stand for a run of ones.

use vstd::prelude::*;
use vstd::arithmetic::div_mod::{lemma_div_denominator, lemma_fundamental_div_mod_converse};
use vstd::arithmetic::power2::{
    lemma2_to64,
    lemma2_to64_rest,
    lemma_pow2_adds,
    lemma_pow2_pos,
    pow2,
};
use crate::selector::{selector_bits, selector_n, selector_of, MAX_VALUE};

verus! {

/// Whether the value `v` can be stored at width `bits`. At width zero only
/// the value one can; at any other width every value below `2^bits` can.
pub open spec fn fits(v: u64, bits: nat) -> bool {
    if bits == 0 {
        v == 1
    } else {
        (v as nat) < pow2(bits)
    }
}

/// Whether the first `n` values of `src` exist and all fit the width `bits`.
pub open spec fn can_pack_spec(src: Seq<u64>, n: nat, bits: nat) -> bool {
    &&& n <= src.len()
    &&& forall|i: int| 0 <= i < n ==> fits(#[trigger] src[i], bits)
}

/// Whether the layout `id` can take the head of `src`.
pub open spec fn fits_selector(src: Seq<u64>, id: int) -> bool {
    can_pack_spec(src, selector_n(id), selector_bits(id))
}

/// The little-endian number with the digits `values` in base `2^bits`.
pub open spec fn payload(values: Seq<u64>, bits: nat) -> nat
    decreases values.len(),
{
    if values.len() == 0 {
        0
    } else {
        values[0] as nat + pow2(bits) * payload(values.drop_first(), bits)
    }
}

/// The word that the layout `id` makes of `values`.
pub open spec fn packed_word(id: int, values: Seq<u64>) -> nat {
    let low = if selector_bits(id) == 0 {
        0
    } else {
        payload(values, selector_bits(id))
    };
    (id * pow2(60) + low) as nat
}

/// The digit at index `i` of `word`, read in base `2^bits`.
pub open spec fn field(word: u64, i: nat, bits: nat) -> u64 {
    ((word as nat / pow2(i * bits)) % pow2(bits)) as u64
}

/// The values that `word` stands for under the layout `id`.
pub open spec fn unpacked_as(id: int, word: u64) -> Seq<u64> {
    Seq::new(
        selector_n(id),
        |i: int|
            if selector_bits(id) == 0 {
                1u64
            } else {
                field(word, i as nat, selector_bits(id))
            },
    )
}

/// The values that `word` stands for under its own selector.
pub open spec fn unpacked(word: u64) -> Seq<u64> {
    unpacked_as(selector_of(word), word)
}

/// A payload of `len` digits is below `2^(len * bits)`.
pub proof fn lemma_payload_bound(values: Seq<u64>, bits: nat)
    requires
        forall|i: int| 0 <= i < values.len() ==> (#[trigger] values[i] as nat) < pow2(bits),
    ensures
        payload(values, bits) < pow2(values.len() * bits),
    decreases values.len(),
{
    if values.len() == 0 {
        lemma2_to64();
    } else {
        let rest = values.drop_first();
        let len = values.len();
        lemma_payload_bound(rest, bits);
        let a = pow2(bits);
        let b = pow2(rest.len() * bits);
        let v = values[0] as nat;
        let p = payload(rest, bits);
        assert(bits + rest.len() * bits == len * bits) by (nonlinear_arith)
            requires
                rest.len() + 1 == len,
        ;
        lemma_pow2_adds(bits, rest.len() * bits);
        assert(v + a * p < a * b) by (nonlinear_arith)
            requires
                v < a,
                p < b,
        ;
    }
}

/// Reading back the digits of a payload: whatever stands above the payload,
/// the digit at index `i` is the value at index `i`, and what is left above
/// the last digit is `high`.
pub proof fn lemma_payload_digits(values: Seq<u64>, bits: nat, high: nat, i: int)
    requires
        forall|k: int| 0 <= k < values.len() ==> (#[trigger] values[k] as nat) < pow2(bits),
        0 <= i <= values.len(),
    ensures
        (payload(values, bits) + pow2(values.len() * bits) * high) / pow2(values.len() * bits)
            == high,
        i < values.len() ==> ((payload(values, bits) + pow2(values.len() * bits) * high) / pow2(
            (i * bits) as nat,
        )) % pow2(bits) == values[i] as nat,
    decreases values.len(),
{
    let len = values.len();
    let x = payload(values, bits) + pow2(len * bits) * high;
    lemma2_to64();
    if len == 0 {
        assert(len * bits == 0) by (nonlinear_arith)
            requires
                len == 0,
        ;
        assert(x == high) by (nonlinear_arith)
            requires
                x == 0 + 1 * high,
        ;
    } else {
        let rest = values.drop_first();
        let a = pow2(bits);
        let b = pow2(rest.len() * bits);
        let v = values[0] as nat;
        let p = payload(rest, bits);
        let y = p + b * high;
        assert(bits + rest.len() * bits == len * bits) by (nonlinear_arith)
            requires
                rest.len() + 1 == len,
        ;
        lemma_pow2_adds(bits, rest.len() * bits);
        lemma_pow2_pos(rest.len() * bits);
        assert(x == y * a + v) by (nonlinear_arith)
            requires
                x == (v + a * p) + (a * b) * high,
                y == p + b * high,
        ;
        lemma_fundamental_div_mod_converse(x as int, a as int, y as int, v as int);
        // The top of the word.
        lemma_payload_digits(rest, bits, high, 0);
        lemma_div_denominator(x as int, a as int, b as int);
        if i == 0 {
            assert(i * bits == 0) by (nonlinear_arith)
                requires
                    i == 0,
            ;
            assert(x / 1 == x);
        } else if i < len {
            lemma_payload_digits(rest, bits, high, i - 1);
            let c = pow2(((i - 1) * bits) as nat);
            assert(bits + (i - 1) * bits == i * bits) by (nonlinear_arith);
            assert((i - 1) * bits >= 0) by (nonlinear_arith)
                requires
                    i >= 1,
                    bits >= 0,
            ;
            lemma_pow2_adds(bits, ((i - 1) * bits) as nat);
            lemma_pow2_pos(((i - 1) * bits) as nat);
            lemma_div_denominator(x as int, a as int, c as int);
        }
    }
}

/// What the sixteen layouts have in common: a word made of values that fit
/// its layout is a 64-bit number, carries the layout's id in its top four
/// bits, and stands for exactly those values.
pub proof fn lemma_word_round_trip(id: int, values: Seq<u64>)
    requires
        0 <= id < 16,
        values.len() == selector_n(id),
        forall|i: int| 0 <= i < values.len() ==> fits(#[trigger] values[i], selector_bits(id)),
    ensures
        packed_word(id, values) <= u64::MAX,
        packed_word(id, values) < (id + 1) * pow2(60),
        selector_of(packed_word(id, values) as u64) == id,
        unpacked(packed_word(id, values) as u64) == values,
{
    let n = selector_n(id);
    let bits = selector_bits(id);
    let word = packed_word(id, values);
    lemma2_to64_rest();
    if bits > 0 {
        // The payload ends at bit `n * bits`; the selector begins at bit 60.
        assert(n * bits <= 60);
        let p = payload(values, bits);
        let spare = (60 - n * bits) as nat;
        let high = pow2(spare) * id as nat;
        lemma_payload_bound(values, bits);
        lemma_pow2_adds(n * bits, spare);
        lemma_pow2_pos(spare);
        assert(p < pow2(60)) by (nonlinear_arith)
            requires
                p < pow2(n * bits),
                pow2(60) == pow2(n * bits) * pow2(spare),
                pow2(spare) > 0,
        ;
        assert(word == p + pow2(n * bits) * high) by (nonlinear_arith)
            requires
                word == id * pow2(60) + p,
                id >= 0,
                pow2(60) == pow2(n * bits) * pow2(spare),
                high == pow2(spare) * id as nat,
        ;
        assert forall|i: int| 0 <= i < n implies #[trigger] unpacked(word as u64)[i]
            == values[i] by {
            lemma_payload_digits(values, bits, high, i);
        }
    }
}

/// Whatever a layout can take is in the domain of values.
pub proof fn lemma_fitting_values_in_range(src: Seq<u64>, id: int)
    requires
        0 <= id < 16,
        fits_selector(src, id),
    ensures
        forall|i: int| 0 <= i < selector_n(id) ==> #[trigger] src[i] <= MAX_VALUE,
{
    lemma2_to64();
    lemma2_to64_rest();
}

/// Whatever a word stands for is in the domain of values.
pub proof fn lemma_unpacked_in_range(word: u64)
    ensures
        1 <= unpacked(word).len() <= 240,
        forall|i: int| 0 <= i < unpacked(word).len() ==> #[trigger] unpacked(word)[i] <= MAX_VALUE,
{
    lemma2_to64();
    lemma2_to64_rest();
}

} // verus!

//! Choosing a layout: the greedy encoder of one word and its inverse.

use vstd::prelude::*;
use vstd::arithmetic::power2::{lemma2_to64, lemma2_to64_rest};
use vstd::bits::lemma_u64_shr_is_div;
use crate::error::CodecError;
use crate::pack::{
    can_pack,
    pack1,
    pack10,
    pack12,
    pack120,
    pack15,
    pack2,
    pack20,
    pack240,
    pack3,
    pack30,
    pack4,
    pack5,
    pack6,
    pack60,
    pack7,
    pack8,
};
use crate::selector::{selector_n, selector_of, MAX_VALUE};
use crate::unpack::{
    unpack1,
    unpack10,
    unpack12,
    unpack120,
    unpack15,
    unpack2,
    unpack20,
    unpack240,
    unpack3,
    unpack30,
    unpack4,
    unpack5,
    unpack6,
    unpack60,
    unpack7,
    unpack8,
};
use crate::word::{fits_selector, packed_word, unpacked};

verus! {

/// The first layout from `id` on, in the order of the table, that can take
/// the head of `src`; sixteen where none can.
pub open spec fn first_fit_from(src: Seq<u64>, id: int) -> int
    decreases 16 - id,
{
    if id >= 16 {
        16
    } else if fits_selector(src, id) {
        id
    } else {
        first_fit_from(src, id + 1)
    }
}

/// The layout that the encoder chooses for the head of `src`: the first of
/// the table that fits, which is the one with the most values. Sixteen where
/// no layout fits.
pub open spec fn first_fit(src: Seq<u64>) -> int {
    first_fit_from(src, 0)
}

/// The number of values that the encoder takes from the head of `src`.
pub open spec fn encoded_count(src: Seq<u64>) -> nat {
    selector_n(first_fit(src))
}

/// The word that the encoder makes of the head of `src`.
pub open spec fn encoded_word(src: Seq<u64>) -> nat {
    packed_word(first_fit(src), src.take(encoded_count(src) as int))
}

/// The choice is the first fit of the table: it fits, nothing before it
/// does, and so no layout that fits holds more values. There is a choice
/// exactly when the buffer is not empty and its first value is in range.
pub proof fn lemma_first_fit(src: Seq<u64>)
    ensures
        0 <= first_fit(src) <= 16,
        first_fit(src) < 16 ==> fits_selector(src, first_fit(src)),
        forall|j: int| 0 <= j < first_fit(src) ==> !fits_selector(src, j),
        forall|j: int|
            0 <= j < 16 && fits_selector(src, j) ==> first_fit(src) < 16 && selector_n(j)
                <= selector_n(first_fit(src)),
        first_fit(src) < 16 <==> src.len() > 0 && src[0] <= MAX_VALUE,
{
    reveal_with_fuel(first_fit_from, 17);
    lemma2_to64();
    lemma2_to64_rest();
}

/// Encoding and then decoding gives back what was taken: for a buffer that is
/// not empty and whose values are all in range, the word that the encoder
/// makes of its head is a 64-bit number that carries the chosen selector and
/// stands for exactly the values that the encoder took, in their order.
pub proof fn lemma_encode_decode_round_trip(src: Seq<u64>)
    requires
        src.len() >= 1,
        forall|i: int| 0 <= i < src.len() ==> #[trigger] src[i] <= MAX_VALUE,
    ensures
        0 <= first_fit(src) < 16,
        1 <= encoded_count(src) <= src.len(),
        encoded_word(src) <= u64::MAX,
        selector_of(encoded_word(src) as u64) == first_fit(src),
        unpacked(encoded_word(src) as u64) == src.take(encoded_count(src) as int),
{
    lemma_first_fit(src);
    let id = first_fit(src);
    crate::word::lemma_word_round_trip(id, src.take(selector_n(id) as int));
}

/// The number of values that the word `v` stands for.
pub fn count(v: u64) -> (n: usize)
    ensures
        n == selector_n(selector_of(v)),
        n == unpacked(v).len(),
        1 <= n <= 240,
{
    proof {
        lemma_u64_shr_is_div(v, 60);
        lemma2_to64_rest();
    }
    let sel: u64 = v >> 60;
    // Four bits cannot name a layout outside the table.
    if sel >= 16 {
        return 0;
    }
    crate::selector::packing(sel).n
}

/// Packs the head of `src` into one word under the first layout of the table
/// that fits, and returns the word with the number of values it took. An
/// empty buffer and a first value above `2^60 - 1` are the two inputs that no
/// layout takes.
pub fn encode(src: &[u64]) -> (r: Result<(u64, usize), CodecError>)
    ensures
        r is Ok <==> src@.len() > 0 && src@[0] <= MAX_VALUE,
        r matches Ok((word, count)) ==> {
            &&& word == encoded_word(src@)
            &&& count == encoded_count(src@)
            &&& 1 <= count <= src@.len()
            &&& 0 <= first_fit(src@) < 16
            &&& selector_of(word) == first_fit(src@)
            &&& fits_selector(src@, first_fit(src@))
            &&& forall|j: int| 0 <= j < first_fit(src@) ==> !fits_selector(src@, j)
            &&& forall|j: int| 0 <= j < 16 && fits_selector(src@, j) ==> selector_n(j) <= count
            &&& unpacked(word) == src@.take(count as int)
        },
        r matches Err(e) ==> e == (if src@.len() == 0 {
            CodecError::EmptyInput
        } else {
            CodecError::ValueOutOfRange
        }),
{
    proof {
        reveal_with_fuel(first_fit_from, 17);
        lemma_first_fit(src@);
    }
    if src.len() == 0 {
        Err(CodecError::EmptyInput)
    } else if can_pack(src, 240, 0) {
        Ok((pack240(src), 240))
    } else if can_pack(src, 120, 0) {
        Ok((pack120(src), 120))
    } else if can_pack(src, 60, 1) {
        Ok((pack60(src), 60))
    } else if can_pack(src, 30, 2) {
        Ok((pack30(src), 30))
    } else if can_pack(src, 20, 3) {
        Ok((pack20(src), 20))
    } else if can_pack(src, 15, 4) {
        Ok((pack15(src), 15))
    } else if can_pack(src, 12, 5) {
        Ok((pack12(src), 12))
    } else if can_pack(src, 10, 6) {
        Ok((pack10(src), 10))
    } else if can_pack(src, 8, 7) {
        Ok((pack8(src), 8))
    } else if can_pack(src, 7, 8) {
        Ok((pack7(src), 7))
    } else if can_pack(src, 6, 10) {
        Ok((pack6(src), 6))
    } else if can_pack(src, 5, 12) {
        Ok((pack5(src), 5))
    } else if can_pack(src, 4, 15) {
        Ok((pack4(src), 4))
    } else if can_pack(src, 3, 20) {
        Ok((pack3(src), 3))
    } else if can_pack(src, 2, 30) {
        Ok((pack2(src), 2))
    } else if can_pack(src, 1, 60) {
        Ok((pack1(src), 1))
    } else {
        Err(CodecError::ValueOutOfRange)
    }
}

/// Unpacks the word `v` into the head of `dst` under the layout that its
/// selector names, and returns the number of values written.
pub fn decode(dst: &mut [u64], v: u64) -> (n: usize)
    requires
        old(dst)@.len() >= selector_n(selector_of(v)),
    ensures
        n == selector_n(selector_of(v)),
        final(dst)@.len() == old(dst)@.len(),
        final(dst)@.take(n as int) == unpacked(v),
        final(dst)@.skip(n as int) == old(dst)@.skip(n as int),
{
    proof {
        lemma_u64_shr_is_div(v, 60);
        lemma2_to64_rest();
    }
    let sel: u64 = v >> 60;
    // Four bits cannot name a layout outside the table.
    if sel >= 16 {
        return 0;
    }
    match sel {
        0 => {
            unpack240(v, dst);
            240
        },
        1 => {
            unpack120(v, dst);
            120
        },
        2 => {
            unpack60(v, dst);
            60
        },
        3 => {
            unpack30(v, dst);
            30
        },
        4 => {
            unpack20(v, dst);
            20
        },
        5 => {
            unpack15(v, dst);
            15
        },
        6 => {
            unpack12(v, dst);
            12
        },
        7 => {
            unpack10(v, dst);
            10
        },
        8 => {
            unpack8(v, dst);
            8
        },
        9 => {
            unpack7(v, dst);
            7
        },
        10 => {
            unpack6(v, dst);
            6
        },
        11 => {
            unpack5(v, dst);
            5
        },
        12 => {
            unpack4(v, dst);
            4
        },
        13 => {
            unpack3(v, dst);
            3
        },
        14 => {
            unpack2(v, dst);
            2
        },
        _ => {
            unpack1(v, dst);
            1
        },
    }
}

} // verus!

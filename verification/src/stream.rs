//! Whole buffers: a run of values as a run of words and back.

use vstd::prelude::*;
use crate::codec::{
    count,
    decode,
    encode,
    encoded_count,
    encoded_word,
    first_fit,
    lemma_first_fit,
};
use crate::error::CodecError;
use crate::selector::MAX_VALUE;
use crate::wire::{be_word, bytes_of, lemma_words_survive_wire, words_of};
use crate::word::{lemma_fitting_values_in_range, lemma_word_round_trip, unpacked};

verus! {

/// The words that the greedy encoder makes of `src`: the word of its head
/// under the first layout that fits, then the words of what that layout left.
/// Where a value fits no layout the run of words ends before it.
pub open spec fn encoded_words(src: Seq<u64>) -> Seq<u64>
    decreases src.len(),
    via encoded_words_decreases
{
    if first_fit(src) >= 16 {
        Seq::empty()
    } else {
        seq![encoded_word(src) as u64] + encoded_words(src.skip(encoded_count(src) as int))
    }
}

#[via_fn]
proof fn encoded_words_decreases(src: Seq<u64>) {
    lemma_first_fit(src);
}

/// The values that a run of words stands for, word after word.
pub open spec fn unpacked_all(words: Seq<u64>) -> Seq<u64>
    decreases words.len(),
{
    if words.len() == 0 {
        Seq::empty()
    } else {
        unpacked(words[0]) + unpacked_all(words.drop_first())
    }
}

/// The values that `bytes` stand for: those of their words, in order.
pub open spec fn values_of(bytes: Seq<u8>) -> Seq<u64> {
    unpacked_all(words_of(bytes))
}

/// Whether every value of `src` is at most `2^60 - 1`.
pub open spec fn all_in_range(src: Seq<u64>) -> bool {
    forall|i: int| 0 <= i < src.len() ==> #[trigger] src[i] <= MAX_VALUE
}

/// The values of two runs of words, one after the other, are the values of
/// the one run followed by the values of the other.
pub proof fn lemma_unpacked_all_concat(a: Seq<u64>, b: Seq<u64>)
    ensures
        unpacked_all(a + b) == unpacked_all(a) + unpacked_all(b),
    decreases a.len(),
{
    if a.len() > 0 {
        lemma_unpacked_all_concat(a.drop_first(), b);
        assert((a + b).drop_first() =~= a.drop_first() + b);
    }
}

/// One more word adds its own values at the end.
pub proof fn lemma_unpacked_all_step(words: Seq<u64>, k: int)
    requires
        0 <= k < words.len(),
    ensures
        unpacked_all(words.take(k + 1)) == unpacked_all(words.take(k)) + unpacked(words[k]),
        unpacked_all(words.take(k)).len() + unpacked(words[k]).len() <= unpacked_all(words).len(),
{
    let one = seq![words[k]];
    assert(unpacked_all(one) =~= unpacked(words[k])) by {
        reveal_with_fuel(unpacked_all, 2);
    }
    assert(words.take(k + 1) =~= words.take(k) + one);
    lemma_unpacked_all_concat(words.take(k), one);
    assert(words =~= words.take(k + 1) + words.skip(k + 1));
    lemma_unpacked_all_concat(words.take(k + 1), words.skip(k + 1));
}

/// A run of values in range comes back from its words unchanged.
pub proof fn lemma_stream_round_trip(src: Seq<u64>)
    requires
        all_in_range(src),
    ensures
        unpacked_all(encoded_words(src)) == src,
    decreases src.len(),
{
    lemma_first_fit(src);
    if first_fit(src) < 16 {
        let n = encoded_count(src) as int;
        let rest = encoded_words(src.skip(n));
        lemma_word_round_trip(first_fit(src), src.take(n));
        lemma_stream_round_trip(src.skip(n));
        assert((seq![encoded_word(src) as u64] + rest).drop_first() =~= rest);
    }
}

/// The values of a byte stream are those of its first word followed by those
/// of the bytes after it; fewer than eight bytes hold no value.
pub proof fn lemma_values_of_unfold(bytes: Seq<u8>)
    ensures
        bytes.len() < 8 ==> values_of(bytes) == Seq::<u64>::empty(),
        bytes.len() >= 8 ==> values_of(bytes) == unpacked(be_word(bytes)) + values_of(
            bytes.skip(8),
        ),
{
    if bytes.len() >= 8 {
        let words = words_of(bytes);
        let rest = words_of(bytes.skip(8));
        assert forall|k: int| 0 <= k < rest.len() implies rest[k] == words[k + 1] by {
            assert(bytes.skip(8).subrange(8 * k, 8 * k + 8) =~= bytes.subrange(
                8 * (k + 1),
                8 * (k + 1) + 8,
            ));
        }
        assert(words.drop_first() =~= rest);
    }
}

/// What a decoder reads from the bytes of what an encoder wrote is what was
/// written: a run of values in range comes back unchanged from the bytes of
/// its words.
pub proof fn lemma_bytes_round_trip(src: Seq<u64>)
    requires
        all_in_range(src),
    ensures
        values_of(bytes_of(encoded_words(src))) == src,
{
    lemma_words_survive_wire(encoded_words(src));
    lemma_stream_round_trip(src);
}

/// Encodes all of `src` into a compact run of words, each made by the greedy
/// choice of [`encode`] on what the words before it left. A value above
/// `2^60 - 1` anywhere in `src` fails the whole call.
pub fn encode_all(src: &[u64]) -> (r: Result<Vec<u64>, CodecError>)
    ensures
        r is Ok <==> all_in_range(src@),
        r matches Ok(words) ==> words@ == encoded_words(src@) && unpacked_all(words@) == src@,
        r matches Err(e) ==> e == CodecError::ValueOutOfRange,
{
    let mut dst: Vec<u64> = Vec::new();
    let mut i: usize = 0;
    assert(src@.skip(0) =~= src@);
    while i < src.len()
        invariant
            0 <= i <= src@.len(),
            encoded_words(src@) == dst@ + encoded_words(src@.skip(i as int)),
            forall|k: int| 0 <= k < i ==> #[trigger] src@[k] <= MAX_VALUE,
        decreases src@.len() - i,
    {
        let rest = vstd::slice::slice_subrange(src, i, src.len());
        match encode(rest) {
            Ok((word, n)) => {
                proof {
                    assert(src@.skip(i as int).skip(n as int) =~= src@.skip(i + n));
                    lemma_fitting_values_in_range(rest@, first_fit(rest@));
                    assert forall|k: int| 0 <= k < i + n implies #[trigger] src@[k]
                        <= MAX_VALUE by {
                        if k >= i {
                            assert(src@[k] == rest@[k - i]);
                        }
                    }
                }
                dst.push(word);
                i = i + n;
            },
            Err(_) => {
                return Err(CodecError::ValueOutOfRange);
            },
        }
    }
    proof {
        lemma_first_fit(src@.skip(i as int));
        lemma_stream_round_trip(src@);
    }
    Ok(dst)
}

/// Decodes the whole run of words `src` into the head of `dst` and returns
/// the number of values written. Where `dst` cannot hold them all, nothing is
/// written.
pub fn decode_all(dst: &mut [u64], src: &[u64]) -> (r: Result<usize, CodecError>)
    ensures
        final(dst)@.len() == old(dst)@.len(),
        r is Ok <==> unpacked_all(src@).len() <= old(dst)@.len(),
        r matches Ok(n) ==> {
            &&& n == unpacked_all(src@).len()
            &&& final(dst)@.take(n as int) == unpacked_all(src@)
            &&& final(dst)@.skip(n as int) == old(dst)@.skip(n as int)
        },
        r matches Err(e) ==> e == CodecError::OutputOverflow && final(dst)@ == old(dst)@,
{
    let room: usize = dst.len();
    let mut total: usize = 0;
    let mut k: usize = 0;
    while k < src.len()
        invariant
            0 <= k <= src@.len(),
            dst@ == old(dst)@,
            room == dst@.len(),
            total == unpacked_all(src@.take(k as int)).len(),
            total <= room,
        decreases src@.len() - k,
    {
        let n = count(src[k]);
        proof {
            lemma_unpacked_all_step(src@, k as int);
        }
        if n > room - total {
            return Err(CodecError::OutputOverflow);
        }
        total = total + n;
        k = k + 1;
    }
    assert(src@.take(k as int) =~= src@);
    let mut j: usize = 0;
    k = 0;
    while k < src.len()
        invariant
            0 <= k <= src@.len(),
            dst@.len() == old(dst)@.len(),
            unpacked_all(src@).len() <= room == dst@.len(),
            j == unpacked_all(src@.take(k as int)).len(),
            dst@.take(j as int) == unpacked_all(src@.take(k as int)),
            dst@.skip(j as int) == old(dst)@.skip(j as int),
        decreases src@.len() - k,
    {
        let ghost before = dst@;
        proof {
            lemma_unpacked_all_step(src@, k as int);
        }
        let (_, tail) = dst.split_at_mut(j);
        let n = decode(tail, src[k]);
        proof {
            // The head of `dst` is as before; its tail begins with the new values.
            let rest = before.skip(j as int);
            assert(dst@.take(j + n) =~= before.take(j as int) + unpacked(src@[k as int]));
            assert(dst@.skip(j + n) =~= old(dst)@.skip(j + n)) by {
                assert forall|x: int| j + n <= x < dst@.len() implies dst@[x] == old(dst)@[x] by {
                    assert(old(dst)@[x] == rest.skip(n as int)[x - j - n]);
                }
            }
        }
        j = j + n;
        k = k + 1;
    }
    Ok(j)
}

} // verus!

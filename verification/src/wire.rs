//! The wire format: every word is eight bytes, most significant byte first.
//!
//! The byte order itself is the work of the `byteorder` crate. Its two calls
//! stand behind the two functions of this module that are not verified; what
//! is proved here is that the two forms they are stated over are inverse to
//! each other.

use byteorder::{BigEndian, ByteOrder};
use vstd::prelude::*;

verus! {

/// The eight bytes of `word`, most significant first.
pub open spec fn be_bytes(word: u64) -> Seq<u8> {
    seq![
        (word >> 56) as u8,
        (word >> 48) as u8,
        (word >> 40) as u8,
        (word >> 32) as u8,
        (word >> 24) as u8,
        (word >> 16) as u8,
        (word >> 8) as u8,
        word as u8,
    ]
}

/// The word whose eight bytes, most significant first, open `bytes`.
pub open spec fn be_word(bytes: Seq<u8>) -> u64 {
    (bytes[0] as u64) << 56 | (bytes[1] as u64) << 48 | (bytes[2] as u64) << 40 | (bytes[3] as u64)
        << 32 | (bytes[4] as u64) << 24 | (bytes[5] as u64) << 16 | (bytes[6] as u64) << 8
        | (bytes[7] as u64)
}

/// The bytes of a run of words: eight for each word, in order.
pub open spec fn bytes_of(words: Seq<u64>) -> Seq<u8> {
    Seq::new(8 * words.len(), |i: int| be_bytes(words[i / 8])[i % 8])
}

/// The words that `bytes` spell: one for every full group of eight bytes.
/// A last group of fewer than eight bytes spells nothing.
pub open spec fn words_of(bytes: Seq<u8>) -> Seq<u64> {
    Seq::new((bytes.len() / 8) as nat, |k: int| be_word(bytes.subrange(8 * k, 8 * k + 8)))
}

/// Reading the bytes of a word gives the word back.
pub proof fn lemma_word_survives_wire(word: u64)
    ensures
        be_bytes(word).len() == 8,
        be_word(be_bytes(word)) == word,
{
    assert(((word >> 56) as u8 as u64) << 56 | ((word >> 48) as u8 as u64) << 48 | ((word >> 40)
        as u8 as u64) << 40 | ((word >> 32) as u8 as u64) << 32 | ((word >> 24) as u8 as u64) << 24
        | ((word >> 16) as u8 as u64) << 16 | ((word >> 8) as u8 as u64) << 8 | (word as u8 as u64)
        == word) by (bit_vector);
}

/// Writing the word that eight bytes spell gives the bytes back.
pub proof fn lemma_bytes_survive_wire(bytes: Seq<u8>)
    requires
        bytes.len() == 8,
    ensures
        be_bytes(be_word(bytes)) == bytes,
{
    let b0 = bytes[0];
    let b1 = bytes[1];
    let b2 = bytes[2];
    let b3 = bytes[3];
    let b4 = bytes[4];
    let b5 = bytes[5];
    let b6 = bytes[6];
    let b7 = bytes[7];
    let w = be_word(bytes);
    assert((w >> 56) as u8 == b0 && (w >> 48) as u8 == b1 && (w >> 40) as u8 == b2 && (w >> 32)
        as u8 == b3 && (w >> 24) as u8 == b4 && (w >> 16) as u8 == b5 && (w >> 8) as u8 == b6 && w
        as u8 == b7) by (bit_vector)
        requires
            w == (b0 as u64) << 56 | (b1 as u64) << 48 | (b2 as u64) << 40 | (b3 as u64) << 32
                | (b4 as u64) << 24 | (b5 as u64) << 16 | (b6 as u64) << 8 | (b7 as u64),
    ;
}

/// A run of words comes back from its bytes unchanged.
pub proof fn lemma_words_survive_wire(words: Seq<u64>)
    ensures
        words_of(bytes_of(words)) == words,
{
    let bytes = bytes_of(words);
    assert forall|k: int| 0 <= k < words.len() implies #[trigger] words_of(bytes)[k]
        == words[k] by {
        lemma_word_survives_wire(words[k]);
    }
}

/// Calls `byteorder::BigEndian::write_u64`, which copies the big-endian
/// bytes of its number into the first eight bytes of its buffer. The buffer
/// here has exactly eight bytes, so the contract names all of it: after the
/// call it holds the bytes of `word`, most significant first.
#[verifier::external_body]
pub(crate) fn write_word(buf: &mut [u8; 8], word: u64)
    ensures
        final(buf)@ == be_bytes(word),
{
    BigEndian::write_u64(buf, word);
}

/// Calls `byteorder::BigEndian::read_u64`, which reads the first eight bytes
/// of its buffer as a big-endian number and panics on a shorter buffer. The
/// contract asks for the eight bytes and says that the result is the word
/// they spell, most significant byte first.
#[verifier::external_body]
pub(crate) fn read_word(buf: &[u8]) -> (word: u64)
    requires
        buf@.len() >= 8,
    ensures
        word == be_word(buf@),
{
    BigEndian::read_u64(buf)
}

} // verus!

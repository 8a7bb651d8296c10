//! The streaming decoder: bytes come in as a whole, values go out one by one.

use vstd::prelude::*;
use crate::codec::decode;
use crate::error::CodecError;
use crate::selector::BUF_SIZE;
use crate::stream::{lemma_values_of_unfold, values_of};
use crate::wire::{be_word, read_word};
use crate::word::unpacked;

verus! {

/// A decoder: the bytes to read, the values of the word read last, and a
/// cursor into those values.
pub struct Decoder {
    /// The input.
    pub bytes: Vec<u8>,
    /// The number of input bytes consumed so far.
    pub pos: usize,
    /// The values of the word consumed last, in its first `n` slots.
    pub buf: [u64; BUF_SIZE],
    /// The cursor into `buf`.
    pub i: usize,
    /// The number of values that `buf` holds.
    pub n: usize,
}

/// What a decoder stands for: the value at its cursor, if there is one, and
/// the values that are still to come.
pub struct DecoderView {
    /// The value at the cursor, where there is one.
    pub current: Option<u64>,
    /// The values still to come, next first.
    pub remaining: Seq<u64>,
}

impl View for Decoder {
    type V = DecoderView;

    open spec fn view(&self) -> DecoderView {
        let cached = if self.i < self.n {
            self.buf@.subrange(self.i + 1, self.n as int)
        } else {
            Seq::empty()
        };
        DecoderView {
            current: if self.i < self.n {
                Some(self.buf@[self.i as int])
            } else {
                None
            },
            remaining: cached + values_of(self.bytes@.skip(self.pos as int)),
        }
    }
}

impl Decoder {
    /// The invariant of a decoder: the read position lies in the input and
    /// the cache in its area.
    pub open spec fn wf(&self) -> bool {
        &&& self.pos <= self.bytes@.len()
        &&& self.n <= BUF_SIZE
    }

    /// A decoder over `bytes`, with its cursor before the first value.
    pub fn new(bytes: Vec<u8>) -> (d: Decoder)
        ensures
            d.wf(),
            d.bytes == bytes,
            d@ == (DecoderView { current: None, remaining: values_of(bytes@) }),
    {
        let d = Decoder { bytes, pos: 0, buf: [0; BUF_SIZE], i: 0, n: 0 };
        assert(d.bytes@.skip(0) =~= d.bytes@);
        d
    }

    /// Starts over on a new input, with the cursor before its first value.
    pub fn set_bytes(&mut self, bytes: Vec<u8>)
        ensures
            final(self).wf(),
            final(self).bytes == bytes,
            final(self)@ == (DecoderView { current: None, remaining: values_of(bytes@) }),
    {
        self.bytes = bytes;
        self.pos = 0;
        self.i = 0;
        self.n = 0;
        assert(self.bytes@.skip(0) =~= self.bytes@);
    }

    /// Moves the cursor to the next value and says whether there is one.
    /// When the values of the last word are used up, the next eight bytes of
    /// the input are decoded. Once this has returned `false` it keeps doing
    /// so.
    pub fn next(&mut self) -> (more: bool)
        requires
            old(self).wf(),
        ensures
            final(self).wf(),
            final(self).bytes == old(self).bytes,
            more == (old(self)@.remaining.len() > 0),
            more ==> final(self)@.current == Some(old(self)@.remaining[0]),
            more ==> final(self)@.remaining == old(self)@.remaining.skip(1),
            !more ==> final(self)@.current is None && final(self)@.remaining == Seq::<u64>::empty(),
            old(self).i + 1 < old(self).n ==> {
                &&& final(self).i == old(self).i + 1
                &&& final(self).n == old(self).n
                &&& final(self).pos == old(self).pos
                &&& final(self).buf == old(self).buf
            },
            !(old(self).i + 1 < old(self).n) && more ==> {
                &&& final(self).i == 0
                &&& final(self).pos == old(self).pos + 8
                &&& final(self).buf@.take(final(self).n as int) == unpacked(
                    be_word(old(self).bytes@.skip(old(self).pos as int)),
                )
            },
            !more ==> final(self).i == 0 && final(self).n == 0 && final(self).pos == old(self).pos,
    {
        if self.i < self.n && self.i + 1 < self.n {
            self.i = self.i + 1;
            return true;
        }
        proof {
            lemma_values_of_unfold(self.bytes@.skip(self.pos as int));
        }
        if self.bytes.len() - self.pos >= 8 {
            let chunk = vstd::slice::slice_subrange(self.bytes.as_slice(), self.pos, self.pos + 8);
            let word = read_word(chunk);
            let n = decode(&mut self.buf, word);
            self.n = n;
            self.i = 0;
            self.pos = self.pos + 8;
            proof {
                // The cache now holds the values of the word just read; what is left
                // of the input begins eight bytes further on.
                let left = old(self).bytes@.skip(old(self).pos as int);
                assert(left.skip(8) =~= self.bytes@.skip(self.pos as int));
                assert(self.buf@.subrange(1, n as int) =~= unpacked(word).skip(1));
            }
            true
        } else {
            self.i = 0;
            self.n = 0;
            false
        }
    }

    /// The value at the cursor. There is one after every call of `next` that
    /// returned `true`, and none before the first call or after a call that
    /// returned `false`.
    pub fn read(&self) -> (r: Result<u64, CodecError>)
        requires
            self.wf(),
        ensures
            r == match self@.current {
                Some(v) => Ok::<u64, CodecError>(v),
                None => Err::<u64, CodecError>(CodecError::DecoderExhausted),
            },
    {
        if self.i < self.n {
            Ok(self.buf[self.i])
        } else {
            Err(CodecError::DecoderExhausted)
        }
    }
}

} // verus!

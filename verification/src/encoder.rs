//! The streaming encoder: values come in one by one, words go out as bytes.

use vstd::prelude::*;
use crate::codec::{encode, encoded_count, encoded_word, first_fit, lemma_first_fit};
use crate::error::CodecError;
use crate::selector::BUF_SIZE;
use crate::stream::{all_in_range, encoded_words, lemma_bytes_round_trip, values_of};
use crate::wire::{be_bytes, bytes_of, write_word};

verus! {

/// The size of the output area in bytes: room for one word per pending slot.
pub const OUT_SIZE: usize = 1920;

/// An encoder: a window of pending values over a fixed area of 240 slots, and
/// an output area of 1920 bytes that fills with words, eight bytes each.
///
/// The pending values are `buf[h..t]`; what lies outside that window is of no
/// account. The bytes produced so far are `bytes[..bp]`.
#[derive(Clone, Copy)]
pub struct Encoder {
    /// The area that holds the pending window.
    pub buf: [u64; BUF_SIZE],
    /// Start of the pending window.
    pub h: usize,
    /// End of the pending window.
    pub t: usize,
    /// Number of bytes produced so far.
    pub bp: usize,
    /// The output area.
    pub bytes: [u8; OUT_SIZE],
    /// Scratch space for the bytes of one word.
    pub b: [u8; 8],
}

/// What an encoder stands for: the values that wait to be packed, oldest
/// first, and the bytes it has produced.
pub struct EncoderView {
    /// The values of the pending window, oldest first.
    pub pending: Seq<u64>,
    /// The bytes produced so far.
    pub output: Seq<u8>,
}

impl EncoderView {
    /// Nothing pending, nothing produced.
    pub open spec fn empty() -> EncoderView {
        EncoderView { pending: Seq::empty(), output: Seq::empty() }
    }

    /// The outcome of writing `v`: the value joins the end of the window,
    /// unless the window is full.
    pub open spec fn write(self, v: u64) -> Result<EncoderView, CodecError> {
        if self.pending.len() < BUF_SIZE {
            Ok(EncoderView { pending: self.pending.push(v), output: self.output })
        } else {
            Err(CodecError::CapacityExceeded)
        }
    }

    /// The outcome of one flush. An empty window is left as it is. Otherwise
    /// the head of the window goes out as one word under the first layout
    /// that fits, unless its first value is out of range or the output area
    /// has no room for eight more bytes.
    pub open spec fn flush(self) -> Result<EncoderView, CodecError> {
        if self.pending.len() == 0 {
            Ok(self)
        } else if first_fit(self.pending) >= 16 {
            Err(CodecError::ValueOutOfRange)
        } else if self.output.len() + 8 > OUT_SIZE {
            Err(CodecError::OutputOverflow)
        } else {
            Ok(
                EncoderView {
                    pending: self.pending.skip(encoded_count(self.pending) as int),
                    output: self.output + be_bytes(encoded_word(self.pending) as u64),
                },
            )
        }
    }

    /// The outcome of flushing until the window is empty or a flush fails.
    pub open spec fn drained(self) -> EncoderView
        decreases self.pending.len(),
        via Self::drained_decreases
    {
        if self.pending.len() == 0 {
            self
        } else {
            match self.flush() {
                Ok(next) => next.drained(),
                Err(_) => self,
            }
        }
    }

    #[via_fn]
    proof fn drained_decreases(self) {
        lemma_first_fit(self.pending);
    }

    /// Flushing until the window is empty writes the stream encoding of the
    /// window: where all pending values are in range and the output area has
    /// room for their words, every flush succeeds, the window ends empty, and
    /// the bytes added to the output are those of the words of the window.
    /// A decoder then reads from them the values that were pending.
    pub proof fn lemma_drained(self)
        requires
            all_in_range(self.pending),
            self.output.len() + 8 * encoded_words(self.pending).len() <= OUT_SIZE,
        ensures
            self.drained().pending == Seq::<u64>::empty(),
            self.drained().output == self.output + bytes_of(encoded_words(self.pending)),
            values_of(bytes_of(encoded_words(self.pending))) == self.pending,
        decreases self.pending.len(),
    {
        lemma_first_fit(self.pending);
        lemma_bytes_round_trip(self.pending);
        if self.pending.len() > 0 {
            // One flush writes the first word; the rest follows by induction.
            let word = encoded_word(self.pending) as u64;
            let next = self.flush()->Ok_0;
            let rest = encoded_words(next.pending);
            assert(all_in_range(next.pending));
            next.lemma_drained();
            assert(self.output + (be_bytes(word) + bytes_of(rest)) =~= self.output + be_bytes(word)
                + bytes_of(rest));
        }
    }
}

impl View for Encoder {
    type V = EncoderView;

    open spec fn view(&self) -> EncoderView {
        EncoderView {
            pending: self.buf@.subrange(self.h as int, self.t as int),
            output: self.bytes@.subrange(0, self.bp as int),
        }
    }
}

/// The content of `s` moved down by `k` places: slot `i` takes what slot
/// `i + k` held, as far as there is such a slot.
pub open spec fn shifted(s: Seq<u64>, k: int) -> Seq<u64> {
    Seq::new(
        s.len(),
        |i: int|
            if i + k < s.len() {
                s[i + k]
            } else {
                s[i]
            },
    )
}

/// Copies the eight bytes `b` into `src` at `index`.
pub fn array_append(src: &mut [u8; OUT_SIZE], b: [u8; 8], index: usize)
    requires
        index + 8 <= OUT_SIZE,
    ensures
        final(src)@ == old(src)@.subrange(0, index as int) + b@ + old(src)@.subrange(
            index + 8,
            OUT_SIZE as int,
        ),
{
    let mut i: usize = 0;
    while i < 8
        invariant
            0 <= i <= 8,
            index + 8 <= OUT_SIZE,
            forall|k: int| 0 <= k < index ==> #[trigger] src@[k] == old(src)@[k],
            forall|k: int| index <= k < index + i ==> #[trigger] src@[k] == b@[k - index],
            forall|k: int| index + i <= k < OUT_SIZE ==> #[trigger] src@[k] == old(src)@[k],
        decreases 8 - i,
    {
        src[index + i] = b[i];
        i = i + 1;
    }
    assert(src@ =~= old(src)@.subrange(0, index as int) + b@ + old(src)@.subrange(
        index + 8,
        OUT_SIZE as int,
    ));
}

/// Moves the content of `array` down by `index` places, so that a window
/// that began at `index` begins at zero.
pub fn shift(array: [u64; BUF_SIZE], index: usize) -> (r: [u64; BUF_SIZE])
    ensures
        r@ == shifted(array@, index as int),
{
    let mut out = array;
    if index == 0 || index >= BUF_SIZE {
        return out;
    }
    let mut i: usize = index;
    while i < BUF_SIZE
        invariant
            0 < index <= i <= BUF_SIZE,
            forall|k: int| 0 <= k < i - index ==> #[trigger] out@[k] == array@[k + index],
            forall|k: int| i - index <= k < BUF_SIZE ==> #[trigger] out@[k] == array@[k],
        decreases BUF_SIZE - i,
    {
        out[i - index] = out[i];
        i = i + 1;
    }
    out
}

impl Encoder {
    /// The invariant of an encoder: the window lies in its area, and the
    /// output is a whole number of words within its area.
    pub open spec fn wf(&self) -> bool {
        &&& self.h <= self.t <= BUF_SIZE
        &&& self.bp <= OUT_SIZE
        &&& self.bp % 8 == 0
    }

    /// The state of a new encoder: every index and every slot is zero.
    pub open spec fn is_initial(&self) -> bool {
        &&& self.h == 0
        &&& self.t == 0
        &&& self.bp == 0
        &&& forall|i: int| 0 <= i < BUF_SIZE ==> #[trigger] self.buf@[i] == 0
        &&& forall|i: int| 0 <= i < OUT_SIZE ==> #[trigger] self.bytes@[i] == 0
        &&& forall|i: int| 0 <= i < 8 ==> #[trigger] self.b@[i] == 0
    }

    /// There is one initial state: two encoders in it are equal, field for
    /// field, and so stand for the same empty view.
    pub proof fn lemma_initial_is_unique(a: Encoder, b: Encoder)
        requires
            a.is_initial(),
            b.is_initial(),
        ensures
            a == b,
            a.wf(),
            a@ == EncoderView::empty(),
    {
        assert(a.buf =~= b.buf);
        assert(a.bytes =~= b.bytes);
        assert(a.b =~= b.b);
        assert(a@.pending =~= Seq::<u64>::empty());
        assert(a@.output =~= Seq::<u8>::empty());
    }

    /// An encoder with nothing pending and nothing produced.
    pub fn new() -> (e: Encoder)
        ensures
            e.wf(),
            e.is_initial(),
            e@ == EncoderView::empty(),
    {
        let e = Encoder { buf: [0; BUF_SIZE], h: 0, t: 0, bp: 0, bytes: [0; OUT_SIZE], b: [0; 8] };
        assert(e@.pending =~= Seq::<u64>::empty());
        assert(e@.output =~= Seq::<u8>::empty());
        e
    }

    /// Replaces the pending window by the 240 values of `v` and clears the
    /// output: the window then spans the whole area, and the output area holds
    /// zeros only.
    pub fn set_values(&mut self, v: [u64; BUF_SIZE])
        ensures
            final(self).wf(),
            final(self)@ == (EncoderView { pending: v@, output: Seq::empty() }),
            final(self).buf == v,
            final(self).h == 0,
            final(self).t == BUF_SIZE,
            final(self).bp == 0,
            forall|i: int| 0 <= i < OUT_SIZE ==> #[trigger] final(self).bytes@[i] == 0,
    {
        self.buf = v;
        self.t = BUF_SIZE;
        self.h = 0;
        self.bytes = [0; OUT_SIZE];
        self.bp = 0;
        assert(self@.pending =~= v@);
        assert(self@.output =~= Seq::<u8>::empty());
    }

    /// Puts the encoder back into the state of a new one.
    pub fn reset(&mut self)
        ensures
            final(self).wf(),
            final(self).is_initial(),
            final(self)@ == EncoderView::empty(),
    {
        self.h = 0;
        self.t = 0;
        self.bp = 0;
        self.buf = [0u64; BUF_SIZE];
        self.bytes = [0u8; OUT_SIZE];
        self.b = [0u8; 8];
        assert(self@.pending =~= Seq::<u64>::empty());
        assert(self@.output =~= Seq::<u8>::empty());
    }

    /// Appends `v` to the pending window. When the window has reached the
    /// end of its area it is first moved down to the start of the area; when
    /// it fills the whole area the value is refused and nothing changes.
    pub fn write(&mut self, v: u64) -> (r: Result<(), CodecError>)
        requires
            old(self).wf(),
        ensures
            final(self).wf(),
            match old(self)@.write(v) {
                Ok(next) => r is Ok && final(self)@ == next,
                Err(e) => r == Err::<(), CodecError>(e) && *final(self) == *old(self),
            },
            r is Ok <==> old(self)@.pending.len() < BUF_SIZE,
            r is Ok ==> final(self)@.pending == old(self)@.pending.push(v),
            r is Err ==> r == Err::<(), CodecError>(CodecError::CapacityExceeded),
            final(self)@.output == old(self)@.output,
            r is Ok && old(self).t < BUF_SIZE ==> {
                &&& final(self).h == old(self).h
                &&& final(self).t == old(self).t + 1
            },
            r is Ok && old(self).t == BUF_SIZE ==> {
                &&& final(self).h == 0
                &&& final(self).t == old(self).t - old(self).h + 1
            },
    {
        if self.t >= BUF_SIZE {
            if self.h == 0 {
                return Err(CodecError::CapacityExceeded);
            }
            self.buf = shift(self.buf, self.h);
            self.t = self.t - self.h;
            self.h = 0;
        }
        self.buf[self.t] = v;
        self.t = self.t + 1;
        assert(self@.pending =~= old(self)@.pending.push(v));
        Ok(())
    }

    /// Packs the head of the pending window into one word and appends its
    /// eight bytes to the output. One call drains one word; an empty window
    /// is left alone. When the last pending value has gone out, the window
    /// returns to the start of its area. On an error nothing changes.
    pub fn flush(&mut self) -> (r: Result<(), CodecError>)
        requires
            old(self).wf(),
        ensures
            final(self).wf(),
            match old(self)@.flush() {
                Ok(next) => r is Ok && final(self)@ == next,
                Err(e) => r == Err::<(), CodecError>(e) && *final(self) == *old(self),
            },
            old(self)@.pending.len() == 0 ==> *final(self) == *old(self),
            r is Ok && old(self)@.pending.len() > 0 ==> final(self).bp == old(self).bp + 8,
            r is Ok && old(self)@.pending.len() > 0 && final(self)@.pending.len() == 0 ==> {
                &&& final(self).h == 0
                &&& final(self).t == 0
            },
            r is Ok && final(self)@.pending.len() > 0 ==> {
                &&& final(self).h == old(self).h + encoded_count(old(self)@.pending)
                &&& final(self).t == old(self).t
            },
    {
        if self.t == self.h {
            return Ok(());
        }
        let window = vstd::slice::slice_subrange(self.buf.as_slice(), self.h, self.t);
        match encode(window) {
            Err(e) => {
                proof {
                    lemma_first_fit(window@);
                }
                Err(e)
            },
            Ok((word, n)) => {
                if self.bp + 8 > OUT_SIZE {
                    return Err(CodecError::OutputOverflow);
                }
                write_word(&mut self.b, word);
                array_append(&mut self.bytes, self.b, self.bp);
                self.bp = self.bp + 8;
                self.h = self.h + n;
                if self.h == self.t {
                    self.h = 0;
                    self.t = 0;
                }
                proof {
                    crate::word::lemma_word_round_trip(
                        first_fit(window@),
                        window@.take(n as int),
                    );
                    assert(self@.pending =~= old(self)@.pending.skip(n as int));
                    assert(self@.output =~= old(self)@.output + be_bytes(word));
                }
                Ok(())
            },
        }
    }

    /// The bytes produced so far.
    pub fn bytes(&self) -> (out: &[u8])
        requires
            self.wf(),
        ensures
            out@ == self@.output,
            out@.len() % 8 == 0,
    {
        vstd::slice::slice_subrange(self.bytes.as_slice(), 0, self.bp)
    }
}

} // verus!

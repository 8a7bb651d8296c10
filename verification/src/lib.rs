//! Simple8b: a word-aligned codec that packs runs of small unsigned integers
//! into 64-bit words and unpacks them again.
//!
//! Every word carries a 4-bit selector in its top bits and up to 60 bits of
//! payload. The selector names one of sixteen layouts, each a pair of a value
//! count and a bit width. The encoder is greedy: for the head of its input it
//! takes the first layout of the table that fits, which is the one that
//! holds the most values. On the wire a word is eight bytes, most significant
//! byte first.
//!
//! The modules build on each other, from the table of layouts up to the two
//! streaming front ends:
//!
//! - [`selector`]: the table of layouts;
//! - [`word`]: what a word stands for, as arithmetic;
//! - [`bits`]: how shifts on a word read as that arithmetic;
//! - [`pack`] and [`unpack`]: one function for each layout and direction;
//! - [`codec`]: the greedy choice of a layout for one word, and its inverse;
//! - [`stream`]: whole buffers of values and words;
//! - [`wire`]: a word as eight bytes;
//! - [`encoder`] and [`decoder`]: the two streaming front ends;
//! - [`error`]: the failures that all of them report.
//!
//! The functions are verified against their contracts, and the contracts are
//! stated over the arithmetic of [`word`]. The main results are that a word
//! stands for exactly the values it was made of
//! ([`word::lemma_word_round_trip`]), that the same holds of whole buffers
//! and of their bytes ([`stream::lemma_bytes_round_trip`]), and that an
//! encoder that is flushed until it is empty has written just those bytes
//! ([`encoder::EncoderView::lemma_drained`]).
//!
//! Two functions are assumed, not verified: the two calls into the
//! `byteorder` crate in [`wire`], which turn a word into its eight bytes and
//! back.

pub mod bits;
pub mod codec;
pub mod decoder;
pub mod encoder;
pub mod error;
pub mod pack;
pub mod selector;
pub mod stream;
pub mod unpack;
pub mod wire;
pub mod word;

pub use crate::codec::{count, decode, encode};
pub use crate::decoder::Decoder;
pub use crate::encoder::Encoder;
pub use crate::error::CodecError;
pub use crate::pack::can_pack;
pub use crate::selector::{packing, Packing, BUF_SIZE, MAX_VALUE};
pub use crate::stream::{decode_all, encode_all};

//! The failures that the codec reports.

use vstd::prelude::*;

verus! {

/// Why an operation of the codec did not do its work.
#[derive(Debug, Clone, Copy, PartialEq, Eq, Structural)]
pub enum CodecError {
    /// There was no value to encode.
    EmptyInput,
    /// A value is larger than `2^60 - 1` and fits no layout.
    ValueOutOfRange,
    /// The pending window of an encoder already holds 240 values.
    CapacityExceeded,
    /// The output area has no room left for what would be written.
    OutputOverflow,
    /// The decoder has no value at its cursor.
    DecoderExhausted,
}

} // verus!

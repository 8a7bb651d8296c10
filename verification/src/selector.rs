//! The table of the sixteen word layouts.

use vstd::prelude::*;
use vstd::arithmetic::power2::pow2;

verus! {

/// The largest value that any layout can hold: `2^60 - 1`.
pub const MAX_VALUE: u64 = 0x0FFF_FFFF_FFFF_FFFF;

/// The most values that a single word can stand for, and so the size of the
/// areas that hold pending and decoded values.
pub const BUF_SIZE: usize = 240;

/// One row of the layout table: how many values a word holds and how many
/// bits each of them takes. A width of zero marks a run in which every value
/// is exactly one.
#[derive(Debug, Clone, Copy, PartialEq, Eq, Structural)]
pub struct Packing {
    /// Values per word.
    pub n: usize,
    /// Bits per value.
    pub bit: usize,
}

/// Values per word of the layout `id`.
pub open spec fn selector_n(id: int) -> nat {
    if id == 0 {
        240
    } else if id == 1 {
        120
    } else if id == 2 {
        60
    } else if id == 3 {
        30
    } else if id == 4 {
        20
    } else if id == 5 {
        15
    } else if id == 6 {
        12
    } else if id == 7 {
        10
    } else if id == 8 {
        8
    } else if id == 9 {
        7
    } else if id == 10 {
        6
    } else if id == 11 {
        5
    } else if id == 12 {
        4
    } else if id == 13 {
        3
    } else if id == 14 {
        2
    } else {
        1
    }
}

/// Bits per value of the layout `id`.
pub open spec fn selector_bits(id: int) -> nat {
    if id == 0 {
        0
    } else if id == 1 {
        0
    } else if id == 2 {
        1
    } else if id == 3 {
        2
    } else if id == 4 {
        3
    } else if id == 5 {
        4
    } else if id == 6 {
        5
    } else if id == 7 {
        6
    } else if id == 8 {
        7
    } else if id == 9 {
        8
    } else if id == 10 {
        10
    } else if id == 11 {
        12
    } else if id == 12 {
        15
    } else if id == 13 {
        20
    } else if id == 14 {
        30
    } else {
        60
    }
}

/// The selector of a word: its top four bits.
pub open spec fn selector_of(word: u64) -> int {
    word as int / pow2(60) as int
}

/// Looks up the layout `id` in the table.
pub fn packing(id: u64) -> (p: Packing)
    requires
        id < 16,
    ensures
        p.n == selector_n(id as int),
        p.bit == selector_bits(id as int),
{
    match id {
        0 => Packing { n: 240, bit: 0 },
        1 => Packing { n: 120, bit: 0 },
        2 => Packing { n: 60, bit: 1 },
        3 => Packing { n: 30, bit: 2 },
        4 => Packing { n: 20, bit: 3 },
        5 => Packing { n: 15, bit: 4 },
        6 => Packing { n: 12, bit: 5 },
        7 => Packing { n: 10, bit: 6 },
        8 => Packing { n: 8, bit: 7 },
        9 => Packing { n: 7, bit: 8 },
        10 => Packing { n: 6, bit: 10 },
        11 => Packing { n: 5, bit: 12 },
        12 => Packing { n: 4, bit: 15 },
        13 => Packing { n: 3, bit: 20 },
        14 => Packing { n: 2, bit: 30 },
        _ => Packing { n: 1, bit: 60 },
    }
}

/// Along the table the count never grows and the width never shrinks, and no
/// layout needs more than the sixty payload bits.
pub proof fn lemma_table_is_monotone(i: int, j: int)
    requires
        0 <= i <= j < 16,
    ensures
        selector_n(i) >= selector_n(j),
        selector_bits(i) <= selector_bits(j),
        1 <= selector_n(j) <= 240,
        selector_n(j) * selector_bits(j) <= 60,
{
}

} // verus!

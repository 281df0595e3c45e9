//! Native words seen as rows of byte lanes, least significant byte first, and the
//! bit-parallel (SWAR) ASCII case conversion on them.
//!
//! Case conversion works on all lanes at once. Each lane is first cut to its low
//! seven bits, so that adding a per-lane constant never carries into the next lane;
//! the range test then reads bit 7 of each lane, and lanes whose own bit 7 was set
//! (non-ASCII bytes) are left out of the match. Shifting the match mask right by two
//! moves bit 7 onto bit 5, the ASCII case bit.
use crate::ascii::{lower_byte, upper_byte};
use vstd::prelude::*;

verus! {

/// Byte lane `i` of a 64-bit word.
pub open spec fn lane64(x: u64, i: u64) -> u8 {
    ((x >> (8 * i) as u64) & 0xff) as u8
}

/// Byte lane `i` of a 128-bit word.
pub open spec fn lane128(x: u128, i: u128) -> u8 {
    ((x >> (8 * i) as u128) & 0xff) as u8
}

/// Bit 7 of each lane of a 64-bit word set where that lane holds an ASCII byte in `[lo, hi]`,
/// given `lo_add == 0x80 - lo` and `hi_add == 0x7f - hi` repeated in every lane.
pub open spec fn in_range64(x: u64, lo_add: u64, hi_add: u64) -> u64 {
    let low7 = x & 0x7f7f7f7f7f7f7f7f;
    let at_least = (low7 + lo_add) as u64;
    let above = (low7 + hi_add) as u64;
    at_least & !above & !x & 0x8080808080808080
}

/// Bit 7 of each lane of a 128-bit word set where that lane holds an ASCII byte in `[lo, hi]`.
pub open spec fn in_range128(x: u128, lo_add: u128, hi_add: u128) -> u128 {
    let low7 = x & 0x7f7f7f7f7f7f7f7f7f7f7f7f7f7f7f7f;
    let at_least = (low7 + lo_add) as u128;
    let above = (low7 + hi_add) as u128;
    at_least & !above & !x & 0x80808080808080808080808080808080
}

/// Word-parallel lowercasing of a 64-bit word.
pub open spec fn swar_lower64(x: u64) -> u64 {
    x | (in_range64(x, 0x3f3f3f3f3f3f3f3f, 0x2525252525252525) >> 2)
}

/// Word-parallel uppercasing of a 64-bit word.
pub open spec fn swar_upper64(x: u64) -> u64 {
    x & !(in_range64(x, 0x1f1f1f1f1f1f1f1f, 0x0505050505050505) >> 2)
}

/// Word-parallel lowercasing of a 128-bit word.
pub open spec fn swar_lower128(x: u128) -> u128 {
    x | (in_range128(x, 0x3f3f3f3f3f3f3f3f3f3f3f3f3f3f3f3f, 0x25252525252525252525252525252525)
        >> 2)
}

/// Word-parallel uppercasing of a 128-bit word.
pub open spec fn swar_upper128(x: u128) -> u128 {
    x & !(in_range128(x, 0x1f1f1f1f1f1f1f1f1f1f1f1f1f1f1f1f, 0x05050505050505050505050505050505)
        >> 2)
}

/// In every lane, word-parallel lowercasing of a 64-bit word is byte-wise lowercasing.
pub proof fn lemma_swar_lower64(x: u64, i: u64)
    by (bit_vector)
    requires
        i < 8,
    ensures
        lane64(swar_lower64(x), i) == lower_byte(lane64(x, i)),
{
}

/// In every lane, word-parallel uppercasing of a 64-bit word is byte-wise uppercasing.
pub proof fn lemma_swar_upper64(x: u64, i: u64)
    by (bit_vector)
    requires
        i < 8,
    ensures
        lane64(swar_upper64(x), i) == upper_byte(lane64(x, i)),
{
}

/// In every lane, word-parallel lowercasing of a 128-bit word is byte-wise lowercasing.
pub proof fn lemma_swar_lower128(x: u128, i: u128)
    by (bit_vector)
    requires
        i < 16,
    ensures
        lane128(swar_lower128(x), i) == lower_byte(lane128(x, i)),
{
}

/// In every lane, word-parallel uppercasing of a 128-bit word is byte-wise uppercasing.
pub proof fn lemma_swar_upper128(x: u128, i: u128)
    by (bit_vector)
    requires
        i < 16,
    ensures
        lane128(swar_upper128(x), i) == upper_byte(lane128(x, i)),
{
}

/// Shifting a byte in at the bottom of a 64-bit word moves every lane up by one.
pub proof fn lemma_shift_in64(x: u64, v: u8, j: u64)
    by (bit_vector)
    requires
        j < 8,
        lane64(x, 7) == 0,
    ensures
        j == 0 ==> lane64((x << 8) | v as u64, j) == v,
        j > 0 ==> lane64((x << 8) | v as u64, j) == lane64(x, (j - 1) as u64),
{
}

/// Shifting a byte in at the bottom of a 128-bit word moves every lane up by one.
pub proof fn lemma_shift_in128(x: u128, v: u8, j: u128)
    by (bit_vector)
    requires
        j < 16,
        lane128(x, 15) == 0,
    ensures
        j == 0 ==> lane128((x << 8) | v as u128, j) == v,
        j > 0 ==> lane128((x << 8) | v as u128, j) == lane128(x, (j - 1) as u128),
{
}

/// The lanes of the zero 64-bit word are all zero.
pub proof fn lemma_lanes_of_zero64(i: u64)
    by (bit_vector)
    ensures
        lane64(0, i) == 0,
{
}

/// The lanes of the zero 128-bit word are all zero.
pub proof fn lemma_lanes_of_zero128(i: u128)
    by (bit_vector)
    ensures
        lane128(0, i) == 0,
{
}

/// A 64-bit word is determined by its eight lanes.
pub proof fn lemma_lanes_eq64(x: u64, y: u64)
    by (bit_vector)
    requires
        lane64(x, 0) == lane64(y, 0),
        lane64(x, 1) == lane64(y, 1),
        lane64(x, 2) == lane64(y, 2),
        lane64(x, 3) == lane64(y, 3),
        lane64(x, 4) == lane64(y, 4),
        lane64(x, 5) == lane64(y, 5),
        lane64(x, 6) == lane64(y, 6),
        lane64(x, 7) == lane64(y, 7),
    ensures
        x == y,
{
}

/// A 128-bit word is determined by its sixteen lanes.
pub proof fn lemma_lanes_eq128(x: u128, y: u128)
    by (bit_vector)
    requires
        lane128(x, 0) == lane128(y, 0),
        lane128(x, 1) == lane128(y, 1),
        lane128(x, 2) == lane128(y, 2),
        lane128(x, 3) == lane128(y, 3),
        lane128(x, 4) == lane128(y, 4),
        lane128(x, 5) == lane128(y, 5),
        lane128(x, 6) == lane128(y, 6),
        lane128(x, 7) == lane128(y, 7),
        lane128(x, 8) == lane128(y, 8),
        lane128(x, 9) == lane128(y, 9),
        lane128(x, 10) == lane128(y, 10),
        lane128(x, 11) == lane128(y, 11),
        lane128(x, 12) == lane128(y, 12),
        lane128(x, 13) == lane128(y, 13),
        lane128(x, 14) == lane128(y, 14),
        lane128(x, 15) == lane128(y, 15),
    ensures
        x == y,
{
}

/// The lane-wise range test never overflows a 64-bit word.
pub proof fn lemma_in_range_fits64(x: u64)
    by (bit_vector)
    ensures
        (x & 0x7f7f7f7f7f7f7f7f) + 0x3f3f3f3f3f3f3f3f < 0x1_0000_0000_0000_0000,
        (x & 0x7f7f7f7f7f7f7f7f) + 0x2525252525252525 < 0x1_0000_0000_0000_0000,
        (x & 0x7f7f7f7f7f7f7f7f) + 0x1f1f1f1f1f1f1f1f < 0x1_0000_0000_0000_0000,
        (x & 0x7f7f7f7f7f7f7f7f) + 0x0505050505050505 < 0x1_0000_0000_0000_0000,
{
}

/// The lane-wise range test never overflows a 128-bit word.
pub proof fn lemma_in_range_fits128(x: u128)
    by (bit_vector)
    ensures
        (x & 0x7f7f7f7f7f7f7f7f7f7f7f7f7f7f7f7f) + 0x3f3f3f3f3f3f3f3f3f3f3f3f3f3f3f3f
            < 0x1_0000_0000_0000_0000_0000_0000_0000_0000,
        (x & 0x7f7f7f7f7f7f7f7f7f7f7f7f7f7f7f7f) + 0x25252525252525252525252525252525
            < 0x1_0000_0000_0000_0000_0000_0000_0000_0000,
        (x & 0x7f7f7f7f7f7f7f7f7f7f7f7f7f7f7f7f) + 0x1f1f1f1f1f1f1f1f1f1f1f1f1f1f1f1f
            < 0x1_0000_0000_0000_0000_0000_0000_0000_0000,
        (x & 0x7f7f7f7f7f7f7f7f7f7f7f7f7f7f7f7f) + 0x05050505050505050505050505050505
            < 0x1_0000_0000_0000_0000_0000_0000_0000_0000,
{
}

} // verus!

use vstd::prelude::*;

use crate::constants::{LETTERS, NUMBERS};

verus! {

/// Segment byte of the hexadecimal digit `d` (0 through 15).
pub open spec fn numeral(d: nat) -> u8
    recommends
        d < 16,
{
    NUMBERS@[d as int]
}

/// Segment byte of an ASCII character: a digit ('0' = 0x30 to '9' = 0x39) or a
/// letter of either case ('a' = 0x61 to 'z' = 0x7A, 'A' = 0x41 to 'Z' = 0x5A)
/// has its glyph, every other byte has none (0).
pub open spec fn glyph(c: u8) -> u8 {
    if 0x30 <= c <= 0x39 {
        NUMBERS@[c - 0x30]
    } else if 0x61 <= c <= 0x7A {
        LETTERS@[c - 0x61]
    } else if 0x41 <= c <= 0x5A {
        LETTERS@[c - 0x41]
    } else {
        0
    }
}

/// Segment byte of the hexadecimal digit `d`.
pub fn numeral_segments(d: u8) -> (r: u8)
    requires
        d < 16,
    ensures
        r == numeral(d as nat),
{
    NUMBERS[d as usize]
}

/// Convert an ASCII character to its seven-segment encoding; characters
/// other than 0-9, a-z and A-Z give 0.
pub fn ascii_to_segment(c: u8) -> (r: u8)
    ensures
        r == glyph(c),
{
    if 0x30 <= c && c <= 0x39 {
        NUMBERS[(c - 0x30) as usize]
    } else if 0x61 <= c && c <= 0x7A {
        LETTERS[(c - 0x61) as usize]
    } else if 0x41 <= c && c <= 0x5A {
        LETTERS[(c - 0x41) as usize]
    } else {
        0
    }
}

} // verus!

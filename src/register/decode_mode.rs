use vstd::prelude::*;

verus! {

/// No hardware decoding: every digit register holds raw segments.
pub const NO_DECODE: u8 = 0x00;
/// Hardware decoding for all eight digits.
pub const DECODE_ALL: u8 = 0xFF;

} // verus!

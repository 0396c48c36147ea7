use vstd::prelude::*;

verus! {

/// The decimal-point segment, bit 7 of a segment byte.
pub const DP: u8 = 0x80;

} // verus!

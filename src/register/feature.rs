use vstd::prelude::*;

verus! {

/// Bit 0: external clock active.
pub const CLK_EN: u8 = 0x01;
/// Bit 1: resets all control registers except the feature register.
pub const REG_RESET: u8 = 0x02;
/// Bit 2: decoding for the selected digits (0: Code-B, 1: HEX).
pub const DECODE_SET: u8 = 0x04;
/// Bit 4: enables blinking.
pub const BLINK_EN: u8 = 0x10;
/// Bit 5: low blink frequency.
pub const BLINK_FREQ_SET: u8 = 0x20;
/// Bit 6: synchronises blinking on the rising edge of LD/CS.
pub const SYNC: u8 = 0x40;
/// Bit 7: starts blinking with the display phase on.
pub const BLINK_START: u8 = 0x80;

} // verus!

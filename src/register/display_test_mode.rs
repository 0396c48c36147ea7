use vstd::prelude::*;

verus! {

/// Bit 0: optical display test, all segments on.
pub const DISP_TEST: u8 = 0x01;
/// Bit 1: starts a test for shorted LEDs.
pub const LED_SHORT: u8 = 0x02;
/// Bit 2: starts a test for open LEDs.
pub const LED_OPEN: u8 = 0x04;
/// Bit 3: an open/short LED test is running.
pub const LED_TEST: u8 = 0x08;
/// Bit 4: the last open/short LED test found an error.
pub const LED_GLOBAL: u8 = 0x10;
/// Bit 5: the external resistor Rset is open.
pub const RSET_OPEN: u8 = 0x20;
/// Bit 6: the external resistor Rset is shorted.
pub const RSET_SHORT: u8 = 0x40;

} // verus!

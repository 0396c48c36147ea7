use vstd::prelude::*;

pub mod decode_mode;
pub mod display_test_mode;
pub mod feature;
pub mod self_addressing;
pub mod shutdown_mode;

verus! {

/// Data register of digit 0; digit `d` is at `DIGIT_OFFSET + d`.
pub const DIGIT_OFFSET: u8 = 0x01;
pub const DECODE_MODE: u8 = 0x09;
pub const GLOBAL_INTENSITY: u8 = 0x0A;
pub const SCAN_LIMIT: u8 = 0x0B;
pub const SHUTDOWN_MODE: u8 = 0x0C;
pub const SELF_ADDRESSING: u8 = 0x2D;
pub const FEATURE: u8 = 0x0E;
pub const DISPLAY_TEST_MODE: u8 = 0x0F;
/// Paired intensity registers: low nibble for the even digit, high nibble for the odd one.
pub const DIG01_INTENSITY: u8 = 0x10;
pub const DIG23_INTENSITY: u8 = 0x11;
pub const DIG45_INTENSITY: u8 = 0x12;
pub const DIG67_INTENSITY: u8 = 0x13;
pub const DIAG_DIGIT_0: u8 = 0x14;
pub const DIAG_DIGIT_1: u8 = 0x15;
pub const DIAG_DIGIT_2: u8 = 0x16;
pub const DIAG_DIGIT_3: u8 = 0x17;
pub const DIAG_DIGIT_4: u8 = 0x18;
pub const DIAG_DIGIT_5: u8 = 0x19;
pub const DIAG_DIGIT_6: u8 = 0x1A;
pub const DIAG_DIGIT_7: u8 = 0x1B;
pub const KEY_A: u8 = 0x1C;
pub const KEY_B: u8 = 0x1D;

} // verus!

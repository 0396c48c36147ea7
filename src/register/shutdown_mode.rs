use vstd::prelude::*;

verus! {

/// Bit 0 clear: shutdown.
pub const SHUTDOWN_MODE: u8 = 0x00;
/// Bit 0 set: normal operation.
pub const NORMAL_OPERATION: u8 = 0x01;
/// Bit 7 clear: the feature register goes back to its defaults.
pub const RESET_FEATURE: u8 = 0x00;
/// Bit 7 set: the feature register is kept.
pub const PRESERVE_FEATURE: u8 = 0x80;

} // verus!

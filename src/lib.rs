//! Driver for the AS1115 seven-segment LED display controller, reached over a
//! two-wire bus: start-up, numbers, text and raw segments on up to eight
//! digits, global and per-digit intensity, the key scanner and the
//! diagnostics. Every operation states in its contract which bus transfers it
//! makes, in order.

pub mod bus;
pub mod constants;
pub mod device;
pub mod font;
pub mod register;
pub mod render;
pub mod segments;

pub use bus::{Bus, Transfer};
pub use constants::{DEFAULT_ADDRESS, LETTERS, MAX_DIGITS, MAX_INTENSITY, MINUS_SIGN, NUMBERS};
pub use device::{AS1115Error, AS1115};
pub use font::ascii_to_segment;

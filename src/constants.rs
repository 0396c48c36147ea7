use vstd::prelude::*;

verus! {

/// Bus address the chip answers to until self-addressing is enabled.
pub const DEFAULT_ADDRESS: u8 = 0x00;

/// Number of digit slots the chip can drive.
pub const MAX_DIGITS: u8 = 8;

/// Largest intensity value (four bits).
pub const MAX_INTENSITY: u8 = 15;

/// Segment bytes for the hexadecimal digits 0 through F.
pub const NUMBERS: [u8; 16] = [
    0x7E, 0x30, 0x6D, 0x79, 0x33, 0x5B, 0x5F, 0x70, 0x7F, 0x7B, 0x77, 0x1F, 0x4E, 0x3D, 0x4F, 0x47,
];

/// Segment bytes for the letters A through Z (a best-effort seven-segment font).
pub const LETTERS: [u8; 26] = [
    0x77, 0x1F, 0x4E, 0x3D, 0x4F, 0x47, 0x5E, 0x37, 0x30, 0x3C, 0x2F, 0x0E, 0x54, 0x15, 0x1D, 0x67,
    0x73, 0x05, 0x5B, 0x0F, 0x3E, 0x1C, 0x2A, 0x49, 0x3B, 0x25,
];

/// Segment byte of a minus sign: the middle segment alone.
pub const MINUS_SIGN: u8 = 0x01;

} // verus!

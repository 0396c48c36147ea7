use vstd::prelude::*;

verus! {

/// The chip answers to the factory address.
pub const FACTORY_SET_ADDR: u8 = 0x00;
/// The chip answers to the address set on its KEYA, SEGF and SEGG pins.
pub const USER_SET_ADDR: u8 = 0x01;

} // verus!

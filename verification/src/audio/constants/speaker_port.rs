//! Bits of the speaker port.
use vstd::prelude::*;

verus! {

/// Gate of PIT channel 2.
pub const TIMER_2: u8 = 0x01;

/// Speaker data enable.
pub const DATA: u8 = 0x02;

pub const TIMER_2_LATCH: u8 = 0x20;

} // verus!

//! I/O ports of the PIT and of the speaker.
use vstd::prelude::*;

verus! {

pub const COUNTER_0: u16 = 0x40;

pub const COUNTER_1: u16 = 0x41;

pub const COUNTER_2: u16 = 0x42;

pub const CONTROL: u16 = 0x43;

pub const SPEAKER_PORT: u16 = 0x61;

} // verus!

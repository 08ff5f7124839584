//! Programmable interval timer (PIT) and PC speaker port constants.
use vstd::prelude::*;

pub mod control;
pub mod pit;
pub mod speaker_port;

verus! {

/// Input clock of the PIT, in Hz.
pub const PIT_FREQ: u32 = 1_193_181;

} // verus!

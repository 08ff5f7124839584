//! PC speaker: the values written to the PIT and to the speaker port to play
//! a tone or to stop it. The port accesses themselves are the caller's.
use vstd::prelude::*;

pub mod constants;

use constants::{control, speaker_port, PIT_FREQ};

verus! {

/// Pitches below 20 Hz or above 20 kHz are played at the nearest bound.
pub open spec fn spec_clamp_pitch(pitch: u16) -> u16 {
    if pitch < 20 {
        20
    } else if pitch > 20_000 {
        20_000
    } else {
        pitch
    }
}

/// PIT channel 2 reload value for a pitch: the PIT clock divided by the
/// clamped pitch.
pub open spec fn spec_pit_divisor(pitch: u16) -> nat {
    1_193_181nat / (spec_clamp_pitch(pitch) as nat)
}

/// The PIT control byte that `speaker_on` writes: channel 2, low then high
/// byte, square wave, binary.
pub open spec fn spec_tone_control() -> u8 {
    0xB6
}

/// What starting a tone writes to the PIT, in order: the control byte to the
/// control port, then the low and the high byte of the divisor to counter 2.
#[derive(Clone, Copy, Debug, PartialEq, Eq, Structural)]
pub struct SpeakerTone {
    pub control: u8,
    pub low: u8,
    pub high: u8,
}

pub fn clamp_pitch(pitch: u16) -> (p: u16)
    ensures
        p == spec_clamp_pitch(pitch),
        20 <= p <= 20_000,
        20 <= pitch <= 20_000 ==> p == pitch,
        pitch < 20 ==> p == 20,
        pitch > 20_000 ==> p == 20_000,
{
    if pitch < 20 {
        20
    } else if pitch > 20_000 {
        20_000
    } else {
        pitch
    }
}

/// The PIT programming for a tone of `pitch` Hz.
pub fn speaker_tone(pitch: u16) -> (t: SpeakerTone)
    ensures
        t.control == spec_tone_control(),
        t.low == spec_pit_divisor(pitch) % 256,
        t.high == spec_pit_divisor(pitch) / 256,
        59 <= spec_pit_divisor(pitch) <= 59_659,
        t.control == 0xB6,
        20 <= pitch <= 20_000 ==> t.high as int * 256 + t.low as int == 1_193_181int / pitch as int,
        pitch < 20 ==> t.high as int * 256 + t.low as int == 59_659,
        pitch > 20_000 ==> t.high as int * 256 + t.low as int == 59,
{
    proof {
        lemma_tone_bytes_rebuild_divisor(pitch);
        assert(1_193_181nat / 20 == 59_659);
        assert(1_193_181nat / 20_000 == 59);
    }
    let pitch = clamp_pitch(pitch);
    let c = PIT_FREQ / pitch as u32;
    proof {
        lemma_divisor_range(pitch as int);
    }
    let ctl = control::CHANNEL_2 | control::ACCESS_BOTH | control::MODE_SQUAREWAVE
        | control::BCD_BINARY;
    assert(ctl == 0xB6) by (bit_vector)
        requires
            ctl == 0x80u8 | 0x30u8 | 0x6u8 | 0x0u8,
    ;
    let low = (c & 0xFF) as u8;
    let high = (c >> 8) as u8;
    assert(low == c % 256 && high == c / 256) by (bit_vector)
        requires
            c < 65536,
            low == (c & 0xFF) as u8,
            high == (c >> 8) as u8,
    ;
    SpeakerTone { control: ctl, low, high }
}

/// The low and the high byte that `speaker_tone` writes put the divisor back
/// together: `high * 256 + low`, each a byte.
pub proof fn lemma_tone_bytes_rebuild_divisor(pitch: u16)
    ensures
        (spec_pit_divisor(pitch) / 256) * 256 + spec_pit_divisor(pitch) % 256 == spec_pit_divisor(
            pitch,
        ),
        spec_pit_divisor(pitch) / 256 < 256,
{
    lemma_divisor_range(spec_clamp_pitch(pitch) as int);
    vstd::arithmetic::div_mod::lemma_fundamental_div_mod(spec_pit_divisor(pitch) as int, 256);
}

/// The PIT clock divided by a pitch in the audible range lies in `59 ..= 59659`.
proof fn lemma_divisor_range(pitch: int)
    requires
        20 <= pitch <= 20_000,
    ensures
        59 <= 1_193_181int / pitch <= 59_659,
{
    vstd::arithmetic::div_mod::lemma_div_is_ordered_by_denominator(1_193_181, pitch, 20_000);
    vstd::arithmetic::div_mod::lemma_div_is_ordered_by_denominator(1_193_181, 20, pitch);
}

/// The speaker port value that connects the speaker to PIT channel 2:
/// the timer 2 enable and speaker data bits set, every other bit as read.
pub fn speaker_enabled(status: u8) -> (v: u8)
    ensures
        v == status | 0x03,
{
    let v = status | speaker_port::TIMER_2 | speaker_port::DATA;
    assert(v == status | 0x03) by (bit_vector)
        requires
            v == status | 0x01u8 | 0x02u8,
    ;
    v
}

/// Connecting the speaker changes only the timer 2 enable and speaker data bits and sets both;
/// silencing it afterwards clears them again, leaving the other bits as they
/// were read.
pub proof fn lemma_speaker_bits(status: u8)
    ensures
        (status | 0x03) & 0xFC == status & 0xFC,
        (status | 0x03) & 0x03 == 0x03,
        (status & 0xFC) & 0x03 == 0,
        ((status | 0x03) & 0xFC) == ((status & 0xFC) & 0xFC),
{
    assert((status | 0x03) & 0xFC == status & 0xFC && (status | 0x03) & 0x03 == 0x03 && (status
        & 0xFC) & 0x03 == 0 && ((status | 0x03) & 0xFC) == ((status & 0xFC) & 0xFC))
        by (bit_vector);
}

/// The speaker port value that silences the speaker: the timer 2 enable and speaker data bits
/// cleared, every other bit as read.
pub fn speaker_disabled(status: u8) -> (v: u8)
    ensures
        v == status & 0xFC,
{
    let mask = !(speaker_port::TIMER_2 | speaker_port::DATA);
    assert(mask == 0xFC) by (bit_vector)
        requires
            mask == !(0x01u8 | 0x02u8),
    ;
    status & mask
}

} // verus!

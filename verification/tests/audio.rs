use bad_uefi::audio::constants::{control, pit, speaker_port, PIT_FREQ};
use bad_uefi::audio::{clamp_pitch, speaker_disabled, speaker_enabled, speaker_tone, SpeakerTone};

#[test]
fn pitch_is_clamped_to_audible_range() {
    assert_eq!(clamp_pitch(0), 20);
    assert_eq!(clamp_pitch(19), 20);
    assert_eq!(clamp_pitch(20), 20);
    assert_eq!(clamp_pitch(440), 440);
    assert_eq!(clamp_pitch(20_000), 20_000);
    assert_eq!(clamp_pitch(20_001), 20_000);
    assert_eq!(clamp_pitch(u16::MAX), 20_000);
}

#[test]
fn tone_programming_for_a440() {
    // 1193181 / 440 = 2711 = 0x0A97
    assert_eq!(speaker_tone(440), SpeakerTone { control: 0xB6, low: 0x97, high: 0x0A });
}

#[test]
fn tone_programming_at_the_bounds() {
    // 1193181 / 20 = 59659 = 0xE90B, 1193181 / 20000 = 59
    assert_eq!(speaker_tone(1), SpeakerTone { control: 0xB6, low: 0x0B, high: 0xE9 });
    assert_eq!(speaker_tone(60_000), SpeakerTone { control: 0xB6, low: 59, high: 0 });
}

#[test]
fn tone_bytes_rebuild_divisor() {
    for pitch in [20u16, 100, 440, 1000, 4186, 20_000] {
        let t = speaker_tone(pitch);
        assert_eq!((t.high as u32) << 8 | t.low as u32, PIT_FREQ / pitch as u32);
    }
}

#[test]
fn control_byte_is_channel_two_both_bytes_square_wave() {
    let t = speaker_tone(1000);
    assert_eq!(
        t.control,
        control::CHANNEL_2 | control::ACCESS_BOTH | control::MODE_SQUAREWAVE | control::BCD_BINARY
    );
    assert_eq!(t.control & control::CHANNEL_MASK, control::CHANNEL_2);
    assert_eq!(t.control & control::ACCESS_MASK, control::ACCESS_BOTH);
    assert_eq!(t.control & control::MODE_MASK, control::MODE_SQUAREWAVE);
}

#[test]
fn speaker_port_bits() {
    assert_eq!(speaker_enabled(0x40), 0x43);
    assert_eq!(speaker_enabled(0x03), 0x03);
    assert_eq!(speaker_disabled(0xFF), 0xFC);
    assert_eq!(speaker_disabled(0x41), 0x40);
    for s in [0u8, 0x20, 0x5A, 0xFF] {
        assert_eq!(speaker_disabled(speaker_enabled(s)), speaker_disabled(s));
        assert_eq!(speaker_enabled(s) & !0x03, s & !0x03);
    }
    assert_eq!(speaker_port::TIMER_2 | speaker_port::DATA, 0x03);
    assert_eq!(pit::SPEAKER_PORT, 0x61);
    assert_eq!(pit::COUNTER_2, 0x42);
    assert_eq!(pit::CONTROL, 0x43);
}

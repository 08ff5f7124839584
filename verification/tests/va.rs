use bad_uefi::uefiv::UEFIVideo;
use bad_uefi::va::{
    audio_times_fit, make_video_event_list, merge_events, playback_step, read_audio_event_list, EventKind,
    PlaybackAction, PlaybackStep, VAEvent,
};

fn ev(time: usize, kind: EventKind, param: usize) -> VAEvent {
    VAEvent { time, kind, param }
}

fn is_sorted(s: &[VAEvent]) -> bool {
    s.windows(2).all(|w| w[0].time <= w[1].time)
}

#[test]
fn video_events_one_per_frame() {
    let mut buf = vec![b'U', b'E', b'V', 0, 1, 0, 1, 0x22];
    buf.extend_from_slice(&[9, 9, 9]);
    let video = UEFIVideo::from(&buf).unwrap();
    let events = make_video_event_list(&video);
    assert_eq!(
        events,
        vec![
            ev(0, EventKind::Frame, 0),
            ev(250_000, EventKind::Frame, 1),
            ev(500_000, EventKind::Frame, 2),
        ]
    );
    assert!(is_sorted(&events));
}

#[test]
fn video_without_frames_has_no_events() {
    let buf = vec![b'U', b'E', b'V', 0, 1, 0, 1, 0x22];
    let video = UEFIVideo::from(&buf).unwrap();
    assert!(make_video_event_list(&video).is_empty());
}

#[test]
fn audio_records_accumulate_delays() {
    // 1 ms then 440 Hz; 2 ms then silence; 0x0102 ms then 20000 Hz; a stray byte
    let bytes = vec![0, 1, 0x01, 0xB8, 0, 2, 0, 0, 0x01, 0x02, 0x4E, 0x20, 7];
    let events = read_audio_event_list(&bytes);
    assert_eq!(
        events,
        vec![
            ev(0, EventKind::Sound, 440),
            ev(1_000, EventKind::Sound, 0),
            ev(3_000, EventKind::Sound, 20_000),
        ]
    );
    assert!(is_sorted(&events));
}

#[test]
fn audio_without_whole_record_is_empty() {
    assert!(read_audio_event_list(&vec![1, 2, 3]).is_empty());
    assert!(read_audio_event_list(&Vec::new()).is_empty());
}

#[test]
fn merge_interleaves_by_time_ties_to_second() {
    let a = vec![ev(0, EventKind::Sound, 1), ev(5, EventKind::Sound, 2), ev(9, EventKind::Sound, 3)];
    let b = vec![ev(0, EventKind::Frame, 0), ev(5, EventKind::Frame, 1)];
    let out = merge_events(&a, &b);
    assert_eq!(
        out,
        vec![
            ev(0, EventKind::Frame, 0),
            ev(0, EventKind::Sound, 1),
            ev(5, EventKind::Frame, 1),
            ev(5, EventKind::Sound, 2),
            ev(9, EventKind::Sound, 3),
        ]
    );
}

#[test]
fn merge_with_empty_side() {
    let a = vec![ev(3, EventKind::Sound, 1)];
    let empty: Vec<VAEvent> = Vec::new();
    assert_eq!(merge_events(&a, &empty), a);
    assert_eq!(merge_events(&empty, &a), a);
    assert!(merge_events(&empty, &empty).is_empty());
}

#[test]
fn merge_of_sorted_lists_is_sorted_permutation() {
    let a = vec![ev(1, EventKind::Sound, 1), ev(4, EventKind::Sound, 2), ev(4, EventKind::Sound, 3), ev(10, EventKind::Sound, 4)];
    let b = vec![ev(0, EventKind::Frame, 0), ev(4, EventKind::Frame, 1), ev(8, EventKind::Frame, 2)];
    let out = merge_events(&a, &b);
    assert!(is_sorted(&out));
    assert_eq!(out.len(), a.len() + b.len());
    let key = |e: &VAEvent| (e.time, e.kind == EventKind::Frame, e.param);
    let mut got: Vec<_> = out.iter().map(key).collect();
    let mut want: Vec<_> = a.iter().chain(b.iter()).map(key).collect();
    got.sort();
    want.sort();
    assert_eq!(got, want);
}

#[test]
fn playback_steps() {
    assert_eq!(
        playback_step(100, &ev(250, EventKind::Sound, 0)),
        PlaybackStep { wait: 150, action: PlaybackAction::SpeakerOff }
    );
    assert_eq!(
        playback_step(0, &ev(0, EventKind::Sound, 440)),
        PlaybackStep { wait: 0, action: PlaybackAction::SpeakerOn(440) }
    );
    assert_eq!(
        playback_step(7, &ev(9, EventKind::Frame, 3)),
        PlaybackStep { wait: 2, action: PlaybackAction::ShowFrame(3) }
    );
}

#[test]
fn playback_tone_is_truncated_to_sixteen_bits() {
    assert_eq!(
        playback_step(0, &ev(1, EventKind::Sound, 70_000)).action,
        PlaybackAction::SpeakerOn(4_464)
    );
}

#[test]
fn sorted_playback_waits_until_each_event() {
    let audio = read_audio_event_list(&vec![0, 3, 0, 100, 0, 1, 0, 0]);
    let mut buf = vec![b'U', b'E', b'V', 0, 1, 0, 1, 0xF2];
    buf.extend_from_slice(&[0, 0, 0, 0]);
    let video = UEFIVideo::from(&buf).unwrap();
    let frames = make_video_event_list(&video);
    let events = merge_events(&audio, &frames);
    let mut clock = 0usize;
    let mut waited = 0usize;
    for e in &events {
        assert!(clock <= e.time);
        let step = playback_step(clock, e);
        waited += step.wait;
        clock = e.time;
        assert_eq!(waited, e.time);
    }
    assert_eq!(events.len(), 6);
}

#[test]
fn audio_time_check() {
    assert!(audio_times_fit(&vec![0xFF, 0xFF, 0, 0, 0xFF, 0xFF, 0, 0]));
    assert!(audio_times_fit(&Vec::new()));
}

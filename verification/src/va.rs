//! Audio and video events on a common time line (microseconds), and the
//! decisions of the player that walks through them.
use vstd::prelude::*;
use crate::uefiv::{be_u16, be_u16_of, UEFIVideo};

verus! {

/// What an event does.
#[derive(Clone, Copy, Debug, PartialEq, Eq, Structural)]
pub enum EventKind {
    /// Show frame number `param`.
    Frame,
    /// Play a tone of `param` Hz, or silence where `param` is zero.
    Sound,
}

/// An event at `time` microseconds from the start.
#[derive(Clone, Copy, Debug, PartialEq, Eq, Structural)]
pub struct VAEvent {
    pub time: usize,
    pub kind: EventKind,
    pub param: usize,
}

/// No event comes before an earlier one.
pub open spec fn sorted_by_time(s: Seq<VAEvent>) -> bool {
    forall|i: int, j: int| 0 <= i <= j < s.len() ==> s[i].time <= s[j].time
}

/// One event per frame: frame `i` is shown at `i * frame_duration`.
pub fn make_video_event_list(video: &UEFIVideo) -> (events: Vec<VAEvent>)
    requires
        video.frame_count == 0 || (video.frame_count - 1) * video.frame_duration <= usize::MAX,
    ensures
        events@.len() == video.frame_count,
        forall|i: int|
            0 <= i < video.frame_count ==> #[trigger] events@[i] == (VAEvent {
                time: (i * video.frame_duration) as usize,
                kind: EventKind::Frame,
                param: i as usize,
            }),
        sorted_by_time(events@),
{
    let mut events: Vec<VAEvent> = Vec::new();
    let count = video.frame_count;
    let duration = video.frame_duration;
    for i in 0..count
        invariant
            count == video.frame_count,
            duration == video.frame_duration,
            count == 0 || (count - 1) * duration <= usize::MAX,
            events@.len() == i,
            forall|k: int|
                0 <= k < i ==> #[trigger] events@[k] == (VAEvent {
                    time: (k * duration) as usize,
                    kind: EventKind::Frame,
                    param: k as usize,
                }),
    {
        proof {
            assert(i * duration <= (count - 1) * duration) by (nonlinear_arith)
                requires
                    i <= count - 1,
            ;
        }
        events.push(VAEvent { time: i * duration, kind: EventKind::Frame, param: i });
    }
    proof {
        assert forall|i: int, j: int| 0 <= i <= j < events@.len() implies events@[i].time
            <= events@[j].time by {
            assert(i * duration <= j * duration && j * duration <= (count - 1) * duration)
                by (nonlinear_arith)
                requires
                    0 <= i <= j <= count - 1,
            ;
        }
    }
    events
}

/// Delay (microseconds) after sound record `i` of an audio file: the
/// big-endian milliseconds in its first two bytes.
pub open spec fn audio_delay(b: Seq<u8>, i: int) -> nat {
    be_u16(b[4 * i], b[4 * i + 1]) * 1000
}

/// Tone of sound record `i`: the big-endian value of its last two bytes.
pub open spec fn audio_param(b: Seq<u8>, i: int) -> nat {
    be_u16(b[4 * i + 2], b[4 * i + 3])
}

/// Start time of sound record `n`: the sum of the delays of the records before it.
pub open spec fn audio_time(b: Seq<u8>, n: nat) -> nat
    decreases n,
{
    if n == 0 {
        0
    } else {
        audio_time(b, (n - 1) as nat) + audio_delay(b, n - 1)
    }
}

/// Start times only grow from one record to the next.
pub proof fn lemma_audio_time_monotonic(b: Seq<u8>, i: nat, j: nat)
    requires
        i <= j,
    ensures
        audio_time(b, i) <= audio_time(b, j),
    decreases j,
{
    if i < j {
        lemma_audio_time_monotonic(b, i, (j - 1) as nat);
    }
}

/// Each record starts the big-endian millisecond count in the first two bytes
/// of the record before it (times 1000 microseconds) after that record; the
/// first record starts at zero.
pub proof fn lemma_audio_time_step(b: Seq<u8>, n: nat)
    ensures
        audio_time(b, 0) == 0,
        audio_time(b, n + 1) == audio_time(b, n) + (b[4 * n as int] as int * 256 + b[4 * n as int + 1] as int)
            * 1000,
        audio_param(b, n as int) == b[4 * n as int + 2] as int * 256 + b[4 * n as int + 3] as int,
{
    assert(audio_time(b, n + 1) == audio_time(b, n) + audio_delay(b, n as int));
}

/// Whether the start times of the records of an audio file, and the time
/// after the last one, all fit a `usize` (what `read_audio_event_list` needs).
pub fn audio_times_fit(bytes: &Vec<u8>) -> (ok: bool)
    ensures
        ok == (audio_time(bytes@, (bytes@.len() / 4) as nat) <= usize::MAX),
{
    let size = bytes.len() / 4;
    let mut time: usize = 0;
    assert(bytes@.len() == bytes.len());
    for i in 0..size
        invariant
            size == bytes@.len() / 4,
            bytes@.len() <= usize::MAX,
            time == audio_time(bytes@, i as nat),
    {
        let delay = be_u16_of(bytes[i * 4], bytes[i * 4 + 1]) as usize * 1000;
        match time.checked_add(delay) {
            Some(t) => time = t,
            None => {
                proof {
                    lemma_audio_time_monotonic(bytes@, (i + 1) as nat, size as nat);
                }
                return false;
            },
        }
    }
    true
}

/// Events described by the spec of `read_audio_event_list` are in time order,
/// start at zero, and are spaced by the delays read from the bytes.
proof fn lemma_audio_events_follow_bytes(b: Seq<u8>, out: Seq<VAEvent>)
    requires
        audio_time(b, (b.len() / 4) as nat) <= usize::MAX,
        out.len() == b.len() / 4,
        forall|i: int|
            0 <= i < out.len() ==> #[trigger] out[i] == (VAEvent {
                time: audio_time(b, i as nat) as usize,
                kind: EventKind::Sound,
                param: audio_param(b, i) as usize,
            }),
    ensures
        sorted_by_time(out),
        out.len() > 0 ==> out[0].time == 0,
        forall|i: int|
            0 < i < out.len() ==> #[trigger] out[i].time == out[i - 1].time + (b[4 * (i - 1)] as int
                * 256 + b[4 * (i - 1) + 1] as int) * 1000,
        forall|i: int|
            0 <= i < out.len() ==> #[trigger] out[i].param == b[4 * i + 2] as int * 256 + b[4 * i
                + 3] as int && out[i].kind == EventKind::Sound,
{
    let size = (b.len() / 4) as nat;
    assert forall|i: int, j: int| 0 <= i <= j < out.len() implies out[i].time <= out[j].time by {
        lemma_audio_time_monotonic(b, i as nat, j as nat);
        lemma_audio_time_monotonic(b, j as nat, size);
    }
    if out.len() > 0 {
        lemma_audio_time_step(b, 0);
    }
    assert forall|i: int| 0 < i < out.len() implies #[trigger] out[i].time == out[i - 1].time + (b[4
        * (i - 1)] as int * 256 + b[4 * (i - 1) + 1] as int) * 1000 by {
        lemma_audio_time_monotonic(b, i as nat, size);
        lemma_audio_time_monotonic(b, (i - 1) as nat, size);
        lemma_audio_time_step(b, (i - 1) as nat);
        assert(out[i - 1] == out[i - 1]);
    }
    assert forall|i: int| 0 <= i < out.len() implies #[trigger] out[i].param == b[4 * i + 2] as int
        * 256 + b[4 * i + 3] as int && out[i].kind == EventKind::Sound by {
        lemma_audio_time_step(b, i as nat);
        assert(b[4 * i + 2] as int * 256 + b[4 * i + 3] as int <= 65535);
    }
}

/// Reads the sound events of an audio file: records of four bytes, the delay
/// before the next record in milliseconds then the tone in Hz (zero for
/// silence), both big-endian; bytes after the last whole record are ignored.
pub fn read_audio_event_list(bytes: &Vec<u8>) -> (out: Vec<VAEvent>)
    requires
        audio_time(bytes@, (bytes@.len() / 4) as nat) <= usize::MAX,
    ensures
        out@.len() == bytes@.len() / 4,
        forall|i: int|
            0 <= i < out@.len() ==> #[trigger] out@[i] == (VAEvent {
                time: audio_time(bytes@, i as nat) as usize,
                kind: EventKind::Sound,
                param: audio_param(bytes@, i) as usize,
            }),
        sorted_by_time(out@),
        out@.len() > 0 ==> out@[0].time == 0,
        forall|i: int|
            0 < i < out@.len() ==> #[trigger] out@[i].time == out@[i - 1].time + (bytes@[4 * (i
                - 1)] as int * 256 + bytes@[4 * (i - 1) + 1] as int) * 1000,
        forall|i: int|
            0 <= i < out@.len() ==> #[trigger] out@[i].param == bytes@[4 * i + 2] as int * 256
                + bytes@[4 * i + 3] as int && out@[i].kind == EventKind::Sound,
{
    let size = bytes.len() / 4;
    let mut time: usize = 0;
    let mut out: Vec<VAEvent> = Vec::new();
    assert(bytes@.len() == bytes.len());
    for i in 0..size
        invariant
            size == bytes@.len() / 4,
            bytes@.len() <= usize::MAX,
            audio_time(bytes@, size as nat) <= usize::MAX,
            time == audio_time(bytes@, i as nat),
            out@.len() == i,
            forall|k: int|
                0 <= k < i ==> #[trigger] out@[k] == (VAEvent {
                    time: audio_time(bytes@, k as nat) as usize,
                    kind: EventKind::Sound,
                    param: audio_param(bytes@, k) as usize,
                }),
    {
        let delay = be_u16_of(bytes[i * 4], bytes[i * 4 + 1]) as usize * 1000;
        let param = be_u16_of(bytes[i * 4 + 2], bytes[i * 4 + 3]) as usize;
        out.push(VAEvent { kind: EventKind::Sound, time, param });
        proof {
            lemma_audio_time_monotonic(bytes@, (i + 1) as nat, size as nat);
        }
        time += delay;
    }
    proof {
        lemma_audio_events_follow_bytes(bytes@, out@);
    }
    out
}

/// The merge of two event lists: repeatedly take the first event of `a` where
/// it is strictly earlier than the first event of `b`, else the first of `b`.
pub open spec fn spec_merge(a: Seq<VAEvent>, b: Seq<VAEvent>) -> Seq<VAEvent>
    decreases a.len() + b.len(),
{
    if a.len() == 0 {
        b
    } else if b.len() == 0 {
        a
    } else if a[0].time < b[0].time {
        seq![a[0]] + spec_merge(a.drop_first(), b)
    } else {
        seq![b[0]] + spec_merge(a, b.drop_first())
    }
}

/// A merge holds every event of both lists, no more and no fewer (as a
/// multiset), so its length is the sum of theirs.
pub proof fn lemma_merge_permutation(a: Seq<VAEvent>, b: Seq<VAEvent>)
    ensures
        spec_merge(a, b).to_multiset() =~= a.to_multiset().add(b.to_multiset()),
        spec_merge(a, b).len() == a.len() + b.len(),
    decreases a.len() + b.len(),
{
    broadcast use vstd::seq_lib::lemma_multiset_commutative;
    broadcast use vstd::seq_lib::group_to_multiset_ensures;

    if a.len() == 0 {
        assert(a.to_multiset() =~= vstd::multiset::Multiset::empty());
    } else if b.len() == 0 {
        assert(b.to_multiset() =~= vstd::multiset::Multiset::empty());
    } else if a[0].time < b[0].time {
        lemma_merge_permutation(a.drop_first(), b);
        assert(a =~= seq![a[0]] + a.drop_first());
    } else {
        lemma_merge_permutation(a, b.drop_first());
        assert(b =~= seq![b[0]] + b.drop_first());
    }
}

/// An event time no later than every event of both lists is no later than
/// every event of their merge.
proof fn lemma_merge_lower_bound(a: Seq<VAEvent>, b: Seq<VAEvent>, t: int)
    requires
        forall|i: int| 0 <= i < a.len() ==> t <= #[trigger] a[i].time,
        forall|i: int| 0 <= i < b.len() ==> t <= #[trigger] b[i].time,
    ensures
        forall|i: int| 0 <= i < spec_merge(a, b).len() ==> t <= #[trigger] spec_merge(a, b)[i].time,
    decreases a.len() + b.len(),
{
    if a.len() == 0 || b.len() == 0 {
    } else if a[0].time < b[0].time {
        lemma_merge_lower_bound(a.drop_first(), b, t);
        let m = spec_merge(a, b);
        let r = spec_merge(a.drop_first(), b);
        assert forall|i: int| 0 <= i < m.len() implies t <= #[trigger] m[i].time by {
            if i > 0 {
                assert(m[i] == r[i - 1]);
            }
        }
    } else {
        lemma_merge_lower_bound(a, b.drop_first(), t);
        let m = spec_merge(a, b);
        let r = spec_merge(a, b.drop_first());
        assert forall|i: int| 0 <= i < m.len() implies t <= #[trigger] m[i].time by {
            if i > 0 {
                assert(m[i] == r[i - 1]);
            }
        }
    }
}

/// Merging two lists that are each in time order gives a list in time order.
pub proof fn lemma_merge_sorted(a: Seq<VAEvent>, b: Seq<VAEvent>)
    requires
        sorted_by_time(a),
        sorted_by_time(b),
    ensures
        sorted_by_time(spec_merge(a, b)),
    decreases a.len() + b.len(),
{
    if a.len() == 0 || b.len() == 0 {
    } else {
        let m = spec_merge(a, b);
        let (first, r) = if a[0].time < b[0].time {
            (a[0], spec_merge(a.drop_first(), b))
        } else {
            (b[0], spec_merge(a, b.drop_first()))
        };
        if a[0].time < b[0].time {
            lemma_merge_sorted(a.drop_first(), b);
            lemma_merge_lower_bound(a.drop_first(), b, a[0].time as int);
        } else {
            lemma_merge_sorted(a, b.drop_first());
            lemma_merge_lower_bound(a, b.drop_first(), b[0].time as int);
        }
        assert(m == seq![first] + r);
        assert forall|i: int, j: int| 0 <= i <= j < m.len() implies m[i].time <= m[j].time by {
            if i > 0 {
                assert(m[i] == r[i - 1] && m[j] == r[j - 1]);
            } else if j > 0 {
                assert(m[j] == r[j - 1]);
            }
        }
    }
}

/// A merge with an empty list is the other list, and a merge of two non-empty
/// lists starts with the head of `a` where it is strictly earlier than the
/// head of `b`, else with the head of `b`.
pub proof fn lemma_merge_head(a: Seq<VAEvent>, b: Seq<VAEvent>)
    ensures
        spec_merge(a, Seq::empty()) == a,
        spec_merge(Seq::empty(), b) == b,
        a.len() > 0 && b.len() > 0 && a[0].time < b[0].time ==> spec_merge(a, b)[0] == a[0],
        a.len() > 0 && b.len() > 0 && a[0].time >= b[0].time ==> spec_merge(a, b)[0] == b[0],
{
}

/// Merges two event lists into one (ties go to `b` first).
pub fn merge_events(a: &Vec<VAEvent>, b: &Vec<VAEvent>) -> (out: Vec<VAEvent>)
    ensures
        out@ == spec_merge(a@, b@),
{
    let mut out: Vec<VAEvent> = Vec::new();
    let mut ai: usize = 0;
    let mut bi: usize = 0;
    let ghost whole = spec_merge(a@, b@);
    assert(a@.skip(0) =~= a@ && b@.skip(0) =~= b@);
    assert(out@ + whole =~= whole);
    while ai < a.len() && bi < b.len()
        invariant
            ai <= a.len(),
            bi <= b.len(),
            whole == spec_merge(a@, b@),
            out@ + spec_merge(a@.skip(ai as int), b@.skip(bi as int)) == whole,
        decreases a.len() - ai + b.len() - bi,
    {
        let ghost rest_a = a@.skip(ai as int);
        let ghost rest_b = b@.skip(bi as int);
        if a[ai].time < b[bi].time {
            proof {
                assert(rest_a.drop_first() =~= a@.skip(ai + 1));
                assert(out@.push(a@[ai as int]) + spec_merge(a@.skip(ai + 1), rest_b) =~= out@
                    + spec_merge(rest_a, rest_b));
            }
            out.push(a[ai]);
            ai += 1;
        } else {
            proof {
                assert(rest_b.drop_first() =~= b@.skip(bi + 1));
                assert(out@.push(b@[bi as int]) + spec_merge(rest_a, b@.skip(bi + 1)) =~= out@
                    + spec_merge(rest_a, rest_b));
            }
            out.push(b[bi]);
            bi += 1;
        }
    }
    proof {
        if ai == a.len() {
            assert(a@.skip(ai as int) =~= Seq::<VAEvent>::empty());
        } else {
            assert(b@.skip(bi as int) =~= Seq::<VAEvent>::empty());
        }
        assert(out@ + a@.skip(ai as int) + b@.skip(bi as int) =~= whole);
    }
    while ai < a.len()
        invariant
            ai <= a.len(),
            bi <= b.len(),
            out@ + a@.skip(ai as int) + b@.skip(bi as int) == whole,
        decreases a.len() - ai,
    {
        proof {
            assert(out@.push(a@[ai as int]) + a@.skip(ai + 1) =~= out@ + a@.skip(ai as int));
        }
        out.push(a[ai]);
        ai += 1;
    }
    while bi < b.len()
        invariant
            ai == a.len(),
            bi <= b.len(),
            out@ + a@.skip(ai as int) + b@.skip(bi as int) == whole,
        decreases b.len() - bi,
    {
        proof {
            assert(out@.push(b@[bi as int]) + b@.skip(bi + 1) =~= out@ + b@.skip(bi as int));
            assert(a@.skip(ai as int) =~= Seq::<VAEvent>::empty());
        }
        out.push(b[bi]);
        bi += 1;
    }
    proof {
        assert(out@ + a@.skip(ai as int) + b@.skip(bi as int) =~= out@);
    }
    out
}

/// What the player does when an event comes due.
#[derive(Clone, Copy, Debug, PartialEq, Eq, Structural)]
pub enum PlaybackAction {
    /// Silence the PC speaker.
    SpeakerOff,
    /// Play a tone of this many Hz on the PC speaker.
    SpeakerOn(u16),
    /// Draw this frame of the video.
    ShowFrame(usize),
}

/// One step of playback: wait `wait` microseconds, then act.
#[derive(Clone, Copy, Debug, PartialEq, Eq, Structural)]
pub struct PlaybackStep {
    pub wait: usize,
    pub action: PlaybackAction,
}

pub open spec fn spec_playback_step(time: usize, e: VAEvent) -> PlaybackStep {
    PlaybackStep {
        wait: (e.time - time) as usize,
        action: match e.kind {
            EventKind::Sound => if e.param == 0 {
                PlaybackAction::SpeakerOff
            } else {
                PlaybackAction::SpeakerOn(e.param as u16)
            },
            EventKind::Frame => PlaybackAction::ShowFrame(e.param),
        },
    }
}

/// The player's decision for event `e` when the clock reads `time`
/// microseconds; afterwards the clock reads `e.time`.
pub fn playback_step(time: usize, e: &VAEvent) -> (step: PlaybackStep)
    requires
        time <= e.time,
    ensures
        step == spec_playback_step(time, *e),
        step.wait == e.time - time,
        e.kind == EventKind::Frame ==> step.action == PlaybackAction::ShowFrame(e.param),
        e.kind == EventKind::Sound && e.param == 0 ==> step.action == PlaybackAction::SpeakerOff,
        e.kind == EventKind::Sound && e.param != 0 ==> (step.action matches PlaybackAction::SpeakerOn(
            pitch,
        ) && pitch == e.param % 0x10000),
{
    let p = e.param;
    assert(p as u16 == p % 0x10000) by (bit_vector);
    let action = match e.kind {
        EventKind::Sound => {
            if e.param == 0 {
                PlaybackAction::SpeakerOff
            } else {
                PlaybackAction::SpeakerOn(e.param as u16)
            }
        },
        EventKind::Frame => PlaybackAction::ShowFrame(e.param),
    };
    PlaybackStep { wait: e.time - time, action }
}

/// The clock just before event `k` is handled: zero at the start, then the
/// time of the event handled last.
pub open spec fn clock_before(s: Seq<VAEvent>, k: int) -> usize {
    if k == 0 {
        0
    } else {
        s[k - 1].time
    }
}

/// Microseconds the player has waited once it has handled the first `n` events.
pub open spec fn total_wait(s: Seq<VAEvent>, n: nat) -> int
    decreases n,
{
    if n == 0 {
        0
    } else {
        total_wait(s, (n - 1) as nat) + spec_playback_step(clock_before(s, n - 1), s[n - 1]).wait
    }
}

/// Playing a list in time order, every step is allowed (the clock never has
/// to run backwards) and each event is handled after exactly its `time`
/// microseconds of waiting.
pub proof fn lemma_sorted_plays_on_time(s: Seq<VAEvent>, k: nat)
    requires
        sorted_by_time(s),
        k < s.len(),
    ensures
        clock_before(s, k as int) <= s[k as int].time,
        total_wait(s, k + 1) == s[k as int].time,
    decreases k,
{
    assert(total_wait(s, 0) == 0);
    if k > 0 {
        lemma_sorted_plays_on_time(s, (k - 1) as nat);
        assert(s[k - 1].time <= s[k as int].time);
    }
    assert(total_wait(s, k + 1) == total_wait(s, k) + spec_playback_step(
        clock_before(s, k as int),
        s[k as int],
    ).wait);
}

} // verus!

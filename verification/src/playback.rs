//! The decisions of the audio thread: where playback stands, what each
//! command does to it, when to look for a new output device, how playback
//! is restored on the new device, and what is reported on each tick.
//!
//! The audio output itself (opening the device, decoding files, the sink)
//! is driven by the caller, who hands in the clock and what the output
//! reports. Times are nanoseconds: `now` is a reading of a monotonic clock,
//! positions are offsets into the track.

use vstd::prelude::*;

use crate::schema::{clone_opt, opt_view};

verus! {

/// The longest position that can be held (`Duration::MAX`), in
/// nanoseconds.
pub const MAX_POSITION: u128 = 18_446_744_073_709_551_615_999_999_999u128;

/// How long the thread waits between two looks for a new default output
/// device, in nanoseconds.
pub const DEVICE_CHECK_INTERVAL: u128 = 2_000_000_000u128;

/// Time from `start` to `now` on the clock; none when `now` is earlier.
pub open spec fn elapsed(start: u128, now: u128) -> nat {
    if now >= start {
        (now - start) as nat
    } else {
        0
    }
}

/// The state of the audio thread, apart from the output device and the
/// volume.
pub struct PlaybackState {
    /// Whether an output device is open.
    pub has_output: bool,
    /// The name of the output device in use.
    pub last_device: Option<String>,
    /// When the output device was last looked for.
    pub last_device_check: u128,
    /// The track last started, to restore after a device switch.
    pub saved_path: Option<String>,
    /// The position saved when the output device went away.
    pub saved_position: Option<u128>,
    pub was_playing: bool,
    /// The position when the position timer last stopped or was set.
    pub pos_base: u128,
    /// When the position timer started, while it runs.
    pub pos_timer: Option<u128>,
}

pub struct PlaybackView {
    pub has_output: bool,
    pub last_device: Option<Seq<char>>,
    pub last_device_check: u128,
    pub saved_path: Option<Seq<char>>,
    pub saved_position: Option<u128>,
    pub was_playing: bool,
    pub pos_base: u128,
    pub pos_timer: Option<u128>,
}

impl View for PlaybackState {
    type V = PlaybackView;

    open spec fn view(&self) -> PlaybackView {
        PlaybackView {
            has_output: self.has_output,
            last_device: opt_view(self.last_device),
            last_device_check: self.last_device_check,
            saved_path: opt_view(self.saved_path),
            saved_position: self.saved_position,
            was_playing: self.was_playing,
            pos_base: self.pos_base,
            pos_timer: self.pos_timer,
        }
    }
}

/// Where playback stands at `now`: the base position, plus the time since
/// the timer started while it runs.
pub open spec fn position(s: PlaybackView, now: u128) -> nat {
    match s.pos_timer {
        Some(t) => s.pos_base as nat + elapsed(t, now),
        None => s.pos_base as nat,
    }
}

/// The position at `now` can be held.
pub open spec fn position_fits(s: PlaybackView, now: u128) -> bool {
    position(s, now) <= MAX_POSITION
}

/// The state after startup at `now`, with an output device opened or not.
pub open spec fn start_spec(now: u128, output: bool, device: Option<Seq<char>>) -> PlaybackView {
    PlaybackView {
        has_output: output,
        last_device: if output {
            device
        } else {
            None
        },
        last_device_check: now,
        saved_path: None,
        saved_position: None,
        was_playing: false,
        pos_base: 0,
        pos_timer: None,
    }
}

/// A track at `path` started playing at `now`.
pub open spec fn play_spec(s: PlaybackView, path: Seq<char>, now: u128) -> PlaybackView {
    PlaybackView {
        saved_path: Some(path),
        saved_position: None,
        was_playing: true,
        pos_base: 0,
        pos_timer: Some(now),
        ..s
    }
}

/// Playback paused at `now`.
pub open spec fn pause_spec(s: PlaybackView, now: u128) -> PlaybackView {
    PlaybackView { pos_base: position(s, now) as u128, pos_timer: None, was_playing: false, ..s }
}

/// Playback resumed at `now`.
pub open spec fn resume_spec(s: PlaybackView, now: u128) -> PlaybackView {
    PlaybackView { was_playing: true, pos_timer: Some(now), ..s }
}

/// Playback moved to `target` at `now`.
pub open spec fn seek_spec(s: PlaybackView, target: u128, now: u128) -> PlaybackView {
    PlaybackView { pos_base: target, pos_timer: Some(now), ..s }
}

/// The output device went away at `now`; the output reported whether it
/// was paused and whether it had run out of sound.
pub open spec fn lose_output_spec(
    s: PlaybackView,
    now: u128,
    sink_paused: bool,
    sink_empty: bool,
) -> PlaybackView {
    if s.has_output {
        PlaybackView {
            has_output: false,
            saved_position: Some(position(s, now) as u128),
            was_playing: !sink_paused && !sink_empty,
            ..s
        }
    } else {
        s
    }
}

/// An output device named `device` was opened.
pub open spec fn reconnect_spec(s: PlaybackView, device: Option<Seq<char>>) -> PlaybackView {
    PlaybackView { has_output: true, last_device: device, ..s }
}

/// The saved track was reloaded on the new output at position `pos`, at
/// `now`: it plays on from there if it was playing, and stays paused
/// otherwise.
pub open spec fn restore_spec(s: PlaybackView, pos: u128, now: u128) -> PlaybackView {
    PlaybackView {
        pos_base: pos,
        pos_timer: if s.was_playing {
            Some(now)
        } else {
            None
        },
        ..s
    }
}

/// The output ran out of sound: the track is over.
pub open spec fn finish_spec(s: PlaybackView) -> PlaybackView {
    PlaybackView { was_playing: false, pos_timer: None, ..s }
}

/// What a tick reports while a track plays.
pub enum Progress {
    /// The track is over.
    Finished,
    /// The track is at this position.
    At(u128),
}

impl PlaybackState {
    /// The state after startup at `now`. `device` is the name of the
    /// default output device, kept when an output was opened.
    pub fn start(now: u128, output: bool, device: Option<String>) -> (r: PlaybackState)
        ensures
            r@ == start_spec(now, output, opt_view(device)),
    {
        PlaybackState {
            has_output: output,
            last_device: if output {
                device
            } else {
                None
            },
            last_device_check: now,
            saved_path: None,
            saved_position: None,
            was_playing: false,
            pos_base: 0,
            pos_timer: None,
        }
    }

    /// Where playback stands at `now`.
    pub fn get_current_pos(&self, now: u128) -> (r: u128)
        requires
            position_fits(self@, now),
        ensures
            r == position(self@, now),
    {
        match self.pos_timer {
            Some(t) => {
                let e = if now >= t {
                    now - t
                } else {
                    0
                };
                self.pos_base + e
            },
            None => self.pos_base,
        }
    }

    /// Whether the position at `now` can be held.
    pub fn fits_at(&self, now: u128) -> (r: bool)
        ensures
            r == position_fits(self@, now),
    {
        match self.pos_timer {
            Some(t) => {
                let e = if now >= t {
                    now - t
                } else {
                    0
                };
                e <= MAX_POSITION && self.pos_base <= MAX_POSITION - e
            },
            None => self.pos_base <= MAX_POSITION,
        }
    }

    /// Records that the track at `path` started playing at `now`.
    pub fn play_started(&mut self, path: String, now: u128)
        requires
            old(self).has_output,
        ensures
            final(self)@ == play_spec(old(self)@, path@, now),
    {
        self.saved_path = Some(path);
        self.saved_position = None;
        self.was_playing = true;
        self.pos_base = 0;
        self.pos_timer = Some(now);
    }

    /// Records a pause at `now`: the position stops moving.
    pub fn paused(&mut self, now: u128)
        requires
            old(self).has_output,
            position_fits(old(self)@, now),
        ensures
            final(self)@ == pause_spec(old(self)@, now),
    {
        let p = self.get_current_pos(now);
        self.pos_base = p;
        self.pos_timer = None;
        self.was_playing = false;
    }

    /// Records a resume at `now`: the position moves on from where it was
    /// set last.
    pub fn resumed(&mut self, now: u128)
        requires
            old(self).has_output,
        ensures
            final(self)@ == resume_spec(old(self)@, now),
    {
        self.was_playing = true;
        self.pos_timer = Some(now);
    }

    /// Records a seek to `target` at `now`.
    pub fn seeked(&mut self, target: u128, now: u128)
        requires
            old(self).has_output,
        ensures
            final(self)@ == seek_spec(old(self)@, target, now),
    {
        self.pos_base = target;
        self.pos_timer = Some(now);
    }

    /// Whether it is time, at `now`, to look for the default output device
    /// again (two seconds after the last look); when it is, the look is
    /// recorded.
    pub fn device_check_due(&mut self, now: u128) -> (due: bool)
        ensures
            due == (elapsed(old(self).last_device_check, now) >= DEVICE_CHECK_INTERVAL),
            due ==> final(self)@ == (PlaybackView { last_device_check: now, ..old(self)@ }),
            !due ==> final(self)@ == old(self)@,
    {
        let e = if now >= self.last_device_check {
            now - self.last_device_check
        } else {
            0
        };
        if e >= DEVICE_CHECK_INTERVAL {
            self.last_device_check = now;
            true
        } else {
            false
        }
    }

    /// Whether the default output device `current` is a new one to switch
    /// to.
    pub fn device_changed(&self, current: &Option<String>) -> (r: bool)
        ensures
            r == (current is Some && opt_view(*current) != opt_view(self.last_device)),
    {
        match current {
            Some(c) => match &self.last_device {
                Some(d) => *c != *d,
                None => true,
            },
            None => false,
        }
    }

    /// Records that the output device went away at `now`, saving where and
    /// whether the track was playing; `sink_paused` and `sink_empty` are
    /// what the old output reported.
    pub fn lose_output(&mut self, now: u128, sink_paused: bool, sink_empty: bool)
        requires
            old(self).has_output ==> position_fits(old(self)@, now),
        ensures
            final(self)@ == lose_output_spec(old(self)@, now, sink_paused, sink_empty),
    {
        if self.has_output {
            let p = self.get_current_pos(now);
            self.saved_position = Some(p);
            self.was_playing = !sink_paused && !sink_empty;
            self.has_output = false;
        }
    }

    /// Records that the output device `device` was opened, and answers
    /// what to reload on it: the saved track and position, when both are
    /// known.
    pub fn reconnected(&mut self, device: Option<String>) -> (restore: Option<(String, u128)>)
        ensures
            final(self)@ == reconnect_spec(old(self)@, opt_view(device)),
            match (old(self)@.saved_path, old(self)@.saved_position) {
                (Some(p), Some(pos)) => (restore matches Some(r) && r.0@ == p && r.1 == pos),
                _ => restore is None,
            },
    {
        self.has_output = true;
        self.last_device = device;
        match (&self.saved_path, self.saved_position) {
            (Some(p), Some(pos)) => Some((p.clone(), pos)),
            _ => None,
        }
    }

    /// Records that the saved track was reloaded at `pos`, at `now`.
    pub fn restored(&mut self, pos: u128, now: u128)
        ensures
            final(self)@ == restore_spec(old(self)@, pos, now),
    {
        self.pos_base = pos;
        self.pos_timer = if self.was_playing {
            Some(now)
        } else {
            None
        };
    }

    /// Whether a tick reports progress: an output is open and a track is
    /// playing.
    pub fn reports_progress(&self) -> (r: bool)
        ensures
            r == (self.has_output && self.was_playing),
    {
        self.has_output && self.was_playing
    }

    /// What a tick at `now` reports, given whether the output has run out
    /// of sound: the end of the track (which stops playback), or the
    /// position.
    pub fn progress(&mut self, now: u128, sink_empty: bool) -> (r: Progress)
        requires
            old(self).has_output,
            old(self).was_playing,
            !sink_empty ==> position_fits(old(self)@, now),
        ensures
            sink_empty ==> r is Finished && final(self)@ == finish_spec(old(self)@),
            !sink_empty ==> r == Progress::At(position(old(self)@, now) as u128) && final(self)@
                == old(self)@,
    {
        if sink_empty {
            self.was_playing = false;
            self.pos_timer = None;
            Progress::Finished
        } else {
            Progress::At(self.get_current_pos(now))
        }
    }

    /// A copy of the device name in use.
    pub fn device_name(&self) -> (r: Option<String>)
        ensures
            opt_view(r) == opt_view(self.last_device),
    {
        clone_opt(&self.last_device)
    }
}

// ---------------------------------------------------------------------------
// Laws
// ---------------------------------------------------------------------------

/// A track that starts playing starts at position zero.
pub proof fn law_play_starts_at_zero(s: PlaybackView, path: Seq<char>, now: u128)
    ensures
        position(play_spec(s, path, now), now) == 0,
        play_spec(s, path, now).saved_path == Some(path),
{
}

/// While paused, the position does not move: at any later time it is
/// where it was when the pause came.
pub proof fn law_pause_holds_position(s: PlaybackView, paused_at: u128, later: u128)
    requires
        position_fits(s, paused_at),
    ensures
        position(pause_spec(s, paused_at), later) == position(s, paused_at),
{
}

/// After a pause and a resume, the position moves on from where the pause
/// left it, by the time since the resume.
pub proof fn law_resume_continues(s: PlaybackView, paused_at: u128, resumed_at: u128, later: u128)
    requires
        position_fits(s, paused_at),
    ensures
        position(resume_spec(pause_spec(s, paused_at), resumed_at), later) == position(s, paused_at)
            + elapsed(resumed_at, later),
{
}

/// Right after a seek, the position is the one asked for.
pub proof fn law_seek_sets_position(s: PlaybackView, target: u128, now: u128)
    ensures
        position(seek_spec(s, target, now), now) == target,
{
}

/// A switch of output device keeps the place in the track: losing the
/// output at `lost_at` and restoring on the new one at `restored_at`
/// resumes the same track at the same position, playing on if and only if
/// the old output was playing, and standing still otherwise.
pub proof fn law_device_switch_keeps_place(
    s: PlaybackView,
    lost_at: u128,
    sink_paused: bool,
    sink_empty: bool,
    device: Option<Seq<char>>,
    restored_at: u128,
    later: u128,
)
    requires
        s.has_output,
        position_fits(s, lost_at),
    ensures
        ({
            let lost = lose_output_spec(s, lost_at, sink_paused, sink_empty);
            let back = reconnect_spec(lost, device);
            let pos = back.saved_position->0;
            let done = restore_spec(back, pos, restored_at);
            &&& back.saved_path == s.saved_path
            &&& back.saved_position == Some(position(s, lost_at) as u128)
            &&& done.was_playing == (!sink_paused && !sink_empty)
            &&& done.was_playing ==> position(done, later) == position(s, lost_at) + elapsed(
                restored_at,
                later,
            )
            &&& !done.was_playing ==> position(done, later) == position(s, lost_at)
        }),
{
}

/// When the track is over, playback stops and the position stands still.
pub proof fn law_finished_stops(s: PlaybackView, t1: u128, t2: u128)
    ensures
        !finish_spec(s).was_playing,
        position(finish_spec(s), t1) == position(finish_spec(s), t2),
{
}

// ---------------------------------------------------------------------------
// Runs of the audio loop
// ---------------------------------------------------------------------------

/// What the audio loop handles, as far as the playback state goes: a
/// command that took effect (a play whose track opened, a pause, a resume,
/// a seek), a tick of the loop with what the output reported, or a switch
/// of output device.
pub enum PlayerEvent {
    Play { path: Seq<char>, now: u128 },
    Pause { now: u128 },
    Resume { now: u128 },
    Seek { target: u128, now: u128 },
    Tick { now: u128, sink_empty: bool },
    /// The default output device changed: the old output went away at
    /// `now`, reporting whether it was paused and whether it had run out of
    /// sound; when `reopened`, an output was opened on `device`, and when
    /// `restored_at` holds a time, the saved track was reloaded on it then.
    Switch {
        now: u128,
        sink_paused: bool,
        sink_empty: bool,
        reopened: bool,
        device: Option<Seq<char>>,
        restored_at: Option<u128>,
    },
}

/// An output was opened on `device`, and the saved track reloaded on it at
/// `restored_at` when there is one to reload and the reload was made.
pub open spec fn reopen_spec(
    s: PlaybackView,
    device: Option<Seq<char>>,
    restored_at: Option<u128>,
) -> PlaybackView {
    let back = reconnect_spec(s, device);
    match (back.saved_path, back.saved_position, restored_at) {
        (Some(_), Some(pos), Some(t)) => restore_spec(back, pos, t),
        _ => back,
    }
}

/// The state after the loop handles `e`: a command changes it only while
/// an output is open; a tick ends the track when it finds the output out
/// of sound while a track plays; a switch loses the output and, when a new
/// one opens, reloads the saved track on it.
pub open spec fn step_spec(s: PlaybackView, e: PlayerEvent) -> PlaybackView {
    match e {
        PlayerEvent::Play { path, now } => if s.has_output {
            play_spec(s, path, now)
        } else {
            s
        },
        PlayerEvent::Pause { now } => if s.has_output {
            pause_spec(s, now)
        } else {
            s
        },
        PlayerEvent::Resume { now } => if s.has_output {
            resume_spec(s, now)
        } else {
            s
        },
        PlayerEvent::Seek { target, now } => if s.has_output {
            seek_spec(s, target, now)
        } else {
            s
        },
        PlayerEvent::Tick { now, sink_empty } => if s.has_output && s.was_playing && sink_empty {
            finish_spec(s)
        } else {
            s
        },
        PlayerEvent::Switch { now, sink_paused, sink_empty, reopened, device, restored_at } => {
            let lost = lose_output_spec(s, now, sink_paused, sink_empty);
            if reopened {
                reopen_spec(lost, device, restored_at)
            } else {
                lost
            }
        },
    }
}

/// What the loop reports when it handles `e`: a tick reports, while an
/// output is open and a track plays, the end of the track or the position.
pub open spec fn report_spec(s: PlaybackView, e: PlayerEvent) -> Option<Progress> {
    match e {
        PlayerEvent::Tick { now, sink_empty } => if s.has_output && s.was_playing {
            if sink_empty {
                Some(Progress::Finished)
            } else {
                Some(Progress::At(position(s, now) as u128))
            }
        } else {
            None
        },
        _ => None,
    }
}

/// The state after the loop handles the events `es`, in order, from `s`.
pub open spec fn state_after(s: PlaybackView, es: Seq<PlayerEvent>) -> PlaybackView
    decreases es.len(),
{
    if es.len() == 0 {
        s
    } else {
        step_spec(state_after(s, es.drop_last()), es.last())
    }
}

/// What the loop reports when it handles the `i`-th of `es`, run from `s`.
pub open spec fn report_at(s: PlaybackView, es: Seq<PlayerEvent>, i: int) -> Option<Progress> {
    report_spec(state_after(s, es.take(i)), es[i])
}

/// A play or a resume: the commands that start sound.
pub open spec fn starts_sound(e: PlayerEvent) -> bool {
    e is Play || e is Resume
}

/// A switch that opened a new output.
pub open spec fn reopens(e: PlayerEvent) -> bool {
    match e {
        PlayerEvent::Switch { reopened, .. } => reopened,
        _ => false,
    }
}

/// A tick that found the output out of sound.
pub open spec fn tick_found_empty(e: PlayerEvent) -> bool {
    match e {
        PlayerEvent::Tick { sink_empty, .. } => sink_empty,
        _ => false,
    }
}

/// At the `k`-th event of the run, the output agrees with the state: a
/// switch that finds an output open while no track plays finds it paused
/// or out of sound (the loop pauses the output with each pause, and a
/// track ends only when the output runs out of sound).
pub open spec fn output_follows(s: PlaybackView, es: Seq<PlayerEvent>, k: int) -> bool {
    match es[k] {
        PlayerEvent::Switch { sink_paused, sink_empty, .. } => {
            let v = state_after(s, es.take(k));
            v.has_output && !v.was_playing ==> sink_paused || sink_empty
        },
        _ => true,
    }
}

/// No sound is being tracked: no output is open, or no track plays.
pub open spec fn is_quiet(s: PlaybackView) -> bool {
    !(s.has_output && s.was_playing)
}

proof fn lemma_state_after_step(s: PlaybackView, es: Seq<PlayerEvent>, k: int)
    requires
        0 <= k < es.len(),
    ensures
        state_after(s, es.take(k + 1)) == step_spec(state_after(s, es.take(k)), es[k]),
{
    assert(es.take(k + 1).drop_last() =~= es.take(k));
    assert(es.take(k + 1).last() == es[k]);
}

/// Once no track plays, none plays and nothing is reported until a play
/// or a resume, while the output agrees with the state.
proof fn lemma_silent_run(s: PlaybackView, es: Seq<PlayerEvent>, a: int, b: int)
    requires
        0 <= a <= b <= es.len(),
        !state_after(s, es.take(a)).was_playing,
        forall|k: int| a <= k < b ==> !starts_sound(#[trigger] es[k]),
        forall|k: int| a <= k < b ==> #[trigger] output_follows(s, es, k),
    ensures
        !state_after(s, es.take(b)).was_playing,
        forall|k: int| a <= k < b ==> (#[trigger] report_at(s, es, k)) is None,
    decreases b - a,
{
    if a < b {
        lemma_state_after_step(s, es, a);
        assert(!starts_sound(es[a]));
        assert(output_follows(s, es, a));
        lemma_silent_run(s, es, a + 1, b);
    }
}

/// Without an output, none opens and nothing is reported until a switch
/// opens one.
proof fn lemma_offline_run(s: PlaybackView, es: Seq<PlayerEvent>, a: int, b: int)
    requires
        0 <= a <= b <= es.len(),
        !state_after(s, es.take(a)).has_output,
        forall|k: int| a <= k < b ==> !reopens(#[trigger] es[k]),
    ensures
        !state_after(s, es.take(b)).has_output,
        forall|k: int| a <= k < b ==> (#[trigger] report_at(s, es, k)) is None,
    decreases b - a,
{
    if a < b {
        lemma_state_after_step(s, es, a);
        assert(!reopens(es[a]));
        lemma_offline_run(s, es, a + 1, b);
    }
}

/// After a pause the loop reports nothing, neither a position nor the end
/// of the track, until a play or a resume. When the pause came with no
/// output open (and so was dropped, as the loop drops it), this holds
/// until an output opens again; otherwise it holds across device switches
/// too, the output agreeing with the state.
pub proof fn law_paused_reports_nothing(s: PlaybackView, es: Seq<PlayerEvent>, i: int, j: int)
    requires
        0 <= i < j < es.len(),
        es[i] is Pause,
        forall|k: int| i < k < j ==> !starts_sound(#[trigger] es[k]),
        state_after(s, es.take(i + 1)).was_playing ==> forall|k: int|
            i < k < j ==> !reopens(#[trigger] es[k]),
        !state_after(s, es.take(i + 1)).was_playing ==> forall|k: int|
            i < k < j ==> #[trigger] output_follows(s, es, k),
    ensures
        report_at(s, es, j) is None,
{
    lemma_state_after_step(s, es, i);
    if state_after(s, es.take(i + 1)).was_playing {
        lemma_offline_run(s, es, i + 1, j);
    } else {
        lemma_silent_run(s, es, i + 1, j);
    }
}

/// The end of a track is reported only while a track plays, it stops
/// playback, and it is reported at most once between two plays or
/// resumes: after it, nothing at all is reported until the next one,
/// across device switches too, the output agreeing with the state.
pub proof fn law_finished_once(s: PlaybackView, es: Seq<PlayerEvent>, i: int, j: int)
    requires
        0 <= i < j < es.len(),
        report_at(s, es, i) == Some(Progress::Finished),
        forall|k: int| i < k < j ==> !starts_sound(#[trigger] es[k]),
        forall|k: int| i < k < j ==> #[trigger] output_follows(s, es, k),
    ensures
        state_after(s, es.take(i)).was_playing,
        !state_after(s, es.take(i + 1)).was_playing,
        report_at(s, es, j) is None,
{
    lemma_state_after_step(s, es, i);
    lemma_silent_run(s, es, i + 1, j);
}

/// Ticks alone leave a playing state as it is until one finds the output
/// out of sound; from then on the loop is quiet.
proof fn lemma_ticks_keep_state(s: PlaybackView, es: Seq<PlayerEvent>, n: int)
    requires
        0 <= n <= es.len(),
        s.has_output,
        s.was_playing,
        forall|k: int| 0 <= k < es.len() ==> (#[trigger] es[k]) is Tick,
    ensures
        (forall|k: int| 0 <= k < n ==> !tick_found_empty(#[trigger] es[k])) ==> state_after(
            s,
            es.take(n),
        ) == s,
        (exists|k: int| 0 <= k < n && tick_found_empty(#[trigger] es[k])) ==> is_quiet(
            state_after(s, es.take(n)),
        ),
    decreases n,
{
    if n == 0 {
        assert(es.take(0) =~= Seq::<PlayerEvent>::empty());
    } else {
        lemma_ticks_keep_state(s, es, n - 1);
        lemma_state_after_step(s, es, n - 1);
        assert(es[n - 1] is Tick);
    }
}

/// After a seek to `target` at `t0` while a track plays, followed only by
/// ticks: each tick up to the end of the track reports `target` plus the
/// time since the seek; the first tick that finds the output out of sound
/// reports the end; no tick after it reports anything.
pub proof fn law_progress_after_seek(
    s: PlaybackView,
    target: u128,
    t0: u128,
    es: Seq<PlayerEvent>,
    i: int,
)
    requires
        s.has_output,
        s.was_playing,
        forall|k: int| 0 <= k < es.len() ==> (#[trigger] es[k]) is Tick,
        0 <= i < es.len(),
    ensures
        ({
            let r = report_at(seek_spec(s, target, t0), es, i);
            if exists|k: int| 0 <= k < i && tick_found_empty(#[trigger] es[k]) {
                r is None
            } else if tick_found_empty(es[i]) {
                r == Some(Progress::Finished)
            } else {
                es[i] matches PlayerEvent::Tick { now, .. } && r == Some(
                    Progress::At((target + elapsed(t0, now)) as u128),
                )
            }
        }),
{
    let s0 = seek_spec(s, target, t0);
    lemma_ticks_keep_state(s0, es, i);
    assert(es[i] is Tick);
}

/// When an event starts, on the loop's clock.
pub open spec fn event_start(e: PlayerEvent) -> int {
    match e {
        PlayerEvent::Play { now, .. } => now as int,
        PlayerEvent::Pause { now } => now as int,
        PlayerEvent::Resume { now } => now as int,
        PlayerEvent::Seek { now, .. } => now as int,
        PlayerEvent::Tick { now, .. } => now as int,
        PlayerEvent::Switch { now, .. } => now as int,
    }
}

/// When an event ends: a switch that reloads the track ends with the
/// reload; any other event when it starts.
pub open spec fn event_end(e: PlayerEvent) -> int {
    match e {
        PlayerEvent::Switch { now, reopened, restored_at, .. } => if reopened {
            match restored_at {
                Some(t) => t as int,
                None => now as int,
            }
        } else {
            now as int
        },
        _ => event_start(e),
    }
}

/// The events of `es` come in the order of the clock, from `t0` on.
pub open spec fn in_clock_order(t0: u128, es: Seq<PlayerEvent>) -> bool {
    &&& forall|k: int| 0 <= k < es.len() ==> t0 <= event_start(#[trigger] es[k])
    &&& forall|k: int| 0 <= k < es.len() ==> event_start(#[trigger] es[k]) <= event_end(es[k])
    &&& forall|k: int, m: int|
        0 <= k < m < es.len() ==> event_end(#[trigger] es[k]) <= event_start(#[trigger] es[m])
}

/// For a run of events: since when the output has been gone, when it is
/// gone at the end of the run, and the time spent between the loss of an
/// output and the reload of the track on a new one.
pub open spec fn offline(es: Seq<PlayerEvent>) -> (Option<int>, int)
    decreases es.len(),
{
    if es.len() == 0 {
        (None, 0)
    } else {
        let prev = offline(es.drop_last());
        match es.last() {
            PlayerEvent::Switch { now, reopened, restored_at, .. } => {
                let since = match prev.0 {
                    Some(l) => l,
                    None => now as int,
                };
                if reopened {
                    match restored_at {
                        Some(t) => (None, prev.1 + (t - since)),
                        None => (None, prev.1),
                    }
                } else {
                    (Some(since), prev.1)
                }
            },
            _ => prev,
        }
    }
}

/// A switch that opens a new output also reloads the track on it.
pub open spec fn reloads_when_reopened(e: PlayerEvent) -> bool {
    match e {
        PlayerEvent::Switch { reopened, restored_at, .. } => reopened ==> restored_at is Some,
        _ => true,
    }
}

/// What holds after the first `n` events of a run after a seek: no track
/// plays; or it plays on an output, its position counting the time since
/// the seek less the time without an output; or the output is gone and
/// the saved position is the one at the loss, counted the same way.
pub open spec fn switch_run_inv(
    s0: PlaybackView,
    target: u128,
    t0: u128,
    es: Seq<PlayerEvent>,
    n: int,
) -> bool {
    let v = state_after(s0, es.take(n));
    let off = offline(es.take(n));
    let t = if n == 0 {
        t0 as int
    } else {
        event_end(es[n - 1])
    };
    ||| !v.was_playing
    ||| {
        &&& v.has_output
        &&& v.was_playing
        &&& off.0 is None
        &&& v.saved_path is Some
        &&& v.pos_timer matches Some(tm)
        &&& t0 <= tm <= t
        &&& 0 <= off.1 <= tm - t0
        &&& v.pos_base == target + (tm - t0) - off.1
    }
    ||| {
        &&& !v.has_output
        &&& v.was_playing
        &&& v.saved_path is Some
        &&& off.0 matches Some(la)
        &&& t0 <= la <= t
        &&& v.saved_position matches Some(p)
        &&& 0 <= off.1 <= la - t0
        &&& p == target + (la - t0) - off.1
    }
}

proof fn lemma_switch_run(s: PlaybackView, target: u128, t0: u128, es: Seq<PlayerEvent>, n: int)
    requires
        s.has_output,
        s.was_playing,
        s.saved_path is Some,
        forall|k: int| 0 <= k < es.len() ==> (#[trigger] es[k]) is Tick || es[k] is Switch,
        forall|k: int| 0 <= k < es.len() ==> reloads_when_reopened(#[trigger] es[k]),
        in_clock_order(t0, es),
        forall|k: int| 0 <= k < es.len() ==> target + (event_end(#[trigger] es[k]) - t0) <= MAX_POSITION,
        forall|k: int| 0 <= k < es.len() ==> #[trigger] output_follows(seek_spec(s, target, t0), es, k),
        0 <= n <= es.len(),
    ensures
        switch_run_inv(seek_spec(s, target, t0), target, t0, es, n),
    decreases n,
{
    let s0 = seek_spec(s, target, t0);
    if n == 0 {
        assert(es.take(0) =~= Seq::<PlayerEvent>::empty());
    } else {
        let k = n - 1;
        lemma_switch_run(s, target, t0, es, k);
        lemma_state_after_step(s0, es, k);
        assert(es.take(k + 1).drop_last() =~= es.take(k));
        let e = es[k];
        let v = state_after(s0, es.take(k));
        let off = offline(es.take(k));
        assert(offline(es.take(n)) == {
            match e {
                PlayerEvent::Switch { now, reopened, restored_at, .. } => {
                    let since = match off.0 {
                        Some(l) => l,
                        None => now as int,
                    };
                    if reopened {
                        match restored_at {
                            Some(t) => (None, off.1 + (t - since)),
                            None => (None, off.1),
                        }
                    } else {
                        (Some(since), off.1)
                    }
                },
                _ => off,
            }
        });
        assert(e is Tick || e is Switch);
        assert(reloads_when_reopened(e));
        assert(output_follows(s0, es, k));
        assert(t0 <= event_start(e) <= event_end(e));
        assert(target + (event_end(e) - t0) <= MAX_POSITION);
        if k > 0 {
            assert(event_end(es[k - 1]) <= event_start(es[k]));
        }
    }
}

/// After a seek to `target` at `t0` while a track plays, followed by ticks
/// and device switches only (each new output reloading the track, the
/// output agreeing with the state, the clock in order): every position
/// reported is `target` plus the time since the seek, less the time spent
/// without an output. So a switch neither loses nor gains time.
pub proof fn law_progress_across_switches(
    s: PlaybackView,
    target: u128,
    t0: u128,
    es: Seq<PlayerEvent>,
    i: int,
)
    requires
        s.has_output,
        s.was_playing,
        s.saved_path is Some,
        forall|k: int| 0 <= k < es.len() ==> (#[trigger] es[k]) is Tick || es[k] is Switch,
        forall|k: int| 0 <= k < es.len() ==> reloads_when_reopened(#[trigger] es[k]),
        in_clock_order(t0, es),
        forall|k: int| 0 <= k < es.len() ==> target + (event_end(#[trigger] es[k]) - t0) <= MAX_POSITION,
        forall|k: int| 0 <= k < es.len() ==> #[trigger] output_follows(seek_spec(s, target, t0), es, k),
        0 <= i < es.len(),
    ensures
        report_at(seek_spec(s, target, t0), es, i) matches Some(Progress::At(p)) ==> {
            let off = offline(es.take(i)).1;
            &&& 0 <= off <= event_start(es[i]) - t0
            &&& p == target + (event_start(es[i]) - t0) - off
        },
{
    lemma_switch_run(s, target, t0, es, i);
    assert(t0 <= event_start(es[i]) <= event_end(es[i]));
    assert(target + (event_end(es[i]) - t0) <= MAX_POSITION);
    if i > 0 {
        assert(event_end(es[i - 1]) <= event_start(es[i]));
    }
}

} // verus!

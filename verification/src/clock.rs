//! The playback clock.
//!
//! Audio is the master: how much of it has been played is the definition of
//! now, and video is fitted to that. Until audio flows, or without any, the
//! clock follows a monotonic one, whose readings the caller passes in.

use vstd::prelude::*;

use crate::time;

verus! {

#[derive(Debug, Clone, Copy)]
pub struct Clock {
    /// The position last reported by the audio device.
    pub audio_pts: i64,
    /// Set once audio has started to flow.
    pub has_audio: bool,
    pub paused: bool,
    /// The reading of the monotonic clock at which the fallback started.
    pub since: u64,
    /// The position that the fallback started from.
    pub base: i64,
}

/// How far the monotonic clock has come since `since`.
pub open spec fn elapsed(since: u64, instant: u64) -> int {
    if instant > since {
        instant - since
    } else {
        0
    }
}

impl Clock {
    /// Where playback is when the monotonic clock reads `instant`.
    pub open spec fn position(self, instant: u64) -> int {
        if self.has_audio {
            self.audio_pts as int
        } else if self.paused {
            self.base as int
        } else {
            time::clamped(self.base + elapsed(self.since, instant))
        }
    }

    /// The clock after pausing or resuming.
    pub open spec fn with_pause(self, paused: bool, instant: u64) -> Clock {
        if paused == self.paused {
            self
        } else {
            Clock {
                paused: paused,
                since: instant,
                base: self.position(instant) as i64,
                ..self
            }
        }
    }

    /// The clock after a seek.
    pub open spec fn moved_to(self, t: i64, instant: u64) -> Clock {
        Clock { audio_pts: t, has_audio: false, since: instant, base: t, ..self }
    }

    /// The clock after the audio device has reported a position.
    pub open spec fn heard(self, t: i64) -> Clock {
        Clock { audio_pts: t, has_audio: true, ..self }
    }

    /// A paused clock at the start.
    pub fn new(instant: u64) -> (r: Clock)
        ensures
            r == (Clock {
                audio_pts: 0,
                has_audio: false,
                paused: true,
                since: instant,
                base: 0,
            }),
    {
        Clock { audio_pts: 0, has_audio: false, paused: true, since: instant, base: 0 }
    }

    /// Takes the position of the sample that is being heard.
    pub fn set_audio_pts(&mut self, t: i64)
        ensures
            *final(self) == old(self).heard(t),
    {
        self.audio_pts = t;
        self.has_audio = true;
    }

    /// Where playback is now.
    pub fn now(&self, instant: u64) -> (r: i64)
        ensures
            r == self.position(instant),
    {
        if self.has_audio {
            return self.audio_pts;
        }
        if self.paused {
            self.base
        } else {
            let passed: u64 = if instant > self.since {
                instant - self.since
            } else {
                0
            };
            time::clamp_time(self.base as i128 + passed as i128)
        }
    }

    /// Pauses or resumes. The fallback is frozen at the current position, so
    /// that resuming does not jump by the length of the pause.
    pub fn set_paused(&mut self, paused: bool, instant: u64)
        ensures
            *final(self) == old(self).with_pause(paused, instant),
    {
        if paused == self.paused {
            return;
        }
        let now: i64 = self.now(instant);
        self.since = instant;
        self.base = now;
        self.paused = paused;
    }

    pub fn is_paused(&self) -> (r: bool)
        ensures
            r == self.paused,
    {
        self.paused
    }

    /// Restarts at `t`, with the audio clock disarmed until the device
    /// reports a sample from after the seek.
    pub fn reset_to(&mut self, t: i64, instant: u64)
        ensures
            *final(self) == old(self).moved_to(t, instant),
    {
        self.audio_pts = t;
        self.has_audio = false;
        self.since = instant;
        self.base = t;
    }
}

// ── Laws ────────────────────────────────────────────────────────────────

/// A position always fits the type that holds it.
pub proof fn positions_fit(clock: Clock, instant: u64)
    ensures
        i64::MIN <= clock.position(instant) <= i64::MAX,
{
}

/// Once audio flows it alone says where playback is.
pub proof fn audio_is_the_master(clock: Clock, t: i64, instant: u64)
    ensures
        clock.heard(t).position(instant) == t,
{
}

/// While paused the clock stands still, at the position where it was paused.
pub proof fn pausing_freezes(clock: Clock, paused_at: u64, later: u64)
    requires
        !clock.paused,
    ensures
        clock.with_pause(true, paused_at).position(later) == clock.position(paused_at),
{
}

/// Resuming carries on from where the pause began, however long it was.
pub proof fn resuming_does_not_jump(clock: Clock, paused_at: u64, resumed_at: u64)
    requires
        !clock.paused,
    ensures
        clock.with_pause(true, paused_at).with_pause(false, resumed_at).position(resumed_at)
            == clock.position(paused_at),
{
}

/// After a seek the clock reads the target, whatever was heard before it.
pub proof fn a_seek_lands_on_its_target(clock: Clock, t: i64, instant: u64)
    ensures
        clock.moved_to(t, instant).position(instant) == t,
        !clock.moved_to(t, instant).has_audio,
{
}

/// The clock never runs backwards by itself.
pub proof fn time_moves_forward(clock: Clock, earlier: u64, later: u64)
    requires
        earlier <= later,
    ensures
        clock.position(earlier) <= clock.position(later),
{
}

/// While it runs on its own the clock keeps time: as much passes on it as
/// passes.
pub proof fn the_clock_runs_at_the_speed_of_time(clock: Clock, earlier: u64, later: u64)
    requires
        !clock.has_audio,
        !clock.paused,
        clock.since <= earlier <= later,
        clock.base + (later - clock.since) <= i64::MAX,
    ensures
        clock.position(later) - clock.position(earlier) == later - earlier,
        clock.position(clock.since) == clock.base,
{
}

/// Pausing, seeking and hearing each change their own part: what was asked
/// for holds afterwards, and only pausing touches the pause.
pub proof fn each_change_is_its_own(clock: Clock, paused: bool, t: i64, instant: u64)
    ensures
        clock.with_pause(paused, instant).paused == paused,
        clock.with_pause(paused, instant).position(instant) == clock.position(instant),
        clock.with_pause(paused, instant).has_audio == clock.has_audio,
        clock.moved_to(t, instant).paused == clock.paused,
        clock.heard(t).paused == clock.paused,
        clock.heard(t).has_audio,
{
}

/// A paused clock stands still, whatever the time, until it is moved.
pub proof fn a_paused_clock_stands_still(clock: Clock, t: i64, set: u64, earlier: u64, later: u64)
    requires
        clock.paused,
    ensures
        clock.position(earlier) == clock.position(later),
        clock.moved_to(t, set).position(earlier) == t,
        clock.moved_to(t, set).position(later) == t,
{
}

} // verus!

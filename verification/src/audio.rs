//! The sound card, and the clock that hangs off it.

use vstd::prelude::*;

use crate::clock::Clock;
use crate::engine;
use crate::engine::{FrameStep, PacketStep, Shared};
use crate::error::Error;
use crate::order;
use crate::order::Ranked;
use crate::ring;
use crate::ring::AudioRing;
use crate::text;
use crate::time;
use crate::time::TimeBase;

verus! {

/// Shared between the decode thread, the audio callback and the clock.
#[derive(Debug)]
pub struct AudioState<T: Copy> {
    pub ring: AudioRing<T>,
    /// The position of sample zero of the current continuous run. Between
    /// seeks the stream is gapless, so the played position is this plus the
    /// samples played over their rate.
    pub anchor: i64,
    pub rate: u32,
    pub channels: u16,
}

/// Samples per second over all channels, at least one.
pub open spec fn sample_rate(rate: u32, channels: u16) -> int {
    if rate == 0 || channels == 0 {
        1
    } else {
        rate * channels
    }
}

/// Where playback is: `just_queued` of the samples given out are still to be
/// heard.
pub open spec fn heard_position(
    anchor: i64,
    consumed: u64,
    just_queued: int,
    rate: u32,
    channels: u16,
) -> int {
    let played = if consumed > just_queued {
        consumed - just_queued
    } else {
        0
    };
    time::clamped(anchor + time::samples_time(played, sample_rate(rate, channels)))
}

impl<T: Copy> AudioState<T> {
    pub open spec fn wf(self) -> bool {
        self.ring.wf()
    }

    /// A ring that holds about a second.
    pub fn new(rate: u32, channels: u16, silence: T) -> (r: AudioState<T>)
        requires
            rate * channels <= usize::MAX,
        ensures
            r.wf(),
            r.ring@ == Seq::<T>::empty(),
            r.ring.room() == rate * channels,
            r.ring.quiet() == silence,
            r.ring.taken() == 0,
            r.anchor == 0,
            r.rate == rate,
            r.channels == channels,
    {
        let wanted: u64 = per_second(rate, channels);
        assert(0 <= rate * channels) by (nonlinear_arith)
            requires
                rate >= 0,
                channels >= 0,
        ;
        let capacity: usize = if rate == 0 || channels == 0 {
            assert(rate * channels == 0) by (nonlinear_arith)
                requires
                    rate == 0 || channels == 0,
            ;
            0
        } else {
            wanted as usize
        };
        AudioState {
            ring: AudioRing::new(capacity, silence),
            anchor: 0,
            rate: rate,
            channels: channels,
        }
    }

    pub fn set_anchor(&mut self, pts: i64)
        ensures
            *final(self) == (AudioState { anchor: pts, ..*old(self) }),
    {
        self.anchor = pts;
    }

    pub fn anchor(&self) -> (r: i64)
        ensures
            r == self.anchor,
    {
        self.anchor
    }

    /// Throws away the buffered audio that belongs to the old position.
    pub fn flush_to(&mut self, pts: i64)
        requires
            old(self).wf(),
        ensures
            final(self).wf(),
            final(self).ring@ == Seq::<T>::empty(),
            final(self).ring.taken() == 0,
            final(self).ring.room() == old(self).ring.room(),
            final(self).ring.quiet() == old(self).ring.quiet(),
            final(self).anchor == pts,
            final(self).rate == old(self).rate,
            final(self).channels == old(self).channels,
    {
        self.ring.reset();
        self.set_anchor(pts);
    }

    /// Fills the device's buffer. While paused that is silence, at once and
    /// with nothing taken, so that the clock stops too. Otherwise it is the
    /// oldest samples, and the clock is told what is being heard.
    pub fn fill(&mut self, clock: &mut Clock, paused: bool, out: &mut [T])
        requires
            old(self).wf(),
        ensures
            final(self).wf(),
            final(self).anchor == old(self).anchor,
            final(self).rate == old(self).rate,
            final(self).channels == old(self).channels,
            final(self).ring.room() == old(self).ring.room(),
            final(self).ring.quiet() == old(self).ring.quiet(),
            paused ==> {
                &&& final(out)@ == ring::repeated(old(self).ring.quiet(), old(out)@.len() as int)
                &&& final(self).ring@ == old(self).ring@
                &&& final(self).ring.taken() == old(self).ring.taken()
                &&& *final(clock) == *old(clock)
            },
            !paused ==> {
                let n = ring::least(old(out)@.len() as int, old(self).ring@.len() as int);
                &&& final(out)@ == old(self).ring@.take(n) + ring::repeated(
                    old(self).ring.quiet(),
                    old(out)@.len() - n,
                )
                &&& final(self).ring@ == old(self).ring@.skip(n)
                &&& final(self).ring.taken() == old(self).ring.taken().wrapping_add(n as u64)
                &&& *final(clock) == old(clock).heard(
                    heard_position(
                        old(self).anchor,
                        final(self).ring.taken(),
                        old(out)@.len() as int,
                        old(self).rate,
                        old(self).channels,
                    ) as i64,
                )
            },
    {
        if paused {
            let quiet: T = self.ring.silence();
            let mut i: usize = 0;
            let total: usize = out.len();
            while i < total
                invariant
                    i <= total,
                    out@.len() == total,
                    forall|k: int| 0 <= k < i ==> out@[k] == quiet,
                decreases total - i,
            {
                out[i] = quiet;
                i = i + 1;
            }
            assert(out@ =~= ring::repeated(quiet, total as int));
            return;
        }
        let total: usize = out.len();
        self.ring.pop_into(out);
        self.advance_clock(clock, total);
    }

    /// Publishes where playback is. The ring counts what was given out,
    /// which takes in the buffer just filled; that has not been heard yet,
    /// so it is taken off again, or video would run one buffer ahead.
    pub fn advance_clock(&self, clock: &mut Clock, just_queued: usize)
        ensures
            *final(clock) == old(clock).heard(
                heard_position(
                    self.anchor,
                    self.ring.taken(),
                    just_queued as int,
                    self.rate,
                    self.channels,
                ) as i64,
            ),
    {
        let consumed: u64 = self.ring.consumed();
        let queued: u64 = just_queued as u64;
        let played: u64 = if consumed > queued {
            consumed - queued
        } else {
            0
        };
        let per_second: u64 = per_second(self.rate, self.channels);
        clock.set_audio_pts(time::plus(self.anchor, time::time_of_samples(played, per_second)));
    }
}

fn per_second(rate: u32, channels: u16) -> (r: u64)
    ensures
        r == sample_rate(rate, channels),
        r > 0,
{
    if rate == 0 || channels == 0 {
        return 1;
    }
    assert(1 <= rate * channels <= 0xffff_ffff * 0xffff) by (nonlinear_arith)
        requires
            1 <= rate <= 0xffff_ffff,
            1 <= channels <= 0xffff,
    ;
    rate as u64 * channels as u64
}

// ── What the audio decoder does ─────────────────────────────────────────

/// What became of samples that were offered to the ring.
#[derive(Debug, Clone, Copy, PartialEq, Eq, Structural)]
pub enum Feed {
    /// Playback is stopping; drop the rest.
    Stop,
    /// All of them are in.
    Done,
    /// Go on from here.
    More { from: usize },
    /// The ring is full: go on from here after a moment. That wait is the
    /// engine's pacing, for the sound card sets the speed of playback.
    Wait { from: usize },
}

impl<T: Copy> AudioState<T> {
    /// Hands the samples from `from` on to the device, as far as there is
    /// room.
    pub fn feed(&mut self, samples: &[T], from: usize, stopping: bool) -> (r: Feed)
        requires
            old(self).wf(),
            from <= samples@.len(),
        ensures
            final(self).wf(),
            final(self).anchor == old(self).anchor,
            final(self).rate == old(self).rate,
            final(self).channels == old(self).channels,
            final(self).ring.room() == old(self).ring.room(),
            final(self).ring.quiet() == old(self).ring.quiet(),
            final(self).ring.taken() == old(self).ring.taken(),
            ({
                let left = samples@.len() - from;
                let n = ring::least(left, old(self).ring.room() - old(self).ring@.len());
                if left == 0 {
                    r is Done && final(self).ring@ == old(self).ring@
                } else if stopping {
                    r is Stop && final(self).ring@ == old(self).ring@
                } else {
                    &&& final(self).ring@ == old(self).ring@ + samples@.subrange(
                        from as int,
                        from + n,
                    )
                    &&& r == (if n == left {
                        Feed::Done
                    } else if n == 0 {
                        Feed::Wait { from: from }
                    } else {
                        Feed::More { from: (from + n) as usize }
                    })
                }
            }),
    {
        if from == samples.len() {
            return Feed::Done;
        }
        if stopping {
            return Feed::Stop;
        }
        let n: usize = self.ring.push(samples, from);
        if n == samples.len() - from {
            Feed::Done
        } else if n == 0 {
            Feed::Wait { from: from }
        } else {
            Feed::More { from: from + n }
        }
    }

    /// Decides what to do with an audio packet. The first one after a seek
    /// drops the sound from before it, and anchors the clock to where the new
    /// packets start.
    pub fn take_packet(
        &mut self,
        stopping: bool,
        generation: &mut u64,
        packet: u64,
        current: u64,
        packet_pts: Option<i64>,
        base: TimeBase,
        now: i64,
    ) -> (r: PacketStep)
        requires
            old(self).wf(),
            base.den > 0,
        ensures
            final(self).wf(),
            (r, *final(generation)) == engine::lazy_step(
                stopping,
                *old(generation),
                packet,
                current,
            ),
            final(self).rate == old(self).rate,
            final(self).channels == old(self).channels,
            final(self).ring.room() == old(self).ring.room(),
            final(self).ring.quiet() == old(self).ring.quiet(),
            r == (PacketStep::Decode { flush: true }) ==> {
                &&& final(self).ring@ == Seq::<T>::empty()
                &&& final(self).ring.taken() == 0
                &&& final(self).anchor == match packet_pts {
                    Some(ticks) => time::ticks_time(ticks as int, base),
                    None => now as int,
                }
            },
            r != (PacketStep::Decode { flush: true }) ==> *final(self) == *old(self),
    {
        let step = engine::lazy_packet(stopping, generation, packet, current);
        match step {
            PacketStep::Decode { flush } => if flush {
                self.flush_to(engine::anchor_after_flush(packet_pts, base, now));
            },
            _ => {},
        }
        step
    }

    /// Decides what to do with decoded audio. The first of it after a flush,
    /// before anything is buffered or played, says where the clock is.
    pub fn take_frame<P>(
        &mut self,
        shared: &Shared<P>,
        generation: u64,
        pts: Option<i64>,
        samples: u32,
        rate: u32,
    ) -> (r: FrameStep)
        ensures
            r == if shared.current() != generation {
                FrameStep::Leave
            } else if pts matches Some(t) && engine::over_by(
                t as int,
                samples as int,
                engine::decoder_rate(rate),
                shared.target() as int,
            ) {
                FrameStep::Discard
            } else {
                FrameStep::Use
            },
            *final(self) == (AudioState {
                anchor: if !(r is Leave) && old(self).ring@.len() == 0 && old(self).ring.taken()
                    == 0 && pts is Some {
                    pts->0
                } else {
                    old(self).anchor
                },
                ..*old(self)
            }),
    {
        let step = engine::audio_frame(shared, generation, pts, samples, rate);
        match step {
            FrameStep::Leave => {},
            _ => if self.ring.is_empty() && self.ring.consumed() == 0 {
                if let Some(t) = pts {
                    self.set_anchor(t);
                }
            },
        }
        step
    }
}

// ── Choosing a device ───────────────────────────────────────────────────

/// How likely a device is to be the one that the desktop plays through, by
/// its name in lower case. A device that throws its samples away is none.
pub open spec fn rank_of(name: Seq<char>) -> Option<u32> {
    if text::contains_text(name, "discard all samples"@) || name == "null"@ {
        None
    } else if text::contains_text(name, "pipewire"@) {
        Some(100)
    } else if text::contains_text(name, "pulse"@) {
        Some(90)
    } else if text::contains_text(name, "default"@) {
        Some(50)
    } else if text::contains_text(name, "hdmi"@) {
        Some(10)
    } else {
        Some(20)
    }
}

/// How likely a device is to be the one that the desktop plays through.
/// `None` rejects it outright.
pub fn rank_device(name: &str) -> (r: Option<u32>)
    ensures
        r == rank_of(text::ascii_lower(name@)),
{
    let chars = text::chars_of(name);
    let lower = text::to_ascii_lower(&chars);
    let null = text::chars_of("null");
    // ALSA's `null` opens, accepts any format and discards every sample, so
    // that falling back on it would be silent with nothing to explain why.
    if text::contains(&lower, "discard all samples") || text::same(&lower, &null) {
        return None;
    }
    if text::contains(&lower, "pipewire") {
        Some(100)
    } else if text::contains(&lower, "pulse") {
        Some(90)
    } else if text::contains(&lower, "default") {
        Some(50)
    } else if text::contains(&lower, "hdmi") {
        Some(10)
    } else {
        Some(20)
    }
}

/// The rank of a device, zero if it is rejected. The highest goes first.
struct DeviceRank {
    rank: u32,
}

impl Ranked for DeviceRank {
    closed spec fn at_most(&self, other: &DeviceRank) -> bool {
        self.rank >= other.rank
    }

    proof fn any_two_compare(a: &DeviceRank, b: &DeviceRank) {
    }

    proof fn order_carries_over(a: &DeviceRank, b: &DeviceRank, c: &DeviceRank) {
    }

    fn is_at_most(&self, other: &DeviceRank) -> bool {
        self.rank >= other.rank
    }
}

/// The rank of the device at `i`.
pub open spec fn device_rank(names: Seq<String>, i: int) -> Option<u32> {
    rank_of(text::ascii_lower(names[i]@))
}

/// Whether `tries` lists the devices worth trying: each of them once, the
/// likeliest first, and equally likely ones in the order they came.
pub open spec fn tries_devices(names: Seq<String>, tries: Seq<usize>) -> bool {
    &&& forall|a: int|
        0 <= a < tries.len() ==> (#[trigger] tries[a]) < names.len() && device_rank(
            names,
            tries[a] as int,
        ) is Some
    &&& forall|a: int, b: int|
        #![trigger tries[a], tries[b]]
        0 <= a < b < tries.len() ==> {
            let x = device_rank(names, tries[a] as int)->0;
            let y = device_rank(names, tries[b] as int)->0;
            x > y || (x == y && tries[a] < tries[b])
        }
    &&& forall|i: int|
        0 <= i < names.len() && device_rank(names, i) is Some ==> #[trigger] order::listed(tries, i)
}

/// The devices to try, in order, or the error when there is none.
pub fn devices_to_try(names: &Vec<String>) -> (r: Result<Vec<usize>, Error>)
    ensures
        r is Err <==> forall|i: int|
            0 <= i < names@.len() ==> #[trigger] device_rank(names@, i) is None,
        r matches Err(e) ==> e is NoAudioDevice,
        r matches Ok(tries) ==> tries_devices(names@, tries@),
{
    let mut keys: Vec<DeviceRank> = Vec::new();
    let mut i: usize = 0;
    while i < names.len()
        invariant
            i <= names@.len(),
            keys@.len() == i,
            forall|k: int|
                0 <= k < i ==> (#[trigger] keys@[k]).rank == match device_rank(names@, k) {
                    Some(rank) => rank,
                    None => 0,
                },
        decreases names@.len() - i,
    {
        let rank: u32 = match rank_device(names[i].as_str()) {
            Some(rank) => rank,
            None => 0,
        };
        keys.push(DeviceRank { rank: rank });
        i = i + 1;
    }
    assert(forall|k: int|
        0 <= k < keys@.len() ==> ((#[trigger] keys@[k]).rank > 0 <==> device_rank(
            names@,
            k,
        ) is Some));
    let all = order::stable_order(&keys);
    let mut tries: Vec<usize> = Vec::new();
    let mut n: usize = 0;
    while n < all.len() && keys[all[n]].rank > 0
        invariant
            n <= all@.len(),
            order::sorts(keys@, all@, 0, keys@.len() as int),
            tries@ == all@.take(n as int),
            forall|a: int| 0 <= a < n ==> keys@[#[trigger] all@[a] as int].rank > 0,
        decreases all@.len() - n,
    {
        tries.push(all[n]);
        assert(tries@ =~= all@.take(n + 1));
        n = n + 1;
    }
    proof {
        assert forall|i: int| 0 <= i < names@.len() && device_rank(
            names@,
            i,
        ) is Some implies #[trigger] order::listed(tries@, i) by {
            assert(keys@[i].rank > 0);
            assert(order::listed(all@, i));
            let w = choose|w: int| 0 <= w < all@.len() && #[trigger] all@[w] == i;
            if w >= n {
                if w > n {
                    assert(order::goes_first(keys@, all@[n as int] as int, all@[w] as int));
                }
                assert(false);
            }
            assert(tries@[w] == i);
        }
        assert forall|a: int, b: int|
            #![trigger tries@[a], tries@[b]]
            0 <= a < b < tries@.len() implies {
            let x = device_rank(names@, tries@[a] as int)->0;
            let y = device_rank(names@, tries@[b] as int)->0;
            x > y || (x == y && tries@[a] < tries@[b])
        } by {
            assert(tries@[a] == all@[a] && tries@[b] == all@[b]);
            assert(order::goes_first(keys@, all@[a] as int, all@[b] as int));
            assert(keys@[all@[a] as int].rank > 0 && keys@[all@[b] as int].rank > 0);
        }
        assert forall|a: int| 0 <= a < tries@.len() implies (#[trigger] tries@[a]) < names@.len()
            && device_rank(names@, tries@[a] as int) is Some by {
            assert(tries@[a] == all@[a]);
            assert(keys@[all@[a] as int].rank > 0);
        }
    }
    if tries.len() == 0 {
        assert forall|i: int| 0 <= i < names@.len() implies #[trigger] device_rank(
            names@,
            i,
        ) is None by {
            if device_rank(names@, i) is Some {
                assert(order::listed(tries@, i));
            }
        }
        return Err(Error::NoAudioDevice);
    }
    assert(device_rank(names@, tries@[0] as int) is Some);
    Ok(tries)
}

/// What to report when no device accepted a stream: what the last one said.
pub fn no_device_opened(last: Option<Error>) -> (r: Error)
    ensures
        last matches Some(e) ==> r == e,
        last is None ==> r is NoAudioDevice,
{
    match last {
        Some(e) => e,
        None => Error::NoAudioDevice,
    }
}

/// A device that discards its samples is never tried, whatever case its name
/// is written in.
pub proof fn silent_devices_are_rejected(name: Seq<char>)
    ensures
        text::ascii_lower(name) == "null"@ ==> rank_of(text::ascii_lower(name)) is None,
        text::contains_text(text::ascii_lower(name), "discard all samples"@) ==> rank_of(
            text::ascii_lower(name),
        ) is None,
{
}

/// The sound is the clock. Of the samples given out, those not in the buffer
/// just queued have been heard; a second of them is as many as there are in a
/// second on every channel together, and the position is the anchor and as
/// much time as that makes, to less than a nanosecond.
pub proof fn what_is_heard_is_the_time(
    anchor: i64,
    consumed: u64,
    just_queued: int,
    rate: u32,
    channels: u16,
)
    requires
        rate > 0,
        channels > 0,
        just_queued <= consumed,
        (consumed - just_queued) * 1_000_000_000 < 0x7fff_ffff_ffff_ffff * (rate * channels),
        heard_position(anchor, consumed, just_queued, rate, channels) < 0x7fff_ffff_ffff_ffff,
    ensures
        ({
            let passed = heard_position(anchor, consumed, just_queued, rate, channels) - anchor;
            let heard = consumed - just_queued;
            passed * (rate * channels) <= heard * 1_000_000_000 < (passed + 1) * (rate * channels)
        }),
{
    let heard = consumed - just_queued;
    let per = rate * channels;
    assert(per > 0) by (nonlinear_arith)
        requires
            per == rate * channels,
            rate > 0,
            channels > 0,
    ;
    let length = heard * 1_000_000_000 / per;
    assert(length >= 0) by (nonlinear_arith)
        requires
            length == heard * 1_000_000_000 / per,
            heard >= 0,
            per > 0,
    ;
    vstd::arithmetic::div_mod::lemma_fundamental_div_mod(heard * 1_000_000_000, per);
    vstd::arithmetic::div_mod::lemma_mod_bound(heard * 1_000_000_000, per);
    assert(per * length == length * per) by (nonlinear_arith);
    assert((length + 1) * per == length * per + per) by (nonlinear_arith);
    assert(length <= 0x7fff_ffff_ffff_ffff) by (nonlinear_arith)
        requires
            length * per <= heard * 1_000_000_000,
            heard * 1_000_000_000 < 0x7fff_ffff_ffff_ffff * per,
            per > 0,
    ;
}

/// Whole seconds of sound move the position by whole seconds, at any rate and
/// on any number of channels.
pub proof fn a_second_of_sound_is_a_second(
    anchor: i64,
    consumed: u64,
    just_queued: int,
    rate: u32,
    channels: u16,
    k: int,
)
    requires
        rate > 0,
        channels > 0,
        0 <= k,
        consumed - just_queued == k * (rate * channels),
        k * 1_000_000_000 <= i64::MAX,
        anchor + k * 1_000_000_000 <= i64::MAX,
    ensures
        heard_position(anchor, consumed, just_queued, rate, channels) == anchor + k * 1_000_000_000,
{
    let per = rate * channels;
    assert(per > 0) by (nonlinear_arith)
        requires
            per == rate * channels,
            rate > 0,
            channels > 0,
    ;
    let whole = k * 1_000_000_000;
    assert(k * per >= 0) by (nonlinear_arith)
        requires
            k >= 0,
            per > 0,
    ;
    assert((k * per) * 1_000_000_000 == per * whole) by (nonlinear_arith)
        requires
            whole == k * 1_000_000_000,
    ;
    vstd::arithmetic::div_mod::lemma_div_multiples_vanish(whole, per);
}

/// Until anything has been heard the position is the anchor.
pub proof fn nothing_heard_is_the_anchor(
    anchor: i64,
    consumed: u64,
    just_queued: int,
    rate: u32,
    channels: u16,
)
    requires
        consumed <= just_queued,
    ensures
        heard_position(anchor, consumed, just_queued, rate, channels) == anchor,
{
    let per = sample_rate(rate, channels);
    assert(per > 0) by (nonlinear_arith)
        requires
            per == 1 || (per == rate * channels && rate > 0 && channels > 0),
    ;
    assert(0int / per == 0) by (nonlinear_arith)
        requires
            per > 0,
    ;
}

/// The sound server goes before the hardware: pipewire before pulse, pulse
/// before the default device, that before any other, and a display's sound
/// last of all. Devices of one sort rank alike.
pub proof fn the_sound_server_goes_first(a: Seq<char>, b: Seq<char>)
    requires
        rank_of(a) is Some,
        rank_of(b) is Some,
    ensures
        ({
            let pipewire = |n: Seq<char>| text::contains_text(n, "pipewire"@);
            let pulse = |n: Seq<char>| text::contains_text(n, "pulse"@) && !pipewire(n);
            let server = |n: Seq<char>| pipewire(n) || pulse(n);
            let default = |n: Seq<char>| text::contains_text(n, "default"@) && !server(n);
            let display = |n: Seq<char>|
                text::contains_text(n, "hdmi"@) && !server(n) && !default(n);
            let other = |n: Seq<char>| !server(n) && !default(n) && !display(n);
            &&& pipewire(a) && !pipewire(b) ==> rank_of(a)->0 > rank_of(b)->0
            &&& pulse(a) && !server(b) ==> rank_of(a)->0 > rank_of(b)->0
            &&& default(a) && !server(b) && !default(b) ==> rank_of(a)->0 > rank_of(b)->0
            &&& other(a) && display(b) ==> rank_of(a)->0 > rank_of(b)->0
            &&& (pipewire(a) == pipewire(b) && pulse(a) == pulse(b) && default(a) == default(b)
                && display(a) == display(b)) ==> rank_of(a) == rank_of(b)
        }),
{
}

/// Only a device that throws its samples away is rejected.
pub proof fn every_real_device_is_tried(name: Seq<char>)
    ensures
        rank_of(name) is None <==> name == "null"@ || text::contains_text(
            name,
            "discard all samples"@,
        ),
        rank_of(name) matches Some(rank) ==> rank > 0,
{
}

} // verus!

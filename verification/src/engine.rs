//! What the engine's threads share, and what they decide.
//!
//! A seek has to invalidate work that is already in flight without stopping
//! the threads that produced it. It does that with a generation counter:
//! every packet carries the generation it was read in, and a decoder that
//! sees a newer one flushes its codec and drops what it held.

use std::collections::VecDeque;

use vstd::prelude::*;

use crate::cues;
use crate::cues::{CueBoard, SubtitleState};
use crate::error::Error;
use crate::frame::VideoFrame;
use crate::media::{MediaInfo, TrackKind, TrackView};
use crate::subtitle;
use crate::subtitle::SubtitleCue;
use crate::time;
use crate::time::{TimeBase, SECOND};

verus! {

/// Frames decoded ahead of the clock: enough to ride out a slow frame, and
/// few enough that a seek does not have much to throw away.
pub const VIDEO_QUEUE: usize = 4;

/// Packets buffered between the demuxer and a decoder.
pub const PACKET_QUEUE: usize = 64;

/// The volume at which samples are left as they are. Volumes are whole
/// millionths.
pub const UNITY: u32 = 1_000_000;

/// The loudest that samples are made.
pub const LOUDEST: u32 = 2_000_000;

// ── Shared state ────────────────────────────────────────────────────────

/// A frame in the queue, with the generation that it was offered under.
pub struct Queued<P> {
    pub frame: VideoFrame<P>,
    pub generation: u64,
}

/// Everything that the window and the engine's threads share, apart from the
/// clock.
pub struct Shared<P> {
    stop: bool,
    paused: bool,
    generation: u64,
    /// Where the last seek was aiming. A seek lands on the nearest keyframe
    /// at or before that, and the decoders throw frames away until they
    /// reach it.
    seek_target: i64,
    volume: u32,
    video: VecDeque<VideoFrame<P>>,
    subtitles: SubtitleState,
    /// The generation that each waiting frame was offered under.
    tags: Ghost<Seq<u64>>,
}

/// What became of a frame that was offered to the queue.
#[derive(Debug)]
pub enum Offer<P> {
    /// It waits to be shown.
    Taken,
    /// It belongs to a position that the viewer has left, or playback is
    /// stopping.
    Dropped,
    /// The queue is full; offer it again when there is room.
    Full(VideoFrame<P>),
}

/// How many frames from the front are due at `now`.
pub open spec fn frames_due<P>(queue: Seq<Queued<P>>, now: int) -> int
    decreases queue.len(),
{
    if queue.len() > 0 && queue[0].frame.pts <= now {
        1 + frames_due(queue.drop_first(), now)
    } else {
        0
    }
}

/// How many frames are taken off the queue at `now`: all that are due, of
/// which the last is shown; or else the first, if it is so far in the future
/// that the clock must have been moved back.
pub open spec fn frames_taken<P>(queue: Seq<Queued<P>>, now: int) -> int {
    if frames_due(queue, now) > 0 {
        frames_due(queue, now)
    } else if queue.len() > 0 && queue[0].frame.pts > now + SECOND {
        1
    } else {
        0
    }
}

pub open spec fn volume_within(v: int, most: int) -> int {
    if v < 0 {
        0
    } else if v > most {
        most
    } else {
        v
    }
}

impl<P> Shared<P> {
    /// The waiting frames, the earliest first.
    pub closed spec fn queue(self) -> Seq<Queued<P>> {
        Seq::new(
            self.video@.len(),
            |i: int| Queued { frame: self.video@[i], generation: self.tags@[i] },
        )
    }

    /// Whether playback is winding down.
    pub closed spec fn halted(self) -> bool {
        self.stop
    }

    /// Whether playback is paused, as the audio callback reads it.
    pub closed spec fn held(self) -> bool {
        self.paused
    }

    pub closed spec fn current(self) -> u64 {
        self.generation
    }

    pub closed spec fn target(self) -> i64 {
        self.seek_target
    }

    pub closed spec fn gain(self) -> u32 {
        self.volume
    }

    pub closed spec fn board(self) -> CueBoard {
        self.subtitles@
    }

    /// The queue is within its limit and holds nothing from before the last
    /// seek.
    pub closed spec fn wf(self) -> bool {
        &&& self.video@.len() <= VIDEO_QUEUE
        &&& self.tags@.len() == self.video@.len()
        &&& forall|i: int| 0 <= i < self.tags@.len() ==> #[trigger] self.tags@[i] == self.generation
        &&& self.volume <= LOUDEST
    }

    /// Everything but the queue is as it was in `other`.
    pub open spec fn same_but_queue(self, other: Shared<P>) -> bool {
        &&& self.halted() == other.halted()
        &&& self.held() == other.held()
        &&& self.current() == other.current()
        &&& self.target() == other.target()
        &&& self.gain() == other.gain()
        &&& self.board() == other.board()
    }

    /// Everything but the subtitles is as it was in `other`.
    pub open spec fn same_but_subtitles(self, other: Shared<P>) -> bool {
        &&& self.halted() == other.halted()
        &&& self.held() == other.held()
        &&& self.current() == other.current()
        &&& self.target() == other.target()
        &&& self.gain() == other.gain()
        &&& self.queue() == other.queue()
    }

    /// No frame from before the last seek is ever waiting to be shown.
    pub proof fn no_stale_frame_waits(self)
        requires
            self.wf(),
        ensures
            self.queue().len() <= VIDEO_QUEUE,
            forall|i: int|
                0 <= i < self.queue().len() ==> (#[trigger] self.queue()[i]).generation
                    == self.current(),
    {
    }

    pub fn new() -> (r: Shared<P>)
        ensures
            r.wf(),
            !r.halted(),
            r.held(),
            r.current() == 0,
            r.target() == 0,
            r.gain() == UNITY,
            r.queue() == Seq::<Queued<P>>::empty(),
            r.board() == CueBoard::blank(),
    {
        let r = Shared {
            stop: false,
            paused: true,
            generation: 0,
            seek_target: 0,
            volume: UNITY,
            video: VecDeque::new(),
            subtitles: SubtitleState::default(),
            tags: Ghost(Seq::empty()),
        };
        assert(r.queue() =~= Seq::<Queued<P>>::empty());
        r
    }

    pub fn volume(&self) -> (r: u32)
        ensures
            r == self.gain(),
    {
        self.volume
    }

    /// Sets the volume, held between silence and twice unity.
    pub fn set_volume(&mut self, v: i64)
        requires
            old(self).wf(),
        ensures
            final(self).wf(),
            final(self).gain() == volume_within(v as int, LOUDEST as int),
            final(self).halted() == old(self).halted(),
            final(self).held() == old(self).held(),
            final(self).current() == old(self).current(),
            final(self).target() == old(self).target(),
            final(self).queue() == old(self).queue(),
            final(self).board() == old(self).board(),
    {
        let ghost before = self.queue();
        self.volume = if v < 0 {
            0
        } else if v > LOUDEST as i64 {
            LOUDEST
        } else {
            v as u32
        };
        assert(self.queue() =~= before);
    }

    pub fn stopping(&self) -> (r: bool)
        ensures
            r == self.halted(),
    {
        self.stop
    }

    /// Tells the threads to wind down.
    pub fn halt(&mut self)
        requires
            old(self).wf(),
        ensures
            final(self).wf(),
            final(self).halted(),
            final(self).held() == old(self).held(),
            final(self).current() == old(self).current(),
            final(self).target() == old(self).target(),
            final(self).gain() == old(self).gain(),
            final(self).queue() == old(self).queue(),
            final(self).board() == old(self).board(),
    {
        let ghost before = self.queue();
        self.stop = true;
        assert(self.queue() =~= before);
    }

    pub fn is_paused(&self) -> (r: bool)
        ensures
            r == self.held(),
    {
        self.paused
    }

    pub fn set_paused(&mut self, paused: bool)
        requires
            old(self).wf(),
        ensures
            final(self).wf(),
            final(self).held() == paused,
            final(self).halted() == old(self).halted(),
            final(self).current() == old(self).current(),
            final(self).target() == old(self).target(),
            final(self).gain() == old(self).gain(),
            final(self).queue() == old(self).queue(),
            final(self).board() == old(self).board(),
    {
        let ghost before = self.queue();
        self.paused = paused;
        assert(self.queue() =~= before);
    }

    pub fn seek_target(&self) -> (r: i64)
        ensures
            r == self.target(),
    {
        self.seek_target
    }

    pub fn generation(&self) -> (r: u64)
        ensures
            r == self.current(),
    {
        self.generation
    }

    /// The newest frame that is due at `now`. Those before it are late and
    /// dropped, which is one half of keeping picture and sound together;
    /// `None` means to keep showing what is shown, which is the other half.
    ///
    /// When nothing is due but the first frame is more than a second ahead,
    /// the clock has been moved behind the decoded frames, and that frame is
    /// shown rather than nothing.
    pub fn frame_for_now(&mut self, now: i64) -> (r: Option<VideoFrame<P>>)
        requires
            old(self).wf(),
        ensures
            final(self).wf(),
            final(self).same_but_queue(*old(self)),
            final(self).queue() == old(self).queue().skip(
                frames_taken(old(self).queue(), now as int),
            ),
            r is Some <==> frames_taken(old(self).queue(), now as int) > 0,
            r matches Some(frame) ==> frame == old(self).queue()[frames_taken(
                old(self).queue(),
                now as int,
            ) - 1].frame,
    {
        let ghost first = self.queue();
        let ghost start = *self;
        let ghost t = now as int;
        let mut chosen: Option<VideoFrame<P>> = None;
        let ghost mut gone: int = 0;
        assert(first.skip(0) =~= first);
        while self.video.len() > 0 && self.video[0].pts <= now
            invariant
                self.wf(),
                self.same_but_queue(start),
                t == now,
                0 <= gone <= first.len(),
                self.queue() == first.skip(gone),
                frames_due(first, t) == gone + frames_due(first.skip(gone), t),
                chosen is Some <==> gone > 0,
                chosen matches Some(frame) ==> frame == first[gone - 1].frame,
            decreases self.video@.len(),
        {
            let ghost was = *self;
            assert(was.queue()[0].frame == was.video@[0]);
            assert(first.skip(gone)[0] == first[gone]);
            assert(first.skip(gone + 1) =~= first.skip(gone).drop_first());
            chosen = self.video.pop_front();
            proof {
                self.tags@ = self.tags@.drop_first();
                assert(self.queue() =~= was.queue().drop_first());
                gone = gone + 1;
            }
        }
        proof {
            let left = first.skip(gone);
            if left.len() > 0 {
                assert(self.queue()[0].frame == self.video@[0]);
                assert(left[0] == first[gone]);
            }
            assert(frames_due(left, t) == 0);
        }
        if chosen.is_none() {
            assert(first.skip(0) =~= first);
            if self.video.len() > 0 && self.video[0].pts as i128 > now as i128 + SECOND as i128 {
                let ghost was = *self;
                assert(was.queue()[0].frame == was.video@[0]);
                chosen = self.video.pop_front();
                proof {
                    self.tags@ = self.tags@.drop_first();
                    assert(self.queue() =~= was.queue().drop_first());
                    assert(self.queue() =~= first.skip(1));
                }
            }
        }
        chosen
    }

    /// Offers a decoded frame that belongs to `generation`. While the queue
    /// is full the frame comes back, to be offered again. A frame from
    /// before a seek is dropped: the viewer has left its position.
    pub fn push_video(&mut self, frame: VideoFrame<P>, generation: u64) -> (r: Offer<P>)
        requires
            old(self).wf(),
        ensures
            final(self).wf(),
            final(self).same_but_queue(*old(self)),
            match r {
                Offer::Taken => !old(self).halted() && generation == old(self).current()
                    && old(self).queue().len() < VIDEO_QUEUE && final(self).queue() == old(self).queue().push(Queued { frame: frame, generation: generation }),
                Offer::Dropped => (old(self).halted() || (old(self).queue().len() < VIDEO_QUEUE
                    && generation != old(self).current())) && final(self).queue() == old(self).queue(),
                Offer::Full(back) => !old(self).halted() && old(self).queue().len() == VIDEO_QUEUE
                    && back == frame && final(self).queue() == old(self).queue(),
            },
    {
        let ghost was = *self;
        if self.stop {
            return Offer::Dropped;
        }
        if self.video.len() >= VIDEO_QUEUE {
            return Offer::Full(frame);
        }
        if self.generation != generation {
            return Offer::Dropped;
        }
        self.video.push_back(frame);
        proof {
            self.tags@ = self.tags@.push(generation);
            assert(self.queue() =~= was.queue().push(
                Queued { frame: frame, generation: generation },
            ));
        }
        Offer::Taken
    }

    /// Files a decoded cue.
    pub fn push_subtitle(&mut self, cue: SubtitleCue)
        requires
            old(self).wf(),
        ensures
            final(self).wf(),
            final(self).same_but_subtitles(*old(self)),
            final(self).board() == old(self).board().filed(cue@),
    {
        let ghost before = self.queue();
        self.subtitles.push_subtitle(cue);
        assert(self.queue() =~= before);
    }

    /// The cues visible at `t`, but only when they differ from what the
    /// caller last saw.
    pub fn subtitles_if_changed(&mut self, t: i64, last_seen: u64) -> (r: Option<
        (u64, Vec<SubtitleCue>),
    >)
        requires
            old(self).wf(),
        ensures
            final(self).wf(),
            final(self).same_but_subtitles(*old(self)),
            final(self).board() == old(self).board().at(t as int),
            r is None <==> old(self).board().at(t as int).generation == last_seen,
            r matches Some((generation, cues)) ==> {
                &&& generation == old(self).board().at(t as int).generation
                &&& subtitle::cue_views(cues@) == old(self).board().shown_at(t as int)
            },
    {
        let ghost before = self.queue();
        let r = self.subtitles.subtitles_if_changed(t, last_seen);
        assert(self.queue() =~= before);
        r
    }

    pub fn clear_subtitles(&mut self)
        requires
            old(self).wf(),
        ensures
            final(self).wf(),
            final(self).same_but_subtitles(*old(self)),
            final(self).board() == old(self).board().cleared(),
    {
        let ghost before = self.queue();
        self.subtitles.clear_subtitles();
        assert(self.queue() =~= before);
    }

    /// Drops the frames that wait to be shown.
    pub fn clear_video(&mut self)
        requires
            old(self).wf(),
        ensures
            final(self).wf(),
            final(self).same_but_queue(*old(self)),
            final(self).queue() == Seq::<Queued<P>>::empty(),
    {
        self.video.clear();
        proof {
            self.tags@ = Seq::empty();
        }
        assert(self.queue() =~= Seq::<Queued<P>>::empty());
    }

    /// Starts a seek: moves to the next generation, records the target and
    /// drops the decoded backlog, all at once, so that there is no instant
    /// at which a frame from before the seek could still be taken for
    /// current.
    pub fn begin_seek(&mut self, target: i64) -> (r: u64)
        requires
            old(self).wf(),
        ensures
            final(self).wf(),
            r == cues::next_generation(old(self).current()),
            final(self).current() == r,
            final(self).target() == target,
            final(self).queue() == Seq::<Queued<P>>::empty(),
            final(self).board() == old(self).board().cleared(),
            final(self).gain() == old(self).gain(),
            final(self).halted() == old(self).halted(),
            final(self).held() == old(self).held(),
    {
        self.generation = self.generation.wrapping_add(1);
        self.seek_target = target;
        self.video.clear();
        proof {
            self.tags@ = Seq::empty();
        }
        self.subtitles.clear_subtitles();
        assert(self.queue() =~= Seq::<Queued<P>>::empty());
        self.generation
    }
}

// ── Laws of the frame queue ─────────────────────────────────────────────

proof fn due_frames_are_due<P>(queue: Seq<Queued<P>>, now: int)
    ensures
        0 <= frames_due(queue, now) <= queue.len(),
        forall|i: int|
            0 <= i < frames_due(queue, now) ==> (#[trigger] queue[i]).frame.pts <= now,
        frames_due(queue, now) < queue.len() ==> queue[frames_due(queue, now)].frame.pts > now,
    decreases queue.len(),
{
    if queue.len() > 0 && queue[0].frame.pts <= now {
        let rest = queue.drop_first();
        due_frames_are_due(rest, now);
        assert forall|i: int| 0 <= i < frames_due(queue, now) implies (
        #[trigger] queue[i]).frame.pts <= now by {
            if i > 0 {
                assert(queue[i] == rest[i - 1]);
            }
        }
        if frames_due(queue, now) < queue.len() {
            assert(queue[frames_due(queue, now)] == rest[frames_due(rest, now)]);
        }
    }
}

/// A frame is not shown before its time, unless it is more than a second
/// ahead of the clock; and the frame after the one shown is not due yet.
pub proof fn the_newest_due_frame_is_shown<P>(queue: Seq<Queued<P>>, now: int)
    ensures
        0 <= frames_taken(queue, now) <= queue.len(),
        frames_taken(queue, now) > 0 ==> {
            let shown = queue[frames_taken(queue, now) - 1].frame;
            shown.pts <= now || shown.pts > now + SECOND
        },
        frames_due(queue, now) > 0 && frames_taken(queue, now) < queue.len()
            ==> queue[frames_taken(queue, now)].frame.pts > now,
        frames_taken(queue, now) == 0 && queue.len() > 0 ==> now < queue[0].frame.pts <= now
            + SECOND,
{
    due_frames_are_due(queue, now);
}

/// Everything dropped to catch up was already late.
pub proof fn only_late_frames_are_dropped<P>(queue: Seq<Queued<P>>, now: int, i: int)
    requires
        0 <= i < frames_taken(queue, now) - 1,
    ensures
        queue[i].frame.pts <= now,
{
    due_frames_are_due(queue, now);
}

/// Asked again at the same time, the queue gives nothing more, unless its
/// head is far in the future.
pub proof fn one_frame_per_refresh<P>(queue: Seq<Queued<P>>, now: int)
    requires
        frames_due(queue, now) > 0,
        frames_due(queue, now) < queue.len() ==> queue[frames_due(queue, now)].frame.pts <= now
            + SECOND,
    ensures
        frames_taken(queue.skip(frames_taken(queue, now)), now) == 0,
{
    due_frames_are_due(queue, now);
    let rest = queue.skip(frames_taken(queue, now));
    if rest.len() > 0 {
        assert(rest[0] == queue[frames_due(queue, now)]);
    }
}

// ── What a decoder does with a packet ───────────────────────────────────

/// What to do with a packet.
#[derive(Debug, Clone, Copy, PartialEq, Eq, Structural)]
pub enum PacketStep {
    /// Playback is stopping.
    Stop,
    /// The packet belongs to a position that was left.
    Skip { flush: bool },
    /// Decode it, after flushing the codec where so told.
    Decode { flush: bool },
}

/// What the video decoder, which last saw generation `own`, does with a
/// packet of generation `packet` while `current` is in force: the step, and
/// the generation it has seen after it.
pub open spec fn video_step(stopping: bool, own: u64, packet: u64, current: u64) -> (
    PacketStep,
    u64,
) {
    if stopping {
        (PacketStep::Stop, own)
    } else if packet != current {
        (PacketStep::Skip { flush: own != current }, current)
    } else {
        (PacketStep::Decode { flush: own != current }, current)
    }
}

/// The same for the audio and subtitle decoders, which leave their codec
/// alone until a packet of the new generation arrives.
pub open spec fn lazy_step(stopping: bool, own: u64, packet: u64, current: u64) -> (
    PacketStep,
    u64,
) {
    if stopping {
        (PacketStep::Stop, own)
    } else if packet != current {
        (PacketStep::Skip { flush: false }, own)
    } else {
        (PacketStep::Decode { flush: own != current }, current)
    }
}

/// Decides what the video decoder does with a packet.
pub fn video_packet(stopping: bool, generation: &mut u64, packet: u64, current: u64) -> (r:
    PacketStep)
    ensures
        (r, *final(generation)) == video_step(stopping, *old(generation), packet, current),
{
    if stopping {
        return PacketStep::Stop;
    }
    let flush: bool = *generation != current;
    *generation = current;
    if packet != current {
        PacketStep::Skip { flush: flush }
    } else {
        PacketStep::Decode { flush: flush }
    }
}

/// Decides what the audio or subtitle decoder does with a packet.
pub fn lazy_packet(stopping: bool, generation: &mut u64, packet: u64, current: u64) -> (r:
    PacketStep)
    ensures
        (r, *final(generation)) == lazy_step(stopping, *old(generation), packet, current),
{
    if stopping {
        return PacketStep::Stop;
    }
    if packet != current {
        return PacketStep::Skip { flush: false };
    }
    let flush: bool = *generation != current;
    *generation = current;
    PacketStep::Decode { flush: flush }
}

/// Only packets of the generation in force are decoded, and none reaches the
/// codec with the codec still holding another generation: the codec is
/// flushed whenever the generation it has seen changes.
pub proof fn stale_packets_are_not_decoded(stopping: bool, own: u64, packet: u64, current: u64)
    ensures
        video_step(stopping, own, packet, current).0 is Decode ==> packet == current,
        lazy_step(stopping, own, packet, current).0 is Decode ==> packet == current,
        video_step(stopping, own, packet, current).1 != own ==> (video_step(
            stopping,
            own,
            packet,
            current,
        ).0 == PacketStep::Skip { flush: true } || video_step(stopping, own, packet, current).0
            == PacketStep::Decode { flush: true }),
        lazy_step(stopping, own, packet, current).1 != own ==> lazy_step(
            stopping,
            own,
            packet,
            current,
        ).0 == (PacketStep::Decode { flush: true }),
{
}

/// A seek makes everything read before it stale: no decoder, whether it has
/// noticed the seek or not, decodes what carries the generation from before
/// it, and what is read after the seek is decoded.
pub proof fn a_seek_makes_old_work_stale(stopping: bool, own: u64, before: u64)
    ensures
        cues::next_generation(before) != before,
        !(video_step(stopping, own, before, cues::next_generation(before)).0 is Decode),
        !(lazy_step(stopping, own, before, cues::next_generation(before)).0 is Decode),
        !stopping ==> video_step(
            stopping,
            own,
            cues::next_generation(before),
            cues::next_generation(before),
        ).0 is Decode,
        !stopping ==> lazy_step(
            stopping,
            own,
            cues::next_generation(before),
            cues::next_generation(before),
        ).0 is Decode,
{
}

/// Half a frame at 60 frames a second.
pub const SLACK: i64 = 8_000_000;

/// Whether a decoded frame is shown: the frames between the keyframe and the
/// target of a seek are not, but the one that straddles the target is.
pub fn reaches_target(pts: i64, seek_target: i64) -> (r: bool)
    ensures
        r == (pts >= seek_target - SLACK),
{
    pts as i128 >= seek_target as i128 - SLACK as i128
}

/// How many samples a second a decoder states, at least one.
pub open spec fn decoder_rate(rate: u32) -> int {
    if rate == 0 {
        1
    } else {
        rate as int
    }
}

/// Whether `samples` of audio from `pts` on are over by `target`: whether
/// `pts` plus their length is at most `target`.
pub open spec fn over_by(pts: int, samples: int, rate: int, target: int) -> bool {
    pts * rate + samples * SECOND <= target * rate
}

/// Whether decoded audio is heard: what lies before the target of a seek is
/// not. Audio that states no position is.
pub fn audio_reaches_target(pts: Option<i64>, samples: u32, rate: u32, seek_target: i64) -> (r:
    bool)
    ensures
        r == match pts {
            Some(t) => !over_by(
                t as int,
                samples as int,
                decoder_rate(rate),
                seek_target as int,
            ),
            None => true,
        },
{
    match pts {
        Some(t) => {
            let rate: i128 = if rate == 0 {
                1
            } else {
                rate as i128
            };
            let a: i128 = t as i128;
            let b: i128 = seek_target as i128;
            assert(-0x1_0000_0000_0000_0000_0000_0000 <= a * rate
                <= 0x1_0000_0000_0000_0000_0000_0000) by (nonlinear_arith)
                requires
                    -0x8000_0000_0000_0000 <= a <= 0x7fff_ffff_ffff_ffff,
                    1 <= rate <= 0xffff_ffff,
            ;
            assert(-0x1_0000_0000_0000_0000_0000_0000 <= b * rate
                <= 0x1_0000_0000_0000_0000_0000_0000) by (nonlinear_arith)
                requires
                    -0x8000_0000_0000_0000 <= b <= 0x7fff_ffff_ffff_ffff,
                    1 <= rate <= 0xffff_ffff,
            ;
            let length: i128 = samples as i128 * 1_000_000_000;
            !(a * rate + length <= b * rate)
        },
        None => true,
    }
}

/// Where the clock is anchored after the audio was flushed: where the new
/// packets start, else where the clock is.
pub fn anchor_after_flush(packet_pts: Option<i64>, base: TimeBase, now: i64) -> (r: i64)
    requires
        base.den > 0,
    ensures
        r == match packet_pts {
            Some(ticks) => time::ticks_time(ticks as int, base),
            None => now as int,
        },
{
    match packet_pts {
        Some(ticks) => base.time_of(ticks),
        None => now,
    }
}

/// What to do with what a decoder has made.
#[derive(Debug, Clone, Copy, PartialEq, Eq, Structural)]
pub enum FrameStep {
    /// A seek has happened meanwhile: leave what the codec still holds.
    Leave,
    /// The frame lies before the target of the seek.
    Discard,
    /// The frame is wanted.
    Use,
}

/// Decides what to do with a decoded video frame, which the decoder made in
/// generation `own`.
pub fn video_frame<P>(shared: &Shared<P>, own: u64, pts: i64) -> (r: FrameStep)
    ensures
        r == if shared.current() != own {
            FrameStep::Leave
        } else if pts >= shared.target() - SLACK {
            FrameStep::Use
        } else {
            FrameStep::Discard
        },
{
    if shared.generation() != own {
        FrameStep::Leave
    } else if reaches_target(pts, shared.seek_target()) {
        FrameStep::Use
    } else {
        FrameStep::Discard
    }
}

/// Decides what to do with decoded audio, which the decoder made in
/// generation `own`: `samples` of it, `rate` to the second.
pub fn audio_frame<P>(
    shared: &Shared<P>,
    own: u64,
    pts: Option<i64>,
    samples: u32,
    rate: u32,
) -> (r: FrameStep)
    ensures
        r == if shared.current() != own {
            FrameStep::Leave
        } else if pts matches Some(t) && over_by(
            t as int,
            samples as int,
            decoder_rate(rate),
            shared.target() as int,
        ) {
            FrameStep::Discard
        } else {
            FrameStep::Use
        },
{
    if shared.generation() != own {
        FrameStep::Leave
    } else if audio_reaches_target(pts, samples, rate, shared.seek_target()) {
        FrameStep::Use
    } else {
        FrameStep::Discard
    }
}

/// Nothing from the target of a seek on is thrown away: a frame at or past it
/// is shown, and audio that starts at or past it is heard. The audio that is
/// thrown away starts no later than the target.
pub proof fn nothing_past_the_target_is_lost(pts: int, samples: int, rate: int, target: int)
    requires
        rate > 0,
        samples >= 0,
    ensures
        pts >= target ==> pts >= target - SLACK,
        pts >= target && samples > 0 ==> !over_by(pts, samples, rate, target),
        over_by(pts, samples, rate, target) ==> pts <= target,
{
    if pts >= target {
        assert(pts * rate >= target * rate) by (nonlinear_arith)
            requires
                pts >= target,
                rate > 0,
        ;
    }
    if over_by(pts, samples, rate, target) && pts > target {
        assert(pts * rate > target * rate) by (nonlinear_arith)
            requires
                pts > target,
                rate > 0,
        ;
    }
}

/// Whether samples have to be scaled at this volume.
pub fn needs_gain(volume: u32) -> (r: bool)
    ensures
        r == (volume != UNITY),
{
    volume != UNITY
}

// ── Choosing streams ────────────────────────────────────────────────────

/// Selected stream indices for one playback session.
#[derive(Debug, Clone, Copy, PartialEq, Eq)]
pub struct Selection {
    pub video: Option<usize>,
    pub audio: Option<usize>,
    pub subtitle: Option<usize>,
}

/// The stream wanted, if the file has it, else the best of its kind.
pub open spec fn picked(wanted: Option<usize>, streams: usize, best: Option<usize>) -> Option<
    usize,
> {
    match wanted {
        Some(i) if i < streams => Some(i),
        _ => best,
    }
}

fn pick(wanted: Option<usize>, streams: usize, best: Option<usize>) -> (r: Option<usize>)
    ensures
        r == picked(wanted, streams, best),
{
    match wanted {
        Some(i) => if i < streams {
            Some(i)
        } else {
            best
        },
        None => best,
    }
}

/// Whether stream `index` is a track of this kind.
pub open spec fn is_track(tracks: Seq<TrackView>, index: usize, kind: TrackKind) -> bool {
    exists|i: int|
        0 <= i < tracks.len() && (#[trigger] tracks[i]).index == index && tracks[i].kind == kind
}

/// The streams to play. A picture is only played from a stream that is a
/// video track, which cover art is not.
pub open spec fn selection_of(
    wanted: Selection,
    streams: usize,
    best_video: Option<usize>,
    best_audio: Option<usize>,
    tracks: Seq<TrackView>,
) -> Selection {
    Selection {
        video: match picked(wanted.video, streams, best_video) {
            Some(i) if is_track(tracks, i, TrackKind::Video) => Some(i),
            _ => None,
        },
        audio: picked(wanted.audio, streams, best_audio),
        subtitle: wanted.subtitle,
    }
}

fn has_video_track(info: &MediaInfo, index: usize) -> (r: bool)
    ensures
        r == is_track(info@.tracks, index, TrackKind::Video),
{
    let mut i: usize = 0;
    while i < info.tracks.len()
        invariant
            i <= info.tracks@.len(),
            forall|k: int|
                0 <= k < i ==> !((#[trigger] info@.tracks[k]).index == index
                    && info@.tracks[k].kind == TrackKind::Video),
        decreases info.tracks@.len() - i,
    {
        assert(info@.tracks[i as int] == info.tracks@[i as int]@);
        if info.tracks[i].index == index && info.tracks[i].kind == TrackKind::Video {
            return true;
        }
        i = i + 1;
    }
    false
}

/// Works out what to play of a file with `streams` streams, or fails when
/// there is neither picture nor sound.
pub fn select(
    info: &MediaInfo,
    wanted: Selection,
    streams: usize,
    best_video: Option<usize>,
    best_audio: Option<usize>,
) -> (r: Result<Selection, Error>)
    ensures
        ({
            let s = selection_of(wanted, streams, best_video, best_audio, info@.tracks);
            match r {
                Ok(selection) => selection == s && (s.video is Some || s.audio is Some),
                Err(e) => s.video is None && s.audio is None && (e matches Error::NoPlayableStream(
                    path,
                ) && path@ == info@.path),
            }
        }),
{
    let video: Option<usize> = match pick(wanted.video, streams, best_video) {
        Some(i) => if has_video_track(info, i) {
            Some(i)
        } else {
            None
        },
        None => None,
    };
    let audio: Option<usize> = pick(wanted.audio, streams, best_audio);
    if video.is_none() && audio.is_none() {
        return Err(Error::NoPlayableStream(info.path.clone()));
    }
    Ok(Selection { video: video, audio: audio, subtitle: wanted.subtitle })
}

/// The first track with this stream index.
pub open spec fn first_track(tracks: Seq<TrackView>, index: usize) -> Option<TrackView>
    decreases tracks.len(),
{
    if tracks.len() == 0 {
        None
    } else if tracks[0].index == index {
        Some(tracks[0])
    } else {
        first_track(tracks.drop_first(), index)
    }
}

/// The picture's size, which bitmap subtitles fall back on.
pub open spec fn picture_size(tracks: Seq<TrackView>, video: Option<usize>) -> (u32, u32) {
    match video {
        Some(index) => match first_track(tracks, index) {
            Some(t) => (t.width, t.height),
            None => (1920, 1080),
        },
        None => (1920, 1080),
    }
}

/// The picture's size, which bitmap subtitles that do not state their own
/// coordinate space fall back on.
pub fn video_size(info: &MediaInfo, video: Option<usize>) -> (r: (u32, u32))
    ensures
        r == picture_size(info@.tracks, video),
{
    let index: usize = match video {
        Some(index) => index,
        None => return (1920, 1080),
    };
    let ghost all = info@.tracks;
    let mut i: usize = 0;
    assert(all.skip(0) =~= all);
    while i < info.tracks.len()
        invariant
            i <= info.tracks@.len(),
            all == info@.tracks,
            video == Some(index),
            first_track(all, index) == first_track(all.skip(i as int), index),
        decreases info.tracks@.len() - i,
    {
        assert(all.skip(i as int)[0] == info.tracks@[i as int]@);
        assert(all.skip(i as int).drop_first() =~= all.skip(i + 1));
        if info.tracks[i].index == index {
            return (info.tracks[i].width, info.tracks[i].height);
        }
        i = i + 1;
    }
    (1920, 1080)
}

/// A volume inside its range is kept, and another becomes the nearest inside.
pub proof fn the_volume_is_the_nearest(v: int, most: int)
    requires
        0 <= most,
    ensures
        0 <= volume_within(v, most) <= most,
        forall|x: int|
            0 <= x <= most ==> #[trigger] time::apart(x, v) >= time::apart(
                volume_within(v, most),
                v,
            ),
{
}

/// A decoder stops when playback does, decodes exactly the packets of the
/// generation in force, and flushes what it holds before the first of them.
pub proof fn only_current_packets_are_decoded(stopping: bool, own: u64, packet: u64, current: u64)
    ensures
        ({
            let (v, seen_v) = video_step(stopping, own, packet, current);
            let (l, seen_l) = lazy_step(stopping, own, packet, current);
            &&& v is Stop <==> stopping
            &&& l is Stop <==> stopping
            &&& v is Decode <==> !stopping && packet == current
            &&& l is Decode <==> !stopping && packet == current
            &&& v matches PacketStep::Decode { flush } ==> flush == (own != packet)
            &&& l matches PacketStep::Decode { flush } ==> flush == (own != packet)
            &&& v is Decode ==> seen_v == packet
            &&& l is Decode ==> seen_l == packet
            &&& v matches PacketStep::Skip { flush } ==> flush == (own != current) && seen_v
                == current
            &&& l matches PacketStep::Skip { flush } ==> !flush && seen_l == own
        }),
{
}

/// Once a decoder has seen a generation it decodes on without flushing.
pub proof fn a_decoder_flushes_once(own: u64, current: u64)
    ensures
        video_step(false, video_step(false, own, current, current).1, current, current).0 == (
        PacketStep::Decode { flush: false }),
        lazy_step(false, lazy_step(false, own, current, current).1, current, current).0 == (
        PacketStep::Decode { flush: false }),
        video_step(false, video_step(false, own, own, current).1, current, current).0 == (
        PacketStep::Decode { flush: false }),
{
}

/// Sound is over by the target when it starts and lasts so that it ends there
/// or before.
pub proof fn sound_is_over_when_it_ends(pts: int, samples: int, rate: int, target: int)
    requires
        rate > 0,
    ensures
        over_by(pts, samples, rate, target) <==> pts as real + samples as real * 1_000_000_000real
            / rate as real <= target as real,
{
    let (p, n, r, t) = (pts as real, samples as real, rate as real, target as real);
    assert((pts * rate) as real == p * r) by (nonlinear_arith)
        requires
            p == pts as real,
            r == rate as real,
    ;
    assert((target * rate) as real == t * r) by (nonlinear_arith)
        requires
            t == target as real,
            r == rate as real,
    ;
    let length = n * 1_000_000_000real / r;
    assert(length * r == n * 1_000_000_000real) by (nonlinear_arith)
        requires
            length == n * 1_000_000_000real / r,
            r > 0real,
    ;
    assert(p + length <= t <==> p * r + length * r <= t * r) by (nonlinear_arith)
        requires
            r > 0real,
    ;
}

/// A stream that was asked for is played if the file has it, and otherwise
/// the best one; a picture is only played from a video track, and subtitles
/// only when asked for.
pub proof fn what_is_asked_for_is_played(
    wanted: Selection,
    streams: usize,
    best_video: Option<usize>,
    best_audio: Option<usize>,
    tracks: Seq<TrackView>,
)
    ensures
        ({
            let s = selection_of(wanted, streams, best_video, best_audio, tracks);
            &&& s.video matches Some(i) ==> exists|k: int|
                0 <= k < tracks.len() && (#[trigger] tracks[k]).index == i && tracks[k].kind
                    is Video
            &&& forall|k: int|
                0 <= k < tracks.len() && (#[trigger] tracks[k]).kind is Video && tracks[k].index
                    < streams && wanted.video == Some(tracks[k].index) ==> s.video == wanted.video
            &&& forall|k: int|
                0 <= k < tracks.len() && (#[trigger] tracks[k]).kind is Video && wanted.video
                    is None && best_video == Some(tracks[k].index) ==> s.video == best_video
            &&& (wanted.audio matches Some(i) && i < streams) ==> s.audio == wanted.audio
            &&& wanted.audio is None ==> s.audio == best_audio
            &&& (wanted.audio matches Some(i) && i >= streams) ==> s.audio == best_audio
            &&& s.subtitle == wanted.subtitle
        }),
{
    assert forall|k: int| 0 <= k < tracks.len() && (#[trigger] tracks[k]).kind
        is Video implies is_track(tracks, tracks[k].index, TrackKind::Video) by {}
}

/// The size that bitmap subtitles fall back on is that of the first track
/// with the stream's index.
pub proof fn the_size_is_the_tracks(tracks: Seq<TrackView>, index: usize, i: int)
    requires
        0 <= i < tracks.len(),
        tracks[i].index == index,
        forall|j: int| 0 <= j < i ==> (#[trigger] tracks[j]).index != index,
    ensures
        picture_size(tracks, Some(index)) == (tracks[i].width, tracks[i].height),
        picture_size(tracks, None) == (1920u32, 1080u32),
    decreases tracks.len(),
{
    if i > 0 {
        let rest = tracks.drop_first();
        assert(tracks[0].index != index);
        assert forall|j: int| 0 <= j < i - 1 implies (#[trigger] rest[j]).index != index by {
            assert(rest[j] == tracks[j + 1]);
        }
        assert(rest[i - 1] == tracks[i]);
        the_size_is_the_tracks(rest, index, i - 1);
    }
}

/// A frame that starts up to half a sixtieth of a second before the target of
/// a seek still straddles it.
pub proof fn the_slack_is_half_a_frame()
    ensures
        1_000_000_000 - 120 * 500_000 <= 120 * SLACK <= 1_000_000_000,
{
}

} // verus!

//! The demuxer's decisions: what to do next, and where a packet goes.
//!
//! Reading the file, seeking in it and sleeping are done by whoever runs the
//! loop; each turn of it asks for the next step and reports what came of it.

use vstd::prelude::*;

use crate::channel::{Answer, Fate, Inbox, Outbox, Sent};
use crate::clock::Clock;
use crate::cues;
use crate::engine::{Queued, Selection, Shared};
use crate::player::Event;
use crate::time;

verus! {

/// A packet and the seek generation that it belongs to.
#[derive(Debug)]
pub struct Tagged<P> {
    pub packet: P,
    pub generation: u64,
}

/// What the demuxer accepts while it is running.
#[derive(Debug, Clone, Copy, PartialEq, Eq, Structural)]
pub enum DemuxCommand {
    Seek(i64),
    Stop,
}

/// What the demux thread does next.
#[derive(Debug, Clone, Copy, PartialEq, Eq, Structural)]
pub enum DemuxStep {
    /// Leave the loop.
    Stop,
    /// Seek in the file, backwards to a keyframe at or before `timestamp`,
    /// which is in microseconds; and say so once that is done.
    Seek { target: i64, timestamp: i64 },
    /// Nothing is left to read. Stay alive, because a seek can bring the
    /// file back to life.
    Wait,
    /// Read a packet, which belongs to this generation.
    Read { generation: u64 },
}

/// Where packets of a stream go.
#[derive(Debug, Clone, Copy, PartialEq, Eq, Structural)]
pub enum Destination {
    Video,
    Audio,
    Subtitle,
    Nowhere,
}

/// What became of a packet.
#[derive(Debug)]
pub enum Delivery<P> {
    /// It is dealt with: delivered, or nobody wants it.
    Done,
    /// The decoder has no room; try again in a moment, or drop it.
    Busy(Tagged<P>),
    /// No decoder is left.
    Finished,
}

/// The way to one decoder.
#[verifier::reject_recursive_types(P)]
pub struct Line<P> {
    pub packets: Outbox<Tagged<P>>,
    /// Cleared when the decoder disconnects, so that a dead consumer stops
    /// being routed to instead of stopping the demuxer.
    pub open: bool,
}

#[verifier::reject_recursive_types(P)]
pub struct Demuxer<P> {
    pub selection: Selection,
    pub duration: i64,
    pub eof: bool,
    pub video: Line<P>,
    pub audio: Line<P>,
    pub subtitle: Line<P>,
}

/// Where a seek to `target` lands in a file of this length. Below the start
/// it is the start, and past the end of a file whose length is known it is
/// the end.
pub open spec fn seek_place(target: int, duration: int) -> int {
    if target < 0 {
        0
    } else if duration > 0 && target > duration {
        duration
    } else {
        target
    }
}

/// Where packets of stream `index` go.
pub open spec fn destination_of(selection: Selection, index: usize) -> Destination {
    if selection.video == Some(index) {
        Destination::Video
    } else if selection.audio == Some(index) {
        Destination::Audio
    } else if selection.subtitle == Some(index) {
        Destination::Subtitle
    } else {
        Destination::Nowhere
    }
}

/// The next step, given the command that is waiting, if one is. Commands
/// come first: a seek must not wait behind a full packet queue.
pub open spec fn next_step(
    stopping: bool,
    command: Option<DemuxCommand>,
    eof: bool,
    duration: i64,
    generation: u64,
) -> DemuxStep {
    if stopping {
        DemuxStep::Stop
    } else {
        match command {
            Some(DemuxCommand::Stop) => DemuxStep::Stop,
            Some(DemuxCommand::Seek(t)) => {
                let place = seek_place(t as int, duration as int);
                DemuxStep::Seek { target: place as i64, timestamp: (place / 1000) as i64 }
            },
            None => if eof {
                DemuxStep::Wait
            } else {
                DemuxStep::Read { generation: generation }
            },
        }
    }
}

impl<P> Line<P> {
    /// The same line with nobody at its end.
    pub open spec fn closed(self) -> Line<P> {
        Line { open: false, ..self }
    }

    /// Since `before`, exactly `message` has been offered, and the line is
    /// closed if nobody was left to receive it.
    pub open spec fn delivered_since(self, before: Line<P>, message: Tagged<P>) -> bool {
        &&& self.packets.offered_since(before.packets, message)
        &&& self.open == (before.open && self.packets.fates().last() !is Disconnected)
    }

    fn new(packets: crossbeam_channel::Sender<Tagged<P>>) -> (r: Line<P>)
        ensures
            r.open,
            r.packets.unused(),
            r.packets.channel() == packets,
    {
        Line { packets: Outbox::over(packets), open: true }
    }
}

impl<P> Demuxer<P> {
    /// Whether `to` still has somebody to receive packets.
    pub open spec fn listens(self, to: Destination) -> bool {
        match to {
            Destination::Video => self.video.open,
            Destination::Audio => self.audio.open,
            Destination::Subtitle => self.subtitle.open,
            Destination::Nowhere => false,
        }
    }

    pub open spec fn anybody(self) -> bool {
        self.video.open || self.audio.open || self.subtitle.open
    }

    /// The demuxer without one of its consumers.
    pub open spec fn without(self, to: Destination) -> Demuxer<P> {
        match to {
            Destination::Video => Demuxer { video: self.video.closed(), ..self },
            Destination::Audio => Demuxer { audio: self.audio.closed(), ..self },
            Destination::Subtitle => Demuxer { subtitle: self.subtitle.closed(), ..self },
            Destination::Nowhere => self,
        }
    }

    /// Since `before`, the decoder `to` has been offered exactly `message`,
    /// and no longer listens if it was found to have gone; nothing else has
    /// changed.
    pub open spec fn delivered_since(
        self,
        before: Demuxer<P>,
        to: Destination,
        message: Tagged<P>,
    ) -> bool {
        match to {
            Destination::Video => self == (Demuxer { video: self.video, ..before })
                && self.video.delivered_since(before.video, message),
            Destination::Audio => self == (Demuxer { audio: self.audio, ..before })
                && self.audio.delivered_since(before.audio, message),
            Destination::Subtitle => self == (Demuxer { subtitle: self.subtitle, ..before })
                && self.subtitle.delivered_since(before.subtitle, message),
            Destination::Nowhere => self == before,
        }
    }

    /// What became of the last packet offered to the decoder `to`.
    pub open spec fn last_fate(self, to: Destination) -> Fate {
        match to {
            Destination::Video => self.video.packets.fates().last(),
            Destination::Audio => self.audio.packets.fates().last(),
            _ => self.subtitle.packets.fates().last(),
        }
    }

    /// How everything stands after a step with this command waiting.
    pub open spec fn stepped<F>(
        self,
        after: Demuxer<P>,
        shared: Shared<F>,
        shared_after: Shared<F>,
        clock: Clock,
        clock_after: Clock,
        instant: u64,
        command: Option<DemuxCommand>,
        step: DemuxStep,
    ) -> bool {
        &&& step == next_step(shared.halted(), command, self.eof, self.duration, shared.current())
        &&& match step {
            DemuxStep::Seek { target, .. } => {
                &&& after == Demuxer { eof: false, ..self }
                &&& clock_after == clock.moved_to(target, instant)
                &&& shared_after.wf()
                &&& shared_after.current() == cues::next_generation(shared.current())
                &&& shared_after.target() == target
                &&& shared_after.queue() == Seq::<Queued<F>>::empty()
                &&& shared_after.board() == shared.board().cleared()
                &&& shared_after.gain() == shared.gain()
                &&& shared_after.halted() == shared.halted()
                &&& shared_after.held() == shared.held()
            },
            _ => after == self && shared_after == shared && clock_after == clock,
        }
    }

    pub fn new(
        selection: Selection,
        duration: i64,
        video: crossbeam_channel::Sender<Tagged<P>>,
        audio: crossbeam_channel::Sender<Tagged<P>>,
        subtitle: crossbeam_channel::Sender<Tagged<P>>,
    ) -> (r: Demuxer<P>)
        ensures
            r.selection == selection,
            r.duration == duration,
            !r.eof,
            r.video.open && r.video.packets.unused() && r.video.packets.channel() == video,
            r.audio.open && r.audio.packets.unused() && r.audio.packets.channel() == audio,
            r.subtitle.open && r.subtitle.packets.unused() && r.subtitle.packets.channel()
                == subtitle,
    {
        Demuxer {
            selection: selection,
            duration: duration,
            eof: false,
            video: Line::new(video),
            audio: Line::new(audio),
            subtitle: Line::new(subtitle),
        }
    }

    /// The next step, given the command that is waiting.
    pub fn step<F>(
        &mut self,
        shared: &mut Shared<F>,
        clock: &mut Clock,
        instant: u64,
        command: Option<DemuxCommand>,
    ) -> (r: DemuxStep)
        requires
            old(shared).wf(),
        ensures
            old(self).stepped(
                *final(self),
                *old(shared),
                *final(shared),
                *old(clock),
                *final(clock),
                instant,
                command,
                r,
            ),
    {
        if shared.stopping() {
            return DemuxStep::Stop;
        }
        match command {
            Some(DemuxCommand::Stop) => DemuxStep::Stop,
            Some(DemuxCommand::Seek(t)) => {
                let place: i64 = if t < 0 {
                    0
                } else if self.duration > 0 && t > self.duration {
                    self.duration
                } else {
                    t
                };
                // Everything read before this instant is now stale.
                shared.begin_seek(place);
                clock.reset_to(place, instant);
                self.eof = false;
                DemuxStep::Seek { target: place, timestamp: place / 1000 }
            },
            None => if self.eof {
                DemuxStep::Wait
            } else {
                DemuxStep::Read { generation: shared.generation() }
            },
        }
    }

    /// Asks for a command once, and decides the next step by what came.
    pub fn poll<F>(
        &mut self,
        shared: &mut Shared<F>,
        clock: &mut Clock,
        instant: u64,
        commands: &mut Inbox<DemuxCommand>,
    ) -> (r: DemuxStep)
        requires
            old(shared).wf(),
        ensures
            final(commands).asked_since(*old(commands)),
            final(commands)@.last() matches Answer::Message(command) && old(self).stepped(
                *final(self),
                *old(shared),
                *final(shared),
                *old(clock),
                *final(clock),
                instant,
                command,
                r,
            ),
    {
        let command = commands.try_recv();
        self.step(shared, clock, instant, command)
    }

    /// Says that a seek is done. Hands the event back where nobody listens.
    pub fn seeked(&self, target: i64, events: &mut Outbox<Event>) -> (r: Option<Event>)
        ensures
            final(events).offered_since(*old(events), Event::Seeked(target)),
            r == (if final(events).fates().last() is Delivered {
                None
            } else {
                Some(Event::Seeked(target))
            }),
    {
        events.offer(Event::Seeked(target)).back()
    }

    /// Notes that there is nothing left to read, and says so.
    pub fn end_of_file(&mut self, events: &mut Outbox<Event>)
        ensures
            *final(self) == (Demuxer { eof: true, ..*old(self) }),
            final(events).offered_since(*old(events), Event::EndOfFile),
    {
        self.eof = true;
        events.offer(Event::EndOfFile);
    }

    /// Where packets of stream `index` go.
    pub fn route(&self, index: usize) -> (r: Destination)
        ensures
            r == destination_of(self.selection, index),
    {
        if is_stream(self.selection.video, index) {
            Destination::Video
        } else if is_stream(self.selection.audio, index) {
            Destination::Audio
        } else if is_stream(self.selection.subtitle, index) {
            Destination::Subtitle
        } else {
            Destination::Nowhere
        }
    }

    /// What an attempt to hand a packet to a decoder comes to. A decoder that
    /// has gone, most often because the sound card would not open, is no
    /// reason to stop showing the picture: its stream is dropped, and
    /// demuxing goes on for whoever is left.
    pub fn settle(&mut self, to: Destination, outcome: Sent<Tagged<P>>) -> (r: Delivery<P>)
        ensures
            match outcome {
                Sent::Full(back) => *final(self) == *old(self) && r == Delivery::Busy(back),
                Sent::Delivered => *final(self) == *old(self) && r == (if old(self).anybody() {
                    Delivery::<P>::Done
                } else {
                    Delivery::<P>::Finished
                }),
                Sent::Disconnected(_) => *final(self) == old(self).without(to) && r == (if old(self).without(to).anybody() {
                    Delivery::<P>::Done
                } else {
                    Delivery::<P>::Finished
                }),
            },
    {
        match outcome {
            Sent::Full(back) => return Delivery::Busy(back),
            Sent::Delivered => {},
            Sent::Disconnected(_) => match to {
                Destination::Video => {
                    self.video.open = false;
                },
                Destination::Audio => {
                    self.audio.open = false;
                },
                Destination::Subtitle => {
                    self.subtitle.open = false;
                },
                Destination::Nowhere => {},
            },
        }
        if self.video.open || self.audio.open || self.subtitle.open {
            Delivery::Done
        } else {
            Delivery::Finished
        }
    }

    /// Hands a packet to its decoder without waiting. A packet that nobody
    /// listens for is dropped.
    pub fn deliver(&mut self, to: Destination, message: Tagged<P>) -> (r: Delivery<P>)
        ensures
            !old(self).listens(to) ==> *final(self) == *old(self) && r is Done,
            old(self).listens(to) ==> {
                &&& final(self).delivered_since(*old(self), to, message)
                &&& r == (if final(self).last_fate(to) is Full {
                    Delivery::Busy(message)
                } else if final(self).anybody() {
                    Delivery::Done
                } else {
                    Delivery::Finished
                })
            },
    {
        let outcome = match to {
            Destination::Video => if self.video.open {
                self.video.packets.offer(message)
            } else {
                return Delivery::Done;
            },
            Destination::Audio => if self.audio.open {
                self.audio.packets.offer(message)
            } else {
                return Delivery::Done;
            },
            Destination::Subtitle => if self.subtitle.open {
                self.subtitle.packets.offer(message)
            } else {
                return Delivery::Done;
            },
            Destination::Nowhere => return Delivery::Done,
        };
        self.settle(to, outcome)
    }
}

fn is_stream(selected: Option<usize>, index: usize) -> (r: bool)
    ensures
        r == (selected == Some(index)),
{
    match selected {
        Some(i) => i == index,
        None => false,
    }
}

/// Whether a packet that found no room is offered again: not while stopping
/// or when a command waits, for a seek must not wait for a decoder to drain.
pub fn offer_again(stopping: bool, command_waits: bool) -> (r: bool)
    ensures
        r == (!stopping && !command_waits),
{
    !stopping && !command_waits
}

/// Whether a packet that found no room is offered again, going by the
/// commands that wait now.
pub fn should_offer_again(stopping: bool, commands: &mut Inbox<DemuxCommand>) -> (r: bool)
    ensures
        final(commands).asked_since(*old(commands)),
        final(commands)@.last() matches Answer::Empty(empty) && r == (!stopping && empty),
{
    offer_again(stopping, !commands.is_empty())
}

// ── Laws ────────────────────────────────────────────────────────────────

/// A seek lands inside the file: never before its start, and never past its
/// end where that is known.
pub proof fn seeks_land_inside(target: int, duration: int)
    ensures
        0 <= seek_place(target, duration),
        duration > 0 ==> seek_place(target, duration) <= duration,
        0 <= target && (duration <= 0 || target <= duration) ==> seek_place(target, duration)
            == target,
        seek_place(seek_place(target, duration), duration) == seek_place(target, duration),
{
}

/// A waiting command is acted on before anything is read.
pub proof fn commands_come_first(
    stopping: bool,
    command: DemuxCommand,
    eof: bool,
    duration: i64,
    generation: u64,
)
    ensures
        next_step(stopping, Some(command), eof, duration, generation) !is Read,
        next_step(stopping, Some(command), eof, duration, generation) !is Wait,
{
}

/// A file that has ended comes back to life with a seek: the step after it
/// reads again.
pub proof fn a_seek_revives_the_file(t: i64, duration: i64, generation: u64, eof: bool)
    ensures
        next_step(false, Some(DemuxCommand::Seek(t)), eof, duration, generation) is Seek,
        next_step(false, None, false, duration, generation) is Read,
{
}

/// Losing one decoder leaves the others served.
pub proof fn losing_one_keeps_the_rest<P>(d: Demuxer<P>, lost: Destination, other: Destination)
    requires
        lost != other,
        d.listens(other),
    ensures
        d.without(lost).listens(other),
        d.without(lost).anybody(),
        !d.without(lost).listens(lost),
{
}

/// A seek goes to the place in the file that is nearest to the one asked for,
/// and the file is asked for it in microseconds, at or just before it.
pub proof fn a_seek_goes_to_the_nearest_place(t: i64, duration: i64, eof: bool, generation: u64)
    ensures
        next_step(false, Some(DemuxCommand::Seek(t)), eof, duration, generation) matches (
        DemuxStep::Seek { target, timestamp }) && {
            &&& 0 <= target && (duration <= 0 || target <= duration)
            &&& forall|x: int|
                0 <= x && (duration <= 0 || x <= duration) ==> #[trigger] time::apart(x, t as int)
                    >= time::apart(target as int, t as int)
            &&& timestamp * 1_000 <= target < timestamp * 1_000 + 1_000
        },
{
}

/// What the demuxer does next: it stops when it is told to and only then; with
/// nothing to obey it reads, for the generation in force, until the file ends,
/// and then waits.
pub proof fn the_next_step_obeys(
    stopping: bool,
    command: Option<DemuxCommand>,
    eof: bool,
    duration: i64,
    generation: u64,
)
    ensures
        ({
            let step = next_step(stopping, command, eof, duration, generation);
            &&& step is Stop <==> stopping || command == Some(DemuxCommand::Stop)
            &&& step is Seek <==> !stopping && command is Some && command->0 is Seek
            &&& step is Wait <==> !stopping && command is None && eof
            &&& step is Read <==> !stopping && command is None && !eof
            &&& step matches DemuxStep::Read { generation: g } ==> g == generation
        }),
{
}

/// Every packet of a selected stream goes to the decoder of its kind, and no
/// other packet goes anywhere.
pub proof fn packets_go_to_their_decoder(s: Selection, index: usize)
    ensures
        destination_of(s, index) is Video <==> s.video == Some(index),
        destination_of(s, index) is Audio <==> s.audio == Some(index) && s.video != Some(index),
        destination_of(s, index) is Subtitle <==> s.subtitle == Some(index) && s.video != Some(
            index,
        ) && s.audio != Some(index),
        destination_of(s, index) is Nowhere <==> s.video != Some(index) && s.audio != Some(index)
            && s.subtitle != Some(index),
{
}

} // verus!

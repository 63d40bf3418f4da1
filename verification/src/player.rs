//! The handle that the window holds.
//!
//! Nothing here waits: opening a file, seeking and switching tracks hand
//! work to the engine's threads and come back at once.

use vstd::prelude::*;

use crate::channel;
use crate::channel::{Answer, Inbox, Outbox};
use crate::clock::Clock;
use crate::cues::CueBoard;
use crate::demux;
use crate::demux::DemuxCommand;
use crate::engine;
use crate::engine::{Queued, Selection, Shared, UNITY};
use crate::error::Error;
use crate::frame::VideoFrame;
use crate::media::{MediaInfo, TrackKind, TrackView};
use crate::subtitle;
use crate::subtitle::SubtitleCue;
use crate::text;
use crate::time;

verus! {

#[derive(Debug, Clone, Copy, PartialEq, Eq, Structural)]
pub enum State {
    /// Nothing is open.
    Idle,
    Playing,
    Paused,
    /// Reached the end and stayed there, so that a replay can be offered.
    Ended,
}

/// Things that the engine says. Position is not among them: it is read from
/// the clock.
#[derive(Debug)]
pub enum Event {
    Opened(Box<MediaInfo>),
    Seeked(i64),
    EndOfFile,
    Error(String),
}

/// The last choice of tracks that the viewer made, kept from one file to the
/// next: that is what is expected from episode to episode of a show.
#[derive(Debug, Clone, Copy, PartialEq, Eq)]
pub struct TrackPreference {
    pub audio: Option<usize>,
    pub subtitle: Option<usize>,
}

impl Default for TrackPreference {
    fn default() -> (r: TrackPreference)
        ensures
            r == (TrackPreference { audio: None, subtitle: None }),
    {
        TrackPreference { audio: None, subtitle: None }
    }
}

/// What the threads and the window share while a file is open.
pub struct Engine<P> {
    pub shared: Shared<P>,
    pub clock: Clock,
}

pub struct Session {
    pub commands: Outbox<DemuxCommand>,
    pub info: MediaInfo,
    pub selection: Selection,
}

pub struct Player {
    pub session: Option<Session>,
    pub events_tx: Outbox<Event>,
    pub events_rx: Inbox<Event>,
    pub state: State,
    /// In millionths.
    pub volume: u32,
    pub muted: bool,
    pub preference: TrackPreference,
}

/// A file whose threads have been started.
pub struct Started {
    pub info: MediaInfo,
    pub selection: Selection,
    /// Where the demuxer takes its commands from.
    pub commands: Outbox<DemuxCommand>,
}

/// What a change of tracks comes to: the file is opened again.
#[derive(Debug)]
pub struct TrackChange {
    pub path: String,
    pub prefer: TrackPreference,
    /// Where to seek to afterwards.
    pub resume: Option<i64>,
    /// Whether to play afterwards.
    pub play: bool,
}

/// A position closer to the start than this is not worth seeking to.
pub const NEAR_START: i64 = 500_000_000;

impl<P> Engine<P> {
    pub open spec fn wf(self) -> bool {
        self.shared.wf()
    }

    /// Paused or running, in the shared state and the clock alike; the rest
    /// is as it was in `before`.
    pub open spec fn paused_from(self, before: Engine<P>, paused: bool, instant: u64) -> bool {
        &&& self.wf()
        &&& self.clock == before.clock.with_pause(paused, instant)
        &&& self.shared.held() == paused
        &&& self.shared.halted() == before.shared.halted()
        &&& self.shared.current() == before.shared.current()
        &&& self.shared.target() == before.shared.target()
        &&& self.shared.gain() == before.shared.gain()
        &&& self.shared.queue() == before.shared.queue()
        &&& self.shared.board() == before.shared.board()
    }

    /// Everything but the volume is as it was in `before`.
    pub open spec fn louder_from(self, before: Engine<P>, gain: int) -> bool {
        &&& self.wf()
        &&& self.clock == before.clock
        &&& self.shared.gain() == gain
        &&& self.shared.held() == before.shared.held()
        &&& self.shared.halted() == before.shared.halted()
        &&& self.shared.current() == before.shared.current()
        &&& self.shared.target() == before.shared.target()
        &&& self.shared.queue() == before.shared.queue()
        &&& self.shared.board() == before.shared.board()
    }

    fn set_paused(&mut self, paused: bool, instant: u64)
        requires
            old(self).wf(),
        ensures
            final(self).paused_from(*old(self), paused, instant),
    {
        self.shared.set_paused(paused);
        self.clock.set_paused(paused, instant);
    }
}

/// A part of the engine that can fail on its own.
#[derive(Debug, Clone, Copy, PartialEq, Eq, Structural)]
pub enum Part {
    VideoDecoder,
    Audio,
    AudioDecoder,
    Resampler,
    SubtitleDecoder,
}

pub open spec fn part_text(part: Part) -> Seq<char> {
    match part {
        Part::VideoDecoder => "video decoder: "@,
        Part::Audio => "audio: "@,
        Part::AudioDecoder => "audio decoder: "@,
        Part::Resampler => "resampler: "@,
        Part::SubtitleDecoder => "subtitle decoder: "@,
    }
}

/// The event that says that a part has failed. The rest plays on.
pub fn failure(part: Part, message: &str) -> (r: Event)
    ensures
        r matches Event::Error(m) && m@ == part_text(part) + message@,
{
    let mut out: Vec<char> = match part {
        Part::VideoDecoder => text::chars_of("video decoder: "),
        Part::Audio => text::chars_of("audio: "),
        Part::AudioDecoder => text::chars_of("audio decoder: "),
        Part::Resampler => text::chars_of("resampler: "),
        Part::SubtitleDecoder => text::chars_of("subtitle decoder: "),
    };
    text::append_str(&mut out, message);
    Event::Error(text::string_of(&out))
}

/// The place in a file of this length that is nearest to `t`.
pub open spec fn within_file(t: int, duration: int) -> int {
    let end = if duration > 0 {
        duration
    } else {
        0
    };
    if t < 0 {
        0
    } else if t > end {
        end
    } else {
        t
    }
}

/// The position to show: not before the start, and not past the end of a
/// file whose length is known.
pub open spec fn shown_position(now: int, duration: int) -> int {
    let t = if now < 0 {
        0
    } else {
        now
    };
    if duration > 0 && t > duration {
        duration
    } else {
        t
    }
}

/// Whether the end of the file is among these events.
pub open spec fn has_end(events: Seq<Event>) -> bool {
    exists|i: int| 0 <= i < events.len() && #[trigger] events[i] is EndOfFile
}

/// The first forced subtitle track.
pub open spec fn first_forced(tracks: Seq<TrackView>) -> Option<usize>
    decreases tracks.len(),
{
    if tracks.len() == 0 {
        None
    } else if tracks[0].kind is Subtitle && tracks[0].is_forced {
        Some(tracks[0].index)
    } else {
        first_forced(tracks.drop_first())
    }
}

/// The answers of a channel that gave these events.
pub open spec fn messages(events: Seq<Event>) -> Seq<Answer<Event>> {
    events.map_values(|e: Event| Answer::Message(Some(e)))
}

/// The answers of a channel that was asked until it gave nothing, and had
/// given these events by then.
pub open spec fn answers(events: Seq<Event>) -> Seq<Answer<Event>> {
    messages(events).push(Answer::Message(None))
}

impl Session {
    /// Since `before`, the demuxer has been given exactly `command`.
    pub open spec fn told_since(self, before: Session, command: DemuxCommand) -> bool {
        &&& self == (Session { commands: self.commands, ..before })
        &&& self.commands.offered_since(before.commands, command)
    }
}

impl Player {
    /// Since `before`, the demuxer of the open file has been given exactly
    /// `command`, and the state may have changed; nothing else has.
    pub open spec fn told_since(self, before: Player, command: DemuxCommand) -> bool {
        &&& self == (Player { session: self.session, state: self.state, ..before })
        &&& before.session matches Some(b) && self.session matches Some(a) && a.told_since(
            b,
            command,
        )
    }

    /// Since `before`, the open file has been set playing: from the end it
    /// starts over, and the demuxer has been told to.
    pub open spec fn played_since(self, before: Player) -> bool {
        &&& self.state == State::Playing
        &&& if before.state is Ended {
            self.told_since(before, DemuxCommand::Seek(0))
        } else {
            self == (Player { state: State::Playing, ..before })
        }
    }

    /// Since `before`, the demuxer has been told to seek to `target`.
    pub open spec fn sought_since(self, before: Player, target: i64) -> bool {
        &&& self.told_since(before, DemuxCommand::Seek(target))
        &&& self.state == (if before.state is Ended {
            State::Paused
        } else {
            before.state
        })
    }

    /// How long the open file is.
    pub open spec fn length(self) -> int {
        match self.session {
            Some(s) => s.info.duration as int,
            None => 0,
        }
    }

    /// The volume that the samples get.
    pub open spec fn effective_volume(self) -> u32 {
        if self.muted {
            0
        } else {
            self.volume
        }
    }

    /// The volume is in range, and what is sent through `events_tx` is what
    /// `events_rx` is asked for.
    pub open spec fn wf(self) -> bool {
        &&& self.volume <= UNITY
        &&& self.events_tx.id() == self.events_rx.id()
    }

    pub fn new() -> (r: Player)
        ensures
            r.wf(),
            r.session is None,
            r.state == State::Idle,
            r.volume == UNITY,
            !r.muted,
            r.preference == (TrackPreference { audio: None, subtitle: None }),
            r.events_tx.unused(),
            r.events_rx@ == Seq::<Answer<Event>>::empty(),
            r.events_tx.id() == r.events_rx.id(),
    {
        let (events_tx, events_rx) = channel::unbounded();
        Player {
            session: None,
            events_tx: events_tx,
            events_rx: events_rx,
            state: State::Idle,
            volume: UNITY,
            muted: false,
            preference: TrackPreference::default(),
        }
    }

    /// Takes note of one event. At the end of the file the clock is stopped
    /// as well as the state, or it would count on past the end.
    pub fn note_event<P>(&mut self, engine: &mut Engine<P>, event: &Event, instant: u64)
        requires
            old(self).wf(),
            old(engine).wf(),
        ensures
            final(self).wf(),
            final(engine).wf(),
            *event is EndOfFile ==> *final(self) == (Player { state: State::Ended, ..*old(self) })
                && final(engine).paused_from(*old(engine), true, instant),
            !(*event is EndOfFile) ==> *final(self) == *old(self) && *final(engine) == *old(engine),
    {
        match event {
            Event::EndOfFile => {
                self.state = State::Ended;
                engine.set_paused(true, instant);
            },
            _ => {},
        }
    }

    /// Takes what the channel of events gave when asked: an event is noted, and
    /// joins those before it. Says whether to ask again.
    pub fn take_event<P>(
        &mut self,
        engine: &mut Engine<P>,
        received: Option<Event>,
        events: &mut Vec<Event>,
        instant: u64,
    ) -> (r: bool)
        requires
            old(self).wf(),
            old(engine).wf(),
        ensures
            final(self).wf(),
            final(engine).wf(),
            r == received is Some,
            match received {
                Some(event) => {
                    &&& final(events)@ == old(events)@.push(event)
                    &&& event is EndOfFile ==> *final(self) == (Player {
                        state: State::Ended,
                        ..*old(self)
                    }) && final(engine).paused_from(*old(engine), true, instant)
                    &&& !(event is EndOfFile) ==> *final(self) == *old(self) && *final(engine)
                        == *old(engine)
                },
                None => *final(events) == *old(events) && *final(self) == *old(self)
                    && *final(engine) == *old(engine),
            },
    {
        match received {
            Some(event) => {
                self.note_event(engine, &event, instant);
                events.push(event);
                true
            },
            None => false,
        }
    }

    /// Takes what the engine has said since the last call: asks the channel of
    /// events until it gives nothing, and returns what it gave, in order.
    pub fn poll_events<P>(&mut self, engine: &mut Engine<P>, instant: u64) -> (r: Vec<Event>)
        requires
            old(self).wf(),
            old(engine).wf(),
        ensures
            final(self).wf(),
            final(engine).wf(),
            final(self).events_rx@ == old(self).events_rx@ + answers(r@),
            final(self).events_rx.id() == old(self).events_rx.id(),
            *final(self) == (Player {
                state: if has_end(r@) {
                    State::Ended
                } else {
                    old(self).state
                },
                events_rx: final(self).events_rx,
                ..*old(self)
            }),
            has_end(r@) ==> final(engine).paused_from(*old(engine), true, instant),
            !has_end(r@) ==> *final(engine) == *old(engine),
    {
        let ghost before = *self;
        let ghost engine_before = *engine;
        let mut out: Vec<Event> = Vec::new();
        assert(before.events_rx@ + messages(out@) =~= before.events_rx@);
        loop
            invariant
                before == *old(self),
                engine_before == *old(engine),
                self.wf(),
                engine.wf(),
                self.events_rx@ == before.events_rx@ + messages(out@),
                self.events_rx.id() == before.events_rx.id(),
                *self == (Player {
                    state: if has_end(out@) {
                        State::Ended
                    } else {
                        before.state
                    },
                    events_rx: self.events_rx,
                    ..before
                }),
                has_end(out@) ==> engine.paused_from(engine_before, true, instant),
                !has_end(out@) ==> *engine == engine_before,
            decreases usize::MAX - out@.len(),
        {
            let ghost so_far = out@;
            let received = self.events_rx.try_recv();
            let ghost given = received;
            if !self.take_event(engine, received, &mut out, instant) {
                assert(self.events_rx@ =~= before.events_rx@ + answers(out@));
                return out;
            }
            proof {
                let event = given->0;
                assert(self.events_rx@ =~= before.events_rx@ + messages(out@));
                assert(out.len() == out@.len());
                if has_end(so_far) {
                    let w = choose|w: int|
                        0 <= w < so_far.len() && #[trigger] so_far[w] is EndOfFile;
                    assert(out@[w] is EndOfFile);
                }
                if event is EndOfFile {
                    assert(out@[so_far.len() as int] is EndOfFile);
                } else if has_end(out@) {
                    let w = choose|w: int| 0 <= w < out@.len() && #[trigger] out@[w] is EndOfFile;
                    assert(so_far[w] is EndOfFile);
                }
            }
        }
    }

    /// Another sender of events, for a thread of the engine: what goes into it
    /// is what `poll_events` looks for.
    pub fn events(&self) -> (r: Outbox<Event>)
        ensures
            r.unused(),
            r.channel() == self.events_tx.channel(),
            r.id() == self.events_tx.id(),
            self.wf() ==> r.id() == self.events_rx.id(),
    {
        self.events_tx.another()
    }

    /// A fresh clock and a fresh shared state for a file about to be opened:
    /// carrying either across would leave the new stream chasing the old
    /// one's positions.
    pub fn fresh_engine<P>(&self, instant: u64) -> (r: Engine<P>)
        requires
            self.wf(),
        ensures
            r.wf(),
            r.shared.gain() == self.effective_volume(),
            r.shared.held(),
            !r.shared.halted(),
            r.shared.current() == 0,
            r.shared.target() == 0,
            r.shared.queue() == Seq::<Queued<P>>::empty(),
            r.shared.board() == CueBoard::blank(),
            r.clock == (Clock {
                audio_pts: 0,
                has_audio: false,
                paused: true,
                since: instant,
                base: 0,
            }),
    {
        let mut shared: Shared<P> = Shared::new();
        shared.set_volume(
            if self.muted {
                0
            } else {
                self.volume as i64
            },
        );
        Engine { shared: shared, clock: Clock::new(instant) }
    }

    /// The channel that carries commands to the demuxer of a file about to be
    /// opened: what goes in at the one end is what the other is asked for.
    pub fn command_channel() -> (r: (Outbox<DemuxCommand>, Inbox<DemuxCommand>))
        ensures
            r.0.unused(),
            r.1@ == Seq::<Answer<DemuxCommand>>::empty(),
            r.0.id() == r.1.id(),
    {
        channel::unbounded()
    }

    /// The streams that a preference asks for.
    pub fn wanted(prefer: TrackPreference) -> (r: Selection)
        ensures
            r == (Selection { video: None, audio: prefer.audio, subtitle: prefer.subtitle }),
    {
        Selection { video: None, audio: prefer.audio, subtitle: prefer.subtitle }
    }

    /// Takes over a file whose threads have been started, after the one
    /// before was closed. It starts paused. Returns the subtitle track that
    /// is to be switched on without being asked, if there is one. A file that
    /// could not be started leaves nothing open.
    pub fn open<P>(
        &mut self,
        engine: &mut Engine<P>,
        started: Result<Started, Error>,
        prefer: TrackPreference,
        instant: u64,
    ) -> (r: Result<Option<usize>, Error>)
        requires
            old(self).wf(),
            old(self).session is None,
            old(engine).wf(),
        ensures
            final(self).wf(),
            final(self).volume == old(self).volume,
            final(self).muted == old(self).muted,
            final(self).preference == old(self).preference,
            final(self).events_rx == old(self).events_rx,
            final(engine).shared == old(engine).shared,
            match started {
                Ok(s) => {
                    &&& r matches Ok(forced) && forced == (if prefer.subtitle is None
                        && s.selection.subtitle is None {
                        first_forced(s.info@.tracks)
                    } else {
                        None
                    })
                    &&& final(self).state == State::Paused
                    &&& final(self).session matches Some(session) && session.info == s.info
                        && session.selection == s.selection && session.commands == s.commands
                    &&& final(self).events_tx@.last() matches Event::Opened(info) && info@
                        == s.info@
                    &&& final(self).events_tx.offered_since(
                        old(self).events_tx,
                        final(self).events_tx@.last(),
                    )
                    &&& final(engine).clock == old(engine).clock.moved_to(0, instant)
                },
                Err(e) => {
                    &&& r matches Err(back) && back == e
                    &&& *final(self) == *old(self)
                    &&& final(engine).clock == old(engine).clock
                },
            },
    {
        let started = match started {
            Ok(s) => s,
            Err(e) => return Err(e),
        };
        let copy = started.info.clone();
        self.session = Some(
            Session {
                commands: started.commands,
                info: started.info,
                selection: started.selection,
            },
        );
        self.state = State::Paused;
        engine.clock.reset_to(0, instant);
        self.events_tx.offer(Event::Opened(Box::new(copy)));
        Ok(self.forced_subtitle(prefer))
    }

    /// The forced subtitle track to switch on without being asked. Forced
    /// subtitles carry the signs and the foreign-language lines of a
    /// soundtrack that is understood otherwise. A merely "default" track is
    /// left off, and so is everything when the caller asked for a track.
    fn forced_subtitle(&self, prefer: TrackPreference) -> (r: Option<usize>)
        ensures
            r == match self.session {
                Some(s) => if prefer.subtitle is None && s.selection.subtitle is None {
                    first_forced(s.info@.tracks)
                } else {
                    None
                },
                None => None,
            },
    {
        match &self.session {
            Some(session) => {
                if prefer.subtitle.is_some() || session.selection.subtitle.is_some() {
                    return None;
                }
                find_forced(&session.info)
            },
            None => None,
        }
    }

    /// Winds playback down. Safe to call when nothing is open. Hands over what
    /// was open, whose demuxer has been told to stop.
    pub fn close<P>(&mut self, engine: &mut Engine<P>) -> (r: Option<Session>)
        requires
            old(self).wf(),
            old(engine).wf(),
        ensures
            final(self).wf(),
            *final(self) == (Player { session: None, state: State::Idle, ..*old(self) }),
            match old(self).session {
                Some(session) => r matches Some(closed) && closed.told_since(
                    session,
                    DemuxCommand::Stop,
                ),
                None => r is None,
            },
            final(engine).wf(),
            final(engine).shared.halted(),
            final(engine).shared.held(),
            final(engine).shared.queue() == Seq::<Queued<P>>::empty(),
            final(engine).shared.board() == old(engine).shared.board(),
            final(engine).shared.current() == old(engine).shared.current(),
            final(engine).shared.target() == old(engine).shared.target(),
            final(engine).shared.gain() == old(engine).shared.gain(),
            final(engine).clock == old(engine).clock,
    {
        engine.shared.halt();
        engine.shared.set_paused(true);
        engine.shared.clear_video();
        self.state = State::Idle;
        match self.session.take() {
            Some(mut session) => {
                session.commands.offer(DemuxCommand::Stop);
                Some(session)
            },
            None => None,
        }
    }

    /// Plays. From the end it starts over. Returns where it was sought to,
    /// if it was.
    pub fn play<P>(&mut self, engine: &mut Engine<P>, instant: u64) -> (r: Option<i64>)
        requires
            old(self).wf(),
            old(engine).wf(),
        ensures
            final(self).wf(),
            old(self).session is None ==> *final(self) == *old(self) && *final(engine) == *old(engine) && r is None,
            old(self).session is Some ==> {
                &&& final(self).played_since(*old(self))
                &&& final(engine).paused_from(*old(engine), false, instant)
                &&& r == (if old(self).state is Ended {
                    Some(0i64)
                } else {
                    None::<i64>
                })
            },
    {
        if self.session.is_none() {
            return None;
        }
        let sought: Option<i64> = if self.state == State::Ended {
            self.seek(0)
        } else {
            None
        };
        engine.set_paused(false, instant);
        self.state = State::Playing;
        sought
    }

    pub fn pause<P>(&mut self, engine: &mut Engine<P>, instant: u64)
        requires
            old(self).wf(),
            old(engine).wf(),
        ensures
            final(self).wf(),
            old(self).session is None ==> *final(self) == *old(self) && *final(engine) == *old(engine),
            old(self).session is Some ==> *final(self) == (Player {
                state: State::Paused,
                ..*old(self)
            }) && final(engine).paused_from(*old(engine), true, instant),
    {
        if self.session.is_none() {
            return;
        }
        engine.set_paused(true, instant);
        self.state = State::Paused;
    }

    /// Pauses what plays, and plays what does not.
    pub fn toggle<P>(&mut self, engine: &mut Engine<P>, instant: u64)
        requires
            old(self).wf(),
            old(engine).wf(),
        ensures
            final(self).wf(),
            old(self).session is None ==> *final(self) == *old(self) && *final(engine) == *old(engine),
            old(self).session is Some ==> match old(self).state {
                State::Idle => *final(self) == *old(self) && *final(engine) == *old(engine),
                State::Playing => *final(self) == (Player { state: State::Paused, ..*old(self) })
                    && final(engine).paused_from(*old(engine), true, instant),
                _ => final(self).played_since(*old(self)) && final(engine).paused_from(
                    *old(engine),
                    false,
                    instant,
                ),
            },
    {
        match self.state {
            State::Playing => self.pause(engine, instant),
            State::Paused | State::Ended => {
                self.play(engine, instant);
            },
            State::Idle => {},
        }
    }

    /// Asks for a seek, held within the file. Returns where it was asked to
    /// go, or nothing when no file is open.
    pub fn seek(&mut self, t: i64) -> (r: Option<i64>)
        requires
            old(self).wf(),
        ensures
            final(self).wf(),
            old(self).session is None ==> *final(self) == *old(self) && r is None,
            old(self).session is Some ==> {
                &&& r matches Some(target) && target == within_file(t as int, old(self).length())
                    && final(self).sought_since(*old(self), target)
            },
    {
        let target: i64 = match &mut self.session {
            Some(session) => {
                let end: i64 = if session.info.duration > 0 {
                    session.info.duration
                } else {
                    0
                };
                let target: i64 = if t < 0 {
                    0
                } else if t > end {
                    end
                } else {
                    t
                };
                session.commands.offer(DemuxCommand::Seek(target));
                target
            },
            None => return None,
        };
        if self.state == State::Ended {
            self.state = State::Paused;
        }
        Some(target)
    }

    /// A relative seek, as the buttons and the arrow keys make.
    pub fn seek_by<P>(&mut self, engine: &Engine<P>, delta: i64, instant: u64) -> (r: Option<i64>)
        requires
            old(self).wf(),
        ensures
            final(self).wf(),
            old(self).session is None ==> *final(self) == *old(self) && r is None,
            old(self).session is Some ==> {
                &&& r matches Some(target) && target == within_file(
                    shown_position(engine.clock.position(instant), old(self).length()) + delta,
                    old(self).length(),
                ) && final(self).sought_since(*old(self), target)
            },
    {
        let now: i64 = self.position(engine, instant);
        self.seek(time::plus(now, delta))
    }

    /// Where playback is. The audio clock can read slightly past the last
    /// sample, so it is held within the file.
    pub fn position<P>(&self, engine: &Engine<P>, instant: u64) -> (r: i64)
        ensures
            self.session is None ==> r == 0,
            self.session is Some ==> r == shown_position(
                engine.clock.position(instant),
                self.length(),
            ),
    {
        match &self.session {
            Some(session) => {
                let now: i64 = engine.clock.now(instant);
                let t: i64 = if now < 0 {
                    0
                } else {
                    now
                };
                if session.info.duration > 0 && t > session.info.duration {
                    session.info.duration
                } else {
                    t
                }
            },
            None => 0,
        }
    }

    pub fn duration(&self) -> (r: i64)
        ensures
            r == self.length(),
    {
        match &self.session {
            Some(session) => session.info.duration,
            None => 0,
        }
    }

    pub fn state(&self) -> (r: State)
        ensures
            r == self.state,
    {
        self.state
    }

    pub fn info(&self) -> (r: Option<&MediaInfo>)
        ensures
            r is Some <==> self.session is Some,
            r matches Some(info) ==> *info == self.session->0.info,
    {
        match &self.session {
            Some(session) => Some(&session.info),
            None => None,
        }
    }

    pub fn selection(&self) -> (r: Option<Selection>)
        ensures
            r == match self.session {
                Some(s) => Some(s.selection),
                None => None,
            },
    {
        match &self.session {
            Some(session) => Some(session.selection),
            None => None,
        }
    }

    pub fn volume(&self) -> (r: u32)
        ensures
            r == self.volume,
    {
        self.volume
    }

    /// Sets the volume, held between silence and unity, and unmutes.
    pub fn set_volume<P>(&mut self, engine: &mut Engine<P>, v: i64)
        requires
            old(self).wf(),
            old(engine).wf(),
        ensures
            final(self).wf(),
            *final(self) == (Player {
                volume: engine::volume_within(v as int, UNITY as int) as u32,
                muted: false,
                ..*old(self)
            }),
            final(engine).louder_from(
                *old(engine),
                engine::volume_within(v as int, UNITY as int),
            ),
    {
        self.volume = if v < 0 {
            0
        } else if v > UNITY as i64 {
            UNITY
        } else {
            v as u32
        };
        self.muted = false;
        engine.shared.set_volume(self.volume as i64);
    }

    pub fn is_muted(&self) -> (r: bool)
        ensures
            r == self.muted,
    {
        self.muted
    }

    /// Mutes or unmutes. The volume is kept for when the sound comes back.
    pub fn set_muted<P>(&mut self, engine: &mut Engine<P>, muted: bool)
        requires
            old(self).wf(),
            old(engine).wf(),
        ensures
            final(self).wf(),
            *final(self) == (Player { muted: muted, ..*old(self) }),
            final(engine).louder_from(
                *old(engine),
                if muted {
                    0
                } else {
                    old(self).volume as int
                },
            ),
    {
        self.muted = muted;
        engine.shared.set_volume(
            if muted {
                0
            } else {
                self.volume as i64
            },
        );
    }

    /// The choice of tracks to open the next file with.
    pub fn preference(&self) -> (r: TrackPreference)
        ensures
            r == self.preference,
    {
        self.preference
    }

    /// Notes that the viewer chose a track.
    pub fn prefer_track(&mut self, kind: TrackKind, index: Option<usize>)
        ensures
            *final(self) == (Player {
                preference: match kind {
                    TrackKind::Audio => TrackPreference { audio: index, ..old(self).preference },
                    TrackKind::Subtitle => TrackPreference {
                        subtitle: index,
                        ..old(self).preference
                    },
                    TrackKind::Video => old(self).preference,
                },
                ..*old(self)
            }),
    {
        match kind {
            TrackKind::Audio => {
                self.preference.audio = index;
            },
            TrackKind::Subtitle => {
                self.preference.subtitle = index;
            },
            TrackKind::Video => {},
        }
    }

    /// Works out a change of audio or subtitle track. The file is opened
    /// again at the current position, with the other track as it is.
    pub fn set_track<P>(
        &self,
        engine: &Engine<P>,
        kind: TrackKind,
        index: Option<usize>,
        instant: u64,
    ) -> (r: Option<TrackChange>)
        ensures
            r is None <==> self.session is None || kind is Video,
            r matches Some(change) ==> {
                let s = self.session->0;
                let position = shown_position(engine.clock.position(instant), self.length());
                &&& change.path@ == s.info.path@
                &&& change.prefer == (if kind is Audio {
                    TrackPreference { audio: index, subtitle: s.selection.subtitle }
                } else {
                    TrackPreference { audio: s.selection.audio, subtitle: index }
                })
                &&& change.resume == (if position > NEAR_START {
                    Some(position as i64)
                } else {
                    None::<i64>
                })
                &&& change.play == (self.state is Playing)
            },
    {
        let resume: i64 = self.position(engine, instant);
        match &self.session {
            Some(session) => {
                let prefer = match kind {
                    TrackKind::Audio => TrackPreference {
                        audio: index,
                        subtitle: session.selection.subtitle,
                    },
                    TrackKind::Subtitle => TrackPreference {
                        audio: session.selection.audio,
                        subtitle: index,
                    },
                    TrackKind::Video => return None,
                };
                Some(
                    TrackChange {
                        path: session.info.path.clone(),
                        prefer: prefer,
                        resume: if resume > NEAR_START {
                            Some(resume)
                        } else {
                            None
                        },
                        play: self.state == State::Playing,
                    },
                )
            },
            None => None,
        }
    }

    /// The subtitles visible now, but only when they differ from what the
    /// caller last saw.
    pub fn subtitles_if_changed<P>(
        &self,
        engine: &mut Engine<P>,
        last_seen: u64,
        instant: u64,
    ) -> (r: Option<(u64, Vec<SubtitleCue>)>)
        requires
            old(engine).wf(),
        ensures
            final(engine).wf(),
            final(engine).clock == old(engine).clock,
            final(engine).shared.same_but_subtitles(old(engine).shared),
            ({
                let board = old(engine).shared.board();
                let now = old(engine).clock.position(instant);
                &&& final(engine).shared.board() == board.at(now)
                &&& r is None <==> board.at(now).generation == last_seen
                &&& r matches Some((generation, cues)) ==> generation == board.at(now).generation
                    && subtitle::cue_views(cues@) == board.shown_at(now)
            }),
    {
        let now: i64 = engine.clock.now(instant);
        engine.shared.subtitles_if_changed(now, last_seen)
    }

    /// Which subtitle stream is playing, if any.
    pub fn subtitle_track(&self) -> (r: Option<usize>)
        ensures
            r == match self.session {
                Some(s) => s.selection.subtitle,
                None => None,
            },
    {
        match &self.session {
            Some(session) => session.selection.subtitle,
            None => None,
        }
    }

    /// The picture to draw right now, or `None` to keep the last one.
    pub fn frame_for_now<P>(&self, engine: &mut Engine<P>, instant: u64) -> (r: Option<
        VideoFrame<P>,
    >)
        requires
            old(engine).wf(),
        ensures
            final(engine).wf(),
            final(engine).clock == old(engine).clock,
            final(engine).shared.same_but_queue(old(engine).shared),
            ({
                let queue = old(engine).shared.queue();
                let taken = engine::frames_taken(queue, old(engine).clock.position(instant));
                &&& final(engine).shared.queue() == queue.skip(taken)
                &&& r is Some <==> taken > 0
                &&& r matches Some(frame) ==> frame == queue[taken - 1].frame
            }),
    {
        let now: i64 = engine.clock.now(instant);
        engine.shared.frame_for_now(now)
    }

    pub fn path(&self) -> (r: Option<String>)
        ensures
            r is Some <==> self.session is Some,
            r matches Some(path) ==> path@ == self.session->0.info.path@,
    {
        match &self.session {
            Some(session) => Some(session.info.path.clone()),
            None => None,
        }
    }
}

impl Default for Player {
    fn default() -> (r: Player)
        ensures
            r.wf(),
            r.session is None,
            r.state == State::Idle,
            r.volume == UNITY,
            !r.muted,
            r.preference == (TrackPreference { audio: None, subtitle: None }),
            r.events_tx.unused(),
            r.events_rx@ == Seq::<Answer<Event>>::empty(),
            r.events_tx.id() == r.events_rx.id(),
    {
        Player::new()
    }
}

fn find_forced(info: &MediaInfo) -> (r: Option<usize>)
    ensures
        r == first_forced(info@.tracks),
{
    let ghost all = info@.tracks;
    let mut i: usize = 0;
    assert(all.skip(0) =~= all);
    while i < info.tracks.len()
        invariant
            i <= info.tracks@.len(),
            all == info@.tracks,
            first_forced(all) == first_forced(all.skip(i as int)),
        decreases info.tracks@.len() - i,
    {
        assert(all.skip(i as int)[0] == info.tracks@[i as int]@);
        assert(all.skip(i as int).drop_first() =~= all.skip(i + 1));
        if info.tracks[i].kind == TrackKind::Subtitle && info.tracks[i].is_forced {
            return Some(info.tracks[i].index);
        }
        i = i + 1;
    }
    None
}

// ── Laws ────────────────────────────────────────────────────────────────

/// The position shown is never before the start, and never past the end of a
/// file whose length is known.
pub proof fn the_position_stays_in_the_file(now: int, duration: int)
    ensures
        0 <= shown_position(now, duration),
        duration > 0 ==> shown_position(now, duration) <= duration,
        0 <= now && (duration <= 0 || now <= duration) ==> shown_position(now, duration) == now,
{
}

/// What the player asks for is what the demuxer goes to: the place is inside
/// the file already.
pub proof fn seeks_are_agreed_on(t: int, duration: int)
    ensures
        demux::seek_place(within_file(t, duration), duration) == within_file(t, duration),
        0 <= within_file(t, duration),
{
}

/// A subtitle track is never switched on by itself unless it is forced.
pub proof fn only_forced_tracks_are_switched_on(tracks: Seq<TrackView>)
    ensures
        first_forced(tracks) matches Some(index) ==> exists|i: int|
            0 <= i < tracks.len() && (#[trigger] tracks[i]).index == index
                && tracks[i].kind is Subtitle && tracks[i].is_forced,
        first_forced(tracks) is None ==> forall|i: int|
            0 <= i < tracks.len() ==> !((#[trigger] tracks[i]).kind is Subtitle
                && tracks[i].is_forced),
    decreases tracks.len(),
{
    if tracks.len() > 0 {
        let rest = tracks.drop_first();
        only_forced_tracks_are_switched_on(rest);
        if tracks[0].kind is Subtitle && tracks[0].is_forced {
        } else if first_forced(tracks) is Some {
            let index = first_forced(tracks)->0;
            let w = choose|w: int|
                0 <= w < rest.len() && (#[trigger] rest[w]).index == index && rest[w].kind
                    is Subtitle && rest[w].is_forced;
            assert(tracks[w + 1] == rest[w]);
        } else {
            assert forall|i: int| 0 <= i < tracks.len() implies !((
            #[trigger] tracks[i]).kind is Subtitle && tracks[i].is_forced) by {
                if i > 0 {
                    assert(tracks[i] == rest[i - 1]);
                }
            }
        }
    }
}

/// A seek inside the file goes exactly where it was asked to, and one outside
/// to the nearest place that is inside.
pub proof fn a_seek_goes_where_it_is_asked(t: int, duration: int)
    ensures
        0 <= t <= duration ==> within_file(t, duration) == t,
        0 <= within_file(t, duration),
        duration >= 0 ==> within_file(t, duration) <= duration,
        duration < 0 ==> within_file(t, duration) == 0,
        forall|x: int|
            0 <= x <= duration ==> #[trigger] time::apart(x, t) >= time::apart(
                within_file(t, duration),
                t,
            ),
{
}

/// The position that is shown is the clock's wherever that is inside the
/// file, and otherwise the nearest one that is.
pub proof fn the_position_shown_is_the_clocks(now: int, duration: int)
    ensures
        forall|x: int|
            0 <= x && (duration <= 0 || x <= duration) ==> #[trigger] time::apart(x, now)
                >= time::apart(shown_position(now, duration), now),
{
}

/// Of several forced subtitle tracks the first is switched on.
pub proof fn the_first_forced_track_is_switched_on(tracks: Seq<TrackView>, i: int)
    requires
        0 <= i < tracks.len(),
        tracks[i].kind is Subtitle && tracks[i].is_forced,
        forall|j: int|
            0 <= j < i ==> !((#[trigger] tracks[j]).kind is Subtitle && tracks[j].is_forced),
    ensures
        first_forced(tracks) == Some(tracks[i].index),
    decreases tracks.len(),
{
    if i > 0 {
        let rest = tracks.drop_first();
        assert(!(tracks[0].kind is Subtitle && tracks[0].is_forced));
        assert forall|j: int| 0 <= j < i - 1 implies !((#[trigger] rest[j]).kind is Subtitle
            && rest[j].is_forced) by {
            assert(rest[j] == tracks[j + 1]);
        }
        assert(rest[i - 1] == tracks[i]);
        the_first_forced_track_is_switched_on(rest, i - 1);
    }
}

/// Muting silences and forgets nothing: with the sound back on the volume is
/// the one that was set.
pub proof fn muting_is_undone(player: Player)
    ensures
        (Player { muted: true, ..player }).effective_volume() == 0,
        (Player { muted: false, ..player }).effective_volume() == player.volume,
{
}

} // verus!

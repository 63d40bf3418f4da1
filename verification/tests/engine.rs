//! The frame queue, the decoders' decisions, the demuxer and the player.

use crossbeam_channel::{bounded, unbounded};
use owl_player::channel::{Outbox, Sent};
use owl_player::clock::Clock;
use owl_player::demux::{
    offer_again, should_offer_again, Delivery, DemuxCommand, DemuxStep, Demuxer, Destination, Tagged,
};
use owl_player::engine::{
    audio_reaches_target, lazy_packet, needs_gain, reaches_target, select, video_frame, video_packet,
    video_size, FrameStep, Offer, PacketStep, Selection, Shared, LOUDEST, UNITY, VIDEO_QUEUE,
};
use owl_player::error::Error;
use owl_player::frame::{ColorInfo, PixelLayout, VideoFrame};
use owl_player::media::{MediaInfo, Track, TrackKind};
use owl_player::player::{failure, Engine, Event, Part, Player, Started, State, TrackPreference};
use owl_player::time::SECOND;

fn frame(id: u32, pts: i64) -> VideoFrame<u32> {
    VideoFrame::new(id, (16, 9), PixelLayout::Rgba, ColorInfo::default(), pts, (1, 1))
}

fn track(index: usize, kind: TrackKind) -> Track {
    Track {
        index,
        kind,
        codec: "x".to_string(),
        language: None,
        title: None,
        is_default: false,
        is_forced: false,
        channels: 2,
        sample_rate: 48000,
        width: 1280,
        height: 720,
        frame_rate: (0, 1),
        hdr: None,
    }
}

fn info(duration: i64, tracks: Vec<Track>) -> MediaInfo {
    MediaInfo { path: "/m/film.mkv".to_string(), duration, tracks, ..MediaInfo::default() }
}

// ── Frames ──────────────────────────────────────────────────────────────

#[test]
fn the_newest_due_frame_is_shown() {
    let mut s: Shared<u32> = Shared::new();
    for (id, t) in [(1, 0), (2, 10), (3, 20), (4, 30)] {
        assert!(matches!(s.push_video(frame(id, t), 0), Offer::Taken));
    }
    assert_eq!(s.frame_for_now(20).unwrap().frame, 3);
    assert!(s.frame_for_now(25).is_none(), "nothing new is due");
    assert_eq!(s.frame_for_now(30).unwrap().frame, 4);
    assert!(s.frame_for_now(99).is_none());
}

#[test]
fn a_head_far_in_the_future_is_shown_rather_than_nothing() {
    let mut s: Shared<u32> = Shared::new();
    s.push_video(frame(1, 5 * SECOND), 0);
    assert!(s.frame_for_now(4 * SECOND).is_none(), "exactly a second ahead is not far");
    assert_eq!(s.frame_for_now(4 * SECOND - 1).unwrap().frame, 1);
}

#[test]
fn a_full_queue_hands_the_frame_back() {
    let mut s: Shared<u32> = Shared::new();
    for id in 0..VIDEO_QUEUE as u32 {
        assert!(matches!(s.push_video(frame(id, 0), 0), Offer::Taken));
    }
    match s.push_video(frame(9, 0), 0) {
        Offer::Full(back) => assert_eq!(back.frame, 9),
        other => panic!("{other:?}"),
    }
    s.halt();
    assert!(matches!(s.push_video(frame(9, 0), 0), Offer::Dropped));
}

#[test]
fn no_stale_frame_survives_a_seek() {
    let mut s: Shared<u32> = Shared::new();
    s.push_video(frame(1, 0), 0);
    let g = s.begin_seek(7 * SECOND);
    assert_eq!(g, 1);
    assert_eq!(s.generation(), 1);
    assert_eq!(s.seek_target(), 7 * SECOND);
    assert!(s.frame_for_now(i64::MAX).is_none(), "the backlog is gone");
    assert!(matches!(s.push_video(frame(2, 0), 0), Offer::Dropped), "and no old frame gets in");
    assert!(matches!(s.push_video(frame(3, 0), g), Offer::Taken));
}

#[test]
fn volumes_are_held_between_silence_and_twice_unity() {
    let mut s: Shared<u32> = Shared::new();
    assert_eq!(s.volume(), UNITY);
    s.set_volume(-5);
    assert_eq!(s.volume(), 0);
    s.set_volume(i64::MAX);
    assert_eq!(s.volume(), LOUDEST);
    assert!(!needs_gain(UNITY));
    assert!(needs_gain(UNITY + 1));
}

// ── Packets ─────────────────────────────────────────────────────────────

#[test]
fn packets_of_another_generation_are_skipped() {
    let mut g = 0;
    assert_eq!(video_packet(true, &mut g, 0, 0), PacketStep::Stop);
    assert_eq!(video_packet(false, &mut g, 0, 0), PacketStep::Decode { flush: false });
    assert_eq!(video_packet(false, &mut g, 0, 1), PacketStep::Skip { flush: true });
    assert_eq!(g, 1);
    assert_eq!(video_packet(false, &mut g, 0, 1), PacketStep::Skip { flush: false });
    assert_eq!(video_packet(false, &mut g, 1, 1), PacketStep::Decode { flush: false });

    let mut g = 0;
    assert_eq!(lazy_packet(false, &mut g, 0, 1), PacketStep::Skip { flush: false });
    assert_eq!(g, 0);
    assert_eq!(lazy_packet(false, &mut g, 1, 1), PacketStep::Decode { flush: true });
    assert_eq!(g, 1);
}

#[test]
fn frames_before_the_target_are_discarded() {
    assert!(reaches_target(1_000_000_000, SECOND));
    assert!(reaches_target(992_000_000, SECOND), "the frame that straddles the target is kept");
    assert!(!reaches_target(991_999_999, SECOND));
    let mut s: Shared<u32> = Shared::new();
    s.begin_seek(SECOND);
    assert_eq!(video_frame(&s, 0, SECOND), FrameStep::Leave);
    assert_eq!(video_frame(&s, 1, 0), FrameStep::Discard);
    assert_eq!(video_frame(&s, 1, SECOND), FrameStep::Use);
}

#[test]
fn audio_before_the_target_is_discarded() {
    // 480 samples at 48 kHz last ten milliseconds.
    assert!(!audio_reaches_target(Some(990_000_000), 480, 48_000, SECOND));
    assert!(audio_reaches_target(Some(990_000_001), 480, 48_000, SECOND));
    assert!(audio_reaches_target(None, 480, 48_000, SECOND));
    assert!(!audio_reaches_target(Some(0), 1, 0, SECOND), "a rate of zero counts as one");
    assert!(audio_reaches_target(Some(1), 1, 0, SECOND));
    assert!(audio_reaches_target(Some(i64::MAX), u32::MAX, u32::MAX, i64::MIN));
}

// ── Streams ─────────────────────────────────────────────────────────────

fn none() -> Selection {
    Selection { video: None, audio: None, subtitle: None }
}

#[test]
fn streams_are_picked_by_wish_and_by_merit() {
    let i = info(0, vec![track(0, TrackKind::Video), track(1, TrackKind::Audio), track(2, TrackKind::Audio)]);
    let s = select(&i, none(), 3, Some(0), Some(1)).unwrap();
    assert_eq!((s.video, s.audio, s.subtitle), (Some(0), Some(1), None));
    let wish = Selection { video: None, audio: Some(2), subtitle: Some(7) };
    let s = select(&i, wish, 3, Some(0), Some(1)).unwrap();
    assert_eq!((s.video, s.audio, s.subtitle), (Some(0), Some(2), Some(7)));
    let absent = Selection { video: None, audio: Some(3), subtitle: None };
    assert_eq!(select(&i, absent, 3, Some(0), Some(1)).unwrap().audio, Some(1));
}

#[test]
fn cover_art_is_not_played_as_a_picture() {
    let i = info(0, vec![track(1, TrackKind::Audio)]);
    let s = select(&i, none(), 2, Some(0), Some(1)).unwrap();
    assert_eq!((s.video, s.audio), (None, Some(1)));
    match select(&i, none(), 2, Some(0), None) {
        Err(Error::NoPlayableStream(p)) => assert_eq!(p, "/m/film.mkv"),
        other => panic!("{other:?}"),
    }
}

#[test]
fn the_picture_size_is_the_selected_tracks() {
    let i = info(0, vec![track(4, TrackKind::Video)]);
    assert_eq!(video_size(&i, Some(4)), (1280, 720));
    assert_eq!(video_size(&i, Some(5)), (1920, 1080));
    assert_eq!(video_size(&i, None), (1920, 1080));
}

// ── The demuxer ─────────────────────────────────────────────────────────

fn demuxer(duration: i64) -> (Demuxer<u8>, crossbeam_channel::Receiver<Tagged<u8>>) {
    let (v, vr) = bounded(1);
    let (a, _) = bounded(1);
    let (s, _) = bounded(1);
    let selection = Selection { video: Some(3), audio: Some(4), subtitle: Some(5) };
    (Demuxer::new(selection, duration, v, a, s), vr)
}

#[test]
fn a_seek_is_clamped_and_moves_everything() {
    let (mut d, _r) = demuxer(100 * SECOND);
    let mut s: Shared<u32> = Shared::new();
    let mut c = Clock::new(0);
    s.push_video(frame(1, 0), 0);
    d.eof = true;
    let step = d.step(&mut s, &mut c, 5, Some(DemuxCommand::Seek(200 * SECOND)));
    assert_eq!(step, DemuxStep::Seek { target: 100 * SECOND, timestamp: 100_000_000 });
    assert!(!d.eof, "a seek brings the file back to life");
    assert_eq!(c.now(5), 100 * SECOND);
    assert_eq!(s.generation(), 1);
    assert!(s.frame_for_now(i64::MAX).is_none());
    let step = d.step(&mut s, &mut c, 5, Some(DemuxCommand::Seek(-1)));
    assert_eq!(step, DemuxStep::Seek { target: 0, timestamp: 0 });
}

#[test]
fn a_file_of_unknown_length_can_be_sought_anywhere() {
    let (mut d, _r) = demuxer(0);
    let mut s: Shared<u32> = Shared::new();
    let mut c = Clock::new(0);
    let step = d.step(&mut s, &mut c, 0, Some(DemuxCommand::Seek(1_234_567)));
    assert_eq!(step, DemuxStep::Seek { target: 1_234_567, timestamp: 1_234 });
}

#[test]
fn commands_come_before_packets() {
    let (mut d, _r) = demuxer(SECOND);
    let mut s: Shared<u32> = Shared::new();
    let mut c = Clock::new(0);
    let (mut tx, mut rx) = Player::command_channel();
    assert_eq!(d.poll(&mut s, &mut c, 0, &mut rx), DemuxStep::Read { generation: 0 });
    assert!(matches!(tx.offer(DemuxCommand::Seek(SECOND)), Sent::Delivered));
    assert!(!should_offer_again(false, &mut rx), "a command waits");
    assert!(matches!(d.poll(&mut s, &mut c, 0, &mut rx), DemuxStep::Seek { .. }));
    assert!(should_offer_again(false, &mut rx));
    assert!(!should_offer_again(true, &mut rx));
    assert!(offer_again(false, false));
    let (etx, erx) = unbounded();
    let mut etx = Outbox::over(etx);
    d.end_of_file(&mut etx);
    assert!(matches!(erx.try_recv(), Ok(Event::EndOfFile)));
    d.seeked(7, &mut etx);
    assert!(matches!(erx.try_recv(), Ok(Event::Seeked(7))));
    assert_eq!(d.poll(&mut s, &mut c, 0, &mut rx), DemuxStep::Wait);
    assert!(matches!(tx.offer(DemuxCommand::Stop), Sent::Delivered));
    assert_eq!(d.poll(&mut s, &mut c, 0, &mut rx), DemuxStep::Stop);
    s.halt();
    assert_eq!(d.poll(&mut s, &mut c, 0, &mut rx), DemuxStep::Stop);
}

#[test]
fn packets_are_routed_and_dead_decoders_dropped() {
    let (mut d, vr) = demuxer(SECOND);
    assert_eq!(d.route(3), Destination::Video);
    assert_eq!(d.route(4), Destination::Audio);
    assert_eq!(d.route(5), Destination::Subtitle);
    assert_eq!(d.route(6), Destination::Nowhere);
    let p = |n| Tagged { packet: n, generation: 0 };
    assert!(matches!(d.deliver(Destination::Nowhere, p(0)), Delivery::Done));
    assert!(matches!(d.deliver(Destination::Video, p(1)), Delivery::Done));
    match d.deliver(Destination::Video, p(2)) {
        Delivery::Busy(back) => assert_eq!(back.packet, 2),
        other => panic!("{other:?}"),
    }
    assert_eq!(vr.try_recv().unwrap().packet, 1);
    // The audio and subtitle receivers are gone.
    assert!(matches!(d.deliver(Destination::Audio, p(3)), Delivery::Done));
    assert!(!d.audio.open && d.video.open);
    assert!(matches!(d.deliver(Destination::Audio, p(3)), Delivery::Done));
    assert!(matches!(d.deliver(Destination::Subtitle, p(4)), Delivery::Done));
    drop(vr);
    assert!(matches!(d.deliver(Destination::Video, p(5)), Delivery::Finished));
}

// ── The player ──────────────────────────────────────────────────────────

type Opened = (Player, Engine<u32>, crossbeam_channel::Receiver<DemuxCommand>);

fn open(duration: i64, tracks: Vec<Track>) -> Opened {
    let mut p = Player::new();
    let mut e: Engine<u32> = p.fresh_engine(0);
    let (tx, rx) = unbounded();
    let started = Started {
        info: info(duration, tracks),
        selection: Selection { video: Some(0), audio: Some(1), subtitle: None },
        commands: Outbox::over(tx),
    };
    p.open(&mut e, Ok(started), TrackPreference::default(), 0).unwrap();
    (p, e, rx)
}

#[test]
fn a_new_player_is_idle() {
    let mut p = Player::new();
    let mut e: Engine<u32> = p.fresh_engine(0);
    assert_eq!(p.state(), State::Idle);
    assert_eq!(p.position(&e, 99), 0);
    assert_eq!(p.duration(), 0);
    assert!(p.info().is_none() && p.selection().is_none() && p.path().is_none());
    p.toggle(&mut e, 0);
    assert_eq!(p.play(&mut e, 0), None);
    assert_eq!(p.seek(5), None);
    assert_eq!(p.state(), State::Idle);
}

#[test]
fn opening_pauses_at_the_start_and_says_so() {
    let (mut p, mut e, _rx) = open(100 * SECOND, vec![track(0, TrackKind::Video)]);
    assert_eq!(p.state(), State::Paused);
    assert_eq!(p.position(&e, SECOND as u64), 0);
    let events = p.poll_events(&mut e, 0);
    assert!(matches!(&events[..], [Event::Opened(i)] if i.duration == 100 * SECOND));
    assert_eq!(p.path().as_deref(), Some("/m/film.mkv"));
    assert_eq!(p.selection().unwrap().audio, Some(1));
}

#[test]
fn a_file_that_does_not_start_leaves_nothing_open() {
    let mut p = Player::new();
    let mut e: Engine<u32> = p.fresh_engine(0);
    let r = p.open(&mut e, Err(Error::NoAudioDevice), TrackPreference::default(), 0);
    assert!(matches!(r, Err(Error::NoAudioDevice)));
    assert_eq!(p.state(), State::Idle);
    assert!(p.info().is_none());
}

#[test]
fn forced_subtitles_are_switched_on_and_default_ones_are_not() {
    let mut forced = track(3, TrackKind::Subtitle);
    forced.is_forced = true;
    let mut normal = track(2, TrackKind::Subtitle);
    normal.is_default = true;
    let mut p = Player::new();
    let mut e: Engine<u32> = p.fresh_engine(0);
    let started = |tracks: Vec<Track>, subtitle| Started {
        info: info(0, tracks),
        selection: Selection { video: None, audio: Some(1), subtitle },
        commands: Player::command_channel().0,
    };
    let prefer = TrackPreference::default();
    assert_eq!(
        p.open(&mut e, Ok(started(vec![normal.clone(), forced.clone()], None)), prefer, 0).unwrap(),
        Some(3)
    );
    p.close(&mut e);
    assert_eq!(p.open(&mut e, Ok(started(vec![normal.clone()], None)), prefer, 0).unwrap(), None);
    p.close(&mut e);
    let asked = TrackPreference { audio: None, subtitle: Some(2) };
    assert_eq!(p.open(&mut e, Ok(started(vec![normal, forced], Some(2))), asked, 0).unwrap(), None);
}

#[test]
fn playing_pausing_and_the_clock() {
    let (mut p, mut e, _rx) = open(100 * SECOND, Vec::new());
    let s = SECOND as u64;
    p.play(&mut e, 10 * s);
    assert_eq!(p.state(), State::Playing);
    assert_eq!(p.position(&e, 15 * s), 5 * SECOND);
    p.toggle(&mut e, 15 * s);
    assert_eq!(p.state(), State::Paused);
    assert_eq!(p.position(&e, 90 * s), 5 * SECOND);
    p.toggle(&mut e, 90 * s);
    assert_eq!(p.position(&e, 91 * s), 6 * SECOND);
    assert_eq!(p.position(&e, 9000 * s), 100 * SECOND, "never past the end");
}

#[test]
fn seeks_are_held_within_the_file() {
    let (mut p, e, rx) = open(100 * SECOND, Vec::new());
    assert_eq!(p.seek(-5), Some(0));
    assert_eq!(p.seek(500 * SECOND), Some(100 * SECOND));
    assert_eq!(p.seek_by(&e, 10 * SECOND, 0), Some(10 * SECOND));
    assert_eq!(p.seek_by(&e, -10 * SECOND, 0), Some(0));
    let sent: Vec<DemuxCommand> = rx.try_iter().collect();
    let at = |s| DemuxCommand::Seek(s * SECOND);
    assert_eq!(sent, [at(0), at(100), at(10), at(0)]);
}

#[test]
fn received_events_are_noted_and_kept_in_order() {
    let (mut p, mut e, _rx) = open(100 * SECOND, Vec::new());
    p.play(&mut e, 0);
    let mut events = Vec::new();
    assert!(p.take_event(&mut e, Some(Event::Seeked(3)), &mut events, 0));
    assert_eq!(p.state(), State::Playing);
    assert!(!p.take_event(&mut e, None, &mut events, 0));
    assert_eq!((events.len(), p.state()), (1, State::Playing));
    assert!(p.take_event(&mut e, Some(Event::EndOfFile), &mut events, 5 * SECOND as u64));
    assert_eq!(p.state(), State::Ended);
    assert!(e.shared.is_paused());
    assert!(matches!(events[..], [Event::Seeked(3), Event::EndOfFile]));
}

#[test]
fn an_event_that_nobody_hears_comes_back() {
    let (tx, _rx) = bounded::<Tagged<u8>>(1);
    let d = Demuxer::new(Selection { video: None, audio: None, subtitle: None }, 0, tx.clone(), tx.clone(), tx);
    let (etx, erx) = unbounded();
    let mut etx = Outbox::over(etx);
    assert!(d.seeked(7, &mut etx).is_none());
    assert!(matches!(erx.try_recv(), Ok(Event::Seeked(7))));
    drop(erx);
    assert!(matches!(d.seeked(8, &mut etx), Some(Event::Seeked(8))));
}

#[test]
fn the_end_stops_the_clock_and_playing_starts_over() {
    let (mut p, mut e, rx) = open(100 * SECOND, Vec::new());
    p.play(&mut e, 0);
    assert!(matches!(p.events().offer(Event::EndOfFile), Sent::Delivered));
    let events = p.poll_events(&mut e, 7 * SECOND as u64);
    assert_eq!(events.len(), 2);
    assert_eq!(p.state(), State::Ended);
    assert_eq!(p.position(&e, u64::MAX), 7 * SECOND);
    assert!(e.shared.is_paused());
    assert_eq!(p.play(&mut e, 0), Some(0));
    assert_eq!(p.state(), State::Playing);
    assert_eq!(rx.try_recv(), Ok(DemuxCommand::Seek(0)));
    assert!(!e.shared.is_paused());
}

#[test]
fn a_seek_after_the_end_pauses() {
    let (mut p, mut e, _rx) = open(100 * SECOND, Vec::new());
    p.note_event(&mut e, &Event::EndOfFile, 0);
    p.seek(5);
    assert_eq!(p.state(), State::Paused);
}

#[test]
fn closing_stops_the_threads() {
    let (mut p, mut e, rx) = open(100 * SECOND, Vec::new());
    e.shared.push_video(frame(1, 0), 0);
    p.close(&mut e);
    assert_eq!(p.state(), State::Idle);
    assert!(e.shared.stopping() && e.shared.is_paused());
    assert!(p.frame_for_now(&mut e, 0).is_none());
    assert_eq!(rx.try_recv(), Ok(DemuxCommand::Stop));
    assert!(p.close(&mut e).is_none());
}

#[test]
fn closing_hands_over_what_was_open() {
    let (mut p, mut e, rx) = open(100 * SECOND, Vec::new());
    let session = p.close(&mut e).unwrap();
    assert_eq!(session.info.duration, 100 * SECOND);
    assert_eq!(rx.try_recv(), Ok(DemuxCommand::Stop));
    drop(session);
    assert!(rx.recv().is_err(), "the demuxer sees that the commands have ended");
}

#[test]
fn nothing_waits_for_room() {
    // A command channel without room: the seek comes back at once, and the
    // command that found no room is not in the channel.
    let (tx, rx) = bounded(1);
    let mut p = Player::new();
    let mut e: Engine<u32> = p.fresh_engine(0);
    let started = Started {
        info: info(100 * SECOND, Vec::new()),
        selection: Selection { video: Some(0), audio: None, subtitle: None },
        commands: Outbox::over(tx),
    };
    p.open(&mut e, Ok(started), TrackPreference::default(), 0).unwrap();
    assert_eq!(p.seek(SECOND), Some(SECOND));
    assert_eq!(p.seek(2 * SECOND), Some(2 * SECOND));
    p.close(&mut e);
    assert_eq!(rx.try_iter().collect::<Vec<_>>(), [DemuxCommand::Seek(SECOND)]);
    // The same of events.
    let (mut d, _vr) = demuxer(SECOND);
    let (etx, erx) = bounded(1);
    let mut etx = Outbox::over(etx);
    assert!(d.seeked(1, &mut etx).is_none());
    assert!(matches!(d.seeked(2, &mut etx), Some(Event::Seeked(2))));
    d.end_of_file(&mut etx);
    assert!(d.eof);
    assert!(matches!(erx.try_iter().collect::<Vec<_>>()[..], [Event::Seeked(1)]));
}

#[test]
fn both_ends_of_a_channel_do_what_they_say() {
    let (tx, rx) = bounded(1);
    let mut first = Outbox::over(tx);
    let mut second = first.another();
    assert!(first.offer(1).back().is_none());
    assert!(matches!(second.offer(2), Sent::Full(2)), "the same channel");
    assert_eq!(rx.try_recv(), Ok(1));
    assert!(matches!(second.offer(3), Sent::Delivered));
    drop(rx);
    assert!(matches!(first.offer(4), Sent::Disconnected(4)));
    assert_eq!(first.offer(5).back(), Some(5));
}

fn crosses_threads<T: Send>(_: &T) {}

#[test]
fn the_ends_can_be_given_to_threads() {
    let p = Player::new();
    crosses_threads(&p.events());
    let (tx, rx) = Player::command_channel();
    crosses_threads(&tx);
    crosses_threads(&rx);
    crosses_threads(&demuxer(SECOND).0);
}

#[test]
fn the_commands_of_a_player_reach_its_demuxer() {
    let (commands, mut to_obey) = Player::command_channel();
    let mut p = Player::default();
    let mut e: Engine<u32> = p.fresh_engine(7);
    let c = e.clock;
    assert_eq!((c.audio_pts, c.has_audio, c.paused, c.since, c.base), (0, false, true, 7, 0));
    let started = Started {
        info: info(100 * SECOND, Vec::new()),
        selection: Selection { video: Some(0), audio: None, subtitle: None },
        commands,
    };
    p.open(&mut e, Ok(started), TrackPreference::default(), 0).unwrap();
    p.seek(30 * SECOND);
    let (mut d, _vr) = demuxer(100 * SECOND);
    let step = d.poll(&mut e.shared, &mut e.clock, 0, &mut to_obey);
    assert!(matches!(step, DemuxStep::Seek { target, .. } if target == 30 * SECOND));
    // And what the demuxer says reaches the player.
    let mut events = p.events();
    d.seeked(30 * SECOND, &mut events);
    d.end_of_file(&mut events);
    let said = p.poll_events(&mut e, 0);
    assert!(matches!(said[..], [Event::Opened(_), Event::Seeked(_), Event::EndOfFile]));
    assert_eq!(p.state(), State::Ended);
    p.close(&mut e);
    assert!(!should_offer_again(false, &mut to_obey), "told to stop");
}

#[test]
fn events_come_out_once_and_in_order() {
    let (mut p, mut e, _rx) = open(100 * SECOND, Vec::new());
    let mut one = p.events();
    let mut two = p.events();
    one.offer(Event::Seeked(1));
    two.offer(Event::Seeked(2));
    one.offer(Event::Error("gone".to_string()));
    let events = p.poll_events(&mut e, 0);
    assert!(
        matches!(&events[..], [Event::Opened(_), Event::Seeked(1), Event::Seeked(2), Event::Error(s)] if s == "gone")
    );
    assert!(p.poll_events(&mut e, 0).is_empty());
}

#[test]
fn muting_keeps_the_volume() {
    let mut p = Player::new();
    let mut e: Engine<u32> = p.fresh_engine(0);
    p.set_volume(&mut e, 400_000);
    p.set_muted(&mut e, true);
    assert_eq!((p.volume(), e.shared.volume(), p.is_muted()), (400_000, 0, true));
    assert_eq!(p.fresh_engine::<u32>(0).shared.volume(), 0);
    p.set_muted(&mut e, false);
    assert_eq!(e.shared.volume(), 400_000);
    p.set_muted(&mut e, true);
    p.set_volume(&mut e, 5_000_000);
    assert_eq!((p.volume(), e.shared.volume(), p.is_muted()), (UNITY, UNITY, false));
}

#[test]
fn a_track_change_reopens_where_it_was() {
    let (mut p, mut e, _rx) = open(100 * SECOND, Vec::new());
    p.play(&mut e, 0);
    let later = 9 * SECOND as u64;
    let c = p.set_track(&e, TrackKind::Subtitle, Some(4), later).unwrap();
    assert_eq!(c.path, "/m/film.mkv");
    assert_eq!((c.prefer.audio, c.prefer.subtitle), (Some(1), Some(4)));
    assert_eq!((c.resume, c.play), (Some(9 * SECOND), true));
    let c = p.set_track(&e, TrackKind::Audio, Some(2), SECOND as u64 / 2).unwrap();
    assert_eq!((c.prefer.audio, c.prefer.subtitle, c.resume), (Some(2), None, None));
    assert!(p.set_track(&e, TrackKind::Video, Some(0), 0).is_none());
    p.prefer_track(TrackKind::Audio, Some(2));
    p.prefer_track(TrackKind::Video, Some(9));
    assert_eq!(p.preference(), TrackPreference { audio: Some(2), subtitle: None });
    let wanted = Player::wanted(p.preference());
    assert_eq!((wanted.video, wanted.audio, wanted.subtitle), (None, Some(2), None));
}

#[test]
fn failures_say_which_part_failed() {
    for (part, text) in [
        (Part::VideoDecoder, "video decoder: no"),
        (Part::Audio, "audio: no"),
        (Part::AudioDecoder, "audio decoder: no"),
        (Part::Resampler, "resampler: no"),
        (Part::SubtitleDecoder, "subtitle decoder: no"),
    ] {
        assert!(matches!(failure(part, "no"), Event::Error(m) if m == text));
    }
}

//! The ring, the clock, the device and the visualiser's window.

use owl_player::audio::{devices_to_try, no_device_opened, rank_device, AudioState, Feed};
use owl_player::clock::Clock;
use owl_player::engine::{FrameStep, PacketStep, Shared};
use owl_player::error::Error;
use owl_player::ring::AudioRing;
use owl_player::time::{TimeBase, SECOND};
use owl_player::visualizer::{bit_reversed, Analyzer, Tap, BANDS, WINDOW};

#[test]
fn samples_come_out_in_the_order_they_went_in() {
    let mut r: AudioRing<f32> = AudioRing::new(4, 0.0);
    assert_eq!(r.push(&[1.0, 2.0, 3.0], 0), 3);
    let mut out = [9.0f32; 2];
    assert_eq!(r.pop_into(&mut out), 2);
    assert_eq!(out, [1.0, 2.0]);
    // Round the end of the buffer, and a short write.
    assert_eq!(r.push(&[4.0, 5.0, 6.0, 7.0], 0), 3);
    assert_eq!((r.len(), r.free(), r.capacity()), (4, 0, 4));
    let mut out = [9.0f32; 6];
    assert_eq!(r.pop_into(&mut out), 4);
    assert_eq!(out, [3.0, 4.0, 5.0, 6.0, 0.0, 0.0], "and silence for what is missing");
    assert_eq!(r.consumed(), 6);
    assert!(r.is_empty());
}

#[test]
fn a_reset_drops_what_waits() {
    let mut r: AudioRing<i16> = AudioRing::new(3, -1);
    r.push(&[1, 2], 0);
    r.reset();
    assert!(r.is_empty());
    assert_eq!(r.consumed(), 0);
    let mut out = [0i16; 1];
    assert_eq!(r.pop_into(&mut out), 0);
    assert_eq!(out, [-1]);
}

#[test]
fn a_ring_without_room_takes_nothing() {
    let mut r: AudioRing<u8> = AudioRing::new(0, 7);
    assert_eq!(r.push(&[1, 2], 0), 0);
    let mut out = [0u8; 2];
    assert_eq!(r.pop_into(&mut out), 0);
    assert_eq!(out, [7, 7]);
}

#[test]
fn feeding_waits_when_the_ring_is_full() {
    let mut a: AudioState<u8> = AudioState::new(3, 1, 0);
    let samples = [1, 2, 3, 4, 5];
    assert_eq!(a.feed(&samples, 0, true), Feed::Stop);
    assert_eq!(a.feed(&samples, 0, false), Feed::More { from: 3 });
    assert_eq!(a.feed(&samples, 3, false), Feed::Wait { from: 3 });
    let mut out = [0u8; 2];
    a.ring.pop_into(&mut out);
    assert_eq!(a.feed(&samples, 3, false), Feed::Done);
    assert_eq!(a.feed(&samples, 5, true), Feed::Done);
}

#[test]
fn the_callback_drains_the_ring_and_moves_the_clock() {
    let mut a: AudioState<u8> = AudioState::new(10, 2, 0);
    let mut c = Clock::new(0);
    a.set_anchor(5 * SECOND);
    a.feed(&[1; 20], 0, false);
    let mut out = [9u8; 10];
    a.fill(&mut c, false, &mut out);
    assert_eq!(out, [1; 10]);
    assert_eq!(c.now(0), 5 * SECOND, "the buffer just filled has not been heard yet");
    a.fill(&mut c, false, &mut out);
    assert_eq!(c.now(0), 5 * SECOND + SECOND / 2);
    a.fill(&mut c, true, &mut out);
    assert_eq!(out, [0; 10], "paused is silent at once");
    assert_eq!(c.now(0), 5 * SECOND + SECOND / 2, "and the clock stands");
}

#[test]
fn a_flush_starts_over() {
    let mut a: AudioState<u8> = AudioState::new(10, 1, 0);
    a.feed(&[1; 5], 0, false);
    a.flush_to(3 * SECOND);
    assert!(a.ring.is_empty());
    assert_eq!(a.anchor(), 3 * SECOND);
}

#[test]
fn the_first_packet_after_a_seek_flushes() {
    let mut a: AudioState<u8> = AudioState::new(10, 1, 0);
    a.feed(&[1; 5], 0, false);
    let base = TimeBase { num: 1, den: 10 };
    let mut g = 0;
    assert_eq!(a.take_packet(false, &mut g, 0, 1, Some(20), base, 0), PacketStep::Skip { flush: false });
    assert_eq!(a.ring.len(), 5);
    assert_eq!(a.take_packet(false, &mut g, 1, 1, Some(20), base, 0), PacketStep::Decode { flush: true });
    assert!(a.ring.is_empty());
    assert_eq!(a.anchor(), 2 * SECOND);
    let mut g = 0;
    a.take_packet(false, &mut g, 1, 1, None, base, 77);
    assert_eq!(a.anchor(), 77);
}

#[test]
fn the_first_frame_after_a_flush_sets_the_anchor() {
    let mut a: AudioState<u8> = AudioState::new(10, 1, 0);
    let s: Shared<u8> = Shared::new();
    assert_eq!(a.take_frame(&s, 0, Some(8 * SECOND), 1, 10), FrameStep::Use);
    assert_eq!(a.anchor(), 8 * SECOND);
    a.feed(&[1], 0, false);
    assert_eq!(a.take_frame(&s, 0, Some(9 * SECOND), 1, 10), FrameStep::Use);
    assert_eq!(a.anchor(), 8 * SECOND, "only the first");
    assert_eq!(a.take_frame(&s, 1, Some(0), 1, 10), FrameStep::Leave);
}

#[test]
fn devices_are_ranked() {
    assert_eq!(rank_device("PipeWire Sound Server"), Some(100));
    assert_eq!(rank_device("PulseAudio"), Some(90));
    assert_eq!(rank_device("Default ALSA Output"), Some(50));
    assert_eq!(rank_device("HDA HDMI 0"), Some(10));
    assert_eq!(rank_device("USB DAC"), Some(20));
    assert_eq!(rank_device("NULL"), None);
    assert_eq!(rank_device("Discard all samples (playback)"), None);
}

#[test]
fn the_likeliest_device_is_tried_first() {
    let names: Vec<String> =
        ["hdmi", "usb one", "null", "pipewire", "usb two", "pulse"].iter().map(|s| s.to_string()).collect();
    assert_eq!(devices_to_try(&names).unwrap(), [3, 5, 1, 4, 0]);
    assert!(matches!(devices_to_try(&vec!["null".to_string()]), Err(Error::NoAudioDevice)));
    assert!(matches!(devices_to_try(&Vec::new()), Err(Error::NoAudioDevice)));
    assert!(matches!(no_device_opened(None), Error::NoAudioDevice));
    assert!(matches!(no_device_opened(Some(Error::EngineGone)), Error::EngineGone));
}

#[test]
fn the_clock_pauses_resumes_and_seeks() {
    let mut c = Clock::new(100);
    assert!(c.is_paused());
    assert_eq!(c.now(500), 0);
    c.set_paused(false, 1000);
    assert_eq!(c.now(1500), 500);
    c.set_paused(true, 2000);
    assert_eq!(c.now(9000), 1000);
    c.set_paused(true, 9500);
    c.set_paused(false, 10_000);
    assert_eq!(c.now(10_001), 1001);
    c.set_audio_pts(77);
    assert_eq!(c.now(1), 77, "audio is the master");
    c.reset_to(5, 20_000);
    assert_eq!(c.now(20_002), 7, "until the next seek");
    assert_eq!(c.now(0), 5, "a reading from before counts for nothing");
}

// ── The visualiser ──────────────────────────────────────────────────────

fn mean(s: &[f32], from: usize, to: usize) -> f32 {
    s[from..to].iter().sum::<f32>() / (to - from) as f32
}

#[test]
fn the_tap_keeps_the_latest_window() {
    let mut tap: Tap<f32> = Tap::new(0.0);
    assert!(!tap.is_live());
    tap.push(&[1.0, 3.0, 5.0, 7.0, 9.0], 2, mean);
    assert!(tap.is_live());
    let w = tap.snapshot();
    assert_eq!(w.len(), WINDOW);
    assert_eq!(&w[WINDOW - 3..], &[0.0, 2.0, 6.0], "the broken last frame is dropped");
    let many: Vec<f32> = (0..WINDOW * 2 + 5).map(|i| i as f32).collect();
    tap.push(&many, 0, mean);
    let w = tap.snapshot();
    assert_eq!(w[0], (WINDOW + 5) as f32);
    assert_eq!(w[WINDOW - 1], (WINDOW * 2 + 4) as f32);
    tap.reset();
    assert!(!tap.is_live());
}

#[test]
fn every_band_owns_a_bin() {
    let analyzer = Analyzer::default();
    for band in 0..BANDS {
        assert!(
            analyzer.edges[band + 1] > analyzer.edges[band],
            "band {band} is empty: {}..{}",
            analyzer.edges[band],
            analyzer.edges[band + 1]
        );
    }
}

#[test]
fn band_edges_are_the_logarithmic_ones() {
    let analyzer = Analyzer::default();
    let mut edges = [0usize; BANDS + 1];
    for (i, edge) in edges.iter_mut().enumerate() {
        let t = i as f32 / BANDS as f32;
        *edge = (2.0f32 * 256.0f32.powf(t)).round() as usize;
    }
    for i in 1..=BANDS {
        if edges[i] <= edges[i - 1] {
            edges[i] = edges[i - 1] + 1;
        }
    }
    assert_eq!(analyzer.edges, edges);
    for band in 0..BANDS {
        let (from, to) = analyzer.band(band);
        assert_eq!((from, to), (edges[band], edges[band + 1].min(WINDOW / 2).max(edges[band] + 1)));
    }
}

#[test]
fn bits_are_reversed() {
    assert_eq!(bit_reversed(1), 512);
    assert_eq!(bit_reversed(6), 384);
    for i in 0..WINDOW {
        assert_eq!(bit_reversed(i), (i as u16).reverse_bits() as usize >> 6);
        assert_eq!(bit_reversed(bit_reversed(i)), i);
    }
}

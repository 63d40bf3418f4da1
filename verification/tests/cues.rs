//! Filing cues, showing them, and where they come from.

use owl_player::cues::SubtitleState;
use owl_player::markup::Alignment;
use owl_player::subtitle::{
    bitmap_to_rgba, cue_times, cues_from, reference_size, BitmapRect, DecodedRect, PalettedImage,
    SubtitleContent, SubtitleCue, SubtitleTiming, OPEN_ENDED,
};
use owl_player::time::{TimeBase, MILLISECOND, SECOND};

fn text(start: i64, end: i64, markup: &str) -> SubtitleCue {
    SubtitleCue {
        start: start * SECOND,
        end: end * SECOND,
        content: SubtitleContent::Text { markup: markup.to_string(), alignment: Alignment::Bottom },
    }
}

fn nothing(start: i64) -> SubtitleCue {
    SubtitleCue {
        start: start * SECOND,
        end: (start + 30) * SECOND,
        content: SubtitleContent::Bitmap { rects: Vec::new(), reference: (1920, 1080) },
    }
}

fn shown(cues: &[SubtitleCue]) -> Vec<String> {
    cues.iter()
        .map(|c| match &c.content {
            SubtitleContent::Text { markup, .. } => markup.clone(),
            SubtitleContent::Bitmap { .. } => "bitmap".to_string(),
        })
        .collect()
}

#[test]
fn a_cue_comes_and_goes() {
    let mut s = SubtitleState::default();
    s.push_subtitle(text(1, 3, "a"));
    assert!(s.subtitles_if_changed(0, 0).is_none(), "nothing has changed yet");
    let (g, cues) = s.subtitles_if_changed(SECOND, 0).unwrap();
    assert_eq!(shown(&cues), ["a"]);
    assert!(s.subtitles_if_changed(2 * SECOND, g).is_none(), "asking again changes nothing");
    let (g2, cues) = s.subtitles_if_changed(3 * SECOND, g).unwrap();
    assert_ne!(g, g2);
    assert!(cues.is_empty());
}

#[test]
fn the_next_cue_ends_an_open_one() {
    let mut s = SubtitleState::default();
    s.push_subtitle(text(1, 31, "long"));
    s.push_subtitle(text(5, 35, "next"));
    let (g, cues) = s.subtitles_if_changed(4 * SECOND, 0).unwrap();
    assert_eq!(shown(&cues), ["long"]);
    assert_eq!(cues[0].end, 5 * SECOND);
    let (_, cues) = s.subtitles_if_changed(5 * SECOND, g).unwrap();
    assert_eq!(shown(&cues), ["next"]);
}

#[test]
fn an_empty_cue_clears_what_is_shown() {
    let mut s = SubtitleState::default();
    s.push_subtitle(text(1, 31, "up"));
    let (g, _) = s.subtitles_if_changed(2 * SECOND, 0).unwrap();
    s.push_subtitle(nothing(4));
    // The visible cue was cut short, which the generation tells.
    let (g2, cues) = s.subtitles_if_changed(3 * SECOND, g).unwrap();
    assert_eq!(cues[0].end, 4 * SECOND);
    let (_, cues) = s.subtitles_if_changed(4 * SECOND, g2).unwrap();
    assert!(cues.is_empty());
}

#[test]
fn a_cue_that_is_over_is_never_shown() {
    let mut s = SubtitleState::default();
    s.push_subtitle(text(1, 2, "missed"));
    s.push_subtitle(text(8, 9, "seen"));
    let (_, cues) = s.subtitles_if_changed(8 * SECOND, 7).unwrap();
    assert_eq!(shown(&cues), ["seen"]);
}

#[test]
fn clearing_drops_everything_and_says_so() {
    let mut s = SubtitleState::default();
    s.push_subtitle(text(1, 9, "a"));
    let (g, _) = s.subtitles_if_changed(SECOND, 0).unwrap();
    s.clear_subtitles();
    let (g2, cues) = s.subtitles_if_changed(SECOND, g).unwrap();
    assert_ne!(g, g2);
    assert!(cues.is_empty());
}

#[test]
fn covers_is_half_open() {
    let c = text(1, 2, "x");
    assert!(!c.covers(SECOND - 1));
    assert!(c.covers(SECOND));
    assert!(!c.covers(2 * SECOND));
    assert!(!c.is_empty());
    assert!(nothing(1).is_empty());
    assert!(text(1, 2, "").is_empty());
}

#[test]
fn lines_are_joined_and_images_kept_together() {
    let image = BitmapRect { x: 1, y: 2, width: 1, height: 1, rgba: vec![1, 2, 3, 4] };
    let rects = vec![
        DecodedRect::Ass("0,0,Default,,0,0,0,,One".to_string()),
        DecodedRect::Bitmap(Some(image)),
        DecodedRect::Text(r"{\an8}Two".to_string()),
        DecodedRect::Text("{\\k1}".to_string()),
        DecodedRect::Bitmap(None),
        DecodedRect::Nothing,
    ];
    let cues = cues_from(rects, 5, 6, (720, 576));
    assert_eq!(cues.len(), 2);
    match &cues[0].content {
        SubtitleContent::Bitmap { rects, reference } => {
            assert_eq!(rects.len(), 1);
            assert_eq!(rects[0].rgba, [1, 2, 3, 4]);
            assert_eq!(*reference, (720, 576));
        }
        _ => panic!("images first"),
    }
    match &cues[1].content {
        SubtitleContent::Text { markup, alignment } => {
            assert_eq!(markup, "One\nTwo");
            assert_eq!(*alignment, Alignment::Top);
        }
        _ => panic!("text second"),
    }
}

#[test]
fn joined_lines_stay_nested() {
    let line = |t: &str| DecodedRect::Text(t.to_string());
    let rects = vec![line(r"{\i1}a{\b1}b{\i0}c"), line(r"{\u1}d"), line("<e>")];
    let cues = cues_from(rects, 5, 6, (1, 1));
    match &cues[0].content {
        SubtitleContent::Text { markup, .. } => {
            assert_eq!(markup, "<i>a<b>b</b></i><b>c</b>\n<u>d</u>\n&lt;e&gt;")
        }
        other => panic!("{other:?}"),
    }
}

#[test]
fn no_rectangles_means_clear_the_screen() {
    let cues = cues_from(Vec::new(), 5, 6, (1, 1));
    assert_eq!(cues.len(), 1);
    assert!(cues[0].is_empty());
    // Rectangles that show nothing are something else.
    assert!(cues_from(vec![DecodedRect::Nothing], 5, 6, (1, 1)).is_empty());
}

fn timing() -> SubtitleTiming {
    SubtitleTiming {
        pts: Some(2_000_000),
        packet_pts: Some(99),
        packet_duration: 0,
        display_start: 500,
        display_end: 1500,
    }
}

#[test]
fn cues_are_timed_from_their_placement() {
    let base = TimeBase { num: 1, den: 1000 };
    assert_eq!(cue_times(&timing(), base), (2500 * MILLISECOND, 3500 * MILLISECOND));
    let by_packet = SubtitleTiming { pts: None, packet_pts: Some(4000), ..timing() };
    assert_eq!(cue_times(&by_packet, base), (4500 * MILLISECOND, 5500 * MILLISECOND));
    let nowhere = SubtitleTiming { pts: None, packet_pts: None, ..timing() };
    assert_eq!(cue_times(&nowhere, base), (500 * MILLISECOND, 1500 * MILLISECOND));
}

#[test]
fn an_end_that_is_not_stated_comes_from_the_packet_or_is_open() {
    let base = TimeBase { num: 1, den: 1000 };
    for end in [0, u32::MAX] {
        let on_packet = SubtitleTiming { display_end: end, packet_duration: 1200, ..timing() };
        assert_eq!(cue_times(&on_packet, base), (2500 * MILLISECOND, 3700 * MILLISECOND));
        let open = SubtitleTiming { display_end: end, packet_duration: -1, ..timing() };
        assert_eq!(cue_times(&open, base), (2500 * MILLISECOND, 2500 * MILLISECOND + OPEN_ENDED));
    }
}

#[test]
fn a_reference_size_falls_back_on_the_picture() {
    assert_eq!(reference_size((720, 576), (1920, 1080)), (720, 576));
    assert_eq!(reference_size((720, 0), (1920, 1080)), (1920, 1080));
    assert_eq!(reference_size((0, 0), (1920, 1080)), (1920, 1080));
}

#[test]
fn images_without_pixels_are_dropped() {
    let indices = [0u8, 1];
    let palette = [0xFF_01_02_03u32, 0];
    let image = PalettedImage {
        x: -4,
        y: 6,
        width: 2,
        height: 1,
        stride: 2,
        indices: Some(&indices),
        palette: Some(&palette),
    };
    let r = bitmap_to_rgba(&image).unwrap();
    assert_eq!((r.x, r.y, r.width, r.height), (0, 6, 2, 1));
    assert_eq!(r.rgba, [1, 2, 3, 255, 0, 0, 0, 0]);
    assert!(bitmap_to_rgba(&PalettedImage { width: 0, ..image }).is_none());
    let image = PalettedImage { indices: None, width: 2, x: 0, y: 0, height: 1, stride: 2, palette: Some(&palette) };
    assert!(bitmap_to_rgba(&image).is_none());
    let image = PalettedImage { indices: Some(&indices), stride: 0, ..image };
    assert!(bitmap_to_rgba(&image).is_none());
}

//! Subtitles: markup, palettes and timing.

use owl_player::markup::{ass_dialogue_text, ass_to_markup, Alignment};
use owl_player::subtitle::expand_palette;

#[test]
fn dialogue_text_survives_commas() {
    let line = "Dialogue: 0,0:00:01.00,0:00:03.00,Default,,0,0,0,,Well, yes, and no.";
    assert_eq!(ass_dialogue_text(line), "Well, yes, and no.");
}

#[test]
fn bare_text_is_passed_through() {
    assert_eq!(ass_dialogue_text("just text"), "just text");
}

#[test]
fn ffmpeg_rect_ass_form() {
    let line = "0,0,Default,,0,0,0,,Well, yes, and no.";
    assert_eq!(ass_dialogue_text(line), "Well, yes, and no.");
}

#[test]
fn ffmpeg_rect_ass_form_with_tags() {
    let line = r"1,0,Default,,0,0,0,,{\i1}Italic line{\i0}\NSecond line";
    let (markup, _) = ass_to_markup(ass_dialogue_text(line));
    assert_eq!(markup, "<i>Italic line</i>\nSecond line");
}

#[test]
fn italics_become_markup() {
    let (markup, _) = ass_to_markup(r"{\i1}Hello{\i0} there");
    assert_eq!(markup, "<i>Hello</i> there");
}

#[test]
fn unclosed_tags_are_balanced() {
    let (markup, _) = ass_to_markup(r"{\i1}Hello");
    assert_eq!(markup, "<i>Hello</i>");
}

#[test]
fn line_breaks_and_unknown_tags() {
    let (markup, _) = ass_to_markup(r"{\k42}First\NSecond{\pos(10,20)}");
    assert_eq!(markup, "First\nSecond");
}

#[test]
fn markup_special_characters_are_escaped() {
    let (markup, _) = ass_to_markup("5 < 6 & 7 > 2");
    assert_eq!(markup, "5 &lt; 6 &amp; 7 &gt; 2");
}

#[test]
fn alignment_is_read() {
    assert_eq!(ass_to_markup(r"{\an8}Sign text").1, Alignment::Top);
    assert_eq!(ass_to_markup(r"{\an5}Middle").1, Alignment::Middle);
    assert_eq!(ass_to_markup("Plain").1, Alignment::Bottom);
}

#[test]
fn several_overrides_in_one_group() {
    let (markup, align) = ass_to_markup(r"{\an8\i1}Tilted sign");
    assert_eq!(markup, "<i>Tilted sign</i>");
    assert_eq!(align, Alignment::Top);
}

#[test]
fn palette_expands_to_rgba() {
    // 0xAARRGGBB: opaque red, half-alpha green, fully transparent.
    let palette = [0xFF_FF_00_00u32, 0x80_00_FF_00, 0x00_00_00_FF];
    // Stride is wider than the image: the trailing byte must be ignored.
    let indices = [0u8, 1, 9, /* padding */ 7];
    let rgba = expand_palette(&indices, 4, &palette, 3, 1);
    assert_eq!(&rgba[0..4], &[255, 0, 0, 255], "opaque red");
    assert_eq!(&rgba[4..8], &[0, 255, 0, 128], "half-alpha green");
    // Index 9 is past the end of a 3-entry palette: skipped, not wrapped.
    assert_eq!(&rgba[8..12], &[0, 0, 0, 0], "out-of-range index");
}

#[test]
fn transparent_palette_entries_stay_clear() {
    let palette = [0x00_FF_FF_FFu32];
    let rgba = expand_palette(&[0, 0], 2, &palette, 2, 1);
    assert!(rgba.iter().all(|&b| b == 0), "a transparent entry must not write colour");
}

#[test]
fn stride_padding_is_respected() {
    let palette = [0x00_00_00_00u32, 0xFF_11_22_33];
    // Two rows of width 2 in a stride-3 buffer.
    let indices = [1u8, 0, 0, 0, 1, 0];
    let rgba = expand_palette(&indices, 3, &palette, 2, 2);
    assert_eq!(&rgba[0..4], &[0x11, 0x22, 0x33, 0xFF], "row 0 pixel 0");
    assert_eq!(&rgba[12..16], &[0x11, 0x22, 0x33, 0xFF], "row 1 pixel 1");
}

#[test]
fn truncated_rows_do_not_panic() {
    let palette = [0xFF_FF_FF_FFu32];
    // Claims two rows but only supplies one.
    let rgba = expand_palette(&[0, 0], 2, &palette, 2, 2);
    assert_eq!(rgba.len(), 2 * 2 * 4);
}

#[test]
fn numeric_bold_weight() {
    let (markup, _) = ass_to_markup(r"{\b700}Heavy{\b0}");
    assert_eq!(markup, "<b>Heavy</b>");
}

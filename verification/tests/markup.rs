//! Override tags, in the corners.

use owl_player::markup::{apply_override, ass_dialogue_text, ass_to_markup, Alignment, Style};

fn markup(s: &str) -> String {
    ass_to_markup(s).0
}

#[test]
fn short_dialogue_lines_are_trimmed() {
    assert_eq!(ass_dialogue_text("Dialogue:  only, three, fields "), "only, three, fields");
    assert_eq!(ass_dialogue_text(""), "");
    assert_eq!(ass_dialogue_text("  spaced  "), "spaced");
}

#[test]
fn a_full_line_keeps_the_text_as_it_is() {
    // The text of a complete line is not trimmed.
    assert_eq!(ass_dialogue_text("0,0,Default,,0,0,0,, padded "), " padded ");
}

#[test]
fn escapes_and_backslashes() {
    assert_eq!(markup(r"a\Nb\nc\hd\e"), "a\nb\nc\u{a0}d\\e");
    assert_eq!(markup("trailing\\"), "trailing\\");
}

#[test]
fn an_unclosed_group_swallows_the_rest() {
    assert_eq!(markup(r"seen{\i1 never closed"), "seen");
}

#[test]
fn closing_what_is_not_open_does_nothing() {
    assert_eq!(markup(r"{\i0}plain{\b0}"), "plain");
}

#[test]
fn closers_come_in_reverse_order() {
    assert_eq!(markup(r"{\i1\b1\u1\s1}x"), "<i><b><u><s>x</s></u></b></i>");
}

#[test]
fn overlapping_styles_are_nested() {
    assert_eq!(markup(r"{\i1}{\b1}x{\i0}y{\b0}"), "<i><b>x</b></i><b>y</b>");
    assert_eq!(markup(r"{\i1}a{\b1}b{\i0}c"), "<i>a<b>b</b></i><b>c</b>");
    assert_eq!(
        markup(r"{\i1\b1\u1}x{\i0}y{\b0}z"),
        "<i><b><u>x</u></b></i><b><u>y</u></b><u>z</u>"
    );
    // The most recent of two equal styles is the one that ends.
    assert_eq!(markup(r"{\i1\b1\i1}x{\i0}y"), "<i><b><i>x</i>y</b></i>");
}

#[test]
fn nesting_leaves_the_characters_alone() {
    assert_eq!(
        markup(r"{\i1}<a>{\b1}&amp;\Nb{\i0}\h> c"),
        "<i>&lt;a&gt;<b>&amp;amp;\nb</b></i><b>\u{a0}&gt; c</b>"
    );
    assert_eq!(markup(r"{\i1}a{\b1}b{\b0}c{\i0}d"), "<i>a<b>b</b>c</i>d");
}

#[test]
fn overrides_only_add_and_keep_the_tag_counts() {
    let tags = [('i', Style::Italic), ('b', Style::Bold), ('u', Style::Underline), ('s', Style::Strike)];
    let groups = [r"\i1\b1", r"\i0", r"note\u1\k42\b700", r"\s0\b0\b0\b0", "", r"\an8\i1"];
    let mut out: Vec<char> = "plain ".chars().collect();
    let mut open = Vec::new();
    let mut alignment = Alignment::Bottom;
    for group in groups {
        let before = out.clone();
        let tag: Vec<char> = group.chars().collect();
        apply_override(&tag, &mut out, &mut open, &mut alignment);
        assert!(out.starts_with(&before));
        let text: String = out.iter().collect();
        for (letter, style) in tags {
            let opened = text.matches(&format!("<{letter}>")).count();
            let closed = text.matches(&format!("</{letter}>")).count();
            assert_eq!(opened, closed + open.iter().filter(|s| **s == style).count());
        }
    }
    let text: String = out.iter().collect();
    assert_eq!(text, "plain <i><b></i><u><b></b></b><i>");
    assert_eq!(open, [Style::Underline, Style::Italic]);
    assert_eq!(alignment, Alignment::Top);
}

#[test]
fn legacy_alignment_numbers_differ() {
    assert_eq!(ass_to_markup(r"{\a6}x").1, Alignment::Top);
    assert_eq!(ass_to_markup(r"{\a10}x").1, Alignment::Middle);
    assert_eq!(ass_to_markup(r"{\a2}x").1, Alignment::Bottom);
    assert_eq!(ass_to_markup(r"{\an7}x").1, Alignment::Top);
    assert_eq!(ass_to_markup(r"{\an4}x").1, Alignment::Middle);
    assert_eq!(ass_to_markup(r"{\an1}x").1, Alignment::Bottom);
    // A code that does not parse leaves the alignment alone.
    assert_eq!(ass_to_markup(r"{\an8}{\anx}x").1, Alignment::Top);
}

#[test]
fn weights_at_and_below_400_are_not_bold() {
    assert_eq!(markup(r"{\b400}x"), "x");
    assert_eq!(markup(r"{\b401}x"), "<b>x</b>");
    assert_eq!(markup(r"{\b1}x{\b400}y"), "<b>x</b>y");
}

#[test]
fn markup_is_trimmed() {
    assert_eq!(markup("  \u{a0}x\u{3000} "), "x");
    assert_eq!(markup(" \n "), "");
}

#[test]
fn the_default_alignment_is_the_bottom() {
    assert_eq!(Alignment::default(), Alignment::Bottom);
}

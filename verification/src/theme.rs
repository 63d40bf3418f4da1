//! The look: accent, light or dark, and translucency, as the desktop asks.

use vstd::prelude::*;

use crate::config;
use crate::config::{Appearance, Desktop, ThemeMode};
use crate::render::Rgb;
use crate::text;

verus! {

pub open spec fn hex_digit(c: char) -> bool {
    '0' <= c <= '9' || 'a' <= c <= 'f' || 'A' <= c <= 'F'
}

pub open spec fn hex_value(c: char) -> int {
    if '0' <= c <= '9' {
        c as int - '0' as int
    } else if 'a' <= c <= 'f' {
        c as int - 'a' as int + 10
    } else {
        c as int - 'A' as int + 10
    }
}

/// Whether a text is a colour: a hash and six hexadecimal digits.
pub open spec fn is_colour(s: Seq<char>) -> bool {
    &&& s.len() == 7
    &&& s[0] == '#'
    &&& forall|i: int| 1 <= i < 7 ==> hex_digit(#[trigger] s[i])
}

fn is_hex_digit(c: char) -> (r: bool)
    ensures
        r == hex_digit(c),
{
    (c >= '0' && c <= '9') || (c >= 'a' && c <= 'f') || (c >= 'A' && c <= 'F')
}

pub fn is_hex(s: &str) -> (r: bool)
    ensures
        r == is_colour(s@),
{
    let chars = text::chars_of(s);
    if chars.len() != 7 || chars[0] != '#' {
        return false;
    }
    let mut i: usize = 1;
    while i < 7
        invariant
            1 <= i <= 7,
            chars@ == s@,
            chars@.len() == 7,
            chars@[0] == '#',
            forall|k: int| 1 <= k < i ==> hex_digit(#[trigger] chars@[k]),
        decreases 7 - i,
    {
        if !is_hex_digit(chars[i]) {
            assert(!hex_digit(s@[i as int]));
            return false;
        }
        i = i + 1;
    }
    true
}

/// The accent in force: the desktop's, if it is a colour.
pub open spec fn accent_of(stated: Seq<char>) -> Seq<char> {
    if is_colour(stated) {
        stated
    } else {
        config::default_accent()
    }
}

pub fn accent(appearance: &Appearance) -> (r: &str)
    ensures
        r@ == accent_of(appearance.accent@),
{
    if is_hex(appearance.accent.as_str()) {
        appearance.accent.as_str()
    } else {
        config::default_accent_text()
    }
}

/// One channel of a colour, from the two digits at `from`.
pub open spec fn channel_of(colour: Seq<char>, from: int) -> int {
    hex_value(colour[from]) * 16 + hex_value(colour[from + 1])
}

fn digit_value(c: char) -> (r: u8)
    requires
        hex_digit(c),
    ensures
        r == hex_value(c),
        r < 16,
{
    if c >= '0' && c <= '9' {
        (c as u32 - '0' as u32) as u8
    } else if c >= 'a' && c <= 'f' {
        (c as u32 - 'a' as u32 + 10) as u8
    } else {
        (c as u32 - 'A' as u32 + 10) as u8
    }
}

/// The accent in force as red, green and blue, for the parts of the picture
/// that the stylesheet does not draw.
pub fn accent_rgb(appearance: &Appearance) -> (r: (u8, u8, u8))
    ensures
        ({
            let c = accent_of(appearance.accent@);
            &&& r.0 == channel_of(c, 1)
            &&& r.1 == channel_of(c, 3)
            &&& r.2 == channel_of(c, 5)
        }),
{
    proof {
        the_default_accent_is_a_colour();
    }
    let c = text::chars_of(accent(appearance));
    assert(is_colour(c@));
    (
        digit_value(c[1]) * 16 + digit_value(c[2]),
        digit_value(c[3]) * 16 + digit_value(c[4]),
        digit_value(c[5]) * 16 + digit_value(c[6]),
    )
}

/// The accent that stands in is itself a colour, so there is always one.
pub proof fn the_default_accent_is_a_colour()
    ensures
        is_colour(config::default_accent()),
{
    reveal_strlit("#7AA2F7");
}

/// How the toolkit is told to look.
#[derive(Debug, Clone, Copy, PartialEq, Eq, Structural)]
pub enum Scheme {
    ForceDark,
    ForceLight,
    PreferDark,
}

pub fn colour_scheme(mode: ThemeMode) -> (r: Scheme)
    ensures
        r == match mode {
            ThemeMode::Dark => Scheme::ForceDark,
            ThemeMode::Light => Scheme::ForceLight,
            ThemeMode::Auto => Scheme::PreferDark,
        },
{
    match mode {
        ThemeMode::Dark => Scheme::ForceDark,
        ThemeMode::Light => Scheme::ForceLight,
        ThemeMode::Auto => Scheme::PreferDark,
    }
}

/// Whether the light stylesheet is put over the dark one.
pub open spec fn light_sheet(mode: ThemeMode) -> bool {
    mode is Light
}

/// The rules that go over the base stylesheet: the accent, and the light
/// sheet when it is in force.
pub fn overlay_css(appearance: &Appearance, light: &str) -> (r: String)
    ensures
        r@ == "@define-color accent_bg_color "@ + accent_of(appearance.accent@)
            + ";\n@define-color accent_color "@ + accent_of(appearance.accent@) + ";\n"@ + (
        if light_sheet(appearance.theme_mode) {
            light@
        } else {
            Seq::empty()
        }),
{
    let colour = accent(appearance);
    let mut out = text::chars_of("@define-color accent_bg_color ");
    text::append_str(&mut out, colour);
    text::append_str(&mut out, ";\n@define-color accent_color ");
    text::append_str(&mut out, colour);
    text::append_str(&mut out, ";\n");
    if appearance.theme_mode == ThemeMode::Light {
        text::append_str(&mut out, light);
    }
    assert(out@ =~= "@define-color accent_bg_color "@ + accent_of(appearance.accent@)
        + ";\n@define-color accent_color "@ + accent_of(appearance.accent@) + ";\n"@ + (
    if light_sheet(appearance.theme_mode) {
        light@
    } else {
        Seq::empty()
    }));
    text::string_of(&out)
}

/// The window's background, as the stage should clear to when no film is
/// loaded: that of whichever of the two stylesheets is in force.
pub fn backdrop(mode: ThemeMode) -> (r: Rgb)
    ensures
        r == if light_sheet(mode) {
            Rgb { r: 949, g: 949, b: 969 }
        } else {
            Rgb { r: 90, g: 90, b: 114 }
        },
{
    match mode {
        ThemeMode::Light => Rgb { r: 949, g: 949, b: 969 },
        _ => Rgb { r: 90, g: 90, b: 114 },
    }
}

/// Whether the desktop asked for translucent windows.
pub fn glass(desktop: &Desktop) -> (r: bool)
    ensures
        r == desktop.appearance.transparency,
{
    desktop.appearance.transparency
}

/// A hexadecimal digit counts for what it stands for, in either case, and a
/// channel for its two digits.
pub proof fn digits_count_for_what_they_are(d: int, colour: Seq<char>, from: int)
    requires
        0 <= d < 16,
    ensures
        d < 10 ==> hex_digit(('0' as int + d) as char) && hex_value(('0' as int + d) as char) == d,
        d >= 10 ==> hex_digit(('a' as int + d - 10) as char) && hex_value(
            ('a' as int + d - 10) as char,
        ) == d,
        d >= 10 ==> hex_digit(('A' as int + d - 10) as char) && hex_value(
            ('A' as int + d - 10) as char,
        ) == d,
        is_colour(colour) && 1 <= from < 6 ==> channel_of(colour, from) == 16 * hex_value(
            colour[from],
        ) + hex_value(colour[from + 1]) && 0 <= channel_of(colour, from) <= 255,
{
    if is_colour(colour) && 1 <= from < 6 {
        assert(hex_digit(colour[from]) && hex_digit(colour[from + 1]));
    }
}

/// The desktop's accent is used as it stands if it is a colour, and the light
/// stylesheet only when the desktop is light.
pub proof fn a_stated_accent_is_used(stated: Seq<char>, mode: ThemeMode)
    ensures
        is_colour(accent_of(stated)),
        is_colour(stated) ==> accent_of(stated) == stated,
        light_sheet(mode) <==> mode == ThemeMode::Light,
{
    the_default_accent_is_a_colour();
}

} // verus!

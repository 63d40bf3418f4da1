//! Subtitle text: from an ASS dialogue line to Pango markup.
//!
//! ASS has a large override-tag language and almost none of it appears in
//! ordinary dialogue. The tags that do (italic, bold, underline, strike,
//! line breaks and alignment) are kept; everything else is dropped rather
//! than shown, because a viewer would rather miss a karaoke effect than read
//! `{\k42}` across the bottom of the screen.

use vstd::prelude::*;
use vstd::string::*;

use crate::markup_laws;
use crate::text;

verus! {

// ── Alignment ───────────────────────────────────────────────────────────

/// Where on the picture a cue belongs. Only the vertical part matters:
/// horizontal centring is what essentially all dialogue uses.
#[derive(Debug, Clone, Copy, PartialEq, Eq, Structural)]
pub enum Alignment {
    Bottom,
    Middle,
    Top,
}

impl Default for Alignment {
    fn default() -> (r: Alignment)
        ensures
            r == Alignment::Bottom,
    {
        Alignment::Bottom
    }
}

/// The numeric-keypad convention: 1-3 along the bottom, 4-6 through the
/// middle, 7-9 across the top.
pub open spec fn keypad_alignment(code: int) -> Alignment {
    if 7 <= code <= 9 {
        Alignment::Top
    } else if 4 <= code <= 6 {
        Alignment::Middle
    } else {
        Alignment::Bottom
    }
}

/// The older SSA convention, which numbers its positions differently.
pub open spec fn legacy_alignment(code: int) -> Alignment {
    if 5 <= code <= 7 {
        Alignment::Top
    } else if 9 <= code <= 11 {
        Alignment::Middle
    } else {
        Alignment::Bottom
    }
}

impl Alignment {
    pub fn from_ass(code: u32) -> (r: Alignment)
        ensures
            r == keypad_alignment(code as int),
    {
        if 7 <= code && code <= 9 {
            Alignment::Top
        } else if 4 <= code && code <= 6 {
            Alignment::Middle
        } else {
            Alignment::Bottom
        }
    }

    pub fn from_legacy(code: u32) -> (r: Alignment)
        ensures
            r == legacy_alignment(code as int),
    {
        if 5 <= code && code <= 7 {
            Alignment::Top
        } else if 9 <= code && code <= 11 {
            Alignment::Middle
        } else {
            Alignment::Bottom
        }
    }
}

// ── What the overrides mean ─────────────────────────────────────────────

#[derive(Debug, Clone, Copy, PartialEq, Eq, Structural)]
pub enum Style {
    Italic,
    Bold,
    Underline,
    Strike,
}

/// The letter of a style, the same one in ASS and in Pango.
pub open spec fn style_letter(style: Style) -> char {
    match style {
        Style::Italic => 'i',
        Style::Bold => 'b',
        Style::Underline => 'u',
        Style::Strike => 's',
    }
}

pub open spec fn style_of(letter: char) -> Option<Style> {
    if letter == 'i' {
        Some(Style::Italic)
    } else if letter == 'b' {
        Some(Style::Bold)
    } else if letter == 'u' {
        Some(Style::Underline)
    } else if letter == 's' {
        Some(Style::Strike)
    } else {
        None
    }
}

/// What one override asks for.
#[derive(Debug, Clone, Copy, PartialEq, Eq, Structural)]
pub enum Override {
    Align(Alignment),
    Toggle(Style, bool),
    Ignored,
}

/// The meaning of one override, without its backslash and trimmed.
///
/// A bold weight, as in `\b700`, is bold above 400.
pub open spec fn override_of(part: Seq<char>) -> Override {
    if part.len() >= 2 && part[0] == 'a' && part[1] == 'n' {
        match text::parse_unsigned(part.skip(2), u32::MAX as nat) {
            Some(code) => Override::Align(keypad_alignment(code as int)),
            None => Override::Ignored,
        }
    } else if part.len() >= 1 && part[0] == 'a' {
        match text::parse_unsigned(part.skip(1), u32::MAX as nat) {
            Some(code) => Override::Align(legacy_alignment(code as int)),
            None => Override::Ignored,
        }
    } else if part.len() == 2 && style_of(part[0]) is Some && (part[1] == '0' || part[1] == '1') {
        Override::Toggle(style_of(part[0])->0, part[1] == '1')
    } else if part.len() >= 1 && part[0] == 'b' {
        match text::parse_unsigned(part.skip(1), u32::MAX as nat) {
            Some(weight) => Override::Toggle(Style::Bold, weight > 400),
            None => Override::Ignored,
        }
    } else {
        Override::Ignored
    }
}

// ── Markup as a sequence of pieces ──────────────────────────────────────

/// One piece of markup: a visible character, or a tag.
pub enum Piece {
    Text(char),
    Open(Style),
    Close(Style),
}

/// A visible character as markup, with the special ones escaped.
pub open spec fn escaped(c: char) -> Seq<char> {
    if c == '<' {
        seq!['&', 'l', 't', ';']
    } else if c == '>' {
        seq!['&', 'g', 't', ';']
    } else if c == '&' {
        seq!['&', 'a', 'm', 'p', ';']
    } else {
        seq![c]
    }
}

pub open spec fn piece_text(p: Piece) -> Seq<char> {
    match p {
        Piece::Text(c) => escaped(c),
        Piece::Open(s) => seq!['<', style_letter(s), '>'],
        Piece::Close(s) => seq!['<', '/', style_letter(s), '>'],
    }
}

/// The markup that a sequence of pieces is written as.
pub open spec fn render(pieces: Seq<Piece>) -> Seq<char>
    decreases pieces.len(),
{
    if pieces.len() == 0 {
        Seq::empty()
    } else {
        render(pieces.drop_last()) + piece_text(pieces.last())
    }
}

/// What has been written so far, which styles are still open, outermost
/// first, and where the cue goes.
pub struct Marks {
    pub pieces: Seq<Piece>,
    pub open: Seq<Style>,
    pub alignment: Alignment,
}

/// `open` without the most recent `style`.
pub open spec fn without_last(open: Seq<Style>, style: Style) -> Seq<Style>
    decreases open.len(),
{
    if open.len() == 0 {
        open
    } else if open.last() == style {
        open.drop_last()
    } else {
        without_last(open.drop_last(), style).push(open.last())
    }
}

/// One override takes effect: a style switched on opens a tag, one switched
/// off closes the most recent tag of its kind if there is one.
pub open spec fn apply_one(m: Marks, o: Override) -> Marks {
    match o {
        Override::Align(a) => Marks { alignment: a, ..m },
        Override::Toggle(s, true) => Marks {
            pieces: m.pieces.push(Piece::Open(s)),
            open: m.open.push(s),
            ..m
        },
        Override::Toggle(s, false) => if m.open.contains(s) {
            Marks { pieces: m.pieces.push(Piece::Close(s)), open: without_last(m.open, s), ..m }
        } else {
            m
        },
        Override::Ignored => m,
    }
}

/// Where `c` first stands in `s` at or after `from`; the length if nowhere.
pub open spec fn first_index(s: Seq<char>, c: char, from: int) -> int
    decreases s.len() - from,
{
    if from >= s.len() {
        s.len() as int
    } else if s[from] == c {
        from
    } else {
        first_index(s, c, from + 1)
    }
}

/// A brace group takes effect. It can hold several overrides, each led by a
/// backslash; what stands before the first backslash means nothing.
pub open spec fn apply_group(m: Marks, group: Seq<char>) -> Marks
    decreases group.len(),
{
    let i = first_index(group, '\\', 0);
    if i < 0 || i >= group.len() {
        m
    } else {
        let rest = group.skip(i + 1);
        let j = first_index(rest, '\\', 0);
        if 0 <= j <= rest.len() {
            apply_group(apply_one(m, override_of(text::trim(rest.take(j)))), rest.skip(j))
        } else {
            m
        }
    }
}

/// A visible character is written.
pub open spec fn write_char(m: Marks, c: char) -> Marks {
    Marks { pieces: m.pieces.push(Piece::Text(c)), ..m }
}

/// The whole of an ASS text takes effect, from left to right.
///
/// `\N` and `\n` break the line and `\h` is a space that does not break. A
/// group that is never closed reaches to the end.
pub open spec fn run(m: Marks, s: Seq<char>) -> Marks
    decreases s.len(),
{
    if s.len() == 0 {
        m
    } else if s[0] == '{' {
        let end = first_index(s, '}', 1);
        if 1 <= end < s.len() {
            run(apply_group(m, s.subrange(1, end)), s.skip(end + 1))
        } else {
            apply_group(m, s.skip(1))
        }
    } else if s[0] == '\\' && s.len() > 1 && (s[1] == 'N' || s[1] == 'n') {
        run(write_char(m, '\n'), s.skip(2))
    } else if s[0] == '\\' && s.len() > 1 && s[1] == 'h' {
        run(write_char(m, '\u{a0}'), s.skip(2))
    } else {
        run(write_char(m, s[0]), s.skip(1))
    }
}

pub open spec fn blank() -> Marks {
    Marks { pieces: Seq::empty(), open: Seq::empty(), alignment: Alignment::Bottom }
}

/// The tags that close what is open, innermost first.
pub open spec fn closers(open: Seq<Style>) -> Seq<Piece>
    decreases open.len(),
{
    if open.len() == 0 {
        Seq::empty()
    } else {
        seq![Piece::Close(open.last())] + closers(open.drop_last())
    }
}

/// The pieces of a finished cue: what was written, and then a closing tag
/// for every style still open.
pub open spec fn pieces_of(s: Seq<char>) -> Seq<Piece> {
    run(blank(), s).pieces + closers(run(blank(), s).open)
}

// ── Nesting the tags ────────────────────────────────────────────────────

/// The styles in force after the pieces, outermost first. A closing tag ends
/// the most recent style of its kind, wherever it stands.
pub open spec fn open_after(p: Seq<Piece>) -> Seq<Style>
    decreases p.len(),
{
    if p.len() == 0 {
        Seq::empty()
    } else {
        let open = open_after(p.drop_last());
        match p.last() {
            Piece::Text(_) => open,
            Piece::Open(s) => open.push(s),
            Piece::Close(s) => without_last(open, s),
        }
    }
}

/// The styles of `open` that lie inside its most recent `style`.
pub open spec fn inside(open: Seq<Style>, style: Style) -> Seq<Style>
    decreases open.len(),
{
    if open.len() == 0 || open.last() == style {
        Seq::empty()
    } else {
        inside(open.drop_last(), style).push(open.last())
    }
}

/// The tags that open the styles, outermost first.
pub open spec fn openers(open: Seq<Style>) -> Seq<Piece>
    decreases open.len(),
{
    if open.len() == 0 {
        Seq::empty()
    } else {
        openers(open.drop_last()).push(Piece::Open(open.last()))
    }
}

/// The tags that end the most recent `style`: what lies inside it is closed
/// first, and opened again afterwards.
pub open spec fn closing(open: Seq<Style>, style: Style) -> Seq<Piece> {
    if open.contains(style) {
        closers(inside(open, style)).push(Piece::Close(style)) + openers(inside(open, style))
    } else {
        Seq::empty()
    }
}

/// The same text in the same styles, with tags that never cross: markup has
/// to nest, and ASS switches its styles on and off in any order.
pub open spec fn nested(p: Seq<Piece>) -> Seq<Piece>
    decreases p.len(),
{
    if p.len() == 0 {
        Seq::empty()
    } else {
        match p.last() {
            Piece::Close(s) => nested(p.drop_last()) + closing(open_after(p.drop_last()), s),
            _ => nested(p.drop_last()).push(p.last()),
        }
    }
}

/// The markup of an ASS text.
pub open spec fn markup_of(s: Seq<char>) -> Seq<char> {
    text::trim(render(nested(pieces_of(s))))
}

/// The placement of an ASS text: the last alignment it names.
pub open spec fn alignment_of(s: Seq<char>) -> Alignment {
    run(blank(), s).alignment
}

pub(crate) proof fn render_concat(a: Seq<Piece>, b: Seq<Piece>)
    ensures
        render(a + b) == render(a) + render(b),
    decreases b.len(),
{
    if b.len() == 0 {
        assert(a + b =~= a);
        assert(render(b) =~= Seq::<char>::empty());
        assert(render(a) + render(b) =~= render(a));
    } else {
        render_concat(a, b.drop_last());
        assert((a + b).drop_last() =~= a + b.drop_last());
        assert(render(a + b) =~= render(a) + render(b));
    }
}

pub(crate) proof fn render_push(a: Seq<Piece>, p: Piece)
    ensures
        render(a.push(p)) == render(a) + piece_text(p),
{
    assert(a.push(p).drop_last() =~= a);
}

proof fn write_char_renders(m: Marks, c: char)
    ensures
        render(write_char(m, c).pieces) == render(m.pieces) + escaped(c),
        write_char(m, c).open == m.open,
        write_char(m, c).alignment == m.alignment,
{
    render_push(m.pieces, Piece::Text(c));
}

pub(crate) proof fn first_index_bounds(s: Seq<char>, c: char, from: int)
    requires
        0 <= from <= s.len(),
    ensures
        from <= first_index(s, c, from) <= s.len(),
        first_index(s, c, from) < s.len() ==> s[first_index(s, c, from)] == c,
        forall|k: int| from <= k < first_index(s, c, from) ==> s[k] != c,
    decreases s.len() - from,
{
    if from < s.len() && s[from] != c {
        first_index_bounds(s, c, from + 1);
    }
}

// ── Carrying it out ─────────────────────────────────────────────────────

/// Where `c` first stands in `chars` at or after `from`.
pub fn find_char(chars: &[char], c: char, from: usize) -> (r: usize)
    requires
        from <= chars@.len(),
    ensures
        r == first_index(chars@, c, from as int),
        from <= r <= chars@.len(),
{
    let mut i: usize = from;
    while i < chars.len() && chars[i] != c
        invariant
            from <= i <= chars@.len(),
            first_index(chars@, c, from as int) == first_index(chars@, c, i as int),
        decreases chars@.len() - i,
    {
        i = i + 1;
    }
    i
}

fn read_style(letter: char) -> (r: Option<Style>)
    ensures
        r == style_of(letter),
{
    if letter == 'i' {
        Some(Style::Italic)
    } else if letter == 'b' {
        Some(Style::Bold)
    } else if letter == 'u' {
        Some(Style::Underline)
    } else if letter == 's' {
        Some(Style::Strike)
    } else {
        None
    }
}

fn letter_of(style: Style) -> (r: char)
    ensures
        r == style_letter(style),
{
    match style {
        Style::Italic => 'i',
        Style::Bold => 'b',
        Style::Underline => 'u',
        Style::Strike => 's',
    }
}

/// Reads one override.
pub fn read_override(part: &[char]) -> (r: Override)
    ensures
        r == override_of(part@),
{
    let n: usize = part.len();
    if n >= 2 && part[0] == 'a' && part[1] == 'n' {
        let rest = text::slice_of(part, 2, n);
        assert(rest@ =~= part@.skip(2));
        return match text::parse_u32(&rest) {
            Some(code) => Override::Align(Alignment::from_ass(code)),
            None => Override::Ignored,
        };
    }
    if n >= 1 && part[0] == 'a' {
        let rest = text::slice_of(part, 1, n);
        assert(rest@ =~= part@.skip(1));
        return match text::parse_u32(&rest) {
            Some(code) => Override::Align(Alignment::from_legacy(code)),
            None => Override::Ignored,
        };
    }
    if n == 2 && (part[1] == '0' || part[1] == '1') {
        if let Some(style) = read_style(part[0]) {
            return Override::Toggle(style, part[1] == '1');
        }
    }
    if n >= 1 && part[0] == 'b' {
        let rest = text::slice_of(part, 1, n);
        assert(rest@ =~= part@.skip(1));
        return match text::parse_u32(&rest) {
            Some(weight) => Override::Toggle(Style::Bold, weight > 400),
            None => Override::Ignored,
        };
    }
    Override::Ignored
}

fn write_tag(out: &mut Vec<char>, style: Style, closing: bool)
    ensures
        final(out)@ == old(out)@ + piece_text(
            if closing {
                Piece::Close(style)
            } else {
                Piece::Open(style)
            },
        ),
{
    let ghost before = out@;
    out.push('<');
    if closing {
        out.push('/');
    }
    out.push(letter_of(style));
    out.push('>');
    assert(out@ =~= before + piece_text(
        if closing {
            Piece::Close(style)
        } else {
            Piece::Open(style)
        },
    ));
}

/// Where the most recent `style` stands in `open`.
fn last_place(open: &Vec<Style>, style: Style) -> (r: Option<usize>)
    ensures
        match r {
            Some(i) => i < open@.len() && open@[i as int] == style && forall|k: int|
                i < k < open@.len() ==> open@[k] != style,
            None => !open@.contains(style),
        },
{
    let n: usize = open.len();
    let mut i: usize = n;
    while i > 0
        invariant
            i <= n == open@.len(),
            forall|k: int| i <= k < n ==> open@[k] != style,
        decreases i,
    {
        if open[i - 1] == style {
            return Some(i - 1);
        }
        i = i - 1;
    }
    None
}

/// Removes the most recent `style`; false when there is none.
fn remove_last(open: &mut Vec<Style>, style: Style) -> (r: bool)
    ensures
        r == old(open)@.contains(style),
        r ==> final(open)@ == without_last(old(open)@, style),
        !r ==> final(open)@ == old(open)@,
{
    match last_place(open, style) {
        Some(i) => {
            proof {
                without_last_at(open@, style, i as int);
            }
            let _removed = open.remove(i);
            true
        },
        None => false,
    }
}

proof fn without_last_at(open: Seq<Style>, style: Style, i: int)
    requires
        0 <= i < open.len(),
        open[i] == style,
        forall|k: int| i < k < open.len() ==> open[k] != style,
    ensures
        without_last(open, style) == open.remove(i),
    decreases open.len(),
{
    if i == open.len() - 1 {
        assert(open.remove(i) =~= open.drop_last());
    } else {
        without_last_at(open.drop_last(), style, i);
        assert(open.remove(i) =~= open.drop_last().remove(i).push(open.last()));
    }
}

/// Applies the overrides of one brace group, given without its braces.
pub fn apply_override(
    tag: &[char],
    out: &mut Vec<char>,
    open: &mut Vec<Style>,
    alignment: &mut Alignment,
)
    ensures
        ({
            let before = Marks {
                pieces: Seq::empty(),
                open: old(open)@,
                alignment: *old(alignment),
            };
            let after = apply_group(before, tag@);
            &&& final(out)@ == old(out)@ + render(after.pieces)
            &&& final(open)@ == after.open
            &&& *final(alignment) == after.alignment
        }),
        old(out)@.is_prefix_of(final(out)@),
        markup_laws::counts_match(old(out)@, old(open)@) ==> markup_laws::counts_match(
            final(out)@,
            final(open)@,
        ),
{
    let ghost m0 = Marks { pieces: Seq::<Piece>::empty(), open: open@, alignment: *alignment };
    let ghost out0 = out@;
    let ghost mut m = m0;
    let mut at: usize = 0;
    assert(tag@.skip(0) =~= tag@);
    assert(out@ =~= out0 + render(m.pieces));
    loop
        invariant
            at <= tag@.len(),
            apply_group(m0, tag@) == apply_group(m, tag@.skip(at as int)),
            out@ == out0 + render(m.pieces),
            open@ == m.open,
            *alignment == m.alignment,
        ensures
            apply_group(m0, tag@) == m,
            out@ == out0 + render(m.pieces),
            open@ == m.open,
            *alignment == m.alignment,
        decreases tag@.len() - at,
    {
        let i: usize = find_char(tag, '\\', at);
        proof {
            first_index_skip(tag@, '\\', at as int, at as int);
        }
        if i >= tag.len() {
            break;
        }
        let j: usize = find_char(tag, '\\', i + 1);
        let raw = text::slice_of(tag, i + 1, j);
        let part = text::trimmed(&raw);
        let ghost rest = tag@.skip(i + 1);
        proof {
            first_index_skip(tag@, '\\', i + 1, i + 1);
            assert(tag@.skip(at as int).skip(i - at + 1) =~= rest);
            assert(raw@ =~= rest.take(j - (i + 1)));
            assert(rest.skip(j - (i + 1)) =~= tag@.skip(j as int));
        }
        let ghost before = m;
        let o = read_override(&part);
        proof {
            m = apply_one(m, o);
        }
        match o {
            Override::Align(a) => {
                *alignment = a;
            },
            Override::Toggle(style, on) => {
                if on {
                    write_tag(out, style, false);
                    open.push(style);
                    proof {
                        render_push(before.pieces, Piece::Open(style));
                        assert(out@ =~= out0 + render(m.pieces));
                    }
                } else if remove_last(open, style) {
                    write_tag(out, style, true);
                    proof {
                        render_push(before.pieces, Piece::Close(style));
                        assert(out@ =~= out0 + render(m.pieces));
                    }
                }
            },
            Override::Ignored => {},
        }
        at = j;
    }
    proof {
        if markup_laws::counts_match(out0, m0.open) {
            markup_laws::overrides_keep_the_counts(out0, m0.open, m0.alignment, tag@);
        }
    }
}

proof fn first_index_skip(s: Seq<char>, c: char, from: int, k: int)
    requires
        0 <= k <= from <= s.len(),
    ensures
        first_index(s.skip(k), c, from - k) == first_index(s, c, from) - k,
    decreases s.len() - from,
{
    if from < s.len() && s[from] != c {
        first_index_skip(s, c, from + 1, k);
    }
}

fn write_escaped(out: &mut Vec<char>, c: char)
    ensures
        final(out)@ == old(out)@ + escaped(c),
{
    let ghost before = out@;
    if c == '<' {
        out.push('&');
        out.push('l');
        out.push('t');
        out.push(';');
    } else if c == '>' {
        out.push('&');
        out.push('g');
        out.push('t');
        out.push(';');
    } else if c == '&' {
        out.push('&');
        out.push('a');
        out.push('m');
        out.push('p');
        out.push(';');
    } else {
        out.push(c);
    }
    assert(out@ =~= before + escaped(c));
}

proof fn inside_at(open: Seq<Style>, style: Style, i: int)
    requires
        0 <= i < open.len(),
        open[i] == style,
        forall|k: int| i < k < open.len() ==> open[k] != style,
    ensures
        inside(open, style) == open.skip(i + 1),
    decreases open.len(),
{
    if i == open.len() - 1 {
        assert(open.skip(i + 1) =~= Seq::<Style>::empty());
    } else {
        inside_at(open.drop_last(), style, i);
        assert(open.skip(i + 1) =~= open.drop_last().skip(i + 1).push(open.last()));
    }
}

/// Writes the tags that end the most recent `style`.
fn close_style(out: &mut Vec<char>, open: &mut Vec<Style>, style: Style)
    ensures
        final(out)@ == old(out)@ + render(closing(old(open)@, style)),
        final(open)@ == without_last(old(open)@, style),
{
    let ghost start = out@;
    let ghost all = open@;
    let n: usize = open.len();
    let i: usize = match last_place(open, style) {
        Some(i) => i,
        None => {
            proof {
                without_last_of_none(all, style);
                assert(out@ =~= start + render(closing(all, style)));
            }
            return ;
        },
    };
    let ghost inner = all.skip(i + 1);
    let ghost mut done = Seq::<Piece>::empty();
    let mut j: usize = n;
    assert(all.subrange(i + 1, n as int) =~= inner);
    assert(done + closers(inner) =~= closers(inner));
    assert(out@ =~= start + render(done));
    while j > i + 1
        invariant
            i < j <= n == all.len(),
            open@ == all,
            out@ == start + render(done),
            closers(inner) == done + closers(all.subrange(i + 1, j as int)),
        decreases j,
    {
        let ghost left = all.subrange(i + 1, j as int);
        write_tag(out, open[j - 1], true);
        proof {
            let p = Piece::Close(left.last());
            assert(left.drop_last() =~= all.subrange(i + 1, j - 1));
            render_push(done, p);
            assert(out@ =~= start + render(done.push(p)));
            assert(done.push(p) + closers(left.drop_last()) =~= done + closers(left));
            done = done.push(p);
        }
        j = j - 1;
    }
    proof {
        assert(all.subrange(i + 1, j as int) =~= Seq::<Style>::empty());
        assert(done + closers(Seq::<Style>::empty()) =~= done);
        render_push(done, Piece::Close(style));
    }
    write_tag(out, style, true);
    let ghost shut = done.push(Piece::Close(style));
    let ghost mut more = Seq::<Piece>::empty();
    proof {
        assert(shut + more =~= shut);
        assert(out@ =~= start + render(shut + more));
    }
    while j < n
        invariant
            i < j <= n == all.len(),
            open@ == all,
            more == openers(all.subrange(i + 1, j as int)),
            out@ == start + render(shut + more),
        decreases n - j,
    {
        write_tag(out, open[j], false);
        proof {
            let p = Piece::Open(all[j as int]);
            let longer = all.subrange(i + 1, j + 1);
            assert(longer.drop_last() =~= all.subrange(i + 1, j as int));
            render_push(shut + more, p);
            assert((shut + more).push(p) =~= shut + more.push(p));
            assert(out@ =~= start + render(shut + more.push(p)));
            more = more.push(p);
        }
        j = j + 1;
    }
    proof {
        assert(all.subrange(i + 1, n as int) =~= inner);
        inside_at(all, style, i as int);
        without_last_at(all, style, i as int);
        assert(all[i as int] == style);
    }
    let _removed = open.remove(i);
}

pub(crate) proof fn without_last_of_none(open: Seq<Style>, style: Style)
    requires
        !open.contains(style),
    ensures
        without_last(open, style) == open,
    decreases open.len(),
{
    if open.len() > 0 {
        let init = open.drop_last();
        assert forall|k: int| 0 <= k < init.len() implies init[k] != style by {
            assert(open[k] != style);
        }
        without_last_of_none(init, style);
        assert(open[open.len() - 1] != style);
        assert(init.push(open.last()) =~= open);
    }
}

/// Writes the markup again, with its tags nested.
fn nest_tags(markup: &[char]) -> (r: Vec<char>)
    requires
        markup_laws::read_markup(markup@) is Some,
    ensures
        r@ == render(nested(markup_laws::read_markup(markup@)->0)),
{
    let n: usize = markup.len();
    let ghost all = markup_laws::read_markup(markup@)->0;
    let ghost mut k: int = 0;
    let mut out: Vec<char> = Vec::new();
    let mut open: Vec<Style> = Vec::new();
    let mut at: usize = 0;
    proof {
        assert(markup@.skip(0) =~= markup@);
        assert(all.skip(0) =~= all);
        assert(all.take(0) =~= Seq::<Piece>::empty());
    }
    while at < n
        invariant
            at <= n == markup@.len(),
            0 <= k <= all.len(),
            markup_laws::read_markup(markup@.skip(at as int)) == Some(all.skip(k)),
            out@ == render(nested(all.take(k))),
            open@ == open_after(all.take(k)),
        decreases n - at,
    {
        let ghost rest = markup@.skip(at as int);
        let c: char = markup[at];
        let ghost before = all.take(k);
        let ghost from = at as int;
        proof {
            assert(rest[0] == c);
            markup_laws::reading_starts(rest);
            assert(all.skip(k)[0] == all[k]);
            assert(all.skip(k).drop_first() =~= all.skip(k + 1));
            assert(all.take(k + 1) =~= before.push(all[k]));
            assert(before.push(all[k]).drop_last() =~= before);
        }
        if c == '<' {
            assert(rest[1] == markup@[at + 1]);
            if markup[at + 1] == '/' {
                assert(style_of('/') is None);
                assert(rest[2] == markup@[at + 2]);
                let style = read_style(markup[at + 2]);
                assert(style is Some);
                if let Some(style) = style {
                    proof {
                        assert(all[k] == Piece::Close(style));
                        render_concat(nested(before), closing(open@, style));
                    }
                    close_style(&mut out, &mut open, style);
                }
                at = at + 4;
            } else {
                let style = read_style(markup[at + 1]);
                assert(style is Some);
                if let Some(style) = style {
                    proof {
                        assert(all[k] == Piece::Open(style));
                        render_push(nested(before), Piece::Open(style));
                    }
                    write_tag(&mut out, style, false);
                    open.push(style);
                }
                at = at + 3;
            }
        } else if c == '&' {
            proof {
                assert(rest.len() >= 2);
                assert(rest[1] == markup@[at + 1]);
            }
            let (shown, len): (char, usize) = if markup[at + 1] == 'l' {
                ('<', 4)
            } else if markup[at + 1] == 'g' {
                ('>', 4)
            } else {
                ('&', 5)
            };
            proof {
                assert(all[k] == Piece::Text(shown));
                render_push(nested(before), Piece::Text(shown));
            }
            write_escaped(&mut out, shown);
            at = at + len;
        } else {
            proof {
                assert(all[k] == Piece::Text(c));
                render_push(nested(before), Piece::Text(c));
            }
            write_escaped(&mut out, c);
            at = at + 1;
        }
        proof {
            assert(rest.skip(at - from) =~= markup@.skip(at as int));
            k = k + 1;
        }
    }
    assert(markup@.skip(at as int).len() == 0);
    assert(all.take(k) =~= all);
    out
}

/// Converts an ASS text field into Pango markup, and reads where it goes.
pub fn ass_to_markup(s: &str) -> (r: (String, Alignment))
    ensures
        r.0@ == markup_of(s@),
        markup_laws::read_markup(r.0@) matches Some(p) && markup_laws::nesting(p) == Some(
            Seq::<Style>::empty(),
        ),
        r.1 == alignment_of(s@),
{
    let chars = text::chars_of(s);
    let n: usize = chars.len();
    let mut out: Vec<char> = Vec::new();
    let mut open: Vec<Style> = Vec::new();
    let mut alignment = Alignment::Bottom;
    let mut at: usize = 0;
    let ghost mut m = blank();
    assert(chars@.skip(0) =~= chars@);
    assert(out@ =~= render(m.pieces));
    while at < n
        invariant
            at <= n == chars@.len(),
            run(blank(), chars@) == run(m, chars@.skip(at as int)),
            out@ == render(m.pieces),
            open@ == m.open,
            alignment == m.alignment,
        decreases n - at,
    {
        let ghost rest = chars@.skip(at as int);
        let ghost before = m;
        let c: char = chars[at];
        assert(rest[0] == c);
        if c == '{' {
            let end: usize = find_char(&chars, '}', at + 1);
            let tag = text::slice_of(&chars, at + 1, end);
            let ghost local = Marks { pieces: Seq::empty(), open: open@, alignment: alignment };
            apply_override(&tag, &mut out, &mut open, &mut alignment);
            proof {
                first_index_skip(chars@, '}', at + 1, at as int);
                apply_group_prefix(m, local, tag@);
                m = apply_group(m, tag@);
                render_concat(before.pieces, apply_group(local, tag@).pieces);
                assert(out@ == render(m.pieces));
                if end < n {
                    assert(rest.subrange(1, end - at) =~= tag@);
                    assert(rest.skip(end - at + 1) =~= chars@.skip(end + 1));
                } else {
                    assert(rest.skip(1) =~= tag@);
                }
            }
            if end < n {
                at = end + 1;
            } else {
                assert(chars@.skip(n as int).len() == 0);
                at = n;
            }
        } else if c == '\\' && at + 1 < n && (chars[at + 1] == 'N' || chars[at + 1] == 'n') {
            assert(rest[1] == chars@[at + 1]);
            out.push('\n');
            proof {
                write_char_renders(m, '\n');
                m = write_char(m, '\n');
                assert(out@ =~= render(m.pieces));
                assert(rest.skip(2) =~= chars@.skip(at + 2));
            }
            at = at + 2;
        } else if c == '\\' && at + 1 < n && chars[at + 1] == 'h' {
            assert(rest[1] == chars@[at + 1]);
            out.push('\u{a0}');
            proof {
                write_char_renders(m, '\u{a0}');
                m = write_char(m, '\u{a0}');
                assert(out@ =~= render(m.pieces));
                assert(rest.skip(2) =~= chars@.skip(at + 2));
            }
            at = at + 2;
        } else {
            write_escaped(&mut out, c);
            proof {
                if rest.len() > 1 {
                    assert(rest[1] == chars@[at + 1]);
                }
                write_char_renders(m, c);
                m = write_char(m, c);
                assert(rest.skip(1) =~= chars@.skip(at + 1));
            }
            at = at + 1;
        }
    }
    let ghost written = m.pieces;
    proof {
        assert(chars@.skip(n as int).len() == 0);
        assert(m == run(blank(), chars@));
        assert(written + closers(m.open) =~= written + Seq::<Piece>::empty() + closers(m.open));
    }
    let ghost mut done = Seq::<Piece>::empty();
    assert(out@ =~= render(written + done)) by {
        assert(written + done =~= written);
    }
    while open.len() > 0
        invariant
            out@ == render(written + done),
            closers(m.open) == done + closers(open@),
        decreases open@.len(),
    {
        let ghost was = open@;
        if let Some(style) = open.pop() {
            write_tag(&mut out, style, true);
            proof {
                let more = done.push(Piece::Close(style));
                assert((written + more).drop_last() =~= written + done);
                assert(more + closers(open@) =~= done + closers(was));
                done = more;
            }
        }
    }
    proof {
        assert(done + closers(open@) =~= done);
        markup_laws::rendering_reads_back(pieces_of(s@));
        markup_laws::markup_nests(s@);
    }
    let neat = nest_tags(&out);
    let trimmed = text::trimmed(&neat);
    (text::string_of(&trimmed), alignment)
}

/// What a group writes does not depend on what was written before it.
proof fn apply_group_prefix(m: Marks, local: Marks, group: Seq<char>)
    requires
        m.open == local.open,
        m.alignment == local.alignment,
    ensures
        ({
            let a = apply_group(m, group);
            let b = apply_group(local, group);
            &&& a.open == b.open
            &&& a.alignment == b.alignment
            &&& local.pieces.len() == 0 ==> a.pieces == m.pieces + b.pieces
            &&& exists|tail: Seq<Piece>|
                a.pieces == #[trigger] (m.pieces + tail) && b.pieces == local.pieces + tail
        }),
    decreases group.len(),
{
    let i = first_index(group, '\\', 0);
    let none = Seq::<Piece>::empty();
    assert(m.pieces + none =~= m.pieces);
    assert(local.pieces + none =~= local.pieces);
    if 0 <= i < group.len() {
        let rest = group.skip(i + 1);
        let j = first_index(rest, '\\', 0);
        if 0 <= j <= rest.len() {
            let o = override_of(text::trim(rest.take(j)));
            let m1 = apply_one(m, o);
            let l1 = apply_one(local, o);
            apply_group_prefix(m1, l1, rest.skip(j));
            let a = apply_group(m, group);
            let b = apply_group(local, group);
            let tail = choose|tail: Seq<Piece>|
                a.pieces == #[trigger] (m1.pieces + tail) && b.pieces == l1.pieces + tail;
            let step = if m1.pieces.len() == m.pieces.len() {
                none
            } else {
                seq![m1.pieces.last()]
            };
            assert(m1.pieces =~= m.pieces + step);
            assert(l1.pieces =~= local.pieces + step);
            assert(a.pieces =~= m.pieces + (step + tail));
            assert(b.pieces =~= local.pieces + (step + tail));
        }
    }
    let tail = choose|tail: Seq<Piece>|
        apply_group(m, group).pieces == #[trigger] (m.pieces + tail) && apply_group(
            local,
            group,
        ).pieces == local.pieces + tail;
    if local.pieces.len() == 0 {
        assert(local.pieces + tail =~= tail);
    }
}

// ── The dialogue line ───────────────────────────────────────────────────

/// What follows the first `n` commas of `s`, if it has that many.
pub open spec fn after_commas(s: Seq<char>, n: nat) -> Option<Seq<char>>
    decreases n,
{
    let i = first_index(s, ',', 0);
    if n == 0 {
        Some(s)
    } else if i >= s.len() {
        None
    } else {
        after_commas(s.skip(i + 1), (n - 1) as nat)
    }
}

/// The text field of a dialogue line. A line from a file starts with
/// `Dialogue:` and has nine fields before the text; what a decoder hands over
/// has eight. With fewer fields it is plain text, and shown trimmed.
pub open spec fn dialogue_text(line: Seq<char>) -> Seq<char> {
    let from_file = text::has_prefix(line, "Dialogue:"@);
    let rest = if from_file {
        line.skip("Dialogue:"@.len() as int)
    } else {
        line
    };
    let fields: nat = if from_file {
        9
    } else {
        8
    };
    match after_commas(rest, fields) {
        Some(t) => t,
        None => text::trim(rest),
    }
}

/// Pulls the text field out of an ASS dialogue line. The text may itself
/// contain commas, which is why separators are counted.
pub fn ass_dialogue_text(line: &str) -> (r: &str)
    ensures
        r@ == dialogue_text(line@),
{
    let chars = text::chars_of(line);
    let n: usize = chars.len();
    proof {
        reveal_strlit("Dialogue:");
    }
    let from_file: bool = text::starts_with(&chars, "Dialogue:");
    let start: usize = if from_file {
        9
    } else {
        0
    };
    let fields: usize = if from_file {
        9
    } else {
        8
    };
    let ghost rest = chars@.skip(start as int);
    assert(!from_file ==> rest =~= chars@);
    let mut at: usize = start;
    let mut seen: usize = 0;
    while seen < fields
        invariant
            start <= at <= n == chars@.len(),
            seen <= fields,
            rest == chars@.skip(start as int),
            chars@ == line@,
            after_commas(rest, fields as nat) == after_commas(
                chars@.skip(at as int),
                (fields - seen) as nat,
            ),
            dialogue_text(line@) == match after_commas(rest, fields as nat) {
                Some(t) => t,
                None => text::trim(rest),
            },
        decreases fields - seen,
    {
        let i: usize = find_char(&chars, ',', at);
        proof {
            first_index_skip(chars@, ',', at as int, at as int);
        }
        if i >= n {
            let plain = text::slice_of(&chars, start, n);
            assert(plain@ =~= rest);
            let (a, b) = text::trim_bounds(&plain);
            assert(plain@.subrange(a as int, b as int) =~= chars@.subrange(
                start + a,
                start + b,
            ));
            return line.substring_char(start + a, start + b);
        }
        assert(chars@.skip(at as int).skip(i - at + 1) =~= chars@.skip(i + 1));
        at = i + 1;
        seen = seen + 1;
    }
    assert(chars@.skip(at as int) =~= chars@.subrange(at as int, n as int));
    line.substring_char(at, n)
}

} // verus!

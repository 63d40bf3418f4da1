//! What holds of every piece of subtitle markup: it can be read back, its tags
//! nest, and every character stands in the styles that the text gives it.

use vstd::prelude::*;

use crate::markup;
use crate::markup::{Alignment, Marks, Override, Piece, Style};
use crate::text;

verus! {

// ── Reading markup back ─────────────────────────────────────────────────

/// The pieces that a text consists of when it is read as markup; `None` when
/// it holds an unescaped special character or an unknown tag or entity.
pub open spec fn read_markup(s: Seq<char>) -> Option<Seq<Piece>>
    decreases s.len(),
{
    if s.len() == 0 {
        Some(Seq::empty())
    } else if s[0] == '<' {
        if s.len() >= 4 && s[1] == '/' && markup::style_of(s[2]) is Some && s[3] == '>' {
            followed(Piece::Close(markup::style_of(s[2])->0), read_markup(s.skip(4)))
        } else if s.len() >= 3 && markup::style_of(s[1]) is Some && s[2] == '>' {
            followed(Piece::Open(markup::style_of(s[1])->0), read_markup(s.skip(3)))
        } else {
            None
        }
    } else if s[0] == '&' {
        if text::has_prefix(s, markup::escaped('<')) {
            followed(Piece::Text('<'), read_markup(s.skip(4)))
        } else if text::has_prefix(s, markup::escaped('>')) {
            followed(Piece::Text('>'), read_markup(s.skip(4)))
        } else if text::has_prefix(s, markup::escaped('&')) {
            followed(Piece::Text('&'), read_markup(s.skip(5)))
        } else {
            None
        }
    } else if s[0] == '>' {
        None
    } else {
        followed(Piece::Text(s[0]), read_markup(s.skip(1)))
    }
}

pub open spec fn followed(first: Piece, rest: Option<Seq<Piece>>) -> Option<Seq<Piece>> {
    match rest {
        Some(r) => Some(seq![first] + r),
        None => None,
    }
}

proof fn followed_takes_apart(first: Piece, rest: Seq<Piece>)
    ensures
        (seq![first] + rest).len() > 0,
        (seq![first] + rest)[0] == first,
        (seq![first] + rest).drop_first() == rest,
{
    assert((seq![first] + rest).drop_first() =~= rest);
}

/// The piece that a text starts with, and how long it is written.
pub(crate) proof fn reading_starts(s: Seq<char>)
    requires
        s.len() > 0,
        read_markup(s) is Some,
    ensures
        read_markup(s)->0.len() > 0,
        ({
            let first = read_markup(s)->0[0];
            let n = markup::piece_text(first).len() as int;
            &&& text::has_prefix(s, markup::piece_text(first))
            &&& s[0] != '<' && s[0] != '&' ==> first == Piece::Text(s[0])
            &&& read_markup(s.skip(n)) == Some(read_markup(s)->0.drop_first())
        }),
{
    let first = if s[0] == '<' && s[1] == '/' {
        Piece::Close(markup::style_of(s[2])->0)
    } else if s[0] == '<' {
        Piece::Open(markup::style_of(s[1])->0)
    } else if s[0] != '&' {
        Piece::Text(s[0])
    } else if text::has_prefix(s, markup::escaped('<')) {
        Piece::Text('<')
    } else if text::has_prefix(s, markup::escaped('>')) {
        Piece::Text('>')
    } else {
        Piece::Text('&')
    };
    let t = markup::piece_text(first);
    let rest = s.skip(t.len() as int);
    assert(read_markup(s) == followed(first, read_markup(rest)));
    followed_takes_apart(first, read_markup(rest)->0);
    assert(s.subrange(0, t.len() as int) =~= t);
}

proof fn render_front(p: Seq<Piece>)
    requires
        p.len() > 0,
    ensures
        markup::render(p) == markup::piece_text(p[0]) + markup::render(p.drop_first()),
    decreases p.len(),
{
    if p.len() == 1 {
        assert(p.drop_last() =~= Seq::<Piece>::empty());
        assert(p.drop_first() =~= Seq::<Piece>::empty());
        assert(markup::render(p) =~= markup::piece_text(p[0]) + markup::render(p.drop_first()));
    } else {
        render_front(p.drop_last());
        assert(p.drop_last().drop_first() =~= p.drop_first().drop_last());
        assert(markup::render(p) =~= markup::piece_text(p[0]) + markup::render(p.drop_first()));
    }
}

/// Reading back rendered pieces gives exactly those pieces, so visible text
/// is never taken for a tag and no tag for text.
pub proof fn rendering_reads_back(p: Seq<Piece>)
    ensures
        read_markup(markup::render(p)) == Some(p),
    decreases p.len(),
{
    if p.len() == 0 {
        assert(p =~= Seq::<Piece>::empty());
    } else {
        render_front(p);
        let rest = p.drop_first();
        rendering_reads_back(rest);
        let s = markup::render(p);
        let t = markup::piece_text(p[0]);
        let n = t.len() as int;
        assert(s.skip(n) =~= markup::render(rest));
        assert(s.subrange(0, n) =~= t);
        assert(seq![p[0]] + rest =~= p);
        match p[0] {
            Piece::Open(style) => {
                assert(s[1] == t[1] && s[2] == t[2]);
                assert(markup::style_of(markup::style_letter(style)) == Some(style));
            },
            Piece::Close(style) => {
                assert(s[1] == t[1] && s[2] == t[2] && s[3] == t[3]);
                assert(markup::style_of(markup::style_letter(style)) == Some(style));
            },
            Piece::Text(c) => {
                assert(s[0] == t[0]);
                if c == '>' {
                    assert(s[1] == 'g');
                    assert(s.subrange(0, 4)[1] == 'g');
                    assert(markup::escaped('<')[1] == 'l');
                } else if c == '&' {
                    assert(s[1] == 'a');
                    assert(s.subrange(0, 4)[1] == 'a');
                    assert(markup::escaped('<')[1] == 'l');
                    assert(markup::escaped('>')[1] == 'g');
                }
            },
        }
    }
}

// ── Trimming ────────────────────────────────────────────────────────────

pub open spec fn blank_piece(p: Piece) -> bool {
    p matches Piece::Text(c) && text::white_space(c)
}

/// The pieces without the white space they start with.
pub open spec fn trim_front(p: Seq<Piece>) -> Seq<Piece>
    decreases p.len(),
{
    if p.len() > 0 && blank_piece(p[0]) {
        trim_front(p.drop_first())
    } else {
        p
    }
}

/// The pieces without the white space they end with.
pub open spec fn trim_back(p: Seq<Piece>) -> Seq<Piece>
    decreases p.len(),
{
    if p.len() > 0 && blank_piece(p.last()) {
        trim_back(p.drop_last())
    } else {
        p
    }
}

/// The pieces of a cue as it is shown.
pub open spec fn shown_pieces(s: Seq<char>) -> Seq<Piece> {
    trim_back(trim_front(markup::nested(markup::pieces_of(s))))
}

proof fn trim_start_of_rendering(p: Seq<Piece>)
    ensures
        text::trim_start(markup::render(p)) == markup::render(trim_front(p)),
    decreases p.len(),
{
    if p.len() > 0 {
        render_front(p);
        let s = markup::render(p);
        assert(s[0] == markup::piece_text(p[0])[0]);
        if blank_piece(p[0]) {
            trim_start_of_rendering(p.drop_first());
            assert(s.drop_first() =~= markup::render(p.drop_first()));
        }
    }
}

proof fn trim_end_of_rendering(p: Seq<Piece>)
    ensures
        text::trim_end(markup::render(p)) == markup::render(trim_back(p)),
    decreases p.len(),
{
    if p.len() > 0 {
        let s = markup::render(p);
        let t = markup::piece_text(p.last());
        assert(s.last() == t.last());
        if blank_piece(p.last()) {
            trim_end_of_rendering(p.drop_last());
            assert(s.drop_last() =~= markup::render(p.drop_last()));
        }
    }
}

/// The markup of any ASS text reads back as the pieces of the cue: it holds
/// no stray special character, whatever the text was.
pub proof fn markup_reads_back(s: Seq<char>)
    ensures
        read_markup(markup::markup_of(s)) == Some(shown_pieces(s)),
{
    let p = markup::nested(markup::pieces_of(s));
    trim_start_of_rendering(p);
    trim_end_of_rendering(trim_front(p));
    rendering_reads_back(shown_pieces(s));
}

// ── Nesting ─────────────────────────────────────────────────────────────

/// The styles left open, outermost first, when every tag closes the one
/// opened last; `None` when some tag closes another.
pub open spec fn nesting(p: Seq<Piece>) -> Option<Seq<Style>>
    decreases p.len(),
{
    if p.len() == 0 {
        Some(Seq::empty())
    } else {
        match nesting(p.drop_last()) {
            None => None,
            Some(open) => match p.last() {
                Piece::Text(_) => Some(open),
                Piece::Open(s) => Some(open.push(s)),
                Piece::Close(s) => if open.len() > 0 && open.last() == s {
                    Some(open.drop_last())
                } else {
                    None
                },
            },
        }
    }
}

proof fn nesting_of_closers(p: Seq<Piece>, outer: Seq<Style>, open: Seq<Style>)
    requires
        nesting(p) == Some(outer + open),
    ensures
        nesting(p + markup::closers(open)) == Some(outer),
    decreases open.len(),
{
    if open.len() == 0 {
        assert(p + markup::closers(open) =~= p);
        assert(outer + open =~= outer);
    } else {
        let q = p.push(Piece::Close(open.last()));
        assert(q.drop_last() =~= p);
        assert((outer + open).drop_last() =~= outer + open.drop_last());
        nesting_of_closers(q, outer, open.drop_last());
        assert(q + markup::closers(open.drop_last()) =~= p + markup::closers(open));
    }
}

proof fn nesting_of_openers(p: Seq<Piece>, outer: Seq<Style>, open: Seq<Style>)
    requires
        nesting(p) == Some(outer),
    ensures
        nesting(p + markup::openers(open)) == Some(outer + open),
    decreases open.len(),
{
    if open.len() == 0 {
        assert(p + markup::openers(open) =~= p);
        assert(outer + open =~= outer);
    } else {
        let init = open.drop_last();
        nesting_of_openers(p, outer, init);
        assert((p + markup::openers(open)).drop_last() =~= p + markup::openers(init));
        assert((outer + init).push(open.last()) =~= outer + open);
    }
}

/// The most recent `style` of `open` stands before what lies inside it.
proof fn inside_splits(open: Seq<Style>, style: Style) -> (outer: Seq<Style>)
    requires
        open.contains(style),
    ensures
        open == outer.push(style) + markup::inside(open, style),
        markup::without_last(open, style) == outer + markup::inside(open, style),
    decreases open.len(),
{
    let init = open.drop_last();
    assert(open =~= init.push(open.last()));
    if open.last() == style {
        assert(init.push(style) + Seq::<Style>::empty() =~= open);
        assert(init + Seq::<Style>::empty() =~= init);
        init
    } else {
        let k = choose|k: int| 0 <= k < open.len() && open[k] == style;
        assert(init[k] == style);
        let outer = inside_splits(init, style);
        let inner = markup::inside(init, style);
        assert(outer.push(style) + inner.push(open.last()) =~= open);
        assert((outer + inner).push(open.last()) =~= outer + inner.push(open.last()));
        outer
    }
}

proof fn closing_nests(p: Seq<Piece>, open: Seq<Style>, style: Style)
    requires
        nesting(p) == Some(open),
    ensures
        nesting(p + markup::closing(open, style)) == Some(markup::without_last(open, style)),
{
    if open.contains(style) {
        let outer = inside_splits(open, style);
        let inner = markup::inside(open, style);
        nesting_of_closers(p, outer.push(style), inner);
        let q = p + markup::closers(inner);
        let shut = q.push(Piece::Close(style));
        assert(shut.drop_last() =~= q);
        assert(outer.push(style).drop_last() =~= outer);
        nesting_of_openers(shut, outer, inner);
        assert(shut + markup::openers(inner) =~= p + markup::closing(open, style));
    } else {
        markup::without_last_of_none(open, style);
        assert(p + markup::closing(open, style) =~= p);
    }
}

/// However the styles overlap, nested tags nest, and they leave the same
/// styles open.
pub proof fn nested_tags_nest(p: Seq<Piece>)
    ensures
        nesting(markup::nested(p)) == Some(markup::open_after(p)),
    decreases p.len(),
{
    if p.len() > 0 {
        let init = p.drop_last();
        nested_tags_nest(init);
        match p.last() {
            Piece::Close(s) => {
                closing_nests(markup::nested(init), markup::open_after(init), s);
            },
            _ => {
                assert(markup::nested(init).push(p.last()).drop_last() =~= markup::nested(init));
            },
        }
    }
}

/// Tags that nest already are left as they are.
pub proof fn nested_tags_stay(p: Seq<Piece>)
    requires
        nesting(p) is Some,
    ensures
        markup::nested(p) == p,
        markup::open_after(p) == nesting(p)->0,
    decreases p.len(),
{
    if p.len() > 0 {
        let init = p.drop_last();
        nested_tags_stay(init);
        assert(init.push(p.last()) =~= p);
        if let Piece::Close(s) = p.last() {
            let open = markup::open_after(init);
            assert(open[open.len() - 1] == s);
            let none = Seq::<Style>::empty();
            assert(markup::inside(open, s) =~= none);
            assert(markup::closing(open, s) =~= seq![Piece::Close(s)]);
            assert(init + seq![Piece::Close(s)] =~= p);
        }
    } else {
        assert(markup::nested(p) =~= p);
    }
}

// ── The styles of the text ──────────────────────────────────────────────

/// The open styles are those of the tags not yet closed.
spec fn in_step(m: Marks) -> bool {
    markup::open_after(m.pieces) == m.open
}

proof fn override_keeps_step(m: Marks, o: Override)
    requires
        in_step(m),
    ensures
        in_step(markup::apply_one(m, o)),
{
    match o {
        Override::Toggle(s, true) => {
            assert(m.pieces.push(Piece::Open(s)).drop_last() =~= m.pieces);
        },
        Override::Toggle(s, false) => {
            assert(m.pieces.push(Piece::Close(s)).drop_last() =~= m.pieces);
        },
        _ => {},
    }
}

proof fn group_keeps_step(m: Marks, group: Seq<char>)
    requires
        in_step(m),
    ensures
        in_step(markup::apply_group(m, group)),
    decreases group.len(),
{
    let i = markup::first_index(group, '\\', 0);
    if 0 <= i < group.len() {
        let rest = group.skip(i + 1);
        let j = markup::first_index(rest, '\\', 0);
        if 0 <= j <= rest.len() {
            let o = markup::override_of(text::trim(rest.take(j)));
            override_keeps_step(m, o);
            group_keeps_step(markup::apply_one(m, o), rest.skip(j));
        }
    }
}

proof fn char_keeps_step(m: Marks, c: char)
    requires
        in_step(m),
    ensures
        in_step(markup::write_char(m, c)),
{
    assert(m.pieces.push(Piece::Text(c)).drop_last() =~= m.pieces);
}

proof fn run_keeps_step(m: Marks, s: Seq<char>)
    requires
        in_step(m),
    ensures
        in_step(markup::run(m, s)),
    decreases s.len(),
{
    if s.len() == 0 {
    } else if s[0] == '{' {
        let end = markup::first_index(s, '}', 1);
        if 1 <= end < s.len() {
            group_keeps_step(m, s.subrange(1, end));
            run_keeps_step(markup::apply_group(m, s.subrange(1, end)), s.skip(end + 1));
        } else {
            group_keeps_step(m, s.skip(1));
        }
    } else if s[0] == '\\' && s.len() > 1 && (s[1] == 'N' || s[1] == 'n') {
        char_keeps_step(m, '\n');
        run_keeps_step(markup::write_char(m, '\n'), s.skip(2));
    } else if s[0] == '\\' && s.len() > 1 && s[1] == 'h' {
        char_keeps_step(m, '\u{a0}');
        run_keeps_step(markup::write_char(m, '\u{a0}'), s.skip(2));
    } else {
        char_keeps_step(m, s[0]);
        run_keeps_step(markup::write_char(m, s[0]), s.skip(1));
    }
}

proof fn closers_end_everything(p: Seq<Piece>, open: Seq<Style>)
    requires
        markup::open_after(p) == open,
    ensures
        markup::open_after(p + markup::closers(open)) == Seq::<Style>::empty(),
    decreases open.len(),
{
    if open.len() == 0 {
        assert(p + markup::closers(open) =~= p);
        assert(open =~= Seq::<Style>::empty());
    } else {
        let q = p.push(Piece::Close(open.last()));
        assert(q.drop_last() =~= p);
        closers_end_everything(q, open.drop_last());
        assert(q + markup::closers(open.drop_last()) =~= p + markup::closers(open));
    }
}

proof fn nothing_stays_open(s: Seq<char>)
    ensures
        markup::open_after(markup::pieces_of(s)) == Seq::<Style>::empty(),
{
    run_keeps_step(markup::blank(), s);
    let m = markup::run(markup::blank(), s);
    closers_end_everything(m.pieces, m.open);
}

proof fn nesting_without_front(p: Seq<Piece>)
    requires
        p.len() > 0,
        p[0] is Text,
    ensures
        nesting(p.drop_first()) == nesting(p),
    decreases p.len(),
{
    if p.len() == 1 {
        assert(p.drop_last() =~= Seq::<Piece>::empty());
        assert(p.drop_first() =~= Seq::<Piece>::empty());
    } else {
        nesting_without_front(p.drop_last());
        assert(p.drop_last().drop_first() =~= p.drop_first().drop_last());
    }
}

proof fn trimming_keeps_nesting(p: Seq<Piece>)
    ensures
        nesting(trim_front(p)) == nesting(p),
        nesting(trim_back(p)) == nesting(p),
    decreases p.len(),
{
    if p.len() > 0 && blank_piece(p[0]) {
        nesting_without_front(p);
        trimming_keeps_nesting(p.drop_first());
    }
    if p.len() > 0 && blank_piece(p.last()) {
        trimming_keeps_nesting(p.drop_last());
    }
}

/// The tags in the markup of a cue nest, whatever its text is: every tag
/// closes the one opened last, and at the end nothing is open. This holds
/// also where styles overlap, or are never switched off.
pub proof fn markup_nests(s: Seq<char>)
    ensures
        read_markup(markup::markup_of(s)) == Some(shown_pieces(s)),
        nesting(shown_pieces(s)) == Some(Seq::<Style>::empty()),
{
    markup_reads_back(s);
    let p = markup::nested(markup::pieces_of(s));
    nothing_stays_open(s);
    nested_tags_nest(markup::pieces_of(s));
    trimming_keeps_nesting(p);
    trimming_keeps_nesting(trim_front(p));
}

/// The visible characters, each with the styles in force where it stands,
/// outermost first.
pub open spec fn styled(p: Seq<Piece>) -> Seq<(char, Seq<Style>)>
    decreases p.len(),
{
    if p.len() == 0 {
        Seq::empty()
    } else {
        match p.last() {
            Piece::Text(c) => styled(p.drop_last()).push((c, markup::open_after(p.drop_last()))),
            _ => styled(p.drop_last()),
        }
    }
}

proof fn tags_show_nothing(p: Seq<Piece>, q: Seq<Piece>)
    requires
        forall|k: int| 0 <= k < q.len() ==> (#[trigger] q[k]) !is Text,
    ensures
        styled(p + q) == styled(p),
    decreases q.len(),
{
    if q.len() == 0 {
        assert(p + q =~= p);
    } else {
        let init = q.drop_last();
        assert forall|k: int| 0 <= k < init.len() implies (#[trigger] init[k]) !is Text by {
            assert(q[k] !is Text);
        }
        tags_show_nothing(p, init);
        assert((p + q).drop_last() =~= p + init);
        assert((p + q).last() == q[q.len() - 1]);
    }
}

proof fn closers_are_tags(open: Seq<Style>)
    ensures
        forall|k: int|
            0 <= k < markup::closers(open).len() ==> (#[trigger] markup::closers(open)[k]) !is Text,
    decreases open.len(),
{
    if open.len() > 0 {
        closers_are_tags(open.drop_last());
        let c = markup::closers(open);
        assert forall|k: int| 0 <= k < c.len() implies (#[trigger] c[k]) !is Text by {
            if k > 0 {
                assert(c[k] == markup::closers(open.drop_last())[k - 1]);
            }
        }
    }
}

proof fn openers_are_tags(open: Seq<Style>)
    ensures
        forall|k: int|
            0 <= k < markup::openers(open).len() ==> (#[trigger] markup::openers(open)[k]) !is Text,
    decreases open.len(),
{
    if open.len() > 0 {
        openers_are_tags(open.drop_last());
    }
}

/// Nesting the tags changes no character, and each keeps the styles that it
/// had.
pub proof fn nesting_keeps_the_styles(p: Seq<Piece>)
    ensures
        styled(markup::nested(p)) == styled(p),
        markup::open_after(markup::nested(p)) == markup::open_after(p),
    decreases p.len(),
{
    nested_tags_nest(p);
    nested_tags_stay(markup::nested(p));
    if p.len() > 0 {
        let init = p.drop_last();
        nesting_keeps_the_styles(init);
        let done = markup::nested(init);
        match p.last() {
            Piece::Close(s) => {
                let open = markup::open_after(init);
                let tags = markup::closing(open, s);
                closers_are_tags(markup::inside(open, s));
                openers_are_tags(markup::inside(open, s));
                assert forall|k: int| 0 <= k < tags.len() implies (#[trigger] tags[k]) !is Text by {
                    let shut = markup::closers(markup::inside(open, s)).push(Piece::Close(s));
                    if k >= shut.len() {
                        assert(tags[k] == markup::openers(markup::inside(open, s))[k - shut.len()]);
                    } else if k < shut.len() - 1 {
                        assert(tags[k] == markup::closers(markup::inside(open, s))[k]);
                    }
                }
                tags_show_nothing(done, tags);
            },
            _ => {
                assert(done.push(p.last()).drop_last() =~= done);
            },
        }
    }
}

/// The visible characters of an ASS text, each with the styles in force where
/// it stands, when the styles in force at its start are `open`.
pub open spec fn styled_text(open: Seq<Style>, s: Seq<char>) -> Seq<(char, Seq<Style>)>
    decreases s.len(),
{
    if s.len() == 0 {
        Seq::empty()
    } else if s[0] == '{' {
        let end = markup::first_index(s, '}', 1);
        if 1 <= end < s.len() {
            styled_text(switched(open, s.subrange(1, end)), s.skip(end + 1))
        } else {
            Seq::empty()
        }
    } else if s[0] == '\\' && s.len() > 1 && (s[1] == 'N' || s[1] == 'n') {
        seq![('\n', open)] + styled_text(open, s.skip(2))
    } else if s[0] == '\\' && s.len() > 1 && s[1] == 'h' {
        seq![('\u{a0}', open)] + styled_text(open, s.skip(2))
    } else {
        seq![(s[0], open)] + styled_text(open, s.skip(1))
    }
}

/// The styles in force after a brace group.
pub open spec fn switched(open: Seq<Style>, group: Seq<char>) -> Seq<Style> {
    markup::apply_group(
        Marks { pieces: Seq::empty(), open: open, alignment: Alignment::Bottom },
        group,
    ).open
}

proof fn group_switches(m: Marks, group: Seq<char>)
    ensures
        markup::apply_group(m, group).open == switched(m.open, group),
        styled(markup::apply_group(m, group).pieces) == styled(m.pieces),
    decreases group.len(),
{
    let i = markup::first_index(group, '\\', 0);
    if 0 <= i < group.len() {
        let rest = group.skip(i + 1);
        let j = markup::first_index(rest, '\\', 0);
        if 0 <= j <= rest.len() {
            let o = markup::override_of(text::trim(rest.take(j)));
            let one = markup::apply_one(m, o);
            let bare = Marks {
                pieces: Seq::empty(),
                open: m.open,
                alignment: Alignment::Bottom,
            };
            let next = markup::apply_one(bare, o);
            assert(next.open == one.open);
            group_switches(one, rest.skip(j));
            group_switches(next, rest.skip(j));
            if let Override::Toggle(s, on) = o {
                assert(m.pieces.push(Piece::Open(s)).drop_last() =~= m.pieces);
                assert(m.pieces.push(Piece::Close(s)).drop_last() =~= m.pieces);
            }
        }
    }
}

proof fn char_is_styled(m: Marks, c: char, rest: Seq<(char, Seq<Style>)>)
    requires
        in_step(m),
    ensures
        styled(markup::write_char(m, c).pieces) + rest == styled(m.pieces) + (seq![(c, m.open)]
            + rest),
{
    assert(m.pieces.push(Piece::Text(c)).drop_last() =~= m.pieces);
    assert(styled(m.pieces).push((c, m.open)) + rest =~= styled(m.pieces) + (seq![(c, m.open)]
        + rest));
}

proof fn run_styles(m: Marks, s: Seq<char>)
    requires
        in_step(m),
    ensures
        styled(markup::run(m, s).pieces) == styled(m.pieces) + styled_text(m.open, s),
    decreases s.len(),
{
    let none = Seq::<(char, Seq<Style>)>::empty();
    assert(styled(m.pieces) + none =~= styled(m.pieces));
    if s.len() == 0 {
    } else if s[0] == '{' {
        let end = markup::first_index(s, '}', 1);
        if 1 <= end < s.len() {
            group_keeps_step(m, s.subrange(1, end));
            group_switches(m, s.subrange(1, end));
            run_styles(markup::apply_group(m, s.subrange(1, end)), s.skip(end + 1));
        } else {
            group_switches(m, s.skip(1));
        }
    } else {
        let (c, n): (char, int) = if s[0] == '\\' && s.len() > 1 && (s[1] == 'N' || s[1] == 'n') {
            ('\n', 2)
        } else if s[0] == '\\' && s.len() > 1 && s[1] == 'h' {
            ('\u{a0}', 2)
        } else {
            (s[0], 1)
        };
        char_keeps_step(m, c);
        run_styles(markup::write_char(m, c), s.skip(n));
        char_is_styled(m, c, styled_text(m.open, s.skip(n)));
    }
}

proof fn styled_front(p: Seq<Piece>)
    requires
        p.len() > 0,
        p[0] is Text,
    ensures
        styled(p) == seq![(p[0]->Text_0, Seq::<Style>::empty())] + styled(p.drop_first()),
        markup::open_after(p) == markup::open_after(p.drop_first()),
    decreases p.len(),
{
    let first = (p[0]->Text_0, Seq::<Style>::empty());
    let rest = p.drop_first();
    if p.len() == 1 {
        assert(p.drop_last() =~= Seq::<Piece>::empty());
        assert(rest =~= Seq::<Piece>::empty());
        assert(styled(p) =~= seq![first] + styled(rest));
    } else {
        styled_front(p.drop_last());
        assert(p.drop_last().drop_first() =~= rest.drop_last());
        assert(styled(p) =~= seq![first] + styled(rest));
    }
}

proof fn trim_front_styles(p: Seq<Piece>) -> (n: int)
    ensures
        0 <= n <= styled(p).len(),
        styled(trim_front(p)) == styled(p).skip(n),
        forall|i: int| 0 <= i < n ==> text::white_space((#[trigger] styled(p)[i]).0),
    decreases p.len(),
{
    if p.len() > 0 && blank_piece(p[0]) {
        styled_front(p);
        let q = p.drop_first();
        let n = trim_front_styles(q);
        assert(styled(p).skip(n + 1) =~= styled(q).skip(n));
        assert forall|i: int| 0 <= i < n + 1 implies text::white_space(
            (#[trigger] styled(p)[i]).0,
        ) by {
            if i > 0 {
                assert(styled(p)[i] == styled(q)[i - 1]);
            }
        }
        n + 1
    } else {
        assert(styled(p).skip(0) =~= styled(p));
        0
    }
}

proof fn trim_back_styles(p: Seq<Piece>) -> (n: int)
    ensures
        0 <= n <= styled(p).len(),
        styled(trim_back(p)) == styled(p).take(n),
        forall|i: int| n <= i < styled(p).len() ==> text::white_space((#[trigger] styled(p)[i]).0),
    decreases p.len(),
{
    if p.len() > 0 && blank_piece(p.last()) {
        let q = p.drop_last();
        let n = trim_back_styles(q);
        assert(styled(p).take(n) =~= styled(q).take(n));
        assert forall|i: int| n <= i < styled(p).len() implies text::white_space(
            (#[trigger] styled(p)[i]).0,
        ) by {
            if i < styled(q).len() {
                assert(styled(p)[i] == styled(q)[i]);
            }
        }
        n
    } else {
        assert(styled(p).take(styled(p).len() as int) =~= styled(p));
        styled(p).len() as int
    }
}

/// `part` is `all` without some white space at its two ends.
pub open spec fn trimmed_from(part: Seq<(char, Seq<Style>)>, all: Seq<(char, Seq<Style>)>) -> bool {
    exists|a: int, b: int|
        0 <= a <= b <= all.len() && part == #[trigger] all.subrange(a, b) && forall|i: int|
            0 <= i < a || b <= i < all.len() ==> text::white_space((#[trigger] all[i]).0)
}

/// Every character of a cue is shown in the styles that the text gives it,
/// however the styles overlap; all that may be missing is white space at the
/// ends.
pub proof fn text_keeps_its_styles(s: Seq<char>)
    ensures
        read_markup(markup::markup_of(s)) matches Some(p) && trimmed_from(
            styled(p),
            styled_text(Seq::empty(), s),
        ),
{
    markup_reads_back(s);
    let m = markup::run(markup::blank(), s);
    let all = styled_text(Seq::empty(), s);
    run_styles(markup::blank(), s);
    assert(styled(markup::blank().pieces) + all =~= all);
    closers_are_tags(m.open);
    tags_show_nothing(m.pieces, markup::closers(m.open));
    let p = markup::nested(markup::pieces_of(s));
    nesting_keeps_the_styles(markup::pieces_of(s));
    assert(styled(p) == all);
    let a = trim_front_styles(p);
    let q = trim_front(p);
    let n = trim_back_styles(q);
    let b = a + n;
    assert(all.skip(a).take(n) =~= all.subrange(a, b));
    assert forall|i: int| 0 <= i < a || b <= i < all.len() implies text::white_space(
        (#[trigger] all[i]).0,
    ) by {
        if b <= i {
            assert(styled(q)[i - a] == all[i]);
        }
    }
}

/// Markup whose tags nest and are all closed at the end.
pub open spec fn well_nested(s: Seq<char>) -> bool {
    read_markup(s) matches Some(p) && nesting(p) == Some(Seq::<Style>::empty())
}

/// What reads as some pieces is what those pieces are written as.
pub proof fn reading_renders_back(s: Seq<char>)
    requires
        read_markup(s) is Some,
    ensures
        markup::render(read_markup(s)->0) == s,
    decreases s.len(),
{
    if s.len() > 0 {
        reading_starts(s);
        let p = read_markup(s)->0;
        let t = markup::piece_text(p[0]);
        let rest = s.skip(t.len() as int);
        assert(t.len() > 0);
        assert(s.subrange(0, t.len() as int) =~= t);
        reading_renders_back(rest);
        render_front(p);
        assert(t + rest =~= s);
    }
}

proof fn nesting_goes_on(a: Seq<Piece>, b: Seq<Piece>)
    requires
        nesting(a) == Some(Seq::<Style>::empty()),
    ensures
        nesting(a + b) == nesting(b),
    decreases b.len(),
{
    if b.len() == 0 {
        assert(a + b =~= a);
    } else {
        nesting_goes_on(a, b.drop_last());
        assert((a + b).drop_last() =~= a + b.drop_last());
    }
}

/// Lines whose tags nest still do when they are joined.
pub proof fn joined_lines_nest(lines: Seq<Seq<char>>)
    requires
        forall|i: int| 0 <= i < lines.len() ==> well_nested(#[trigger] lines[i]),
    ensures
        well_nested(text::joined(lines, "\n"@)),
    decreases lines.len(),
{
    reveal_strlit("\n");
    let s = text::joined(lines, "\n"@);
    if lines.len() == 0 {
    } else if lines.len() == 1 {
        assert(s == lines[0]);
    } else {
        let init = lines.drop_last();
        assert forall|i: int| 0 <= i < init.len() implies well_nested(#[trigger] init[i]) by {
            assert(well_nested(lines[i]));
        }
        joined_lines_nest(init);
        let last = lines[lines.len() - 1];
        let a = read_markup(text::joined(init, "\n"@))->0;
        let b = read_markup(last)->0;
        reading_renders_back(text::joined(init, "\n"@));
        reading_renders_back(last);
        let broken = a.push(Piece::Text('\n'));
        markup::render_push(a, Piece::Text('\n'));
        markup::render_concat(broken, b);
        assert("\n"@ =~= markup::escaped('\n'));
        assert(markup::render(broken + b) =~= s);
        rendering_reads_back(broken + b);
        assert(broken.drop_last() =~= a);
        nesting_goes_on(broken, b);
    }
}

// ── Counting tags ───────────────────────────────────────────────────────

/// How often `needle` occurs in `s`.
pub open spec fn occurrences(s: Seq<char>, needle: Seq<char>) -> int
    decreases s.len(),
{
    if s.len() == 0 {
        0
    } else {
        occurrences(s.drop_last(), needle) + if needle.is_suffix_of(s) {
            1int
        } else {
            0
        }
    }
}

/// How often `style` is in `open`.
pub open spec fn times(open: Seq<Style>, style: Style) -> int
    decreases open.len(),
{
    if open.len() == 0 {
        0
    } else {
        times(open.drop_last(), style) + if open.last() == style {
            1int
        } else {
            0
        }
    }
}

proof fn times_without_last(open: Seq<Style>, style: Style, other: Style)
    requires
        open.contains(style),
    ensures
        times(markup::without_last(open, style), other) == times(open, other) - if other == style {
            1int
        } else {
            0
        },
    decreases open.len(),
{
    if open.last() != style {
        let init = open.drop_last();
        let k = choose|k: int| 0 <= k < open.len() && open[k] == style;
        assert(init[k] == style);
        times_without_last(init, style, other);
        assert(markup::without_last(init, style).push(open.last()).drop_last() =~= markup::without_last(
            init,
            style,
        ));
    }
}

/// Of every style, as many tags are open in the text as the list says: its
/// opening tags are more than its closing ones by what the list holds of it.
pub open spec fn counts_match(out: Seq<char>, open: Seq<Style>) -> bool {
    forall|style: Style| #[trigger]
        times(open, style) == occurrences(out, markup::piece_text(Piece::Open(style)))
            - occurrences(out, markup::piece_text(Piece::Close(style)))
}

proof fn tag_ends_it(s: Seq<char>, p: Piece, needle: Piece)
    requires
        p !is Text,
        needle !is Text,
    ensures
        markup::piece_text(needle).is_suffix_of(s + markup::piece_text(p)) <==> needle == p,
{
    let t = markup::piece_text(p);
    let n = markup::piece_text(needle);
    let all = s + t;
    let k = all.len() as int;
    assert(all.subrange(k - t.len(), k) =~= t);
    if n.is_suffix_of(all) {
        let d = k - n.len();
        assert(forall|i: int| 0 <= i < n.len() ==> n[i] == all[d + i]);
        assert(all[k - 2] == t[t.len() - 2]);
        assert(all[k - 3] == t[t.len() - 3]);
        assert(n[n.len() - 2] == all[k - 2]);
        assert(n[n.len() - 3] == all[k - 3]);
    }
}

proof fn tag_counts_once(s: Seq<char>, p: Piece, needle: Piece)
    requires
        p !is Text,
        needle !is Text,
    ensures
        occurrences(s + markup::piece_text(p), markup::piece_text(needle)) == occurrences(
            s,
            markup::piece_text(needle),
        ) + if needle == p {
            1int
        } else {
            0
        },
{
    let t = markup::piece_text(p);
    let n = markup::piece_text(needle);
    tag_ends_it(s, p, needle);
    assert(n.last() == '>');
    let a = s.push(t[0]);
    let b = a.push(t[1]);
    assert(a.drop_last() =~= s);
    assert(b.drop_last() =~= a);
    assert(a.last() != '>' && b.last() != '>');
    assert(n.is_suffix_of(a) ==> n.last() == a.last());
    assert(n.is_suffix_of(b) ==> n.last() == b.last());
    assert(occurrences(a, n) == occurrences(s, n));
    assert(occurrences(b, n) == occurrences(a, n));
    let all = s + t;
    if t.len() == 3 {
        assert(all.drop_last() =~= b);
    } else {
        let c = b.push(t[2]);
        assert(c.drop_last() =~= b);
        assert(c.last() != '>');
        assert(n.is_suffix_of(c) ==> n.last() == c.last());
        assert(occurrences(c, n) == occurrences(b, n));
        assert(all.drop_last() =~= c);
    }
}

proof fn tag_keeps_counts(out: Seq<char>, open: Seq<Style>, p: Piece, after: Seq<Style>)
    requires
        counts_match(out, open),
        p !is Text,
        forall|style: Style| #[trigger]
            times(after, style) == times(open, style) + if p == Piece::Open(style) {
                1int
            } else if p == Piece::Close(style) {
                -1
            } else {
                0
            },
    ensures
        counts_match(out + markup::piece_text(p), after),
{
    let all = out + markup::piece_text(p);
    assert forall|style: Style| #[trigger]
        times(after, style) == occurrences(all, markup::piece_text(Piece::Open(style)))
            - occurrences(all, markup::piece_text(Piece::Close(style))) by {
        assert(times(open, style) == times(open, style));
        tag_counts_once(out, p, Piece::Open(style));
        tag_counts_once(out, p, Piece::Close(style));
    }
}

proof fn group_keeps_counts(out: Seq<char>, m: Marks, group: Seq<char>)
    requires
        counts_match(out + markup::render(m.pieces), m.open),
    ensures
        ({
            let after = markup::apply_group(m, group);
            counts_match(out + markup::render(after.pieces), after.open)
        }),
    decreases group.len(),
{
    let i = markup::first_index(group, '\\', 0);
    if 0 <= i < group.len() {
        let rest = group.skip(i + 1);
        let j = markup::first_index(rest, '\\', 0);
        if 0 <= j <= rest.len() {
            let o = markup::override_of(text::trim(rest.take(j)));
            let one = markup::apply_one(m, o);
            let now = out + markup::render(m.pieces);
            if let Override::Toggle(s, on) = o {
                if on {
                    let p = Piece::Open(s);
                    assert(one.open.drop_last() =~= m.open);
                    tag_keeps_counts(now, m.open, p, one.open);
                    markup::render_push(m.pieces, p);
                    assert(now + markup::piece_text(p) =~= out + markup::render(one.pieces));
                } else if m.open.contains(s) {
                    let p = Piece::Close(s);
                    assert forall|style: Style| #[trigger]
                        times(one.open, style) == times(m.open, style) + if p == Piece::Open(
                            style,
                        ) {
                            1int
                        } else if p == Piece::Close(style) {
                            -1
                        } else {
                            0
                        } by {
                        times_without_last(m.open, s, style);
                    }
                    tag_keeps_counts(now, m.open, p, one.open);
                    markup::render_push(m.pieces, p);
                    assert(now + markup::piece_text(p) =~= out + markup::render(one.pieces));
                }
            }
            group_keeps_counts(out, one, rest.skip(j));
        }
    }
}

/// The overrides of a brace group only add to what is written, and where the
/// tags in it matched the list of open styles they still do, whatever was
/// written and whatever the group holds.
pub proof fn overrides_keep_the_counts(
    out: Seq<char>,
    open: Seq<Style>,
    alignment: Alignment,
    group: Seq<char>,
)
    requires
        counts_match(out, open),
    ensures
        ({
            let before = Marks { pieces: Seq::empty(), open: open, alignment: alignment };
            let after = markup::apply_group(before, group);
            let written = out + markup::render(after.pieces);
            &&& out.is_prefix_of(written)
            &&& counts_match(written, after.open)
        }),
{
    let before = Marks { pieces: Seq::empty(), open: open, alignment: alignment };
    assert(out + markup::render(before.pieces) =~= out);
    group_keeps_counts(out, before, group);
    let written = out + markup::render(markup::apply_group(before, group).pieces);
    assert(written.subrange(0, out.len() as int) =~= out);
}

// ── What the overrides mean ─────────────────────────────────────────────

/// Whether a text is a whole number that fits.
pub open spec fn is_number(s: Seq<char>) -> bool {
    text::parse_unsigned(s, u32::MAX as nat) is Some
}

/// Only `a` and `an` with a number place the text; any other override leaves
/// the placement as it was, and only those of the four styles, or of a weight,
/// switch anything.
pub proof fn unknown_overrides_do_nothing(part: Seq<char>)
    ensures
        ({
            let o = markup::override_of(part);
            let places = part.len() > 1 && part[0] == 'a' && (is_number(part.skip(1)) || (part[1]
                == 'n' && is_number(part.skip(2))));
            let styles = part.len() == 2 && (part[0] == 'i' || part[0] == 'b' || part[0] == 'u'
                || part[0] == 's') && (part[1] == '0' || part[1] == '1');
            let weighs = part.len() > 1 && part[0] == 'b' && is_number(part.skip(1));
            &&& o is Align <==> places
            &&& o is Toggle <==> styles || weighs
            &&& o is Ignored <==> !places && !styles && !weighs
        }),
{
    let none = Seq::<char>::empty();
    if part.len() == 1 {
        assert(part.skip(1) =~= none);
    }
    if part.len() == 2 {
        assert(part.skip(2) =~= none);
        let rest = part.skip(1);
        assert(rest[0] == part[1]);
        if rest[0] == '+' {
            assert(rest.drop_first() =~= none);
        }
    }
    if part.len() > 1 && part[0] == 'a' && part[1] == 'n' {
        let rest = part.skip(1);
        assert(rest[0] == 'n');
        assert(!text::is_digit(rest[0]));
        assert(!text::all_digits(rest));
    }
}

/// Each style is switched by its own letter and written as the tag of the same
/// letter.
pub proof fn styles_keep_their_letter(letter: char, on: bool)
    requires
        letter == 'i' || letter == 'b' || letter == 'u' || letter == 's',
    ensures
        markup::override_of(
            seq![
                letter,
                if on {
                    '1'
                } else {
                    '0'
                },
            ],
        ) matches Override::Toggle(style, switched) && {
            &&& switched == on
            &&& markup::piece_text(Piece::Open(style)) == seq!['<', letter, '>']
            &&& markup::piece_text(Piece::Close(style)) == seq!['<', '/', letter, '>']
        },
{
}

/// A weight above 400 is bold, and one up to it is not; one digit says it
/// outright.
pub proof fn weights_are_bold_above_regular(part: Seq<char>)
    requires
        part.len() > 2,
        part[0] == 'b',
        is_number(part.skip(1)),
    ensures
        markup::override_of(part) == Override::Toggle(
            Style::Bold,
            text::parse_unsigned(part.skip(1), u32::MAX as nat)->0 > 400,
        ),
{
}

/// The number behind `an` is a key of the numeric keypad, whose rows are the
/// bottom, the middle and the top of the picture.
pub proof fn the_keypad_places_the_text(part: Seq<char>, row: int)
    requires
        part.len() > 2,
        part[0] == 'a' && part[1] == 'n',
        is_number(part.skip(2)),
        0 <= row < 3,
        3 * row < text::parse_unsigned(part.skip(2), u32::MAX as nat)->0 <= 3 * row + 3,
    ensures
        markup::override_of(part) matches Override::Align(a) && {
            &&& a is Bottom <==> row == 0
            &&& a is Middle <==> row == 1
            &&& a is Top <==> row == 2
        },
{
}

/// The number behind `a` counts as the older format did: the bottom from one,
/// the top from five and the middle from nine, three places each.
pub proof fn the_older_numbers_place_the_text(part: Seq<char>)
    requires
        part.len() > 1,
        part[0] == 'a',
        part[1] != 'n',
        is_number(part.skip(1)),
    ensures
        ({
            let n = text::parse_unsigned(part.skip(1), u32::MAX as nat)->0;
            markup::override_of(part) matches Override::Align(a) && {
                &&& a is Top <==> n == 5 || n == 6 || n == 7
                &&& a is Middle <==> n == 9 || n == 10 || n == 11
                &&& a is Bottom <==> n != 5 && n != 6 && n != 7 && n != 9 && n != 10 && n != 11
            }
        }),
{
}

proof fn group_without_a_keeps_the_place(m: Marks, group: Seq<char>)
    requires
        forall|i: int| 0 <= i < group.len() ==> #[trigger] group[i] != 'a',
    ensures
        markup::apply_group(m, group).alignment == m.alignment,
    decreases group.len(),
{
    let i = markup::first_index(group, '\\', 0);
    if 0 <= i < group.len() {
        let rest = group.skip(i + 1);
        let j = markup::first_index(rest, '\\', 0);
        if 0 <= j <= rest.len() {
            let part = text::trim(rest.take(j));
            text::trim_is_a_part(rest.take(j));
            assert forall|k: int| 0 <= k < part.len() implies #[trigger] part[k] != 'a' by {
                let from = choose|from: int|
                    0 <= from && from + part.len() <= j && part == #[trigger] rest.take(
                        j,
                    ).subrange(from, from + part.len());
                assert(part[k] == group[i + 1 + from + k]);
            }
            unknown_overrides_do_nothing(part);
            if part.len() > 0 {
                assert(part[0] != 'a');
            }
            let next = rest.skip(j);
            assert forall|k: int| 0 <= k < next.len() implies #[trigger] next[k] != 'a' by {
                assert(next[k] == group[i + 1 + j + k]);
            }
            group_without_a_keeps_the_place(
                markup::apply_one(m, markup::override_of(part)),
                next,
            );
        }
    }
}

proof fn run_without_a_keeps_the_place(m: Marks, s: Seq<char>)
    requires
        forall|i: int| 0 <= i < s.len() ==> #[trigger] s[i] != 'a',
    ensures
        markup::run(m, s).alignment == m.alignment,
    decreases s.len(),
{
    if s.len() == 0 {
    } else if s[0] == '{' {
        let end = markup::first_index(s, '}', 1);
        if 1 <= end < s.len() {
            group_without_a_keeps_the_place(m, s.subrange(1, end));
            run_without_a_keeps_the_place(
                markup::apply_group(m, s.subrange(1, end)),
                s.skip(end + 1),
            );
        } else {
            group_without_a_keeps_the_place(m, s.skip(1));
        }
    } else {
        let (c, n): (char, int) = if s[0] == '\\' && s.len() > 1 && (s[1] == 'N' || s[1] == 'n') {
            ('\n', 2)
        } else if s[0] == '\\' && s.len() > 1 && s[1] == 'h' {
            ('\u{a0}', 2)
        } else {
            (s[0], 1)
        };
        run_without_a_keeps_the_place(markup::write_char(m, c), s.skip(n));
    }
}

/// A text that holds no placement, because it holds no `a` at all, stands at
/// the bottom, whatever else its overrides say.
pub proof fn an_unplaced_text_stands_at_the_bottom(s: Seq<char>)
    requires
        forall|i: int| 0 <= i < s.len() ==> #[trigger] s[i] != 'a',
    ensures
        markup::alignment_of(s) == Alignment::Bottom,
{
    run_without_a_keeps_the_place(markup::blank(), s);
}

/// A text without braces stands at the bottom too, whatever it says.
pub proof fn a_plain_text_stands_at_the_bottom(m: Marks, s: Seq<char>)
    requires
        forall|i: int| 0 <= i < s.len() ==> #[trigger] s[i] != '{',
    ensures
        markup::run(m, s).alignment == m.alignment,
        markup::run(m, s).open == m.open,
        m == markup::blank() ==> markup::alignment_of(s) == Alignment::Bottom,
    decreases s.len(),
{
    if s.len() > 0 {
        let (c, n): (char, int) = if s[0] == '\\' && s.len() > 1 && (s[1] == 'N' || s[1] == 'n') {
            ('\n', 2)
        } else if s[0] == '\\' && s.len() > 1 && s[1] == 'h' {
            ('\u{a0}', 2)
        } else {
            (s[0], 1)
        };
        a_plain_text_stands_at_the_bottom(markup::write_char(m, c), s.skip(n));
    }
}

/// How many commas a text holds.
pub open spec fn commas(s: Seq<char>) -> int
    decreases s.len(),
{
    if s.len() == 0 {
        0
    } else {
        commas(s.drop_last()) + if s.last() == ',' {
            1int
        } else {
            0
        }
    }
}

proof fn commas_add_up(a: Seq<char>, b: Seq<char>)
    ensures
        commas(a + b) == commas(a) + commas(b),
    decreases b.len(),
{
    if b.len() == 0 {
        assert(a + b =~= a);
    } else {
        commas_add_up(a, b.drop_last());
        assert((a + b).drop_last() =~= a + b.drop_last());
    }
}

proof fn no_comma_before_the_first(s: Seq<char>, k: int)
    requires
        0 <= k <= s.len(),
        k <= markup::first_index(s, ',', 0),
    ensures
        commas(s.take(k)) == 0,
    decreases k,
{
    if k > 0 {
        no_comma_before_the_first(s, k - 1);
        assert(s.take(k).drop_last() =~= s.take(k - 1));
        markup::first_index_bounds(s, ',', 0);
    } else {
        assert(s.take(0) =~= Seq::<char>::empty());
    }
}

/// What follows the first so many commas is the rest of the line behind that
/// many, its own commas included; a line with fewer has no such rest.
pub proof fn the_text_follows_its_fields(s: Seq<char>, n: nat)
    ensures
        match markup::after_commas(s, n) {
            Some(t) => {
                let at = s.len() - t.len();
                &&& 0 <= at && t == s.skip(at)
                &&& commas(s.take(at)) == n
                &&& n > 0 ==> at > 0 && s[at - 1] == ','
            },
            None => commas(s) < n,
        },
    decreases n,
{
    if n == 0 {
        assert(s.skip(0) =~= s);
        assert(s.take(0) =~= Seq::<char>::empty());
    } else {
        markup::first_index_bounds(s, ',', 0);
        let i = markup::first_index(s, ',', 0);
        no_comma_before_the_first(s, i);
        if i >= s.len() {
            assert(s.take(i) =~= s);
        } else {
            let rest = s.skip(i + 1);
            the_text_follows_its_fields(rest, (n - 1) as nat);
            let head = s.take(i + 1);
            assert(head.drop_last() =~= s.take(i));
            assert(commas(head) == 1);
            if let Some(t) = markup::after_commas(rest, (n - 1) as nat) {
                let at = rest.len() - t.len();
                assert(s.take(i + 1 + at) =~= head + rest.take(at));
                commas_add_up(head, rest.take(at));
                assert(s.skip(i + 1 + at) =~= rest.skip(at));
            } else {
                assert(head + rest =~= s);
                commas_add_up(head, rest);
            }
        }
    }
}

/// The three special characters are written as their entities, and every other
/// as itself.
pub proof fn special_characters_are_escaped(c: char)
    ensures
        markup::escaped('<') == "&lt;"@,
        markup::escaped('>') == "&gt;"@,
        markup::escaped('&') == "&amp;"@,
        c != '<' && c != '>' && c != '&' ==> markup::escaped(c) == seq![c],
{
    reveal_strlit("&lt;");
    reveal_strlit("&gt;");
    reveal_strlit("&amp;");
    assert(markup::escaped('<') =~= "&lt;"@);
    assert(markup::escaped('>') =~= "&gt;"@);
    assert(markup::escaped('&') =~= "&amp;"@);
}

/// The text of a dialogue line is what stands behind its fields: nine of them
/// in a line from a file, eight in one from a decoder, each ended by a comma.
/// The text keeps its own commas. A line with fewer fields is all text.
pub proof fn the_text_is_behind_the_fields(line: Seq<char>)
    ensures
        ({
            let from_file = text::has_prefix(line, "Dialogue:"@);
            let rest = if from_file {
                line.skip(9)
            } else {
                line
            };
            let fields = if from_file {
                9int
            } else {
                8
            };
            let t = markup::dialogue_text(line);
            let at = rest.len() - t.len();
            &&& commas(rest) >= fields ==> 0 < at && t == rest.skip(at) && rest[at - 1] == ','
                && commas(rest.take(at)) == fields
            &&& commas(rest) < fields ==> t == text::trim(rest)
        }),
{
    reveal_strlit("Dialogue:");
    let from_file = text::has_prefix(line, "Dialogue:"@);
    let rest = if from_file {
        line.skip(9)
    } else {
        line
    };
    let fields: nat = if from_file {
        9
    } else {
        8
    };
    the_text_follows_its_fields(rest, fields);
    if let Some(t) = markup::after_commas(rest, fields) {
        let at = rest.len() - t.len();
        commas_add_up(rest.take(at), rest.skip(at));
        assert(rest.take(at) + rest.skip(at) =~= rest);
        commas_are_counted(rest.skip(at));
    }
}

proof fn commas_are_counted(s: Seq<char>)
    ensures
        commas(s) >= 0,
    decreases s.len(),
{
    if s.len() > 0 {
        commas_are_counted(s.drop_last());
    }
}

} // verus!

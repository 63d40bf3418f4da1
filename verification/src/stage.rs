//! The video surface: what of the visible cues is shown as text over it, and
//! what is drawn into the picture.

use vstd::prelude::*;

use crate::engine;
use crate::engine::Selection;
use crate::markup::Alignment;
use crate::media;
use crate::media::{StreamInfo, TrackKind, TrackView};
use crate::player::State;
use crate::render;
use crate::render::{Aspect, VideoRect};
use crate::subtitle;
use crate::subtitle::{BitmapRect, ContentView, CueView, RectView, SubtitleContent, SubtitleCue};
use crate::text;

verus! {

pub struct Stage {
    /// The text subtitle on screen, as markup. Images never appear here: they
    /// have to land inside the picture.
    pub text: Option<(String, Alignment)>,
    /// Changes whenever `text` does, so that the label is built anew only
    /// when there is something new.
    pub text_revision: u64,
    /// The generation of the cues already on screen.
    pub seen: u64,
}

/// The text that a set of cues shows: that of the last one that has any.
pub open spec fn text_of(cues: Seq<CueView>) -> Option<(Seq<char>, Alignment)>
    decreases cues.len(),
{
    if cues.len() == 0 {
        None
    } else {
        match cues.last().content {
            ContentView::Text { markup, alignment } => Some((markup, alignment)),
            _ => text_of(cues.drop_last()),
        }
    }
}

/// The images that a set of cues shows: all of them.
pub open spec fn bitmaps_of(cues: Seq<CueView>) -> Seq<RectView>
    decreases cues.len(),
{
    if cues.len() == 0 {
        Seq::empty()
    } else {
        match cues.last().content {
            ContentView::Bitmap { rects, .. } => bitmaps_of(cues.drop_last()) + rects,
            _ => bitmaps_of(cues.drop_last()),
        }
    }
}

/// The space that the images' coordinates are in: that of the last ones.
pub open spec fn reference_of(cues: Seq<CueView>) -> (u32, u32)
    decreases cues.len(),
{
    if cues.len() == 0 {
        (1920, 1080)
    } else {
        match cues.last().content {
            ContentView::Bitmap { reference, .. } => reference,
            _ => reference_of(cues.drop_last()),
        }
    }
}

pub open spec fn shown_text(t: Option<(String, Alignment)>) -> Option<(Seq<char>, Alignment)> {
    match t {
        Some((markup, alignment)) => Some((markup@, alignment)),
        None => None,
    }
}

fn same_text(a: &Option<(String, Alignment)>, b: &Option<(String, Alignment)>) -> (r: bool)
    ensures
        r == (shown_text(*a) == shown_text(*b)),
{
    match (a, b) {
        (Some((x, p)), Some((y, q))) => text::same_str(x.as_str(), y.as_str()) && *p == *q,
        (None, None) => true,
        _ => false,
    }
}

impl Stage {
    pub fn new() -> (r: Stage)
        ensures
            r.text is None,
            r.text_revision == 0,
            r.seen == u64::MAX,
    {
        Stage { text: None, text_revision: 0, seen: u64::MAX }
    }

    /// Takes a new set of visible cues. Returns the images to draw, and the
    /// space that their coordinates are in.
    pub fn show_cues(&mut self, generation: u64, cues: &Vec<SubtitleCue>) -> (r: (
        Vec<BitmapRect>,
        (u32, u32),
    ))
        ensures
            final(self).seen == generation,
            shown_text(final(self).text) == text_of(subtitle::cue_views(cues@)),
            final(self).text_revision == if shown_text(old(self).text) == text_of(
                subtitle::cue_views(cues@),
            ) {
                old(self).text_revision
            } else {
                old(self).text_revision.wrapping_add(1)
            },
            subtitle::rect_views(r.0@) == bitmaps_of(subtitle::cue_views(cues@)),
            r.1 == reference_of(subtitle::cue_views(cues@)),
    {
        self.seen = generation;
        let ghost all = subtitle::cue_views(cues@);
        let mut next: Option<(String, Alignment)> = None;
        let mut bitmaps: Vec<BitmapRect> = Vec::new();
        let mut reference: (u32, u32) = (1920, 1080);
        let mut i: usize = 0;
        assert(all.take(0) =~= Seq::<CueView>::empty());
        assert(subtitle::rect_views(bitmaps@) =~= Seq::<RectView>::empty());
        while i < cues.len()
            invariant
                i <= cues@.len(),
                all == subtitle::cue_views(cues@),
                shown_text(next) == text_of(all.take(i as int)),
                subtitle::rect_views(bitmaps@) == bitmaps_of(all.take(i as int)),
                reference == reference_of(all.take(i as int)),
            decreases cues@.len() - i,
        {
            let ghost longer = all.take(i + 1);
            assert(longer.drop_last() =~= all.take(i as int));
            assert(longer.last() == cues@[i as int]@);
            match &cues[i].content {
                SubtitleContent::Text { markup, alignment } => {
                    next = Some((markup.clone(), *alignment));
                },
                SubtitleContent::Bitmap { rects, reference: r } => {
                    let mut copy = subtitle::copy_rects(rects);
                    let ghost before = subtitle::rect_views(bitmaps@);
                    let ghost more = subtitle::rect_views(copy@);
                    bitmaps.append(&mut copy);
                    assert(subtitle::rect_views(bitmaps@) =~= before + more);
                    reference = *r;
                },
            }
            i = i + 1;
        }
        assert(all.take(i as int) =~= all);
        if !same_text(&self.text, &next) {
            self.text_revision = self.text_revision.wrapping_add(1);
            self.text = next;
        }
        (bitmaps, reference)
    }
}

/// Whether the stage is painted again at the next refresh of the display.
pub fn repaints(state: State) -> (r: bool)
    ensures
        r == (state is Playing),
{
    state == State::Playing
}

/// What the stage shows.
#[derive(Debug, Clone, Copy, PartialEq, Eq, Structural)]
pub enum Showing {
    /// The picture, or the backdrop until there is one.
    Picture,
    /// The spectrum of the sound.
    Spectrum,
}

/// What the stage shows: a file without a picture, once its sound flows, is
/// shown as a spectrum rather than as a black rectangle.
pub open spec fn showing_of(selection: Option<Selection>, audio_flows: bool) -> Showing {
    match selection {
        Some(s) if s.video is None && audio_flows => Showing::Spectrum,
        _ => Showing::Picture,
    }
}

pub fn showing(selection: Option<Selection>, audio_flows: bool) -> (r: Showing)
    ensures
        r == showing_of(selection, audio_flows),
{
    match selection {
        Some(s) => if s.video.is_none() && audio_flows {
            Showing::Spectrum
        } else {
            Showing::Picture
        },
        None => Showing::Picture,
    }
}

/// A file whose only picture is its cover has its spectrum shown: whatever
/// stream is the best one, no cover is a video track.
pub proof fn music_gets_a_spectrum(
    wanted: Selection,
    streams: Seq<StreamInfo>,
    count: usize,
    best_video: Option<usize>,
    best_audio: Option<usize>,
)
    requires
        forall|i: int|
            0 <= i < streams.len() && (#[trigger] streams[i]).medium is Video
                ==> streams[i].attached_pic,
    ensures
        ({
            let tracks = media::tracks_from(streams);
            let s = engine::selection_of(wanted, count, best_video, best_audio, tracks);
            showing_of(Some(s), true) is Spectrum
        }),
{
    let tracks = media::tracks_from(streams);
    media::cover_art_is_no_track(streams);
    assert forall|i: int| 0 <= i < tracks.len() implies (#[trigger] tracks[i]).kind
        != TrackKind::Video by {
        no_track_of_kind(tracks, TrackKind::Video, i);
    }
}

proof fn no_track_of_kind(tracks: Seq<TrackView>, kind: TrackKind, i: int)
    requires
        media::of_kind(tracks, kind).len() == 0,
        0 <= i < tracks.len(),
    ensures
        tracks[i].kind != kind,
    decreases tracks.len(),
{
    if i < tracks.len() - 1 {
        no_track_of_kind(tracks.drop_last(), kind, i);
    }
}

// ── Placing a text subtitle ─────────────────────────────────────────────

/// Height kept free for the transport bar, so that a caption is never drawn
/// underneath the controls.
pub const TRANSPORT_CLEARANCE: i64 = 150;

/// Where on the stage a caption is anchored.
#[derive(Debug, Clone, Copy, PartialEq, Eq, Structural)]
pub enum Anchor {
    Top,
    Bottom,
}

/// A caption over the middle of the picture is worse than one that is low, so
/// only the top is kept apart.
pub fn anchor_of(alignment: Alignment) -> (r: Anchor)
    ensures
        r == if alignment is Top {
            Anchor::Top
        } else {
            Anchor::Bottom
        },
{
    match alignment {
        Alignment::Top => Anchor::Top,
        Alignment::Middle | Alignment::Bottom => Anchor::Bottom,
    }
}

/// How far a caption is kept from the edges of the stage.
#[derive(Debug, Clone, Copy, PartialEq, Eq, Structural)]
pub struct Margins {
    pub sides: i64,
    /// From the top or the bottom, by its anchor.
    pub edge: i64,
}

/// Whether a rectangle lies on a display: sizes are whole pixels that fit the
/// type that displays are measured in.
pub open spec fn on_display(rect: VideoRect) -> bool {
    &&& 0 < rect.den <= 0x2_0000_0000
    &&& 0 <= rect.x && 0 <= rect.y && 0 <= rect.w && 0 <= rect.h
    &&& rect.x + rect.w <= 0x7fff_ffff * rect.den
    &&& rect.y + rect.h <= 0x7fff_ffff * rect.den
}

/// A twentieth of the picture in from its side, in widget pixels.
pub open spec fn side_margin(rect: VideoRect, scale: int) -> int {
    (20 * rect.x + rect.w) / (20 * rect.den * scale)
}

/// A twentieth of the picture down from its top.
pub open spec fn top_margin(rect: VideoRect, scale: int) -> int {
    (20 * rect.y + rect.h) / (20 * rect.den * scale)
}

/// Six hundredths of the picture up from its bottom, given the height of the
/// stage, and always clear of the transport bar.
pub open spec fn bottom_margin(rect: VideoRect, scale: int, height: int) -> int {
    let unit = rect.den * scale;
    let below = if height * unit > rect.y + rect.h {
        height * unit - (rect.y + rect.h)
    } else {
        0
    };
    let inset = (100 * below + 6 * rect.h) / (100 * unit);
    if inset < TRANSPORT_CLEARANCE {
        TRANSPORT_CLEARANCE as int
    } else {
        inset
    }
}

fn floor(num: i128, den: i128, most: i128) -> (r: i64)
    requires
        0 <= num <= most * den,
        0 < den,
        0 <= most <= i64::MAX,
    ensures
        r == num as int / den as int,
{
    assert(0 <= (num as int) / (den as int) && (num as int) / (den as int) <= most) by {
        vstd::arithmetic::div_mod::lemma_div_pos_is_pos(num as int, den as int);
        vstd::arithmetic::div_mod::lemma_div_is_ordered(num as int, most * den, den as int);
        vstd::arithmetic::div_mod::lemma_div_by_multiple(most as int, den as int);
    }
    (num / den) as i64
}

/// Keeps a caption inside the picture, not the stage: for a wide film in a
/// taller window those are different rectangles, and a caption placed against
/// the stage would sit in the bar below the image. `rect` is in device
/// pixels, of which there are `scale` to one of the stage's. Without a
/// picture of any size nothing is placed.
pub fn place_subtitle(rect: &VideoRect, scale: i32, height: i32, anchor: Anchor) -> (r: Option<
    Margins,
>)
    requires
        on_display(*rect),
        scale > 0,
        height >= 0,
    ensures
        r is None <==> rect.w <= rect.den * scale || rect.h <= rect.den * scale,
        r matches Some(m) ==> {
            &&& m.sides == side_margin(*rect, scale as int)
            &&& m.edge == match anchor {
                Anchor::Top => top_margin(*rect, scale as int),
                Anchor::Bottom => bottom_margin(*rect, scale as int, height as int),
            }
        },
{
    let den: i128 = rect.den;
    let s: i128 = scale as i128;
    assert(0 < den * s <= 0x2_0000_0000 * 0x8000_0000) by (nonlinear_arith)
        requires
            0 < den <= 0x2_0000_0000,
            0 < s <= 0x7fff_ffff,
    ;
    let unit: i128 = den * s;
    if rect.w <= unit || rect.h <= unit {
        return None;
    }
    assert(20 * den * s == 20 * unit) by (nonlinear_arith)
        requires
            unit == den * s,
    ;
    assert(0x7fff_ffff * den <= 0x7fff_ffff * unit) by (nonlinear_arith)
        requires
            unit == den * s,
            s >= 1,
            den > 0,
    ;
    let sides: i64 = floor(20 * rect.x + rect.w, 20 * unit, 0x7fff_ffff);
    let edge: i64 = match anchor {
        Anchor::Top => floor(20 * rect.y + rect.h, 20 * unit, 0x7fff_ffff),
        Anchor::Bottom => {
            let h: i128 = height as i128;
            assert(0 <= h * unit <= 0x8000_0000 * 0x2_0000_0000 * 0x8000_0000) by (nonlinear_arith)
                requires
                    0 <= h <= 0x7fff_ffff,
                    0 < unit <= 0x2_0000_0000 * 0x8000_0000,
            ;
            let stage: i128 = h * unit;
            let below: i128 = if stage > rect.y + rect.h {
                stage - (rect.y + rect.h)
            } else {
                0
            };
            assert(h * unit <= 0x7fff_ffff * unit) by (nonlinear_arith)
                requires
                    0 <= h <= 0x7fff_ffff,
                    0 < unit,
            ;
            let inset: i64 = floor(100 * below + 6 * rect.h, 100 * unit, 0x1_0000_0000);
            if inset < TRANSPORT_CLEARANCE {
                TRANSPORT_CLEARANCE
            } else {
                inset
            }
        },
    };
    Some(Margins { sides: sides, edge: edge })
}

// ── Laws ────────────────────────────────────────────────────────────────

/// Wherever the picture is put in a viewport, it lies on the display, so a
/// caption can be placed in it.
pub proof fn pictures_are_on_display(aspect: Aspect, width: i32, height: i32)
    requires
        aspect.height > 0,
        width > 0,
        height > 0,
    ensures
        on_display(render::placed(aspect, width, height)),
{
    render::the_picture_fits(aspect, width, height);
    let r = render::placed(aspect, width, height);
    let den = r.den as int;
    assert(width * den <= 0x7fff_ffff * den && height * den <= 0x7fff_ffff * den)
        by (nonlinear_arith)
        requires
            0 < width <= 0x7fff_ffff,
            0 < height <= 0x7fff_ffff,
            0 < den,
    ;
}

/// A caption at the bottom is always clear of the transport bar.
pub proof fn captions_clear_the_transport(rect: VideoRect, scale: int, height: int)
    ensures
        bottom_margin(rect, scale, height) >= TRANSPORT_CLEARANCE,
{
}

/// A caption at the bottom is not below the picture: its margin is at least
/// the bar below it.
pub proof fn captions_stay_off_the_bar_below(rect: VideoRect, scale: int, height: int)
    requires
        on_display(rect),
        scale > 0,
        height >= 0,
        height * (rect.den * scale) >= rect.y + rect.h,
    ensures
        (bottom_margin(rect, scale, height) + 1) * (rect.den * scale) > height * (rect.den
            * scale) - (rect.y + rect.h),
{
    let unit = rect.den * scale;
    assert(unit > 0) by (nonlinear_arith)
        requires
            unit == rect.den * scale,
            rect.den > 0,
            scale > 0,
    ;
    let below = height * unit - (rect.y + rect.h);
    let num = 100 * below + 6 * rect.h;
    let inset = num / (100 * unit);
    vstd::arithmetic::div_mod::lemma_fundamental_div_mod(num, 100 * unit);
    vstd::arithmetic::div_mod::lemma_mod_bound(num, 100 * unit);
    assert(num < (100 * unit) * inset + 100 * unit);
    assert((100 * unit) * inset + 100 * unit == 100 * ((inset + 1) * unit)) by (nonlinear_arith);
    assert((inset + 1) * unit > below);
    let m = bottom_margin(rect, scale, height);
    assert((m + 1) * unit >= (inset + 1) * unit) by (nonlinear_arith)
        requires
            m >= inset,
            unit > 0,
    ;
}

proof fn whole_pixels(a: int, d: int)
    requires
        d > 0,
    ensures
        (a / d) * d <= a < (a / d + 1) * d,
{
    vstd::arithmetic::div_mod::lemma_fundamental_div_mod(a, d);
    vstd::arithmetic::div_mod::lemma_mod_bound(a, d);
    let q = a / d;
    assert(d * q == q * d) by (nonlinear_arith);
    assert((q + 1) * d == q * d + d) by (nonlinear_arith);
}

/// A caption stays inside the picture by a twentieth of its size at the sides
/// and at the top, to the pixel.
pub proof fn captions_keep_to_the_picture(rect: VideoRect, scale: int)
    requires
        on_display(rect),
        scale > 0,
    ensures
        ({
            let pixel = 20 * rect.den * scale;
            &&& side_margin(rect, scale) * pixel <= 20 * rect.x + rect.w < (side_margin(rect, scale)
                + 1) * pixel
            &&& top_margin(rect, scale) * pixel <= 20 * rect.y + rect.h < (top_margin(rect, scale)
                + 1) * pixel
        }),
{
    let pixel = 20 * rect.den * scale;
    assert(pixel > 0) by (nonlinear_arith)
        requires
            pixel == 20 * rect.den * scale,
            rect.den > 0,
            scale > 0,
    ;
    whole_pixels(20 * rect.x + rect.w, pixel);
    whole_pixels(20 * rect.y + rect.h, pixel);
}

/// At the bottom it is six hundredths of the picture, to the pixel, and as
/// much more as lies below the picture; the transport bar is always clear.
pub proof fn captions_stand_off_the_bottom(rect: VideoRect, scale: int, height: int)
    requires
        on_display(rect),
        scale > 0,
        height * (rect.den * scale) >= rect.y + rect.h,
    ensures
        ({
            let unit = rect.den * scale;
            let m = bottom_margin(rect, scale, height);
            let exact = 100 * (height * unit - rect.y - rect.h) + 6 * rect.h;
            &&& m >= 150
            &&& exact < (m + 1) * (100 * unit)
            &&& m > 150 ==> m * (100 * unit) <= exact
        }),
{
    let unit = rect.den * scale;
    assert(unit > 0) by (nonlinear_arith)
        requires
            unit == rect.den * scale,
            rect.den > 0,
            scale > 0,
    ;
    let below = height * unit - (rect.y + rect.h);
    whole_pixels(100 * below + 6 * rect.h, 100 * unit);
    let inset = (100 * below + 6 * rect.h) / (100 * unit);
    if inset < 150 {
        assert((inset + 1) * (100 * unit) <= 151 * (100 * unit)) by (nonlinear_arith)
            requires
                inset < 150,
                unit > 0,
        ;
    }
}

/// The text on screen is that of the last cue that has any.
pub proof fn the_last_text_is_shown(cues: Seq<CueView>, i: int)
    requires
        0 <= i < cues.len(),
        cues[i].content is Text,
        forall|j: int| i < j < cues.len() ==> !((#[trigger] cues[j]).content is Text),
    ensures
        text_of(cues) matches Some((markup, alignment)) && cues[i].content == (ContentView::Text {
            markup: markup,
            alignment: alignment,
        }),
    decreases cues.len(),
{
    if i < cues.len() - 1 {
        assert(!(cues[cues.len() - 1].content is Text));
        let init = cues.drop_last();
        assert forall|j: int| i < j < init.len() implies !((#[trigger] init[j]).content
            is Text) by {
            assert(!(cues[j].content is Text));
        }
        the_last_text_is_shown(init, i);
    }
}

/// Without a text cue there is no text, and without an image no image; every
/// image of every cue is shown, in order.
pub proof fn every_cue_is_shown(cues: Seq<CueView>, cue: CueView)
    ensures
        text_of(Seq::<CueView>::empty()) is None,
        bitmaps_of(Seq::<CueView>::empty()).len() == 0,
        !(cue.content is Text) ==> text_of(cues.push(cue)) == text_of(cues),
        cue.content matches ContentView::Bitmap { rects, reference } ==> bitmaps_of(cues.push(cue))
            == bitmaps_of(cues) + rects && reference_of(cues.push(cue)) == reference,
        cue.content is Text ==> bitmaps_of(cues.push(cue)) == bitmaps_of(cues) && reference_of(
            cues.push(cue),
        ) == reference_of(cues),
{
    assert(cues.push(cue).drop_last() =~= cues);
}

/// A file with a picture shows it, and so does anything whose sound does not
/// flow: the spectrum is for sound alone.
pub proof fn a_picture_is_shown(selection: Option<Selection>, audio_flows: bool)
    ensures
        showing_of(selection, audio_flows) is Spectrum <==> audio_flows && selection is Some
            && selection->0.video is None,
{
}

} // verus!

//! Subtitle cues: what comes out of a subtitle decoder, and how it becomes
//! something drawable.
//!
//! Text formats arrive as ASS dialogue lines, bitmap formats as paletted
//! images with a coordinate space of their own. Both arrive with timing
//! relative to their packet, not to the file.

use vstd::prelude::*;

use crate::markup;
use crate::markup::{ass_dialogue_text, ass_to_markup, Alignment};
use crate::markup_laws;
use crate::text;
use crate::time;
use crate::time::{TimeBase, MICROSECOND, MILLISECOND};

verus! {

// ── Cues ────────────────────────────────────────────────────────────────

/// One image, already expanded to RGBA. Its position is within the
/// subtitle's own coordinate space.
#[derive(Debug)]
pub struct BitmapRect {
    pub x: u32,
    pub y: u32,
    pub width: u32,
    pub height: u32,
    /// Straight RGBA, `width * height * 4` bytes.
    pub rgba: Vec<u8>,
}

#[derive(Debug)]
pub enum SubtitleContent {
    /// Pango markup, ready to hand to a label.
    Text { markup: String, alignment: Alignment },
    /// Images to composite, in the coordinate space given by `reference`.
    Bitmap { rects: Vec<BitmapRect>, reference: (u32, u32) },
}

#[derive(Debug)]
pub struct SubtitleCue {
    pub start: i64,
    pub end: i64,
    pub content: SubtitleContent,
}

/// A bitmap as a value.
pub struct RectView {
    pub x: u32,
    pub y: u32,
    pub width: u32,
    pub height: u32,
    pub rgba: Seq<u8>,
}

/// What a cue shows, as a value.
pub enum ContentView {
    Text { markup: Seq<char>, alignment: Alignment },
    Bitmap { rects: Seq<RectView>, reference: (u32, u32) },
}

/// A cue as a value.
pub struct CueView {
    pub start: int,
    pub end: int,
    pub content: ContentView,
}

impl View for BitmapRect {
    type V = RectView;

    open spec fn view(&self) -> RectView {
        RectView {
            x: self.x,
            y: self.y,
            width: self.width,
            height: self.height,
            rgba: self.rgba@,
        }
    }
}

pub open spec fn rect_views(rects: Seq<BitmapRect>) -> Seq<RectView> {
    rects.map_values(|r: BitmapRect| r@)
}

impl View for SubtitleContent {
    type V = ContentView;

    open spec fn view(&self) -> ContentView {
        match self {
            SubtitleContent::Text { markup, alignment } => ContentView::Text {
                markup: markup@,
                alignment: *alignment,
            },
            SubtitleContent::Bitmap { rects, reference } => ContentView::Bitmap {
                rects: rect_views(rects@),
                reference: *reference,
            },
        }
    }
}

impl View for SubtitleCue {
    type V = CueView;

    open spec fn view(&self) -> CueView {
        CueView { start: self.start as int, end: self.end as int, content: self.content@ }
    }
}

pub open spec fn cue_views(cues: Seq<SubtitleCue>) -> Seq<CueView> {
    cues.map_values(|c: SubtitleCue| c@)
}

impl CueView {
    /// Whether the cue is on screen at `t`.
    pub open spec fn covers(self, t: int) -> bool {
        self.start <= t < self.end
    }

    /// Whether the cue shows nothing and only ends the one before it.
    pub open spec fn is_empty(self) -> bool {
        match self.content {
            ContentView::Text { markup, .. } => markup.len() == 0,
            ContentView::Bitmap { rects, .. } => rects.len() == 0,
        }
    }
}

impl Clone for BitmapRect {
    fn clone(&self) -> (r: BitmapRect)
        ensures
            r@ == self@,
    {
        BitmapRect {
            x: self.x,
            y: self.y,
            width: self.width,
            height: self.height,
            rgba: copy_bytes(&self.rgba),
        }
    }
}

fn copy_bytes(bytes: &Vec<u8>) -> (r: Vec<u8>)
    ensures
        r@ == bytes@,
{
    let r = bytes.clone();
    assert(r@ =~= bytes@);
    r
}

/// A copy of a list of images.
pub fn copy_rects(rects: &Vec<BitmapRect>) -> (r: Vec<BitmapRect>)
    ensures
        rect_views(r@) == rect_views(rects@),
{
    let mut r: Vec<BitmapRect> = Vec::new();
    let mut i: usize = 0;
    while i < rects.len()
        invariant
            i <= rects@.len(),
            rect_views(r@) == rect_views(rects@).take(i as int),
        decreases rects@.len() - i,
    {
        let ghost before = rect_views(r@);
        let copy = rects[i].clone();
        r.push(copy);
        assert(rect_views(r@) =~= before.push(copy@));
        assert(rect_views(r@) =~= rect_views(rects@).take(i + 1));
        i = i + 1;
    }
    assert(rect_views(r@) =~= rect_views(rects@));
    r
}

impl Clone for SubtitleContent {
    fn clone(&self) -> (r: SubtitleContent)
        ensures
            r@ == self@,
    {
        match self {
            SubtitleContent::Text { markup, alignment } => SubtitleContent::Text {
                markup: markup.clone(),
                alignment: *alignment,
            },
            SubtitleContent::Bitmap { rects, reference } => SubtitleContent::Bitmap {
                rects: copy_rects(rects),
                reference: *reference,
            },
        }
    }
}

impl Clone for SubtitleCue {
    fn clone(&self) -> (r: SubtitleCue)
        ensures
            r@ == self@,
    {
        SubtitleCue { start: self.start, end: self.end, content: self.content.clone() }
    }
}

impl SubtitleCue {
    pub fn covers(&self, t: i64) -> (r: bool)
        ensures
            r == self@.covers(t as int),
    {
        t >= self.start && t < self.end
    }

    /// Whether the cue shows nothing and only ends the one before it.
    pub fn is_empty(&self) -> (r: bool)
        ensures
            r == self@.is_empty(),
    {
        match &self.content {
            SubtitleContent::Text { markup, .. } => markup.as_str().is_empty(),
            SubtitleContent::Bitmap { rects, .. } => rects.is_empty(),
        }
    }
}

// ── Paletted bitmaps ────────────────────────────────────────────────────

/// The palette entry of the pixel at `(x, y)`, as an ARGB word: none where
/// the row is not wholly there or the index is past the end of the palette.
pub open spec fn palette_entry(
    indices: Seq<u8>,
    stride: int,
    palette: Seq<u32>,
    width: int,
    x: int,
    y: int,
) -> Option<u32> {
    if y * stride + width <= indices.len() && indices[y * stride + x] < palette.len() {
        Some(palette[indices[y * stride + x] as int])
    } else {
        None
    }
}

/// The four RGBA bytes of a pixel. A pixel without an entry, or whose entry
/// is fully transparent, is all zeros.
pub open spec fn pixel_bytes(entry: Option<u32>) -> Seq<u8> {
    match entry {
        Some(argb) if argb / 0x100_0000 != 0 => seq![
            (argb / 0x1_0000 % 0x100) as u8,
            (argb / 0x100 % 0x100) as u8,
            (argb % 0x100) as u8,
            (argb / 0x100_0000) as u8,
        ],
        _ => seq![0u8, 0u8, 0u8, 0u8],
    }
}

/// The bytes of a whole image, row by row.
pub open spec fn image_bytes(
    indices: Seq<u8>,
    stride: int,
    palette: Seq<u32>,
    width: int,
    height: int,
) -> Seq<u8> {
    Seq::new(
        (width * height * 4) as nat,
        |i: int|
            pixel_bytes(
                palette_entry(indices, stride, palette, width, (i / 4) % width, (i / 4) / width),
            )[i % 4],
    )
}

fn push_pixel(rgba: &mut Vec<u8>, argb: u32)
    ensures
        final(rgba)@ == old(rgba)@ + pixel_bytes(Some(argb)),
{
    let ghost before = rgba@;
    let alpha: u32 = argb / 0x100_0000;
    if alpha == 0 {
        push_clear(rgba);
    } else {
        rgba.push((argb / 0x1_0000 % 0x100) as u8);
        rgba.push((argb / 0x100 % 0x100) as u8);
        rgba.push((argb % 0x100) as u8);
        rgba.push(alpha as u8);
    }
    assert(rgba@ =~= before + pixel_bytes(Some(argb)));
}

fn push_clear(rgba: &mut Vec<u8>)
    ensures
        final(rgba)@ == old(rgba)@ + pixel_bytes(None),
{
    let ghost before = rgba@;
    rgba.push(0);
    rgba.push(0);
    rgba.push(0);
    rgba.push(0);
    assert(rgba@ =~= before + pixel_bytes(None));
}

/// Expands a paletted subtitle image into straight RGBA.
///
/// `stride` is the distance between rows in `indices`, and is usually wider
/// than `width`. Missing rows and out-of-range indices stay transparent: a
/// malformed stream is not a reason to drop the whole cue.
pub fn expand_palette(
    indices: &[u8],
    stride: usize,
    palette: &[u32],
    width: usize,
    height: usize,
) -> (rgba: Vec<u8>)
    requires
        width * height * 4 <= isize::MAX,
    ensures
        rgba@ == image_bytes(indices@, stride as int, palette@, width as int, height as int),
        rgba@.len() == width * height * 4,
{
    let ghost all = image_bytes(indices@, stride as int, palette@, width as int, height as int);
    let mut rgba: Vec<u8> = Vec::new();
    let mut y: usize = 0;
    assert(0 <= width * height) by (nonlinear_arith)
        requires
            width >= 0,
            height >= 0,
    ;
    assert(rgba@ =~= all.take(0));
    while y < height
        invariant
            y <= height,
            width * height * 4 <= isize::MAX,
            0 <= width * height,
            all == image_bytes(
                indices@,
                stride as int,
                palette@,
                width as int,
                height as int,
            ),
            all.len() == width * height * 4,
            rgba@ == all.take((y * width) * 4),
        decreases height - y,
    {
        assert(y * stride + width <= u128::MAX) by (nonlinear_arith)
            requires
                0 <= y <= 0xffff_ffff_ffff_ffff,
                0 <= stride <= 0xffff_ffff_ffff_ffff,
                0 <= width <= 0xffff_ffff_ffff_ffff,
        ;
        assert(0 <= y * stride) by (nonlinear_arith)
            requires
                y >= 0,
                stride >= 0,
        ;
        let start: u128 = y as u128 * stride as u128;
        let whole: bool = start + width as u128 <= indices.len() as u128;
        let mut x: usize = 0;
        assert(y * width + width <= width * height) by (nonlinear_arith)
            requires
                y + 1 <= height,
                width >= 0,
        ;
        assert(0 <= y * width) by (nonlinear_arith)
            requires
                y >= 0,
                width >= 0,
        ;
        while x < width
            invariant
                x <= width,
                y < height,
                0 <= y * width,
                y * width + width <= width * height,
                start == y * stride,
                whole == (y * stride + width <= indices.len()),
                all == image_bytes(
                    indices@,
                    stride as int,
                    palette@,
                    width as int,
                    height as int,
                ),
                all.len() == width * height * 4,
                rgba@ == all.take((y * width + x) * 4),
            decreases width - x,
        {
            let ghost before = rgba@;
            let ghost p = y * width + x;
            let ghost entry = palette_entry(
                indices@,
                stride as int,
                palette@,
                width as int,
                x as int,
                y as int,
            );
            if whole {
                let index: usize = indices[start as usize + x] as usize;
                if index < palette.len() {
                    push_pixel(&mut rgba, palette[index]);
                } else {
                    push_clear(&mut rgba);
                }
            } else {
                push_clear(&mut rgba);
            }
            assert(rgba@ == before + pixel_bytes(entry));
            proof {
                vstd::arithmetic::div_mod::lemma_fundamental_div_mod_converse(
                    p,
                    width as int,
                    y as int,
                    x as int,
                );
                assert(p / width as int == y && p % width as int == x);
                let next = all.take((p + 1) * 4);
                assert forall|i: int| 0 <= i < next.len() implies rgba@[i] == next[i] by {
                    if i < p * 4 {
                        assert(rgba@[i] == before[i]);
                        assert(before[i] == all.take(p * 4)[i]);
                    } else {
                        assert(i / 4 == p);
                        assert(i % 4 == i - p * 4);
                    }
                }
                assert(rgba@ =~= next);
            }
            x = x + 1;
        }
        assert((y + 1) * width == y * width + width) by (nonlinear_arith);
        y = y + 1;
    }
    assert(height * width == width * height) by (nonlinear_arith);
    assert(rgba@ =~= all);
    rgba
}

/// A paletted image as a decoder describes it.
pub struct PalettedImage<'a> {
    pub x: i32,
    pub y: i32,
    pub width: u32,
    pub height: u32,
    pub stride: u32,
    pub indices: Option<&'a [u8]>,
    pub palette: Option<&'a [u32]>,
}

/// Whether a decoder's image can be drawn at all.
pub open spec fn drawable(image: PalettedImage) -> bool {
    image.width > 0 && image.height > 0 && image.stride > 0 && image.indices is Some
        && image.palette is Some
}

pub open spec fn at_least_zero(v: i32) -> u32 {
    if v < 0 {
        0
    } else {
        v as u32
    }
}

/// Turns a decoder's image into one that can be drawn: none when it has no
/// area, no rows or no pixels. A negative position is read as zero.
pub fn bitmap_to_rgba(image: &PalettedImage) -> (r: Option<BitmapRect>)
    requires
        image.width * image.height * 4 <= isize::MAX,
    ensures
        r is Some <==> drawable(*image),
        r matches Some(rect) ==> rect@ == (RectView {
            x: at_least_zero(image.x),
            y: at_least_zero(image.y),
            width: image.width,
            height: image.height,
            rgba: image_bytes(
                image.indices->0@,
                image.stride as int,
                image.palette->0@,
                image.width as int,
                image.height as int,
            ),
        }),
{
    if image.width == 0 || image.height == 0 || image.stride == 0 {
        return None;
    }
    match (image.indices, image.palette) {
        (Some(indices), Some(palette)) => {
            let rgba = expand_palette(
                indices,
                image.stride as usize,
                palette,
                image.width as usize,
                image.height as usize,
            );
            Some(
                BitmapRect {
                    x: if image.x < 0 {
                        0
                    } else {
                        image.x as u32
                    },
                    y: if image.y < 0 {
                        0
                    } else {
                        image.y as u32
                    },
                    width: image.width,
                    height: image.height,
                    rgba: rgba,
                },
            )
        },
        _ => None,
    }
}

// ── From a decoded subtitle to cues ─────────────────────────────────────

/// One rectangle of a decoded subtitle.
pub enum DecodedRect {
    /// A dialogue line.
    Ass(String),
    /// Plain text, which may still hold override tags.
    Text(String),
    /// An image, if it could be drawn.
    Bitmap(Option<BitmapRect>),
    Nothing,
}

/// The ASS text of a rectangle, if it is a text one.
pub open spec fn rect_text(rect: DecodedRect) -> Option<Seq<char>> {
    match rect {
        DecodedRect::Ass(line) => Some(markup::dialogue_text(line@)),
        DecodedRect::Text(t) => Some(t@),
        _ => None,
    }
}

/// Whether a rectangle adds a line of text.
pub open spec fn adds_line(rect: DecodedRect) -> bool {
    rect_text(rect) matches Some(t) && markup::markup_of(t).len() > 0
}

/// The lines of text of a subtitle, in order.
pub open spec fn text_lines(rects: Seq<DecodedRect>) -> Seq<Seq<char>>
    decreases rects.len(),
{
    if rects.len() == 0 {
        Seq::empty()
    } else if adds_line(rects.last()) {
        text_lines(rects.drop_last()).push(markup::markup_of(rect_text(rects.last())->0))
    } else {
        text_lines(rects.drop_last())
    }
}

/// The alignment of the last line of text.
pub open spec fn lines_alignment(rects: Seq<DecodedRect>) -> Alignment
    decreases rects.len(),
{
    if rects.len() == 0 {
        Alignment::Bottom
    } else if adds_line(rects.last()) {
        markup::alignment_of(rect_text(rects.last())->0)
    } else {
        lines_alignment(rects.drop_last())
    }
}

/// The images of a subtitle, in order.
pub open spec fn images(rects: Seq<DecodedRect>) -> Seq<RectView>
    decreases rects.len(),
{
    if rects.len() == 0 {
        Seq::empty()
    } else {
        match rects.last() {
            DecodedRect::Bitmap(Some(b)) => images(rects.drop_last()).push(b@),
            _ => images(rects.drop_last()),
        }
    }
}

/// The cues of one decoded subtitle: the images together in one, the lines
/// of text joined in another. A subtitle with no rectangles at all says
/// "nothing now", and is one empty cue.
pub open spec fn cues_of(
    rects: Seq<DecodedRect>,
    start: int,
    end: int,
    reference: (u32, u32),
) -> Seq<CueView> {
    let pictures = images(rects);
    let lines = text_lines(rects);
    let first = if pictures.len() > 0 || rects.len() == 0 {
        seq![
            CueView {
                start: start,
                end: end,
                content: ContentView::Bitmap { rects: pictures, reference: reference },
            },
        ]
    } else {
        Seq::empty()
    };
    let second = if lines.len() > 0 {
        seq![
            CueView {
                start: start,
                end: end,
                content: ContentView::Text {
                    markup: text::joined(lines, "\n"@),
                    alignment: lines_alignment(rects),
                },
            },
        ]
    } else {
        Seq::empty()
    };
    first + second
}

/// Every line of a subtitle is markup whose tags nest.
proof fn lines_nest(rects: Seq<DecodedRect>)
    ensures
        forall|i: int|
            0 <= i < text_lines(rects).len() ==> markup_laws::well_nested(
                #[trigger] text_lines(rects)[i],
            ),
    decreases rects.len(),
{
    if rects.len() > 0 {
        let before = text_lines(rects.drop_last());
        lines_nest(rects.drop_last());
        assert forall|i: int| 0 <= i < text_lines(rects).len() implies markup_laws::well_nested(
            #[trigger] text_lines(rects)[i],
        ) by {
            if i < before.len() {
                assert(text_lines(rects)[i] == before[i]);
            } else {
                markup_laws::markup_nests(rect_text(rects.last())->0);
            }
        }
    }
}

/// The text of every cue is markup whose tags nest and are all closed, from
/// however many lines it was put together.
pub proof fn cue_text_nests(
    rects: Seq<DecodedRect>,
    start: int,
    end: int,
    reference: (u32, u32),
    i: int,
)
    requires
        0 <= i < cues_of(rects, start, end, reference).len(),
    ensures
        cues_of(rects, start, end, reference)[i].content matches ContentView::Text { markup, .. }
            ==> markup_laws::well_nested(markup),
{
    lines_nest(rects);
    markup_laws::joined_lines_nest(text_lines(rects));
}

/// Turns one decoded subtitle into cues.
pub fn cues_from(
    rects: Vec<DecodedRect>,
    start: i64,
    end: i64,
    reference: (u32, u32),
) -> (cues: Vec<SubtitleCue>)
    ensures
        cue_views(cues@) == cues_of(rects@, start as int, end as int, reference),
{
    let ghost all = rects@;
    let mut lines: Vec<String> = Vec::new();
    let mut alignment = Alignment::Bottom;
    let mut pictures: Vec<BitmapRect> = Vec::new();
    let count: usize = rects.len();
    let mut i: usize = 0;
    assert(all.take(0) =~= Seq::<DecodedRect>::empty());
    assert(rect_views(pictures@) =~= Seq::<RectView>::empty());
    assert(text::texts(lines@) =~= Seq::<Seq<char>>::empty());
    while i < count
        invariant
            i <= count == rects@.len(),
            all == rects@,
            text::texts(lines@) == text_lines(all.take(i as int)),
            alignment == lines_alignment(all.take(i as int)),
            rect_views(pictures@) == images(all.take(i as int)),
        decreases count - i,
    {
        let ghost next = all.take(i + 1);
        assert(next.drop_last() =~= all.take(i as int));
        assert(next.last() == all[i as int]);
        let ghost lines_before = lines@;
        let ghost pictures_before = pictures@;
        match &rects[i] {
            DecodedRect::Ass(line) => {
                let (m, a) = ass_to_markup(ass_dialogue_text(line.as_str()));
                if !m.as_str().is_empty() {
                    lines.push(m);
                    alignment = a;
                    assert(text::texts(lines@) =~= text::texts(lines_before).push(m@));
                }
            },
            DecodedRect::Text(t) => {
                let (m, a) = ass_to_markup(t.as_str());
                if !m.as_str().is_empty() {
                    lines.push(m);
                    alignment = a;
                    assert(text::texts(lines@) =~= text::texts(lines_before).push(m@));
                }
            },
            DecodedRect::Bitmap(Some(b)) => {
                pictures.push(b.clone());
                assert(rect_views(pictures@) =~= rect_views(pictures_before).push(b@));
            },
            _ => {},
        }
        i = i + 1;
    }
    assert(all.take(count as int) =~= all);
    let ghost shown = rect_views(pictures@);
    let ghost texts = text::texts(lines@);
    assert(shown.len() == pictures@.len());
    assert(texts.len() == lines@.len());
    let mut cues: Vec<SubtitleCue> = Vec::new();
    if !pictures.is_empty() || count == 0 {
        cues.push(
            SubtitleCue {
                start: start,
                end: end,
                content: SubtitleContent::Bitmap { rects: pictures, reference: reference },
            },
        );
    }
    if !lines.is_empty() {
        let joined = text::join(&lines, "\n");
        let m = text::string_of(&joined);
        cues.push(
            SubtitleCue {
                start: start,
                end: end,
                content: SubtitleContent::Text { markup: m, alignment: alignment },
            },
        );
    }
    assert(cue_views(cues@) =~= cues_of(all, start as int, end as int, reference));
    cues
}

// ── Timing ──────────────────────────────────────────────────────────────

/// How long a cue that states no end stays up, unless the next one comes.
pub const OPEN_ENDED: i64 = 30_000_000_000;

/// What a decoded subtitle and its packet say about when it is shown.
#[derive(Debug, Clone, Copy)]
pub struct SubtitleTiming {
    /// Where the decoder places the subtitle, in microseconds.
    pub pts: Option<i64>,
    /// Where the packet is placed, in ticks.
    pub packet_pts: Option<i64>,
    /// How long the packet lasts, in ticks.
    pub packet_duration: i64,
    /// Milliseconds from the placement to the start of the display.
    pub display_start: u32,
    /// Milliseconds from the placement to the end of the display; zero or
    /// the largest value when the format does not say.
    pub display_end: u32,
}

/// Where a subtitle is placed in the file.
pub open spec fn cue_base(t: SubtitleTiming, base: TimeBase) -> int {
    match (t.pts, t.packet_pts) {
        (Some(pts), _) => time::clamped(pts * MICROSECOND),
        (None, Some(ticks)) => time::ticks_time(ticks as int, base),
        (None, None) => 0,
    }
}

pub open spec fn cue_start(t: SubtitleTiming, base: TimeBase) -> int {
    time::clamped(cue_base(t, base) + t.display_start * MILLISECOND)
}

/// When a cue ends: where its decoder says, else after the length of its
/// packet, else provisionally, until the next cue cuts it short.
pub open spec fn cue_end(t: SubtitleTiming, base: TimeBase) -> int {
    if t.display_end > 0 && t.display_end != u32::MAX {
        time::clamped(cue_base(t, base) + t.display_end * MILLISECOND)
    } else if t.packet_duration > 0 {
        time::clamped(cue_start(t, base) + time::ticks_time(t.packet_duration as int, base))
    } else {
        time::clamped(cue_start(t, base) + OPEN_ENDED)
    }
}

/// When a cue starts and ends.
pub fn cue_times(t: &SubtitleTiming, base: TimeBase) -> (r: (i64, i64))
    requires
        base.den > 0,
    ensures
        r.0 == cue_start(*t, base),
        r.1 == cue_end(*t, base),
{
    let place: i64 = match (t.pts, t.packet_pts) {
        (Some(pts), _) => time::clamp_time(pts as i128 * 1_000),
        (None, Some(ticks)) => base.time_of(ticks),
        (None, None) => 0,
    };
    let start: i64 = time::plus(place, t.display_start as i64 * 1_000_000);
    let end: i64 = if t.display_end > 0 && t.display_end != u32::MAX {
        time::plus(place, t.display_end as i64 * 1_000_000)
    } else if t.packet_duration > 0 {
        time::plus(start, base.time_of(t.packet_duration))
    } else {
        time::plus(start, OPEN_ENDED)
    };
    (start, end)
}

/// The resolution that a subtitle stream's coordinates refer to: its own if
/// it states one, else the picture's.
pub fn reference_size(declared: (u32, u32), picture: (u32, u32)) -> (r: (u32, u32))
    ensures
        r == if declared.0 > 0 && declared.1 > 0 {
            declared
        } else {
            picture
        },
{
    if declared.0 > 0 && declared.1 > 0 {
        declared
    } else {
        picture
    }
}

// ── Laws ────────────────────────────────────────────────────────────────

/// A pixel keeps its colour: the four bytes put together again are the entry
/// of the palette, unless that is wholly transparent, and then they are zeros.
pub proof fn a_pixel_keeps_its_colour(argb: u32)
    ensures
        pixel_bytes(Some(argb)).len() == 4,
        ({
            let b = pixel_bytes(Some(argb));
            let word = b[3] * 0x100_0000 + b[0] * 0x1_0000 + b[1] * 0x100 + b[2];
            &&& argb >= 0x100_0000 ==> word == argb && b[3] > 0
            &&& argb < 0x100_0000 ==> word == 0
        }),
        pixel_bytes(None) == seq![0u8, 0u8, 0u8, 0u8],
{
}

/// The pixel at a place in the image is the entry that the index at that place
/// picks, four bytes to each, row after row without gaps.
pub proof fn each_pixel_is_at_its_place(
    indices: Seq<u8>,
    stride: int,
    palette: Seq<u32>,
    width: int,
    height: int,
    x: int,
    y: int,
    k: int,
)
    requires
        0 <= x < width,
        0 <= y < height,
        0 <= k < 4,
        0 <= stride,
        y * stride + width <= indices.len(),
        indices[y * stride + x] < palette.len(),
    ensures
        image_bytes(indices, stride, palette, width, height).len() == width * height * 4,
        image_bytes(indices, stride, palette, width, height)[4 * (y * width + x) + k]
            == pixel_bytes(Some(palette[indices[y * stride + x] as int]))[k],
{
    let p = y * width + x;
    assert(0 <= p < width * height) by (nonlinear_arith)
        requires
            p == y * width + x,
            0 <= x < width,
            0 <= y < height,
    ;
    vstd::arithmetic::div_mod::lemma_fundamental_div_mod_converse(p, width, y, x);
    vstd::arithmetic::div_mod::lemma_fundamental_div_mod_converse(4 * p + k, 4, p, k);
    assert(width * height * 4 >= 0) by (nonlinear_arith)
        requires
            width > 0,
            height > 0,
    ;
    assert(4 * p + k < width * height * 4) by (nonlinear_arith)
        requires
            p < width * height,
            k < 4,
    ;
    assert(y * width == width * y) by (nonlinear_arith);
}

/// A cue is on screen from its start up to its end: it starts as many
/// milliseconds after its place as it says, and ends where it says, else after
/// its packet, else half a minute later.
pub proof fn a_cue_lasts_as_long_as_it_says(t: SubtitleTiming, base: TimeBase)
    requires
        base.den > 0,
        -0x4000_0000_0000_0000 < cue_base(t, base) < 0x4000_0000_0000_0000,
        time::ticks_time(t.packet_duration as int, base) < 0x3000_0000_0000_0000,
    ensures
        cue_start(t, base) - cue_base(t, base) == t.display_start * 1_000_000,
        0 < t.display_end < u32::MAX ==> cue_end(t, base) - cue_start(t, base) == (t.display_end
            - t.display_start) * 1_000_000,
        (t.display_end == 0 || t.display_end == u32::MAX) && t.packet_duration > 0 ==> cue_end(
            t,
            base,
        ) - cue_start(t, base) == time::ticks_time(t.packet_duration as int, base),
        (t.display_end == 0 || t.display_end == u32::MAX) && t.packet_duration <= 0 ==> cue_end(
            t,
            base,
        ) - cue_start(t, base) == 30_000_000_000,
{
    if t.packet_duration > 0 {
        let a = t.packet_duration * base.num * 1_000_000_000;
        assert(a >= 0) by (nonlinear_arith)
            requires
                a == t.packet_duration * base.num * 1_000_000_000,
                t.packet_duration > 0,
                base.num >= 0,
        ;
        assert(a / base.den as int >= 0) by (nonlinear_arith)
            requires
                a >= 0,
                base.den > 0,
        ;
    }
}

/// A subtitle stands where its decoder says, in microseconds, else where its
/// packet does, else at the start.
pub proof fn a_cue_stands_where_it_says(t: SubtitleTiming, base: TimeBase)
    ensures
        t.pts is Some && -9_000_000_000_000_000 < t.pts->0 < 9_000_000_000_000_000 ==> cue_base(
            t,
            base,
        ) == t.pts->0 * 1_000,
        t.pts is None && t.packet_pts is Some ==> cue_base(t, base) == time::ticks_time(
            t.packet_pts->0 as int,
            base,
        ),
        t.pts is None && t.packet_pts is None ==> cue_base(t, base) == 0,
{
}

/// A cue is on screen from its start on and no longer from its end on, and one
/// with nothing in it shows nothing.
pub proof fn a_cue_is_on_screen_between_its_ends(cue: CueView, t: int)
    ensures
        cue.covers(t) <==> cue.start <= t && t < cue.end,
        cue.start < cue.end ==> cue.covers(cue.start) && !cue.covers(cue.end),
        cue.content matches ContentView::Bitmap { rects, .. } ==> (cue.is_empty() <==> rects.len()
            == 0),
        cue.content matches ContentView::Text { markup, .. } ==> (cue.is_empty() <==> markup.len()
            == 0),
{
}

/// The images of a subtitle are those among its rectangles, each once and in
/// order.
pub proof fn every_image_is_kept(rects: Seq<DecodedRect>, b: BitmapRect)
    ensures
        images(rects.push(DecodedRect::Bitmap(Some(b)))) == images(rects).push(b@),
        images(rects.push(DecodedRect::Nothing)) == images(rects),
        images(rects.push(DecodedRect::Bitmap(None))) == images(rects),
{
    assert(rects.push(DecodedRect::Bitmap(Some(b))).drop_last() =~= rects);
    assert(rects.push(DecodedRect::Nothing).drop_last() =~= rects);
    assert(rects.push(DecodedRect::Bitmap(None)).drop_last() =~= rects);
}

/// The cues of a subtitle: all its images in one, all its text in another,
/// both from the same start to the same end; nothing at all is one cue that
/// shows nothing.
pub proof fn a_subtitle_makes_its_cues(
    rects: Seq<DecodedRect>,
    start: int,
    end: int,
    reference: (u32, u32),
)
    ensures
        ({
            let cues = cues_of(rects, start, end, reference);
            &&& forall|i: int|
                0 <= i < cues.len() ==> (#[trigger] cues[i]).start == start && cues[i].end == end
            &&& cues.len() <= 2
            &&& rects.len() == 0 ==> cues.len() == 1 && cues[0].is_empty()
            &&& images(rects).len() > 0 ==> cues.len() > 0 && cues[0].content == (
            ContentView::Bitmap { rects: images(rects), reference: reference })
            &&& text_lines(rects).len() > 0 ==> cues.len() > 0 && cues.last().content is Text
            &&& rects.len() > 0 && images(rects).len() == 0 && text_lines(rects).len() == 0
                ==> cues.len() == 0
        }),
{
    if rects.len() == 0 {
        assert(images(rects).len() == 0 && text_lines(rects).len() == 0);
    }
}

/// Every rectangle that holds text adds its line, in order, unless the line is
/// blank; and the text stands where the last line says.
pub proof fn every_line_is_kept(rects: Seq<DecodedRect>, rect: DecodedRect)
    ensures
        text_lines(Seq::<DecodedRect>::empty()).len() == 0,
        rect is Bitmap || rect is Nothing ==> text_lines(rects.push(rect)) == text_lines(rects)
            && lines_alignment(rects.push(rect)) == lines_alignment(rects),
        rect matches DecodedRect::Text(t) ==> {
            let m = markup::markup_of(t@);
            &&& m.len() > 0 ==> text_lines(rects.push(rect)) == text_lines(rects).push(m)
                && lines_alignment(rects.push(rect)) == markup::alignment_of(t@)
            &&& m.len() == 0 ==> text_lines(rects.push(rect)) == text_lines(rects)
        },
        rect matches DecodedRect::Ass(line) ==> {
            let t = markup::dialogue_text(line@);
            let m = markup::markup_of(t);
            &&& m.len() > 0 ==> text_lines(rects.push(rect)) == text_lines(rects).push(m)
                && lines_alignment(rects.push(rect)) == markup::alignment_of(t)
            &&& m.len() == 0 ==> text_lines(rects.push(rect)) == text_lines(rects)
        },
{
    assert(rects.push(rect).drop_last() =~= rects);
}

} // verus!

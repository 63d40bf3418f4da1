//! What comes out of the video decoder and goes into the renderer.
//!
//! A `VideoFrame` owns whatever the decoder handed over, as a payload that
//! is moved and never copied, together with what has to be known to draw it.

use vstd::prelude::*;

use crate::time;
use crate::time::TimeBase;

verus! {

/// The pixel formats that the player tells apart.
#[allow(non_camel_case_types)]
#[derive(Debug, Clone, Copy, PartialEq, Eq, Structural)]
pub enum Pixel {
    YUV420P,
    YUVJ420P,
    YUV422P,
    YUVJ422P,
    YUV444P,
    YUVJ444P,
    YUV420P10LE,
    YUV422P10LE,
    YUV444P10LE,
    YUV420P12LE,
    YUV422P12LE,
    YUV444P12LE,
    NV12,
    NV21,
    P010LE,
    P012LE,
    P016LE,
    RGBA,
    BGRA,
    RGB24,
    Other,
}

/// How the planes are laid out in memory. The renderer picks a sampler and
/// a way to fetch the chroma by this.
#[derive(Debug, Clone, Copy, PartialEq, Eq, Structural)]
pub enum PixelLayout {
    /// Y, U, V in three planes. `sub_x` and `sub_y` are chroma subsampling
    /// shifts: (1, 1) is 4:2:0, (1, 0) is 4:2:2, (0, 0) is 4:4:4.
    Planar8 { sub_x: u8, sub_y: u8 },
    /// The same in 16-bit little-endian words that hold `bits` of data.
    Planar16 { sub_x: u8, sub_y: u8, bits: u8 },
    /// A Y plane and one interleaved chroma plane, V before U if swapped.
    BiPlanar8 { swapped: bool },
    /// The same in 16-bit words that hold `bits` of data at the top.
    BiPlanar16 { bits: u8 },
    Rgba,
    Bgra,
    Rgb24,
}

/// The layout of a pixel format that the shader samples directly.
pub open spec fn layout_of(p: Pixel) -> Option<PixelLayout> {
    match p {
        Pixel::YUV420P | Pixel::YUVJ420P => Some(PixelLayout::Planar8 { sub_x: 1, sub_y: 1 }),
        Pixel::YUV422P | Pixel::YUVJ422P => Some(PixelLayout::Planar8 { sub_x: 1, sub_y: 0 }),
        Pixel::YUV444P | Pixel::YUVJ444P => Some(PixelLayout::Planar8 { sub_x: 0, sub_y: 0 }),
        Pixel::YUV420P10LE => Some(PixelLayout::Planar16 { sub_x: 1, sub_y: 1, bits: 10 }),
        Pixel::YUV422P10LE => Some(PixelLayout::Planar16 { sub_x: 1, sub_y: 0, bits: 10 }),
        Pixel::YUV444P10LE => Some(PixelLayout::Planar16 { sub_x: 0, sub_y: 0, bits: 10 }),
        Pixel::YUV420P12LE => Some(PixelLayout::Planar16 { sub_x: 1, sub_y: 1, bits: 12 }),
        Pixel::YUV422P12LE => Some(PixelLayout::Planar16 { sub_x: 1, sub_y: 0, bits: 12 }),
        Pixel::YUV444P12LE => Some(PixelLayout::Planar16 { sub_x: 0, sub_y: 0, bits: 12 }),
        Pixel::NV12 => Some(PixelLayout::BiPlanar8 { swapped: false }),
        Pixel::NV21 => Some(PixelLayout::BiPlanar8 { swapped: true }),
        Pixel::P010LE => Some(PixelLayout::BiPlanar16 { bits: 10 }),
        Pixel::P012LE => Some(PixelLayout::BiPlanar16 { bits: 12 }),
        Pixel::P016LE => Some(PixelLayout::BiPlanar16 { bits: 16 }),
        Pixel::RGBA => Some(PixelLayout::Rgba),
        Pixel::BGRA => Some(PixelLayout::Bgra),
        Pixel::RGB24 => Some(PixelLayout::Rgb24),
        Pixel::Other => None,
    }
}

impl PixelLayout {
    pub open spec fn plane_count(self) -> int {
        match self {
            PixelLayout::Planar8 { .. } | PixelLayout::Planar16 { .. } => 3,
            PixelLayout::BiPlanar8 { .. } | PixelLayout::BiPlanar16 { .. } => 2,
            PixelLayout::Rgba | PixelLayout::Bgra | PixelLayout::Rgb24 => 1,
        }
    }

    pub open spec fn holds_rgb(self) -> bool {
        self is Rgba || self is Bgra || self is Rgb24
    }

    pub open spec fn depth(self) -> u8 {
        match self {
            PixelLayout::Planar16 { bits, .. } => bits,
            PixelLayout::BiPlanar16 { bits } => bits,
            _ => 8,
        }
    }

    /// How many planes the renderer should bind.
    pub fn planes(self) -> (r: usize)
        ensures
            r == self.plane_count(),
    {
        match self {
            PixelLayout::Planar8 { .. } | PixelLayout::Planar16 { .. } => 3,
            PixelLayout::BiPlanar8 { .. } | PixelLayout::BiPlanar16 { .. } => 2,
            PixelLayout::Rgba | PixelLayout::Bgra | PixelLayout::Rgb24 => 1,
        }
    }

    pub fn is_rgb(self) -> (r: bool)
        ensures
            r == self.holds_rgb(),
    {
        match self {
            PixelLayout::Rgba | PixelLayout::Bgra | PixelLayout::Rgb24 => true,
            _ => false,
        }
    }

    /// Bits of real precision, which in a 16-bit word may be fewer.
    pub fn bit_depth(self) -> (r: u8)
        ensures
            r == self.depth(),
    {
        match self {
            PixelLayout::Planar16 { bits, .. } => bits,
            PixelLayout::BiPlanar16 { bits } => bits,
            _ => 8,
        }
    }

    /// The layout of a pixel format that the renderer knows, or `None` to
    /// mean that it has to be converted first.
    pub fn from_ffmpeg(p: Pixel) -> (r: Option<PixelLayout>)
        ensures
            r == layout_of(p),
    {
        match p {
            Pixel::YUV420P | Pixel::YUVJ420P => Some(PixelLayout::Planar8 { sub_x: 1, sub_y: 1 }),
            Pixel::YUV422P | Pixel::YUVJ422P => Some(PixelLayout::Planar8 { sub_x: 1, sub_y: 0 }),
            Pixel::YUV444P | Pixel::YUVJ444P => Some(PixelLayout::Planar8 { sub_x: 0, sub_y: 0 }),
            Pixel::YUV420P10LE => Some(PixelLayout::Planar16 { sub_x: 1, sub_y: 1, bits: 10 }),
            Pixel::YUV422P10LE => Some(PixelLayout::Planar16 { sub_x: 1, sub_y: 0, bits: 10 }),
            Pixel::YUV444P10LE => Some(PixelLayout::Planar16 { sub_x: 0, sub_y: 0, bits: 10 }),
            Pixel::YUV420P12LE => Some(PixelLayout::Planar16 { sub_x: 1, sub_y: 1, bits: 12 }),
            Pixel::YUV422P12LE => Some(PixelLayout::Planar16 { sub_x: 1, sub_y: 0, bits: 12 }),
            Pixel::YUV444P12LE => Some(PixelLayout::Planar16 { sub_x: 0, sub_y: 0, bits: 12 }),
            Pixel::NV12 => Some(PixelLayout::BiPlanar8 { swapped: false }),
            Pixel::NV21 => Some(PixelLayout::BiPlanar8 { swapped: true }),
            Pixel::P010LE => Some(PixelLayout::BiPlanar16 { bits: 10 }),
            Pixel::P012LE => Some(PixelLayout::BiPlanar16 { bits: 12 }),
            Pixel::P016LE => Some(PixelLayout::BiPlanar16 { bits: 16 }),
            Pixel::RGBA => Some(PixelLayout::Rgba),
            Pixel::BGRA => Some(PixelLayout::Bgra),
            Pixel::RGB24 => Some(PixelLayout::Rgb24),
            Pixel::Other => None,
        }
    }
}

// ── Colour metadata ─────────────────────────────────────────────────────

/// The colour space of a picture. `Other` keeps the code of one that the
/// player does not treat specially.
#[derive(Debug, Clone, Copy, PartialEq, Eq, Structural)]
pub enum Space {
    BT709,
    Unspecified,
    BT470BG,
    SMPTE170M,
    SMPTE240M,
    BT2020NCL,
    BT2020CL,
    Other(i32),
}

#[derive(Debug, Clone, Copy, PartialEq, Eq, Structural)]
pub enum Range {
    Unspecified,
    /// Studio swing.
    MPEG,
    /// The whole interval.
    JPEG,
}

#[derive(Debug, Clone, Copy, PartialEq, Eq, Structural)]
pub enum Primaries {
    BT709,
    Other(i32),
}

#[allow(non_camel_case_types)]
#[derive(Debug, Clone, Copy, PartialEq, Eq, Structural)]
pub enum TransferCharacteristic {
    BT709,
    SMPTE2084,
    ARIB_STD_B67,
    Other(i32),
}

/// Colour metadata, carried per frame because it can change mid-stream.
#[derive(Debug, Clone, Copy, PartialEq, Eq, Structural)]
pub struct ColorInfo {
    pub space: Space,
    pub range: Range,
    pub primaries: Primaries,
    pub transfer: TransferCharacteristic,
}

impl Default for ColorInfo {
    fn default() -> (r: ColorInfo)
        ensures
            r == (ColorInfo {
                space: Space::BT709,
                range: Range::MPEG,
                primaries: Primaries::BT709,
                transfer: TransferCharacteristic::BT709,
            }),
    {
        ColorInfo {
            space: Space::BT709,
            range: Range::MPEG,
            primaries: Primaries::BT709,
            transfer: TransferCharacteristic::BT709,
        }
    }
}

/// The label of a transfer curve with a high dynamic range.
pub open spec fn hdr_name(transfer: TransferCharacteristic) -> Option<Seq<char>> {
    match transfer {
        TransferCharacteristic::SMPTE2084 => Some("HDR10"@),
        TransferCharacteristic::ARIB_STD_B67 => Some("HLG"@),
        _ => None,
    }
}

/// The colour space to convert from: the stated one, else the one that
/// pictures of this height are made in.
pub open spec fn space_for(space: Space, height: u32) -> Space {
    if space is Unspecified {
        if height >= 720 {
            Space::BT709
        } else {
            Space::BT470BG
        }
    } else {
        space
    }
}

pub fn hdr_label_of(transfer: TransferCharacteristic) -> (r: Option<&'static str>)
    ensures
        r is Some <==> hdr_name(transfer) is Some,
        r matches Some(s) ==> Some(s@) == hdr_name(transfer),
{
    match transfer {
        TransferCharacteristic::SMPTE2084 => Some("HDR10"),
        TransferCharacteristic::ARIB_STD_B67 => Some("HLG"),
        _ => None,
    }
}

impl ColorInfo {
    /// Whether the transfer function is one of the HDR curves, so that the
    /// picture has to be tone mapped.
    pub fn is_hdr(&self) -> (r: bool)
        ensures
            r == hdr_name(self.transfer) is Some,
    {
        match self.transfer {
            TransferCharacteristic::SMPTE2084 | TransferCharacteristic::ARIB_STD_B67 => true,
            _ => false,
        }
    }

    /// The label shown next to the title.
    pub fn hdr_label(&self) -> (r: Option<&'static str>)
        ensures
            r is Some <==> hdr_name(self.transfer) is Some,
            r matches Some(s) ==> Some(s@) == hdr_name(self.transfer),
    {
        hdr_label_of(self.transfer)
    }

    /// An unspecified colour space is not an error: most files leave it
    /// blank. It is read as BT.709 for HD and up, and BT.601 below that.
    pub fn resolved_space(&self, height: u32) -> (r: Space)
        ensures
            r == space_for(self.space, height),
    {
        match self.space {
            Space::Unspecified => if height >= 720 {
                Space::BT709
            } else {
                Space::BT470BG
            },
            other => other,
        }
    }
}

// ── Frames ──────────────────────────────────────────────────────────────

/// One decoded picture, ready to upload. `frame` is the decoder's own
/// picture.
#[derive(Debug)]
pub struct VideoFrame<P> {
    pub frame: P,
    pub width: u32,
    pub height: u32,
    pub layout: PixelLayout,
    pub color: ColorInfo,
    /// When the picture is due, from the start of the file.
    pub pts: i64,
    /// Pixel aspect ratio, numerator and denominator.
    pub sar: (u32, u32),
}

/// The size at which pixels that are `sar` wide as tall should be shown.
pub open spec fn shown_size(width: u32, height: u32, sar: (u32, u32)) -> (u32, u32) {
    if sar.0 == 0 || sar.1 == 0 || sar.0 == sar.1 {
        (width, height)
    } else {
        (((width * sar.0) / sar.1 as int % 0x1_0000_0000) as u32, height)
    }
}

impl<P> VideoFrame<P> {
    pub fn new(
        frame: P,
        size: (u32, u32),
        layout: PixelLayout,
        color: ColorInfo,
        pts: i64,
        sar: (u32, u32),
    ) -> (r: VideoFrame<P>)
        ensures
            r == (VideoFrame {
                frame: frame,
                width: size.0,
                height: size.1,
                layout: layout,
                color: color,
                pts: pts,
                sar: sar,
            }),
    {
        VideoFrame {
            frame: frame,
            width: size.0,
            height: size.1,
            layout: layout,
            color: color,
            pts: pts,
            sar: sar,
        }
    }

    pub fn width(&self) -> (r: u32)
        ensures
            r == self.width,
    {
        self.width
    }

    pub fn height(&self) -> (r: u32)
        ensures
            r == self.height,
    {
        self.height
    }

    /// Width and height after the pixel aspect ratio is applied.
    pub fn display_size(&self) -> (r: (u32, u32))
        ensures
            r == shown_size(self.width, self.height, self.sar),
    {
        let (num, den) = self.sar;
        if num == 0 || den == 0 || num == den {
            return (self.width, self.height);
        }
        let w: u64 = self.width as u64;
        let n: u64 = num as u64;
        assert(0 <= w * n <= 0xffff_ffff * 0xffff_ffff) by (nonlinear_arith)
            requires
                0 <= w <= 0xffff_ffff,
                0 <= n <= 0xffff_ffff,
        ;
        let stretched: u64 = w * n / den as u64;
        ((stretched % 0x1_0000_0000) as u32, self.height)
    }
}

/// A borrowed view of one plane, handed to the renderer for upload.
#[derive(Debug, Clone, Copy)]
pub struct PlaneRef<'a> {
    pub data: &'a [u8],
    pub stride: usize,
    pub width: u32,
    pub height: u32,
}

// ── Getting a decoded frame ready ───────────────────────────────────────

/// When a decoded frame is due: by its best timestamp, else by its own, else
/// at the start of the file.
pub open spec fn due_time(best_effort: Option<i64>, pts: Option<i64>, base: TimeBase) -> int {
    match (best_effort, pts) {
        (Some(ticks), _) => time::ticks_time(ticks as int, base),
        (None, Some(ticks)) => time::ticks_time(ticks as int, base),
        (None, None) => 0,
    }
}

pub fn frame_time(best_effort: Option<i64>, pts: Option<i64>, base: TimeBase) -> (r: i64)
    requires
        base.den > 0,
    ensures
        r == due_time(best_effort, pts, base),
{
    match (best_effort, pts) {
        (Some(ticks), _) => base.time_of(ticks),
        (None, Some(ticks)) => base.time_of(ticks),
        (None, None) => 0,
    }
}

/// The pixel aspect ratio of a frame: square when it does not state one.
pub fn pixel_aspect(num: i32, den: i32) -> (r: (u32, u32))
    ensures
        num > 0 && den > 0 ==> r == (num as u32, den as u32),
        !(num > 0 && den > 0) ==> r == (1u32, 1u32),
{
    if num > 0 && den > 0 {
        (num as u32, den as u32)
    } else {
        (1, 1)
    }
}

/// Whether a frame has to be brought off the GPU before anything else.
pub fn needs_transfer(accelerated: bool, on_gpu: bool) -> (r: bool)
    ensures
        r == (accelerated && on_gpu),
{
    accelerated && on_gpu
}

/// How a decoded frame reaches the renderer.
#[derive(Debug, Clone, Copy, PartialEq, Eq, Structural)]
pub enum Preparation {
    /// As it is.
    Direct(PixelLayout),
    /// Converted to another pixel format first.
    Convert { target: Pixel, layout: PixelLayout },
}

/// A format that the shader samples is handed on as it is. Any other is
/// converted once: to 8 bits, or to 10 where the source has depth worth
/// keeping.
pub open spec fn preparation_of(format: Pixel, depth: Option<u8>) -> Preparation {
    match layout_of(format) {
        Some(layout) => Preparation::Direct(layout),
        None => if depth matches Some(d) && d > 8 {
            Preparation::Convert {
                target: Pixel::P010LE,
                layout: PixelLayout::BiPlanar16 { bits: 10 },
            }
        } else {
            Preparation::Convert {
                target: Pixel::NV12,
                layout: PixelLayout::BiPlanar8 { swapped: false },
            }
        },
    }
}

/// How to get a frame of this format, whose luma has `depth` bits, ready.
pub fn prepare(format: Pixel, depth: Option<u8>) -> (r: Preparation)
    ensures
        r == preparation_of(format, depth),
{
    match PixelLayout::from_ffmpeg(format) {
        Some(layout) => Preparation::Direct(layout),
        None => {
            let deep: bool = match depth {
                Some(d) => d > 8,
                None => false,
            };
            if deep {
                Preparation::Convert {
                    target: Pixel::P010LE,
                    layout: PixelLayout::BiPlanar16 { bits: 10 },
                }
            } else {
                Preparation::Convert {
                    target: Pixel::NV12,
                    layout: PixelLayout::BiPlanar8 { swapped: false },
                }
            }
        },
    }
}

/// Whatever the decoder emits, the renderer gets a layout that it knows: the
/// frame's own, or that of the format it was converted to.
pub proof fn every_frame_becomes_drawable(format: Pixel, depth: Option<u8>)
    ensures
        match preparation_of(format, depth) {
            Preparation::Direct(layout) => layout_of(format) == Some(layout),
            Preparation::Convert { target, layout } => layout_of(format) is None && layout_of(
                target,
            ) == Some(layout),
        },
{
}

// ── Laws ────────────────────────────────────────────────────────────────

/// Where a component of a pixel is stored: in which plane, how many bytes into
/// each group of the plane, how many bytes a group takes, how far its bits are
/// shifted up in their word, and how many bits there are. This is how the
/// decoder describes a format.
pub struct Placement {
    pub plane: int,
    pub offset: int,
    pub step: int,
    pub shift: int,
    pub depth: int,
}

/// A component in a plane of its own.
pub open spec fn alone(plane: int, depth: int) -> Placement {
    Placement {
        plane: plane,
        offset: 0,
        step: if depth > 8 {
            2
        } else {
            1
        },
        shift: 0,
        depth: depth,
    }
}

/// A component among others.
pub open spec fn among(plane: int, offset: int, step: int, shift: int, depth: int) -> Placement {
    Placement { plane: plane, offset: offset, step: step, shift: shift, depth: depth }
}

/// The three components of a format, Y, U and V or red, green and blue, and
/// by how much, in powers of two, the last two are narrower and shorter than
/// the first where they are chroma.
pub open spec fn description(p: Pixel) -> Option<(Seq<Placement>, int, int)> {
    let planar = |depth: int| seq![alone(0, depth), alone(1, depth), alone(2, depth)];
    let paired = |depth: int, u: int, v: int|
        seq![
            among(0, 0, 2, 16 - depth, depth),
            among(1, u, 4, 16 - depth, depth),
            among(1, v, 4, 16 - depth, depth),
        ];
    let packed = |r: int, g: int, b: int, step: int|
        seq![among(0, r, step, 0, 8), among(0, g, step, 0, 8), among(0, b, step, 0, 8)];
    match p {
        Pixel::YUV420P | Pixel::YUVJ420P => Some((planar(8), 1, 1)),
        Pixel::YUV422P | Pixel::YUVJ422P => Some((planar(8), 1, 0)),
        Pixel::YUV444P | Pixel::YUVJ444P => Some((planar(8), 0, 0)),
        Pixel::YUV420P10LE => Some((planar(10), 1, 1)),
        Pixel::YUV422P10LE => Some((planar(10), 1, 0)),
        Pixel::YUV444P10LE => Some((planar(10), 0, 0)),
        Pixel::YUV420P12LE => Some((planar(12), 1, 1)),
        Pixel::YUV422P12LE => Some((planar(12), 1, 0)),
        Pixel::YUV444P12LE => Some((planar(12), 0, 0)),
        Pixel::NV12 => Some(
            (seq![among(0, 0, 1, 0, 8), among(1, 0, 2, 0, 8), among(1, 1, 2, 0, 8)], 1, 1),
        ),
        Pixel::NV21 => Some(
            (seq![among(0, 0, 1, 0, 8), among(1, 1, 2, 0, 8), among(1, 0, 2, 0, 8)], 1, 1),
        ),
        Pixel::P010LE => Some((paired(10, 0, 2), 1, 1)),
        Pixel::P012LE => Some((paired(12, 0, 2), 1, 1)),
        Pixel::P016LE => Some((paired(16, 0, 2), 1, 1)),
        Pixel::RGBA => Some((packed(0, 1, 2, 4), 0, 0)),
        Pixel::BGRA => Some((packed(2, 1, 0, 4), 0, 0)),
        Pixel::RGB24 => Some((packed(0, 1, 2, 3), 0, 0)),
        Pixel::Other => None,
    }
}

/// The layout that a format is drawn by is the one that the format has: as
/// many planes, bound to the components that are in them, of the same depth
/// and size and in the same order.
pub proof fn the_layout_is_the_formats(p: Pixel)
    ensures
        layout_of(p) is Some <==> description(p) is Some,
        layout_of(p) matches Some(layout) ==> {
            let (c, narrower, shorter) = description(p)->0;
            &&& layout.plane_count() == c[2].plane + 1
            &&& layout.plane_count() == 1 <==> layout.holds_rgb()
            &&& layout.depth() == c[0].depth
            &&& match layout {
                PixelLayout::Planar8 { sub_x, sub_y } => c[1].plane == 1 && c[2].plane == 2
                    && c[0].step == 1 && sub_x == narrower && sub_y == shorter && c[0].depth == 8,
                PixelLayout::Planar16 { sub_x, sub_y, bits } => c[1].plane == 1 && c[2].plane == 2
                    && c[0].step == 2 && sub_x == narrower && sub_y == shorter && bits
                    == c[0].depth && c[0].shift == 0,
                PixelLayout::BiPlanar8 { swapped } => c[1].plane == 1 && c[2].plane == 1
                    && c[0].step == 1 && swapped == (c[2].offset < c[1].offset) && narrower == 1
                    && shorter == 1 && c[0].depth == 8,
                PixelLayout::BiPlanar16 { bits } => c[1].plane == 1 && c[2].plane == 1
                    && c[0].step == 2 && c[1].offset < c[2].offset && narrower == 1 && shorter
                    == 1 && bits == c[0].depth && c[0].shift == 16 - bits,
                PixelLayout::Rgba => c[0].step == 4 && c[0].offset == 0 && c[2].offset == 2
                    && c[2].plane == 0,
                PixelLayout::Bgra => c[0].step == 4 && c[0].offset == 2 && c[2].offset == 0
                    && c[2].plane == 0,
                PixelLayout::Rgb24 => c[0].step == 3 && c[0].offset == 0 && c[2].offset == 2
                    && c[2].plane == 0,
            }
        },
{
}

/// A frame is converted only when its format cannot be drawn, and then to one
/// that can be: with more than eight bits exactly when the source has more.
pub proof fn depth_survives_conversion(format: Pixel, depth: Option<u8>)
    ensures
        preparation_of(format, depth) is Direct <==> description(format) is Some,
        preparation_of(format, depth) matches Preparation::Convert { target, layout } ==> {
            &&& description(target) is Some
            &&& layout_of(target) == Some(layout)
            &&& (layout.depth() > 8 <==> (depth matches Some(d) && d > 8))
            &&& layout.plane_count() == 2
        },
{
}

/// Pixels that are not square stretch the picture by as much as they are wide,
/// and leave its height alone.
pub proof fn the_pixel_aspect_stretches(width: u32, height: u32, sar: (u32, u32))
    requires
        width * sar.0 <= 0xffff_ffff * sar.1,
    ensures
        shown_size(width, height, sar).1 == height,
        sar.0 > 0 && sar.1 > 0 ==> shown_size(width, height, sar).0 * sar.1 <= width * sar.0 < (
        shown_size(width, height, sar).0 + 1) * sar.1,
        sar.0 == 0 || sar.1 == 0 ==> shown_size(width, height, sar).0 == width,
{
    if sar.0 > 0 && sar.1 > 0 {
        let a = width * sar.0;
        let d = sar.1 as int;
        vstd::arithmetic::div_mod::lemma_fundamental_div_mod(a, d);
        vstd::arithmetic::div_mod::lemma_mod_bound(a, d);
        let q = a / d;
        assert(d * q == q * d) by (nonlinear_arith);
        assert((q + 1) * d == q * d + d) by (nonlinear_arith);
        assert(0 <= q <= 0xffff_ffff) by (nonlinear_arith)
            requires
                q * d <= a,
                a < q * d + d,
                0 <= a,
                a <= 0xffff_ffff * d,
                d > 0,
        ;
        if sar.0 == sar.1 {
            assert(width * d == a);
            assert((width + 1) * d == width * d + d) by (nonlinear_arith);
        }
    }
}

/// A frame is due when its best timestamp says, else when its own does, else
/// at the start.
pub proof fn the_best_timestamp_counts(best: i64, own: Option<i64>, base: TimeBase)
    requires
        base.den > 0,
    ensures
        due_time(Some(best), own, base) == due_time(Some(best), None, base),
        own matches Some(t) ==> due_time(None, own, base) == due_time(Some(t), None, base),
        due_time(None, None, base) == 0,
        -0x8000_0000_0000_0000 < due_time(Some(best), own, base) < 0x7fff_ffff_ffff_ffff ==> due_time(
            Some(best),
            own,
            base,
        ) * base.den <= best * base.num * 1_000_000_000 < (due_time(Some(best), own, base) + 1)
            * base.den,
{
    if -0x8000_0000_0000_0000 < due_time(Some(best), own, base) < 0x7fff_ffff_ffff_ffff {
        time::ticks_keep_their_time(best as int, base);
    }
}

/// A picture is tone mapped for the two HDR curves and for no other, and each
/// has a label of its own.
pub proof fn the_hdr_curves_are_told_apart(transfer: TransferCharacteristic)
    ensures
        hdr_name(transfer) is Some <==> transfer is SMPTE2084 || transfer is ARIB_STD_B67,
        hdr_name(TransferCharacteristic::SMPTE2084) != hdr_name(
            TransferCharacteristic::ARIB_STD_B67,
        ),
{
    reveal_strlit("HDR10");
    reveal_strlit("HLG");
    assert("HDR10"@.len() == 5 && "HLG"@.len() == 3);
}

/// A colour space that is stated is kept, and a picture that states none is
/// read as high definition from 720 rows on.
pub proof fn a_stated_space_is_kept(space: Space, height: u32)
    ensures
        !(space is Unspecified) ==> space_for(space, height) == space,
        height >= 720 ==> space_for(Space::Unspecified, height) is BT709,
        height < 720 ==> space_for(Space::Unspecified, height) is BT470BG,
{
}

} // verus!

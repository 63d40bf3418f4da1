//! The video plane: what is uploaded, how it is converted, and where it is
//! drawn. The drawing itself is the GL context's; everything here is numbers
//! for it, as exact fractions.

use vstd::prelude::*;

use crate::colour;
use crate::colour::{Fraction, Ratio};
use crate::frame;
use crate::frame::{ColorInfo, PixelLayout, Range, TransferCharacteristic};
use crate::subtitle;
use crate::subtitle::{BitmapRect, RectView};

verus! {

// ── Textures ────────────────────────────────────────────────────────────

#[derive(Debug, Clone, Copy, PartialEq, Eq, Structural)]
pub enum Internal {
    R8,
    R16,
    RG8,
    RG16,
    RGB8,
    RGBA8,
}

#[derive(Debug, Clone, Copy, PartialEq, Eq, Structural)]
pub enum Channels {
    Red,
    Rg,
    Rgb,
    Rgba,
}

#[derive(Debug, Clone, Copy, PartialEq, Eq, Structural)]
pub enum Component {
    Byte,
    Short,
}

/// How one plane is held in a texture.
#[derive(Debug, Clone, Copy, PartialEq, Eq, Structural)]
pub struct TextureSpec {
    pub internal: Internal,
    pub format: Channels,
    pub kind: Component,
    pub bytes_per_texel: usize,
}

pub open spec fn texture_for(layout: PixelLayout, index: int) -> TextureSpec {
    match layout {
        PixelLayout::Planar8 { .. } => one_byte(),
        PixelLayout::Planar16 { .. } => one_short(),
        PixelLayout::BiPlanar8 { .. } => if index == 0 {
            one_byte()
        } else {
            TextureSpec {
                internal: Internal::RG8,
                format: Channels::Rg,
                kind: Component::Byte,
                bytes_per_texel: 2,
            }
        },
        PixelLayout::BiPlanar16 { .. } => if index == 0 {
            one_short()
        } else {
            TextureSpec {
                internal: Internal::RG16,
                format: Channels::Rg,
                kind: Component::Short,
                bytes_per_texel: 4,
            }
        },
        PixelLayout::Rgba | PixelLayout::Bgra => TextureSpec {
            internal: Internal::RGBA8,
            format: Channels::Rgba,
            kind: Component::Byte,
            bytes_per_texel: 4,
        },
        PixelLayout::Rgb24 => TextureSpec {
            internal: Internal::RGB8,
            format: Channels::Rgb,
            kind: Component::Byte,
            bytes_per_texel: 3,
        },
    }
}

pub open spec fn one_byte() -> TextureSpec {
    TextureSpec {
        internal: Internal::R8,
        format: Channels::Red,
        kind: Component::Byte,
        bytes_per_texel: 1,
    }
}

pub open spec fn one_short() -> TextureSpec {
    TextureSpec {
        internal: Internal::R16,
        format: Channels::Red,
        kind: Component::Short,
        bytes_per_texel: 2,
    }
}

impl TextureSpec {
    /// How plane `index` of a frame is held.
    pub fn for_plane(layout: PixelLayout, index: usize) -> (r: TextureSpec)
        ensures
            r == texture_for(layout, index as int),
    {
        let byte = TextureSpec {
            internal: Internal::R8,
            format: Channels::Red,
            kind: Component::Byte,
            bytes_per_texel: 1,
        };
        let short = TextureSpec {
            internal: Internal::R16,
            format: Channels::Red,
            kind: Component::Short,
            bytes_per_texel: 2,
        };
        match layout {
            PixelLayout::Planar8 { .. } => byte,
            PixelLayout::Planar16 { .. } => short,
            PixelLayout::BiPlanar8 { .. } => if index == 0 {
                byte
            } else {
                TextureSpec {
                    internal: Internal::RG8,
                    format: Channels::Rg,
                    kind: Component::Byte,
                    bytes_per_texel: 2,
                }
            },
            PixelLayout::BiPlanar16 { .. } => if index == 0 {
                short
            } else {
                TextureSpec {
                    internal: Internal::RG16,
                    format: Channels::Rg,
                    kind: Component::Short,
                    bytes_per_texel: 4,
                }
            },
            PixelLayout::Rgba | PixelLayout::Bgra => TextureSpec {
                internal: Internal::RGBA8,
                format: Channels::Rgba,
                kind: Component::Byte,
                bytes_per_texel: 4,
            },
            PixelLayout::Rgb24 => TextureSpec {
                internal: Internal::RGB8,
                format: Channels::Rgb,
                kind: Component::Byte,
                bytes_per_texel: 3,
            },
        }
    }
}

/// How many components a texel has, and how many bytes each of them.
pub open spec fn texel_bytes(format: Channels, kind: Component) -> int {
    let components = match format {
        Channels::Red => 1int,
        Channels::Rg => 2,
        Channels::Rgb => 3,
        Channels::Rgba => 4,
    };
    match kind {
        Component::Byte => components,
        Component::Short => 2 * components,
    }
}

/// The size stated for a texel is the size of its components.
pub proof fn texels_are_their_components(layout: PixelLayout, index: int)
    ensures
        texture_for(layout, index).bytes_per_texel == texel_bytes(
            texture_for(layout, index).format,
            texture_for(layout, index).kind,
        ),
{
}

/// What of a plane is uploaded.
#[derive(Debug, Clone, Copy, PartialEq, Eq, Structural)]
pub struct PlaneUpload {
    /// The distance between rows, in texels. Rows are padded, and saying so
    /// lets the plane go up straight from the decoder's buffer.
    pub row_length: usize,
    pub width: u32,
    pub height: u32,
    pub texture: TextureSpec,
}

/// The rows that a plane really holds, of the `height` it claims.
pub open spec fn rows_to_upload(len: int, stride: int, height: u32) -> int {
    let rows = len / if stride == 0 {
        1
    } else {
        stride
    };
    if height < rows {
        height as int
    } else {
        rows
    }
}

/// What of a plane of `len` bytes is uploaded; nothing when it holds no row.
pub fn plane_upload(
    layout: PixelLayout,
    index: usize,
    len: usize,
    stride: usize,
    width: u32,
    height: u32,
) -> (r: Option<PlaneUpload>)
    ensures
        r is None <==> rows_to_upload(len as int, stride as int, height) == 0,
        r matches Some(up) ==> {
            &&& up.texture == texture_for(layout, index as int)
            &&& up.row_length == stride as int / up.texture.bytes_per_texel as int
            &&& up.width == width
            &&& up.height == rows_to_upload(len as int, stride as int, height)
        },
{
    let texture = TextureSpec::for_plane(layout, index);
    let rows: usize = len / if stride == 0 {
        1
    } else {
        stride
    };
    let tall: u32 = if (height as u64) < rows as u64 {
        height
    } else {
        rows as u32
    };
    if tall == 0 {
        return None;
    }
    Some(
        PlaneUpload {
            row_length: stride / texture.bytes_per_texel,
            width: width,
            height: tall,
            texture: texture,
        },
    )
}

/// Every row that is uploaded is there: the rows end within the plane.
pub proof fn uploaded_rows_are_there(len: int, stride: int, height: u32)
    requires
        0 <= len,
        0 <= stride,
    ensures
        0 <= rows_to_upload(len, stride, height) <= height,
        rows_to_upload(len, stride, height) * stride <= len,
{
    let s = if stride == 0 {
        1
    } else {
        stride
    };
    let rows = len / s;
    vstd::arithmetic::div_mod::lemma_fundamental_div_mod(len, s);
    vstd::arithmetic::div_mod::lemma_mod_bound(len, s);
    vstd::arithmetic::div_mod::lemma_div_pos_is_pos(len, s);
    let n = rows_to_upload(len, stride, height);
    assert(n * stride <= rows * s) by (nonlinear_arith)
        requires
            0 <= n <= rows,
            0 <= stride <= s,
    ;
    assert(rows * s == s * rows) by (nonlinear_arith);
}

// ── Colour ──────────────────────────────────────────────────────────────

/// What the shader is told of a frame.
pub struct Uniforms {
    pub planes: usize,
    pub swap_uv: bool,
    pub is_rgb: bool,
    pub bgra: bool,
    pub depth_scale: Ratio,
    pub matrix: [Ratio; 9],
    pub offset: [Ratio; 3],
    /// 1 and 2 for the two HDR curves, 0 for anything else.
    pub transfer: u8,
    /// In ten-thousandths.
    pub primaries: [i32; 9],
}

pub open spec fn curve_code(transfer: TransferCharacteristic) -> u8 {
    match transfer {
        TransferCharacteristic::SMPTE2084 => 1,
        TransferCharacteristic::ARIB_STD_B67 => 2,
        _ => 0,
    }
}

/// What the shader is told of a frame of this layout, colour and height.
pub fn configure(layout: PixelLayout, color: ColorInfo, height: u32) -> (r: Uniforms)
    requires
        1 <= layout.depth() <= 16,
    ensures
        r.planes == layout.plane_count(),
        r.swap_uv == (layout == PixelLayout::BiPlanar8 { swapped: true }),
        r.is_rgb == layout.holds_rgb(),
        r.bgra == (layout is Bgra),
        r.depth_scale@ == colour::texture_scale(layout),
        colour::fractions(r.matrix@) == colour::matrix_of(
            frame::space_for(color.space, height),
            color.range is JPEG,
            colour::depth_for(layout.depth()),
        ),
        colour::fractions(r.offset@) == colour::offsets_of(
            color.range is JPEG,
            colour::depth_for(layout.depth()),
        ),
        r.transfer == curve_code(color.transfer),
        r.primaries@.map_values(|v: i32| v as int) == colour::primaries_of(
            frame::hdr_name(color.transfer) is Some,
        ),
{
    let depth: u8 = layout.bit_depth();
    let full_range: bool = match color.range {
        Range::JPEG => true,
        _ => false,
    };
    let (matrix, offset) = colour::yuv_to_rgb(color.resolved_space(height), full_range, depth);
    let transfer: u8 = match color.transfer {
        TransferCharacteristic::SMPTE2084 => 1,
        TransferCharacteristic::ARIB_STD_B67 => 2,
        _ => 0,
    };
    Uniforms {
        planes: layout.planes(),
        swap_uv: match layout {
            PixelLayout::BiPlanar8 { swapped } => swapped,
            _ => false,
        },
        is_rgb: layout.is_rgb(),
        bgra: match layout {
            PixelLayout::Bgra => true,
            _ => false,
        },
        depth_scale: colour::depth_scale(layout),
        matrix: matrix,
        offset: offset,
        transfer: transfer,
        primaries: colour::primaries_matrix(transfer != 0),
    }
}

// ── Where the picture goes ──────────────────────────────────────────────

/// A rectangle. Every number in it is over `den`, which is positive.
#[derive(Debug, Clone, Copy, PartialEq, Eq, Structural)]
pub struct VideoRect {
    pub x: i128,
    pub y: i128,
    pub w: i128,
    pub h: i128,
    pub den: i128,
}

/// The shape of a picture: its width over its height, which is not zero.
#[derive(Debug, Clone, Copy, PartialEq, Eq, Structural)]
pub struct Aspect {
    pub width: u32,
    pub height: u32,
}

/// Whether a picture is wider than the viewport it is to fit in.
pub open spec fn is_wider(aspect: Aspect, width: i32, height: i32) -> bool {
    aspect.width * height > width * aspect.height
}

/// The scale of the picture in a viewport, across and down, so that its shape
/// is kept and one of the two is whole.
pub open spec fn fitted(aspect: Aspect, width: i32, height: i32) -> (Fraction, Fraction) {
    let across = aspect.width * height;
    let down = width * aspect.height;
    if is_wider(aspect, width, height) {
        (Fraction { num: 1, den: 1 }, Fraction { num: down, den: across })
    } else {
        (Fraction { num: across, den: down }, Fraction { num: 1, den: 1 })
    }
}

/// Where the picture sits in a viewport, in pixels.
pub open spec fn placed(aspect: Aspect, width: i32, height: i32) -> VideoRect {
    if width <= 0 || height <= 0 {
        VideoRect { x: 0, y: 0, w: 0, h: 0, den: 1 }
    } else if is_wider(aspect, width, height) {
        // As wide as the viewport, and `width * ah / aw` tall.
        let den = (2 * aspect.width) as i128;
        let tall = width * aspect.height;
        VideoRect {
            x: 0,
            y: (height * aspect.width - tall) as i128,
            w: (width * den) as i128,
            h: (2 * tall) as i128,
            den: den,
        }
    } else {
        // As tall as the viewport, and `height * aw / ah` wide.
        let den = (2 * aspect.height) as i128;
        let wide = height * aspect.width;
        VideoRect {
            x: (width * aspect.height - wide) as i128,
            y: 0,
            w: (2 * wide) as i128,
            h: (height * den) as i128,
            den: den,
        }
    }
}

/// The product of two sizes.
fn area(a: i128, b: i128) -> (r: i128)
    requires
        0 <= a <= 0x2_0000_0000,
        0 <= b <= 0x2_0000_0000,
    ensures
        r == a * b,
        0 <= r <= 0x4_0000_0000_0000_0000,
{
    assert(0 <= a * b <= 0x4_0000_0000_0000_0000) by (nonlinear_arith)
        requires
            0 <= a <= 0x2_0000_0000,
            0 <= b <= 0x2_0000_0000,
    ;
    a * b
}

/// The scale of the picture in a viewport.
pub fn fit(aspect: Aspect, width: i32, height: i32) -> (r: (Ratio, Ratio))
    requires
        aspect.height > 0,
        width > 0,
        height > 0,
    ensures
        (r.0@, r.1@) == fitted(aspect, width, height),
        0 < r.0.den <= 0x4_0000_0000_0000_0000,
        0 < r.1.den <= 0x4_0000_0000_0000_0000,
        0 <= r.0.num <= r.0.den,
        0 <= r.1.num <= r.1.den,
{
    let across: i128 = area(aspect.width as i128, height as i128);
    let down: i128 = area(width as i128, aspect.height as i128);
    assert(down > 0) by (nonlinear_arith)
        requires
            down == width * aspect.height,
            width > 0,
            aspect.height > 0,
    ;
    if across > down {
        (Ratio { num: 1, den: 1 }, Ratio { num: down, den: across })
    } else {
        (Ratio { num: across, den: down }, Ratio { num: 1, den: 1 })
    }
}

/// Where the picture sits in a viewport, in pixels.
pub fn video_rect(aspect: Aspect, width: i32, height: i32) -> (r: VideoRect)
    requires
        aspect.height > 0,
    ensures
        r == placed(aspect, width, height),
        r.den > 0,
{
    if width <= 0 || height <= 0 {
        return VideoRect { x: 0, y: 0, w: 0, h: 0, den: 1 };
    }
    let across: i128 = area(height as i128, aspect.width as i128);
    let down: i128 = area(width as i128, aspect.height as i128);
    assert(aspect.width * height == height * aspect.width) by (nonlinear_arith);
    if across > down {
        let den: i128 = 2 * aspect.width as i128;
        assert(aspect.width > 0) by (nonlinear_arith)
            requires
                across == height * aspect.width,
                across > down,
                down >= 0,
                aspect.width >= 0,
        ;
        let w: i128 = area(width as i128, den);
        VideoRect { x: 0, y: across - down, w: w, h: 2 * down, den: den }
    } else {
        let den: i128 = 2 * aspect.height as i128;
        let h: i128 = area(height as i128, den);
        VideoRect { x: down - across, y: 0, w: 2 * across, h: h, den: den }
    }
}

/// The whole number nearest to `num / den`, halves away from zero.
pub open spec fn nearest(num: int, den: int) -> int {
    (2 * num + den) / (2 * den)
}

fn rounded(num: i128, den: i128) -> (r: i32)
    requires
        0 <= num <= 0x7fff_ffff * den,
        0 < den <= 0x2_0000_0000,
    ensures
        r == nearest(num as int, den as int),
{
    let top: i128 = 2 * num + den;
    let bottom: i128 = 2 * den;
    assert(0 <= top < bottom * 0x8000_0000) by (nonlinear_arith)
        requires
            0 <= num <= 0x7fff_ffff * den,
            0 < den,
            top == 2 * num + den,
            bottom == 2 * den,
    ;
    assert(0 <= (top as int) / (bottom as int) && (top as int) / (bottom as int) < 0x8000_0000) by {
        vstd::arithmetic::div_mod::lemma_div_pos_is_pos(top as int, bottom as int);
        vstd::arithmetic::div_mod::lemma_multiply_divide_lt(
            top as int,
            bottom as int,
            0x8000_0000,
        );
    }
    (top / bottom) as i32
}

/// Pixels to draw in, as whole numbers: x, y, width and height.
pub fn scissor(rect: &VideoRect, width: i32, height: i32) -> (r: (i32, i32, i32, i32))
    requires
        0 < rect.den <= 0x2_0000_0000,
        width >= 0,
        height >= 0,
        0 <= rect.x,
        0 <= rect.y,
        0 <= rect.w,
        0 <= rect.h,
        rect.x + rect.w <= width * rect.den,
        rect.y + rect.h <= height * rect.den,
    ensures
        r.0 == nearest(rect.x as int, rect.den as int),
        r.1 == nearest(rect.y as int, rect.den as int),
        r.2 == nearest(rect.w as int, rect.den as int),
        r.3 == nearest(rect.h as int, rect.den as int),
{
    let den = rect.den;
    assert(width * den <= 0x7fff_ffff * den && height * den <= 0x7fff_ffff * den)
        by (nonlinear_arith)
        requires
            0 <= width <= 0x7fff_ffff,
            0 <= height <= 0x7fff_ffff,
            0 < den,
    ;
    (
        rounded(rect.x, rect.den),
        rounded(rect.y, rect.den),
        rounded(rect.w, rect.den),
        rounded(rect.h, rect.den),
    )
}

/// The picture stays inside the viewport, in the middle of it, keeps its
/// shape, and reaches two opposite edges.
pub proof fn the_picture_fits(aspect: Aspect, width: i32, height: i32)
    requires
        aspect.height > 0,
        width > 0,
        height > 0,
    ensures
        ({
            let r = placed(aspect, width, height);
            &&& 0 < r.den <= 0x2_0000_0000
            &&& 0 <= r.x && 0 <= r.y && 0 <= r.w && 0 <= r.h
            &&& 2 * r.x + r.w == width * r.den
            &&& 2 * r.y + r.h == height * r.den
            &&& r.w * aspect.height == r.h * aspect.width
            &&& r.x == 0 || r.y == 0
        }),
{
    let aw = aspect.width as int;
    let ah = aspect.height as int;
    let w = width as int;
    let h = height as int;
    product_fits(h, aw);
    product_fits(w, ah);
    product_fits(w, 2 * aw);
    product_fits(h, 2 * ah);
    assert(aw * h == h * aw) by (nonlinear_arith);
    if is_wider(aspect, width, height) {
        assert(aw > 0) by (nonlinear_arith)
            requires
                aw * h > w * ah,
                w * ah >= 0,
                aw >= 0,
        ;
        assert(h * (2 * aw) == 2 * (h * aw)) by (nonlinear_arith);
        assert((w * (2 * aw)) * ah == (2 * (w * ah)) * aw) by (nonlinear_arith);
    } else {
        assert(w * (2 * ah) == 2 * (w * ah)) by (nonlinear_arith);
        assert((2 * (h * aw)) * ah == (h * (2 * ah)) * aw) by (nonlinear_arith);
    }
}

proof fn product_fits(a: int, b: int)
    by (nonlinear_arith)
    requires
        0 <= a <= 0x2_0000_0000,
        0 <= b <= 0x2_0000_0000,
    ensures
        0 <= a * b <= 0x4_0000_0000_0000_0000,
{
}

/// The scale says the same as the rectangle: the picture is as wide and as
/// tall as the viewport times its scale.
pub proof fn the_scale_agrees(aspect: Aspect, width: i32, height: i32)
    requires
        aspect.height > 0,
        width > 0,
        height > 0,
    ensures
        ({
            let r = placed(aspect, width, height);
            let (sx, sy) = fitted(aspect, width, height);
            &&& sx.times(Fraction::whole(width as int)).equals(
                Fraction { num: r.w as int, den: r.den as int },
            )
            &&& sy.times(Fraction::whole(height as int)).equals(
                Fraction { num: r.h as int, den: r.den as int },
            )
        }),
{
    let aw = aspect.width as int;
    let ah = aspect.height as int;
    let w = width as int;
    let h = height as int;
    product_fits(h, aw);
    product_fits(w, ah);
    product_fits(w, 2 * aw);
    product_fits(h, 2 * ah);
    assert(aw * h == h * aw) by (nonlinear_arith);
    if is_wider(aspect, width, height) {
        assert((w * ah) * h * (2 * aw) == 2 * (w * ah) * ((aw * h) * 1)) by (nonlinear_arith);
        assert(1 * w * (2 * aw) == (w * (2 * aw)) * (1 * 1)) by (nonlinear_arith);
    } else {
        assert((aw * h) * w * (2 * ah) == (2 * (h * aw)) * ((w * ah) * 1)) by (nonlinear_arith);
        assert(1 * h * (2 * ah) == (h * (2 * ah)) * (1 * 1)) by (nonlinear_arith);
    }
}

// ── Subtitle images ─────────────────────────────────────────────────────

/// Where an image goes in clip space, where the viewport runs from -1 to 1
/// and up is positive.
#[derive(Debug, Clone, Copy, PartialEq, Eq, Structural)]
pub struct ClipRect {
    pub x0: Ratio,
    pub y0: Ratio,
    pub x1: Ratio,
    pub y1: Ratio,
}

/// A place across the picture in clip space, given its distance from the
/// left in a space `reference` wide.
pub open spec fn clip_across(scale: Fraction, at: int, reference: int) -> Fraction {
    Fraction { num: scale.num * (2 * at - reference), den: scale.den * reference }
}

/// A place down the picture in clip space, given its distance from the top.
pub open spec fn clip_down(scale: Fraction, at: int, reference: int) -> Fraction {
    Fraction { num: scale.num * (reference - 2 * at), den: scale.den * reference }
}

/// A reference size, which is not zero.
pub open spec fn at_least_one(reference: (u32, u32)) -> (u32, u32) {
    (
        if reference.0 == 0 {
            1
        } else {
            reference.0
        },
        if reference.1 == 0 {
            1
        } else {
            reference.1
        },
    )
}

fn scaled(num: i128, offset: i128) -> (r: i128)
    requires
        0 <= num <= 0x4_0000_0000_0000_0000,
        -0x8_0000_0000 <= offset <= 0x8_0000_0000,
    ensures
        r == num * offset,
{
    assert(-0x20_0000_0000_0000_0000_0000_0000 <= num * offset
        <= 0x20_0000_0000_0000_0000_0000_0000) by (nonlinear_arith)
        requires
            0 <= num <= 0x4_0000_0000_0000_0000,
            -0x8_0000_0000 <= offset <= 0x8_0000_0000,
    ;
    num * offset
}

/// Where an image goes: its coordinates are relative to the reference
/// resolution of its stream, which is mapped onto the picture. It keeps its
/// place in the picture when the window is resized, and never strays into
/// the bars beside it.
pub fn overlay_rect(
    x: u32,
    y: u32,
    width: u32,
    height: u32,
    reference: (u32, u32),
    scale: (Ratio, Ratio),
) -> (r: ClipRect)
    requires
        reference.0 > 0,
        reference.1 > 0,
        0 < scale.0.den <= 0x4_0000_0000_0000_0000,
        0 < scale.1.den <= 0x4_0000_0000_0000_0000,
        0 <= scale.0.num <= scale.0.den,
        0 <= scale.1.num <= scale.1.den,
    ensures
        r.x0@ == clip_across(scale.0@, x as int, reference.0 as int),
        r.x1@ == clip_across(scale.0@, x + width, reference.0 as int),
        r.y0@ == clip_down(scale.1@, y as int, reference.1 as int),
        r.y1@ == clip_down(scale.1@, y + height, reference.1 as int),
{
    let rw: i128 = reference.0 as i128;
    let rh: i128 = reference.1 as i128;
    let left: i128 = 2 * (x as i128) - rw;
    let right: i128 = 2 * (x as i128 + width as i128) - rw;
    let top: i128 = rh - 2 * (y as i128);
    let bottom: i128 = rh - 2 * (y as i128 + height as i128);
    let dx: i128 = scaled(scale.0.den, rw);
    let dy: i128 = scaled(scale.1.den, rh);
    ClipRect {
        x0: Ratio { num: scaled(scale.0.num, left), den: dx },
        y0: Ratio { num: scaled(scale.1.num, top), den: dy },
        x1: Ratio { num: scaled(scale.0.num, right), den: dx },
        y1: Ratio { num: scaled(scale.1.num, bottom), den: dy },
    }
}

/// An image that lies within its reference space lies within the picture: in
/// clip space, between minus the scale and the scale.
pub proof fn images_stay_in_the_picture(scale: Fraction, at: int, reference: int)
    requires
        reference > 0,
        0 <= at <= reference,
        0 <= scale.num,
        0 < scale.den,
    ensures
        ({
            let across = clip_across(scale, at, reference);
            let down = clip_down(scale, at, reference);
            &&& across.den > 0 && down.den > 0
            &&& -scale.num * across.den <= across.num * scale.den
            &&& across.num * scale.den <= scale.num * across.den
            &&& -scale.num * down.den <= down.num * scale.den
            &&& down.num * scale.den <= scale.num * down.den
        }),
{
    let n = scale.num;
    let d = scale.den;
    let k = 2 * at - reference;
    assert(d * reference > 0) by (nonlinear_arith)
        requires
            d > 0,
            reference > 0,
    ;
    assert(-(n * reference) <= n * k <= n * reference) by (nonlinear_arith)
        requires
            -reference <= k <= reference,
            0 <= n,
    ;
    let nk = n * k;
    let nr = n * reference;
    assert(-(nr * d) <= nk * d <= nr * d) by (nonlinear_arith)
        requires
            -nr <= nk <= nr,
            d > 0,
    ;
    assert(nr * d == n * (d * reference)) by (nonlinear_arith)
        requires
            nr == n * reference,
    ;
    assert(-n * (d * reference) == -(n * (d * reference))) by (nonlinear_arith);
    assert(n * (reference - 2 * at) == -(n * k)) by (nonlinear_arith)
        requires
            k == 2 * at - reference,
    ;
    assert((-nk) * d == -(nk * d)) by (nonlinear_arith);
}

// ── The renderer's state ────────────────────────────────────────────────

/// A colour in thousandths.
#[derive(Debug, Clone, Copy, PartialEq, Eq, Structural)]
pub struct Rgb {
    pub r: u16,
    pub g: u16,
    pub b: u16,
}

/// An image on screen, in the subtitle's own coordinate space.
#[derive(Debug, Clone, Copy, PartialEq, Eq, Structural)]
pub struct SubtitleImage {
    pub x: u32,
    pub y: u32,
    pub width: u32,
    pub height: u32,
}

pub struct Renderer {
    /// What the textures hold, so that they are only made anew when the
    /// stream's geometry changes.
    pub allocated: Option<(u32, u32, PixelLayout)>,
    /// The shape of the frame last uploaded.
    pub aspect: Aspect,
    pub have_frame: bool,
    /// What to clear to when there is no picture.
    pub backdrop: Rgb,
    pub subtitles: Vec<SubtitleImage>,
    pub subtitle_reference: (u32, u32),
    /// How many bars the spectrum's texture holds.
    pub spectrum_len: usize,
}

/// What an upload does.
#[derive(Debug, Clone, Copy, PartialEq, Eq, Structural)]
pub enum Upload {
    /// The frame is empty and is ignored.
    Nothing,
    /// The planes go into new textures.
    Allocate,
    /// The planes go into the textures that are there.
    Replace,
}

/// What a draw does once it has cleared.
#[derive(Debug, Clone, Copy, PartialEq, Eq)]
pub struct Picture {
    pub scale: (Ratio, Ratio),
    /// x, y, width and height in pixels.
    pub scissor: (i32, i32, i32, i32),
}

pub open spec fn is_black(c: Rgb) -> bool {
    c.r == 0 && c.g == 0 && c.b == 0
}

impl Renderer {
    pub open spec fn wf(self) -> bool {
        &&& self.aspect.height > 0
        &&& self.subtitle_reference.0 > 0
        &&& self.subtitle_reference.1 > 0
    }

    pub fn new() -> (r: Renderer)
        ensures
            r.wf(),
            r.allocated is None,
            r.aspect == (Aspect { width: 16, height: 9 }),
            !r.have_frame,
            is_black(r.backdrop),
            r.subtitles@.len() == 0,
            r.subtitle_reference == (1920u32, 1080u32),
            r.spectrum_len == 0,
    {
        Renderer {
            allocated: None,
            aspect: Aspect { width: 16, height: 9 },
            have_frame: false,
            backdrop: Rgb { r: 0, g: 0, b: 0 },
            subtitles: Vec::new(),
            subtitle_reference: (1920, 1080),
            spectrum_len: 0,
        }
    }

    pub fn has_frame(&self) -> (r: bool)
        ensures
            r == self.have_frame,
    {
        self.have_frame
    }

    /// The colour behind an empty stage, so that a player with nothing loaded
    /// has the window's own colour.
    pub fn set_backdrop(&mut self, rgb: Rgb)
        ensures
            *final(self) == (Renderer { backdrop: rgb, ..*old(self) }),
    {
        self.backdrop = rgb;
    }

    /// Takes a frame of this size, layout and display size.
    pub fn upload(&mut self, size: (u32, u32), layout: PixelLayout, display: (u32, u32)) -> (r:
        Upload)
        requires
            old(self).wf(),
        ensures
            final(self).wf(),
            size.0 == 0 || size.1 == 0 ==> r is Nothing && *final(self) == *old(self),
            size.0 > 0 && size.1 > 0 ==> {
                &&& *final(self) == (Renderer {
                    allocated: Some((size.0, size.1, layout)),
                    aspect: Aspect {
                        width: display.0,
                        height: if display.1 == 0 {
                            1
                        } else {
                            display.1
                        },
                    },
                    have_frame: true,
                    ..*old(self)
                })
                &&& r == (if old(self).allocated == Some((size.0, size.1, layout)) {
                    Upload::Replace
                } else {
                    Upload::Allocate
                })
            },
    {
        if size.0 == 0 || size.1 == 0 {
            return Upload::Nothing;
        }
        self.aspect = Aspect {
            width: display.0,
            height: if display.1 == 0 {
                1
            } else {
                display.1
            },
        };
        let same: bool = match self.allocated {
            Some((w, h, l)) => w == size.0 && h == size.1 && l == layout,
            None => false,
        };
        self.allocated = Some((size.0, size.1, layout));
        self.have_frame = true;
        if same {
            Upload::Replace
        } else {
            Upload::Allocate
        }
    }

    /// Whether a spectrum of `bars` bars is drawn in this viewport, and
    /// whether its texture is made anew for it.
    pub fn spectrum(&mut self, width: i32, height: i32, bars: usize) -> (r: Upload)
        ensures
            width <= 0 || height <= 0 || bars == 0 ==> r is Nothing && *final(self) == *old(self),
            width > 0 && height > 0 && bars > 0 ==> {
                &&& *final(self) == (Renderer { spectrum_len: bars, ..*old(self) })
                &&& r == (if old(self).spectrum_len == bars {
                    Upload::Replace
                } else {
                    Upload::Allocate
                })
            },
    {
        if width <= 0 || height <= 0 || bars == 0 {
            return Upload::Nothing;
        }
        if self.spectrum_len != bars {
            self.spectrum_len = bars;
            Upload::Allocate
        } else {
            Upload::Replace
        }
    }

    /// Forgets the picture, so that going from a film to a music file does
    /// not leave its last frame behind the bars.
    pub fn clear_frame(&mut self)
        ensures
            *final(self) == (Renderer { have_frame: false, ..*old(self) }),
    {
        self.have_frame = false;
    }

    /// Replaces the subtitle images on screen. Those without an area are left
    /// out. Returns which of them are shown.
    pub fn set_subtitles(&mut self, rects: &Vec<BitmapRect>, reference: (u32, u32)) -> (shown: Vec<
        usize,
    >)
        requires
            old(self).wf(),
        ensures
            final(self).wf(),
            final(self).subtitles@ == images_of(subtitle::rect_views(rects@)),
            shown@.map_values(|i: usize| i as int) == positions_of(subtitle::rect_views(rects@)),
            final(self).subtitle_reference == at_least_one(reference),
            final(self).allocated == old(self).allocated,
            final(self).aspect == old(self).aspect,
            final(self).have_frame == old(self).have_frame,
            final(self).backdrop == old(self).backdrop,
            final(self).spectrum_len == old(self).spectrum_len,
    {
        self.clear_subtitles();
        self.subtitle_reference = (
            if reference.0 == 0 {
                1
            } else {
                reference.0
            },
            if reference.1 == 0 {
                1
            } else {
                reference.1
            },
        );
        let ghost kept = *self;
        let ghost all = subtitle::rect_views(rects@);
        let mut shown: Vec<usize> = Vec::new();
        let mut i: usize = 0;
        assert(all.take(0) =~= Seq::<RectView>::empty());
        assert(shown@.map_values(|i: usize| i as int) =~= Seq::<int>::empty());
        assert(self.subtitles@ =~= Seq::<SubtitleImage>::empty());
        while i < rects.len()
            invariant
                i <= rects@.len(),
                all == subtitle::rect_views(rects@),
                self.subtitles@ == images_of(all.take(i as int)),
                shown@.map_values(|i: usize| i as int) == positions_of(all.take(i as int)),
                *self == (Renderer { subtitles: self.subtitles, ..kept }),
            decreases rects@.len() - i,
        {
            let ghost next = all.take(i + 1);
            assert(next.drop_last() =~= all.take(i as int));
            assert(next.last() == rects@[i as int]@);
            let ghost before = shown@.map_values(|i: usize| i as int);
            if rects[i].width > 0 && rects[i].height > 0 {
                self.subtitles.push(
                    SubtitleImage {
                        x: rects[i].x,
                        y: rects[i].y,
                        width: rects[i].width,
                        height: rects[i].height,
                    },
                );
                shown.push(i);
                assert(shown@.map_values(|i: usize| i as int) =~= before.push(i as int));
            }
            i = i + 1;
        }
        assert(all.take(i as int) =~= all);
        shown
    }

    pub fn clear_subtitles(&mut self)
        ensures
            final(self).subtitles@ == Seq::<SubtitleImage>::empty(),
            *final(self) == (Renderer { subtitles: final(self).subtitles, ..*old(self) }),
    {
        self.subtitles = Vec::new();
        assert(self.subtitles@ =~= Seq::<SubtitleImage>::empty());
    }

    /// What the stage is cleared to: black once there is a picture, because
    /// the bars beside a film are part of it, and the window's own colour
    /// before.
    pub fn clear_colour(&self) -> (r: Rgb)
        ensures
            self.have_frame ==> is_black(r),
            !self.have_frame ==> r == self.backdrop,
    {
        if self.have_frame {
            Rgb { r: 0, g: 0, b: 0 }
        } else {
            self.backdrop
        }
    }

    /// Where the picture sits in a viewport, in pixels.
    pub fn video_rect(&self, width: i32, height: i32) -> (r: VideoRect)
        requires
            self.wf(),
        ensures
            r == placed(self.aspect, width, height),
            r.den > 0,
    {
        video_rect(self.aspect, width, height)
    }

    /// How the picture is drawn in a viewport, if there is one.
    pub fn draw(&self, width: i32, height: i32) -> (r: Option<Picture>)
        requires
            self.wf(),
        ensures
            r is None <==> !self.have_frame || width <= 0 || height <= 0,
            r matches Some(p) ==> {
                let rect = placed(self.aspect, width, height);
                &&& (p.scale.0@, p.scale.1@) == fitted(self.aspect, width, height)
                &&& p.scissor.0 == nearest(rect.x as int, rect.den as int)
                &&& p.scissor.1 == nearest(rect.y as int, rect.den as int)
                &&& p.scissor.2 == nearest(rect.w as int, rect.den as int)
                &&& p.scissor.3 == nearest(rect.h as int, rect.den as int)
            },
    {
        if !self.have_frame || width <= 0 || height <= 0 {
            return None;
        }
        let scale = fit(self.aspect, width, height);
        let rect = self.video_rect(width, height);
        proof {
            the_picture_fits(self.aspect, width, height);
        }
        Some(Picture { scale: scale, scissor: scissor(&rect, width, height) })
    }

    /// Where the image at `i` goes in clip space.
    pub fn subtitle_rect(&self, i: usize, width: i32, height: i32) -> (r: ClipRect)
        requires
            self.wf(),
            i < self.subtitles@.len(),
            width > 0,
            height > 0,
        ensures
            ({
                let image = self.subtitles@[i as int];
                let (sx, sy) = fitted(self.aspect, width, height);
                let (rw, rh) = self.subtitle_reference;
                &&& r.x0@ == clip_across(sx, image.x as int, rw as int)
                &&& r.x1@ == clip_across(sx, image.x + image.width, rw as int)
                &&& r.y0@ == clip_down(sy, image.y as int, rh as int)
                &&& r.y1@ == clip_down(sy, image.y + image.height, rh as int)
            }),
    {
        let scale = fit(self.aspect, width, height);
        let image = self.subtitles[i];
        overlay_rect(
            image.x,
            image.y,
            image.width,
            image.height,
            self.subtitle_reference,
            scale,
        )
    }
}

/// The images that have an area.
pub open spec fn images_of(rects: Seq<RectView>) -> Seq<SubtitleImage>
    decreases rects.len(),
{
    if rects.len() == 0 {
        Seq::empty()
    } else if rects.last().width > 0 && rects.last().height > 0 {
        let last = rects.last();
        images_of(rects.drop_last()).push(
            SubtitleImage { x: last.x, y: last.y, width: last.width, height: last.height },
        )
    } else {
        images_of(rects.drop_last())
    }
}

/// Where the images that have an area stand.
pub open spec fn positions_of(rects: Seq<RectView>) -> Seq<int>
    decreases rects.len(),
{
    if rects.len() == 0 {
        Seq::empty()
    } else if rects.last().width > 0 && rects.last().height > 0 {
        positions_of(rects.drop_last()).push(rects.len() - 1)
    } else {
        positions_of(rects.drop_last())
    }
}

/// A plane's texture holds what the plane does: one component to a plane of
/// its own, two where chroma is interleaved, all of them where the picture is
/// packed, in bytes or in words by the depth; and it is stored in the type
/// that fits.
pub proof fn a_texture_holds_its_plane(layout: PixelLayout, index: int)
    requires
        0 <= index < layout.plane_count(),
    ensures
        ({
            let t = texture_for(layout, index);
            &&& t.kind is Short <==> layout is Planar16 || layout is BiPlanar16
            &&& t.format is Red <==> !layout.holds_rgb() && (layout.plane_count() == 3 || index
                == 0)
            &&& t.format is Rg <==> layout.plane_count() == 2 && index == 1
            &&& t.format is Rgb <==> layout is Rgb24
            &&& t.format is Rgba <==> layout is Rgba || layout is Bgra
            &&& t.internal is R8 <==> t.format is Red && t.kind is Byte
            &&& t.internal is R16 <==> t.format is Red && t.kind is Short
            &&& t.internal is RG8 <==> t.format is Rg && t.kind is Byte
            &&& t.internal is RG16 <==> t.format is Rg && t.kind is Short
            &&& t.internal is RGB8 <==> t.format is Rgb
            &&& t.internal is RGBA8 <==> t.format is Rgba
        }),
{
}

/// As many rows are uploaded as the plane claims, or as it holds if those are
/// fewer: one row more would be too many.
pub proof fn no_row_is_left_out(len: int, stride: int, height: u32)
    requires
        0 <= len,
        0 < stride,
    ensures
        rows_to_upload(len, stride, height) < height ==> (rows_to_upload(len, stride, height) + 1)
            * stride > len,
{
    let rows = len / stride;
    vstd::arithmetic::div_mod::lemma_fundamental_div_mod(len, stride);
    vstd::arithmetic::div_mod::lemma_mod_bound(len, stride);
    assert((rows + 1) * stride == stride * rows + stride) by (nonlinear_arith);
}

/// The whole number nearest to a fraction is within a half of it.
pub proof fn rounding_goes_to_the_nearest(num: int, den: int)
    requires
        den > 0,
    ensures
        2 * num - den < 2 * (nearest(num, den) * den) <= 2 * num + den,
{
    let a = 2 * num + den;
    let d = 2 * den;
    let q = a / d;
    vstd::arithmetic::div_mod::lemma_fundamental_div_mod(a, d);
    vstd::arithmetic::div_mod::lemma_mod_bound(a, d);
    assert(d * q == 2 * (q * den)) by (nonlinear_arith)
        requires
            d == 2 * den,
    ;
}

/// A place across the picture maps evenly: its left edge is the left edge of
/// the picture in clip space, its right edge the right one, and equal steps
/// are equal. Down the picture it is the same from top to bottom.
pub proof fn places_map_evenly(scale: Fraction, at: int, step: int, reference: int)
    requires
        reference > 0,
        scale.den > 0,
    ensures
        clip_across(scale, 0, reference).equals(Fraction { num: -scale.num, den: scale.den }),
        clip_across(scale, reference, reference).equals(scale),
        clip_down(scale, 0, reference).equals(scale),
        clip_down(scale, reference, reference).equals(
            Fraction { num: -scale.num, den: scale.den },
        ),
        clip_across(scale, at + step, reference).num - clip_across(scale, at, reference).num == 2
            * step * scale.num,
        clip_down(scale, at, reference).num - clip_down(scale, at + step, reference).num == 2 * step
            * scale.num,
        clip_across(scale, at, reference).den == scale.den * reference,
        clip_down(scale, at, reference).den == scale.den * reference,
{
    let (n, d) = (scale.num, scale.den);
    let r = reference;
    assert((n * (2 * 0 - r)) * d == (-n) * (d * r)) by (nonlinear_arith);
    assert((n * (2 * r - r)) * d == n * (d * r)) by (nonlinear_arith);
    assert((n * (r - 2 * 0)) * d == n * (d * r)) by (nonlinear_arith);
    assert((n * (r - 2 * r)) * d == (-n) * (d * r)) by (nonlinear_arith);
    assert(n * (2 * (at + step) - r) - n * (2 * at - r) == 2 * step * n) by (nonlinear_arith);
    assert(n * (r - 2 * at) - n * (r - 2 * (at + step)) == 2 * step * n) by (nonlinear_arith);
}

/// The shader is told of the two HDR curves, each by a number of its own, and
/// nothing of any other.
pub proof fn the_shader_knows_the_curve(transfer: TransferCharacteristic)
    ensures
        curve_code(transfer) == 0 <==> !(transfer is SMPTE2084) && !(transfer is ARIB_STD_B67),
        curve_code(TransferCharacteristic::SMPTE2084) == 1,
        curve_code(TransferCharacteristic::ARIB_STD_B67) == 2,
{
}

/// Every image that has an area is drawn, where and as large as it is, and no
/// other; and each is drawn from the rectangle that it came from.
pub proof fn images_with_an_area_are_drawn(rects: Seq<RectView>, k: int)
    requires
        0 <= k < rects.len(),
    ensures
        images_of(rects).len() == positions_of(rects).len(),
        rects[k].width > 0 && rects[k].height > 0 <==> exists|n: int|
            0 <= n < positions_of(rects).len() && #[trigger] positions_of(rects)[n] == k,
        forall|n: int|
            0 <= n < positions_of(rects).len() ==> {
                let p = #[trigger] positions_of(rects)[n];
                let i = images_of(rects)[n];
                &&& 0 <= p < rects.len()
                &&& i.x == rects[p].x && i.y == rects[p].y && i.width == rects[p].width && i.height
                    == rects[p].height
            },
    decreases rects.len(),
{
    let init = rects.drop_last();
    let last = rects.len() - 1;
    let old = positions_of(init);
    let now = positions_of(rects);
    if k < last {
        images_with_an_area_are_drawn(init, k);
        assert(init[k] == rects[k]);
    } else if last > 0 {
        images_with_an_area_are_drawn(init, 0);
    } else {
        assert(old.len() == 0 && images_of(init).len() == 0);
    }
    if rects.last().width > 0 && rects.last().height > 0 {
        assert(now[old.len() as int] == last);
        if k < last && rects[k].width > 0 && rects[k].height > 0 {
            let n = choose|n: int| 0 <= n < old.len() && #[trigger] old[n] == k;
            assert(now[n] == k);
        }
        if exists|n: int| 0 <= n < now.len() && #[trigger] now[n] == k {
            let n = choose|n: int| 0 <= n < now.len() && #[trigger] now[n] == k;
            if n < old.len() {
                assert(old[n] == k);
            }
        }
    }
    assert forall|n: int| 0 <= n < now.len() implies {
        let p = #[trigger] now[n];
        let i = images_of(rects)[n];
        &&& 0 <= p < rects.len()
        &&& i.x == rects[p].x && i.y == rects[p].y && i.width == rects[p].width && i.height
            == rects[p].height
    } by {
        if n < old.len() {
            assert(now[n] == old[n]);
            assert(images_of(rects)[n] == images_of(init)[n]);
            assert(init[old[n]] == rects[old[n]]);
        }
    }
}

} // verus!

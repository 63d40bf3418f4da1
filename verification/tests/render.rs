//! Colour, textures, letterboxing and captions.

use owl_player::colour::{depth_scale, luma_weights, primaries_matrix, yuv_to_rgb, Ratio};
use owl_player::engine::Selection;
use owl_player::frame::{
    frame_time, needs_transfer, pixel_aspect, prepare, ColorInfo, Pixel, PixelLayout, Preparation,
    Primaries, Range, Space, TransferCharacteristic, VideoFrame,
};
use owl_player::markup::Alignment;
use owl_player::player::State;
use owl_player::render::{
    configure, plane_upload, video_rect, Aspect, Internal, Renderer, Rgb, TextureSpec, Upload,
};
use owl_player::stage::{anchor_of, place_subtitle, repaints, showing, Anchor, Showing, Stage};
use owl_player::subtitle::{BitmapRect, SubtitleContent, SubtitleCue};
use owl_player::time::TimeBase;

fn float(r: Ratio) -> f32 {
    (r.num as f64 / r.den as f64) as f32
}

fn floats(space: Space, full: bool, bits: u8) -> (Vec<f32>, Vec<f32>) {
    let (m, o) = yuv_to_rgb(space, full, bits);
    (m.iter().map(|r| float(*r)).collect(), o.iter().map(|r| float(*r)).collect())
}

#[test]
fn limited_range_white_maps_to_one() {
    for bits in [8u8, 10, 12] {
        let (m, off) = floats(Space::BT709, false, bits);
        let max = ((1u32 << bits) - 1) as f32;
        let white_y = (235.0 * (1u32 << (bits - 8)) as f32) / max;
        let neutral = (1u32 << (bits - 1)) as f32 / max;
        let yuv = [white_y - off[0], neutral - off[1], neutral - off[2]];
        // Row 0 of a column-major matrix is elements 0, 3, 6.
        let r = m[0] * yuv[0] + m[3] * yuv[1] + m[6] * yuv[2];
        assert!((r - 1.0).abs() < 0.002, "{bits}-bit white came out at {r}");
    }
}

#[test]
fn limited_range_black_maps_to_zero() {
    let (m, off) = floats(Space::BT709, false, 8);
    let yuv = [16.0 / 255.0 - off[0], 128.0 / 255.0 - off[1], 128.0 / 255.0 - off[2]];
    let r = m[0] * yuv[0] + m[3] * yuv[1] + m[6] * yuv[2];
    assert!(r.abs() < 0.002, "black came out at {r}");
}

#[test]
fn full_range_is_untouched() {
    let (m, off) = floats(Space::BT709, true, 8);
    assert_eq!(off[0], 0.0);
    assert!((m[0] - 1.0).abs() < f32::EPSILON);
}

#[test]
fn red_stays_red() {
    let (m, off) = floats(Space::BT709, false, 8);
    let (y, u, v) = (63.0 / 255.0, 102.0 / 255.0, 240.0 / 255.0);
    let yuv = [y - off[0], u - off[1], v - off[2]];
    let r = m[0] * yuv[0] + m[3] * yuv[1] + m[6] * yuv[2];
    let g = m[1] * yuv[0] + m[4] * yuv[1] + m[7] * yuv[2];
    let b = m[2] * yuv[0] + m[5] * yuv[1] + m[8] * yuv[2];
    assert!(r > 0.9, "red channel {r}");
    assert!(g < 0.2, "green channel {g}");
    assert!(b < 0.2, "blue channel {b}");
}

#[test]
fn matrices_are_exact() {
    assert_eq!(luma_weights(Space::SMPTE170M), (2990, 1140));
    assert_eq!(luma_weights(Space::BT2020CL), (2627, 593));
    assert_eq!(luma_weights(Space::Other(77)), (2126, 722));
    let (m, o) = yuv_to_rgb(Space::BT709, false, 10);
    assert_eq!(m[0], Ratio { num: 1023, den: 219 * 4 });
    assert_eq!(o[0], Ratio { num: 64, den: 1023 });
    assert_eq!(o[1], Ratio { num: 512, den: 1023 });
    // A depth below eight is read as eight.
    assert_eq!(yuv_to_rgb(Space::BT709, false, 1), yuv_to_rgb(Space::BT709, false, 8));
    let close = |a: f32, b: f32| (a - b).abs() < 1e-5;
    let (m, _) = floats(Space::BT470BG, true, 8);
    assert!(close(m[6], 1.402) && close(m[5], 1.772) && close(m[4], -0.344_136) && close(m[7], -0.714_136));
    assert_eq!((m[3], m[8]), (0.0, 0.0));
}

#[test]
fn primaries_are_mapped_only_while_tone_mapping() {
    assert_eq!(primaries_matrix(false), [10000, 0, 0, 0, 10000, 0, 0, 0, 10000]);
    assert_eq!(primaries_matrix(true)[0], 16605);
    assert_eq!(primaries_matrix(true)[8], 11187);
}

#[test]
fn deep_samples_are_brought_back() {
    assert_eq!(depth_scale(PixelLayout::Rgba), Ratio { num: 1, den: 1 });
    let low = PixelLayout::Planar16 { sub_x: 1, sub_y: 1, bits: 10 };
    assert_eq!(depth_scale(low), Ratio { num: 65535, den: 1023 });
    assert_eq!(depth_scale(PixelLayout::BiPlanar16 { bits: 10 }), Ratio { num: 65535, den: 65472 });
    assert_eq!(depth_scale(PixelLayout::BiPlanar16 { bits: 16 }), Ratio { num: 65535, den: 65535 });
}

#[test]
fn layouts_know_their_planes() {
    let p8 = PixelLayout::from_ffmpeg(Pixel::YUVJ422P).unwrap();
    assert_eq!(p8, PixelLayout::Planar8 { sub_x: 1, sub_y: 0 });
    assert_eq!((p8.planes(), p8.is_rgb(), p8.bit_depth()), (3, false, 8));
    let p12 = PixelLayout::from_ffmpeg(Pixel::YUV444P12LE).unwrap();
    assert_eq!((p12.planes(), p12.bit_depth()), (3, 12));
    let p010 = PixelLayout::from_ffmpeg(Pixel::P010LE).unwrap();
    assert_eq!((p010.planes(), p010.bit_depth()), (2, 10));
    assert_eq!(PixelLayout::from_ffmpeg(Pixel::NV21), Some(PixelLayout::BiPlanar8 { swapped: true }));
    assert!(PixelLayout::Bgra.is_rgb() && PixelLayout::Rgb24.planes() == 1);
    assert_eq!(PixelLayout::from_ffmpeg(Pixel::Other), None);
}

#[test]
fn frames_are_handed_on_or_converted() {
    assert_eq!(prepare(Pixel::RGBA, None), Preparation::Direct(PixelLayout::Rgba));
    let nv12 = Preparation::Convert {
        target: Pixel::NV12,
        layout: PixelLayout::BiPlanar8 { swapped: false },
    };
    assert_eq!(prepare(Pixel::Other, None), nv12);
    assert_eq!(prepare(Pixel::Other, Some(8)), nv12);
    assert_eq!(
        prepare(Pixel::Other, Some(9)),
        Preparation::Convert { target: Pixel::P010LE, layout: PixelLayout::BiPlanar16 { bits: 10 } }
    );
    assert!(needs_transfer(true, true));
    assert!(!needs_transfer(false, true) && !needs_transfer(true, false));
    let base = TimeBase { num: 1, den: 1000 };
    assert_eq!(frame_time(Some(5), Some(9), base), 5_000_000);
    assert_eq!(frame_time(None, Some(9), base), 9_000_000);
    assert_eq!(frame_time(None, None, base), 0);
    assert_eq!(pixel_aspect(64, 45), (64, 45));
    assert_eq!(pixel_aspect(0, 45), (1, 1));
    assert_eq!(pixel_aspect(1, -1), (1, 1));
}

#[test]
fn pixels_need_not_be_square() {
    let f = |sar| VideoFrame::new((), (720, 576), PixelLayout::Rgba, ColorInfo::default(), 0, sar).display_size();
    assert_eq!(f((64, 45)), (1024, 576));
    assert_eq!(f((1, 1)), (720, 576));
    assert_eq!(f((0, 1)), (720, 576));
    assert_eq!(f((7, 0)), (720, 576));
    assert_eq!(f((u32::MAX, 1)), ((720u64 * u32::MAX as u64) as u32, 576));
}

#[test]
fn colour_metadata_is_resolved() {
    let c = ColorInfo::default();
    assert!(!c.is_hdr() && c.hdr_label().is_none());
    let pq = ColorInfo { transfer: TransferCharacteristic::SMPTE2084, ..c };
    assert!(pq.is_hdr());
    assert_eq!(pq.hdr_label(), Some("HDR10"));
    let hlg = ColorInfo { transfer: TransferCharacteristic::ARIB_STD_B67, ..c };
    assert_eq!(hlg.hdr_label(), Some("HLG"));
    let blank = ColorInfo { space: Space::Unspecified, ..c };
    assert_eq!(blank.resolved_space(720), Space::BT709);
    assert_eq!(blank.resolved_space(719), Space::BT470BG);
    let odd = ColorInfo { space: Space::Other(9), primaries: Primaries::Other(3), ..c };
    assert_eq!(odd.resolved_space(100), Space::Other(9));
}

#[test]
fn planes_are_uploaded_as_far_as_they_go() {
    let nv12 = PixelLayout::BiPlanar8 { swapped: false };
    let up = plane_upload(nv12, 1, 64 * 10, 64, 30, 10).unwrap();
    assert_eq!((up.row_length, up.width, up.height), (32, 30, 10));
    assert_eq!(up.texture.internal, Internal::RG8);
    assert_eq!(plane_upload(nv12, 0, 64 * 4 + 63, 64, 60, 10).unwrap().height, 4);
    assert!(plane_upload(nv12, 0, 63, 64, 60, 10).is_none());
    assert!(plane_upload(nv12, 0, 640, 64, 60, 0).is_none());
    assert_eq!(plane_upload(nv12, 0, 5, 0, 60, 10).unwrap().height, 5);
    assert_eq!(plane_upload(nv12, 0, 0x1_0000_0000, 1, 60, 10).unwrap().height, 10);
    assert_eq!(TextureSpec::for_plane(PixelLayout::Rgb24, 0).bytes_per_texel, 3);
    assert_eq!(TextureSpec::for_plane(PixelLayout::BiPlanar16 { bits: 10 }, 1).bytes_per_texel, 4);
    assert_eq!(TextureSpec::for_plane(PixelLayout::BiPlanar16 { bits: 10 }, 0).bytes_per_texel, 2);
}

#[test]
fn the_shader_is_told_what_the_frame_is() {
    let c = ColorInfo { range: Range::JPEG, transfer: TransferCharacteristic::ARIB_STD_B67, ..ColorInfo::default() };
    let u = configure(PixelLayout::BiPlanar8 { swapped: true }, c, 1080);
    assert_eq!((u.planes, u.swap_uv, u.is_rgb, u.bgra, u.transfer), (2, true, false, false, 2));
    assert_eq!(u.matrix[0], Ratio { num: 1, den: 1 });
    assert_eq!(u.primaries[0], 16605);
    let u = configure(PixelLayout::Bgra, ColorInfo::default(), 1080);
    assert_eq!((u.planes, u.swap_uv, u.is_rgb, u.bgra, u.transfer), (1, false, true, true, 0));
}

#[test]
fn pictures_are_letterboxed() {
    let film = Aspect { width: 2390, height: 1000 };
    let r = video_rect(film, 1600, 900);
    let px = |n: i128| n as f64 / r.den as f64;
    assert_eq!((r.x, px(r.w)), (0, 1600.0));
    assert!((px(r.h) - 1600.0 / 2.39).abs() < 1e-9);
    assert!((px(r.y) - (900.0 - 1600.0 / 2.39) / 2.0).abs() < 1e-9);
    assert_eq!(r.w * 1000, r.h * 2390, "the shape is kept");
    let r = video_rect(Aspect { width: 4, height: 3 }, 1600, 900);
    assert_eq!((r.x / r.den, r.y, r.w / r.den, r.h / r.den), (200, 0, 1200, 900));
    let r = video_rect(film, 0, 900);
    assert_eq!((r.x, r.y, r.w, r.h), (0, 0, 0, 0));
}

fn rect(x: u32, y: u32, width: u32, height: u32) -> BitmapRect {
    BitmapRect { x, y, width, height, rgba: vec![0; (width * height * 4) as usize] }
}

#[test]
fn the_renderer_keeps_its_textures() {
    let mut r = Renderer::new();
    assert!(!r.has_frame());
    assert!(r.draw(100, 100).is_none());
    let glass = Rgb { r: 90, g: 90, b: 114 };
    r.set_backdrop(glass);
    assert_eq!(r.clear_colour(), glass);
    assert_eq!(r.upload((0, 10), PixelLayout::Rgba, (0, 10)), Upload::Nothing);
    assert_eq!(r.upload((20, 10), PixelLayout::Rgba, (20, 10)), Upload::Allocate);
    assert_eq!(r.upload((20, 10), PixelLayout::Rgba, (20, 10)), Upload::Replace);
    assert_eq!(r.upload((20, 10), PixelLayout::Bgra, (20, 10)), Upload::Allocate);
    assert_eq!(r.clear_colour(), Rgb { r: 0, g: 0, b: 0 });
    let p = r.draw(100, 100).unwrap();
    assert_eq!(p.scissor, (0, 25, 100, 50));
    assert_eq!(float(p.scale.0), 1.0);
    assert_eq!(float(p.scale.1), 0.5);
    assert!(r.draw(100, 0).is_none());
    r.clear_frame();
    assert!(!r.has_frame());
    assert_eq!(r.spectrum(10, 10, 56), Upload::Allocate);
    assert_eq!(r.spectrum(10, 10, 56), Upload::Replace);
    assert_eq!(r.spectrum(10, 10, 0), Upload::Nothing);
    assert_eq!(r.spectrum(-1, 10, 56), Upload::Nothing);
}

#[test]
fn rounding_goes_to_the_nearest_pixel() {
    let mut r = Renderer::new();
    r.upload((3, 2), PixelLayout::Rgba, (3, 2));
    // 101 wide makes 67.33 tall, 16.83 down.
    assert_eq!(r.draw(101, 101).unwrap().scissor, (0, 17, 101, 67));
}

#[test]
fn subtitle_images_land_inside_the_picture() {
    let mut r = Renderer::new();
    r.upload((20, 10), PixelLayout::Rgba, (20, 10));
    let shown = r.set_subtitles(&vec![rect(0, 5, 4, 5), rect(0, 0, 0, 9), rect(2, 0, 2, 2)], (4, 0));
    assert_eq!(shown, [0, 2]);
    assert_eq!(r.subtitle_reference, (4, 1));
    r.set_subtitles(&vec![rect(0, 5, 4, 5)], (4, 10));
    let c = r.subtitle_rect(0, 100, 100);
    assert_eq!((float(c.x0), float(c.x1)), (-1.0, 1.0));
    assert_eq!((float(c.y0), float(c.y1)), (0.0, -0.5), "the picture is half as tall as the stage");
    r.clear_subtitles();
    assert!(r.subtitles.is_empty());
}

fn cue(content: SubtitleContent) -> SubtitleCue {
    SubtitleCue { start: 0, end: 1, content }
}

fn line(s: &str) -> SubtitleCue {
    cue(SubtitleContent::Text { markup: s.to_string(), alignment: Alignment::Top })
}

#[test]
fn cues_are_parted_into_text_and_images() {
    let mut s = Stage::new();
    assert_eq!(s.seen, u64::MAX);
    let image = |x| cue(SubtitleContent::Bitmap { rects: vec![rect(x, 0, 1, 1)], reference: (x, x) });
    let (images, reference) = s.show_cues(7, &vec![line("a"), image(3), line("b"), image(4)]);
    assert_eq!(images.len(), 2);
    assert_eq!(reference, (4, 4));
    assert_eq!((s.seen, s.text_revision), (7, 1));
    assert_eq!(s.text, Some(("b".to_string(), Alignment::Top)));
    s.show_cues(8, &vec![line("b")]);
    assert_eq!(s.text_revision, 1, "the same text is not new");
    let (images, reference) = s.show_cues(9, &Vec::new());
    assert!(images.is_empty());
    assert_eq!(reference, (1920, 1080));
    assert_eq!((s.text, s.text_revision), (None, 2));
}

#[test]
fn captions_stay_in_the_picture() {
    let film = video_rect(Aspect { width: 2, height: 1 }, 2000, 2000);
    // Two device pixels to one of the stage: the picture is 1000 by 500, 250 down.
    let m = place_subtitle(&film, 2, 1000, Anchor::Top).unwrap();
    assert_eq!((m.sides, m.edge), (50, 275));
    let m = place_subtitle(&film, 2, 1000, Anchor::Bottom).unwrap();
    assert_eq!(m.edge, 280);
    let wide = video_rect(Aspect { width: 2, height: 1 }, 1000, 500);
    let m = place_subtitle(&wide, 1, 500, Anchor::Bottom).unwrap();
    assert_eq!(m.edge, 150, "always clear of the transport bar");
    let none = video_rect(Aspect { width: 2, height: 1 }, 0, 0);
    assert!(place_subtitle(&none, 1, 500, Anchor::Bottom).is_none());
    assert_eq!(anchor_of(Alignment::Top), Anchor::Top);
    assert_eq!(anchor_of(Alignment::Middle), Anchor::Bottom);
    assert_eq!(anchor_of(Alignment::Bottom), Anchor::Bottom);
}

#[test]
fn music_gets_a_spectrum() {
    let music = Selection { video: None, audio: Some(0), subtitle: None };
    let film = Selection { video: Some(1), ..music };
    assert_eq!(showing(Some(music), true), Showing::Spectrum);
    assert_eq!(showing(Some(music), false), Showing::Picture);
    assert_eq!(showing(Some(film), true), Showing::Picture);
    assert_eq!(showing(None, true), Showing::Picture);
    assert!(repaints(State::Playing) && !repaints(State::Paused));
}

//! What a file says of itself, errors, and hardware decoding.

use owl_player::error::{is_again, is_eof, worth_logging, Error, Fault, FaultKind};
use owl_player::frame::TransferCharacteristic;
use owl_player::hwaccel::{
    device_names, hw_pixel_format, next_accelerator, pick_format, DeviceType, HwAccel, HwConfig,
    OfferedFormat,
};
use owl_player::media::{
    codec_name, describe, language_name, track_of, ChapterInfo, FileInfo, MediaInfo, Medium,
    StreamInfo, TrackKind,
};
use owl_player::time::{TimeBase, SECOND};

fn stream(index: usize, medium: Medium) -> StreamInfo {
    StreamInfo {
        index,
        medium,
        codec: "eac3".to_string(),
        language: Some("eng".to_string()),
        title: None,
        attached_pic: false,
        is_default: true,
        is_forced: false,
        decodable: true,
        video: Some((3840, 2160, TransferCharacteristic::SMPTE2084)),
        frame_rate: (24000, 1001),
        audio: Some((6, 48000)),
    }
}

#[test]
fn streams_become_tracks() {
    let v = track_of(&stream(0, Medium::Video)).unwrap();
    assert_eq!((v.kind, v.width, v.height, v.frame_rate), (TrackKind::Video, 3840, 2160, (24000, 1001)));
    assert_eq!((v.hdr, v.channels), (Some("HDR10"), 0));
    let a = track_of(&stream(1, Medium::Audio)).unwrap();
    assert_eq!((a.kind, a.channels, a.sample_rate, a.width, a.hdr), (TrackKind::Audio, 6, 48000, 0, None));
    assert!(track_of(&stream(2, Medium::Other)).is_none());
    let cover = StreamInfo { attached_pic: true, ..stream(0, Medium::Video) };
    assert!(track_of(&cover).is_none());
    let unknown = StreamInfo { language: Some("und".to_string()), ..stream(0, Medium::Subtitle) };
    assert_eq!(track_of(&unknown).unwrap().language, None);
    let broken = StreamInfo { decodable: false, ..stream(0, Medium::Video) };
    let t = track_of(&broken).unwrap();
    assert_eq!((t.width, t.frame_rate, t.hdr), (0, (0, 1), None));
}

#[test]
fn labels_say_what_a_track_is() {
    let a = track_of(&stream(1, Medium::Audio)).unwrap();
    assert_eq!(a.label(), "English · 5.1 · EAC3");
    for (channels, text) in [(1, "Mono"), (2, "Stereo"), (8, "7.1"), (3, "3 ch")] {
        let s = StreamInfo { audio: Some((channels, 1)), ..stream(1, Medium::Audio) };
        assert_eq!(track_of(&s).unwrap().label(), format!("English · {text} · EAC3"));
    }
    let v = track_of(&stream(0, Medium::Video)).unwrap();
    assert_eq!(v.label(), "3840×2160 · EAC3");
    assert_eq!(v.label_with(&"X".to_string()), "3840×2160 · X");
    let s = StreamInfo { is_forced: true, language: Some("xxx".to_string()), ..stream(2, Medium::Subtitle) };
    assert_eq!(track_of(&s).unwrap().label(), "xxx (Forced)");
    let s = StreamInfo { language: None, ..stream(2, Medium::Subtitle) };
    assert_eq!(track_of(&s).unwrap().label(), "Unknown");
    let s = StreamInfo { title: Some("Commentary".to_string()), ..stream(1, Medium::Audio) };
    assert_eq!(track_of(&s).unwrap().label(), "Commentary");
    assert_eq!(language_name("fre"), "French");
    assert_eq!(language_name("tr"), "Turkish");
    assert_eq!(language_name("ENG"), "ENG");
    assert_eq!(codec_name(Some("h264".to_string()), "H264"), "h264");
    assert_eq!(codec_name(None, "Some_ID"), "some_id");
}

fn file(streams: Vec<StreamInfo>) -> FileInfo {
    FileInfo {
        title: None,
        duration: 61_500_000,
        streams,
        chapters: vec![
            ChapterInfo { title: None, start: 0, end: 1500, base: TimeBase { num: 1, den: 1000 } },
            ChapterInfo {
                title: Some("Two".to_string()),
                start: 1500,
                end: 3000,
                base: TimeBase { num: 1, den: 1000 },
            },
        ],
        container: "matroska,webm".to_string(),
        bit_rate: 1234,
    }
}

#[test]
fn files_are_described() {
    let cover = StreamInfo { attached_pic: true, ..stream(0, Medium::Video) };
    let i = describe("/m/a.world_of.stillness.mkv", &file(vec![cover, stream(1, Medium::Audio)]));
    assert_eq!(i.duration, 61 * SECOND + SECOND / 2);
    assert_eq!(i.tracks.len(), 1);
    assert_eq!(i.tracks_of(TrackKind::Video).len(), 0);
    assert_eq!(i.tracks_of(TrackKind::Audio)[0].index, 1);
    assert_eq!(i.chapters[0].title, "Chapter");
    assert_eq!((i.chapters[1].start, i.chapters[1].end), (SECOND * 3 / 2, 3 * SECOND));
    assert_eq!(i.display_title(), "a world of stillness");
    assert_eq!((i.container.as_str(), i.bit_rate), ("matroska,webm", 1234));
    let unknown = FileInfo { duration: -5, ..file(Vec::new()) };
    assert_eq!(describe("x", &unknown).duration, 0);
}

#[test]
fn titles_fall_back_on_the_file_name() {
    let mut i = MediaInfo { path: "/m/my_film.2024.mkv".to_string(), ..MediaInfo::default() };
    assert_eq!(i.display_title(), "my film 2024");
    i.title = Some("  ".to_string());
    assert_eq!(i.display_title(), "my film 2024");
    i.title = Some(" A World ".to_string());
    assert_eq!(i.display_title(), " A World ");
    assert_eq!(MediaInfo::default().display_title(), "Unknown");
}

#[test]
fn chips_are_derived_from_the_file() {
    let i = describe("x", &file(vec![stream(0, Medium::Video), stream(1, Medium::Audio)]));
    assert_eq!(i.chips(), ["4K HDR10", "Dolby Digital+"]);
    let at = |height, codec: &str| {
        let v = StreamInfo { video: Some((1, height, TransferCharacteristic::BT709)), ..stream(0, Medium::Video) };
        let a = StreamInfo { codec: codec.to_string(), ..stream(1, Medium::Audio) };
        describe("x", &file(vec![v, a])).chips()
    };
    assert_eq!(at(4320, "flac"), ["8K", "FLAC"]);
    assert_eq!(at(1440, "ac3"), ["1440p", "Dolby Digital"]);
    assert_eq!(at(1080, "truehd"), ["1080p", "Dolby TrueHD"]);
    assert_eq!(at(1079, "dts"), ["720p", "DTS"]);
    assert_eq!(at(576, "aac"), ["576p", "AAC"]);
    assert_eq!(at(0, "opus"), ["0p", "Opus"]);
    assert_eq!(at(720, "vorbis")[1], "VORBIS");
    assert!(describe("x", &file(Vec::new())).chips().is_empty());
}

#[test]
fn errors_say_what_happened() {
    let fault = |kind, m: &str| Fault { kind, message: m.to_string() };
    let e = Error::Open { path: "/a".to_string(), source: fault(FaultKind::Other, "no such file") };
    assert_eq!(e.message(), "cannot open /a: no such file");
    assert_eq!(Error::Ffmpeg(fault(FaultKind::Eof, "End of file")).message(), "ffmpeg: End of file");
    assert_eq!(
        Error::NoPlayableStream("/a".to_string()).message(),
        "/a has no stream this player can decode"
    );
    assert_eq!(Error::NoAudioDevice.message(), "no audio output device");
    assert_eq!(Error::AudioStream("busy".to_string()).message(), "audio device rejected the stream: busy");
    assert_eq!(Error::EngineGone.message(), "the playback engine stopped");
    assert!(is_again(&fault(FaultKind::Again, "")) && !is_eof(&fault(FaultKind::Again, "")));
    assert!(is_eof(&fault(FaultKind::Eof, "")) && !worth_logging(&fault(FaultKind::Eof, "")));
    assert!(worth_logging(&fault(FaultKind::Other, "")));
}

fn config(by_device: bool, kind: DeviceType, pixel_format: i32) -> HwConfig {
    HwConfig { by_device, kind, pixel_format }
}

#[test]
fn accelerators_are_tried_in_order() {
    let configs = [
        config(true, DeviceType::VULKAN, 9),
        config(false, DeviceType::VAAPI, 1),
        config(true, DeviceType::VAAPI, 2),
        config(true, DeviceType::VAAPI, 3),
    ];
    assert_eq!(hw_pixel_format(&configs, DeviceType::VAAPI), Some(2));
    assert_eq!(hw_pixel_format(&configs, DeviceType::CUDA), None);
    let (a, next) = next_accelerator(&configs, 0, false).unwrap();
    assert_eq!((a.kind, a.pixel_format, next, a.name()), (DeviceType::VAAPI, 2, 1, "VA-API"));
    let (a, next) = next_accelerator(&configs, next, false).unwrap();
    assert_eq!((a.kind, next, a.name()), (DeviceType::VULKAN, 4, "Vulkan"));
    assert!(next_accelerator(&configs, next, false).is_none());
    assert!(next_accelerator(&configs, 0, true).is_none());
    for (kind, name) in [
        (DeviceType::CUDA, "NVDEC"),
        (DeviceType::VDPAU, "VDPAU"),
        (DeviceType::DRM, "DRM"),
        (DeviceType::Other(4), "hardware"),
    ] {
        assert_eq!(HwAccel { kind, pixel_format: 0 }.name(), name);
    }
}

#[test]
fn render_nodes_are_tried_by_name() {
    let entries: Vec<String> =
        ["renderD129", "card0", "renderD128", "by-path"].iter().map(|s| s.to_string()).collect();
    let names = |kind| -> Vec<Option<String>> { device_names(kind, &entries) };
    let some = |s: &str| Some(s.to_string());
    assert_eq!(names(DeviceType::VAAPI), [None, some("renderD128"), some("renderD129")]);
    assert_eq!(names(DeviceType::DRM).len(), 3);
    assert_eq!(names(DeviceType::CUDA), [None]);
}

#[test]
fn falling_back_means_the_cpu() {
    let gpu = |format| OfferedFormat { format, on_gpu: true };
    let cpu = |format| OfferedFormat { format, on_gpu: false };
    assert_eq!(pick_format(&[gpu(1), cpu(2), gpu(3)], 3), Some(3));
    assert_eq!(pick_format(&[gpu(1), cpu(2), cpu(4)], 3), Some(2));
    assert_eq!(pick_format(&[gpu(1), gpu(2)], 3), Some(1));
    assert_eq!(pick_format(&[], 3), None);
}

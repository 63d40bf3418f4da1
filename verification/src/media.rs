//! What is inside a file: streams, tracks, chapters, and the labels that the
//! window puts on them.

use vstd::prelude::*;

use crate::frame;
use crate::frame::TransferCharacteristic;
use crate::path;
use crate::text;
use crate::time;
use crate::time::{TimeBase, MICROSECOND};

verus! {

#[derive(Debug, Clone, Copy, PartialEq, Eq, Structural)]
pub enum TrackKind {
    Video,
    Audio,
    Subtitle,
}

/// One selectable stream. `index` is the index of the stream in its file,
/// not a position in a filtered list.
#[derive(Debug)]
pub struct Track {
    pub index: usize,
    pub kind: TrackKind,
    pub codec: String,
    /// ISO 639 code from the container, absent in plenty of real files.
    pub language: Option<String>,
    pub title: Option<String>,
    pub is_default: bool,
    /// Forced subtitles should be shown even when none are wanted.
    pub is_forced: bool,
    /// Audio only.
    pub channels: u16,
    pub sample_rate: u32,
    /// Video only. The frame rate is a fraction.
    pub width: u32,
    pub height: u32,
    pub frame_rate: (i32, i32),
    /// "HDR10" or "HLG" when the transfer function says so.
    pub hdr: Option<&'static str>,
}

#[derive(Debug)]
pub struct Chapter {
    pub title: String,
    pub start: i64,
    pub end: i64,
}

/// Everything needed to describe a file without decoding it.
#[derive(Debug)]
pub struct MediaInfo {
    pub path: String,
    pub title: Option<String>,
    pub duration: i64,
    pub tracks: Vec<Track>,
    pub chapters: Vec<Chapter>,
    pub container: String,
    pub bit_rate: i64,
}

// ── As values ───────────────────────────────────────────────────────────

pub struct TrackView {
    pub index: usize,
    pub kind: TrackKind,
    pub codec: Seq<char>,
    pub language: Option<Seq<char>>,
    pub title: Option<Seq<char>>,
    pub is_default: bool,
    pub is_forced: bool,
    pub channels: u16,
    pub sample_rate: u32,
    pub width: u32,
    pub height: u32,
    pub frame_rate: (i32, i32),
    pub hdr: Option<Seq<char>>,
}

pub struct ChapterView {
    pub title: Seq<char>,
    pub start: int,
    pub end: int,
}

pub struct MediaView {
    pub path: Seq<char>,
    pub title: Option<Seq<char>>,
    pub duration: int,
    pub tracks: Seq<TrackView>,
    pub chapters: Seq<ChapterView>,
    pub container: Seq<char>,
    pub bit_rate: int,
}

pub open spec fn opt_text(o: Option<String>) -> Option<Seq<char>> {
    match o {
        Some(s) => Some(s@),
        None => None,
    }
}

pub open spec fn opt_label(o: Option<&'static str>) -> Option<Seq<char>> {
    match o {
        Some(s) => Some(s@),
        None => None,
    }
}

impl View for Track {
    type V = TrackView;

    open spec fn view(&self) -> TrackView {
        TrackView {
            index: self.index,
            kind: self.kind,
            codec: self.codec@,
            language: opt_text(self.language),
            title: opt_text(self.title),
            is_default: self.is_default,
            is_forced: self.is_forced,
            channels: self.channels,
            sample_rate: self.sample_rate,
            width: self.width,
            height: self.height,
            frame_rate: self.frame_rate,
            hdr: opt_label(self.hdr),
        }
    }
}

impl View for Chapter {
    type V = ChapterView;

    open spec fn view(&self) -> ChapterView {
        ChapterView { title: self.title@, start: self.start as int, end: self.end as int }
    }
}

pub open spec fn track_views(tracks: Seq<Track>) -> Seq<TrackView> {
    tracks.map_values(|t: Track| t@)
}

pub open spec fn chapter_views(chapters: Seq<Chapter>) -> Seq<ChapterView> {
    chapters.map_values(|c: Chapter| c@)
}

impl View for MediaInfo {
    type V = MediaView;

    open spec fn view(&self) -> MediaView {
        MediaView {
            path: self.path@,
            title: opt_text(self.title),
            duration: self.duration as int,
            tracks: track_views(self.tracks@),
            chapters: chapter_views(self.chapters@),
            container: self.container@,
            bit_rate: self.bit_rate as int,
        }
    }
}

pub fn copy_text(o: &Option<String>) -> (r: Option<String>)
    ensures
        opt_text(r) == opt_text(*o),
{
    match o {
        Some(s) => Some(s.clone()),
        None => None,
    }
}

impl Clone for Track {
    fn clone(&self) -> (r: Track)
        ensures
            r@ == self@,
    {
        Track {
            index: self.index,
            kind: self.kind,
            codec: self.codec.clone(),
            language: copy_text(&self.language),
            title: copy_text(&self.title),
            is_default: self.is_default,
            is_forced: self.is_forced,
            channels: self.channels,
            sample_rate: self.sample_rate,
            width: self.width,
            height: self.height,
            frame_rate: self.frame_rate,
            hdr: self.hdr,
        }
    }
}

impl Clone for Chapter {
    fn clone(&self) -> (r: Chapter)
        ensures
            r@ == self@,
    {
        Chapter { title: self.title.clone(), start: self.start, end: self.end }
    }
}

fn copy_tracks(tracks: &Vec<Track>) -> (r: Vec<Track>)
    ensures
        track_views(r@) == track_views(tracks@),
{
    let mut r: Vec<Track> = Vec::new();
    let mut i: usize = 0;
    while i < tracks.len()
        invariant
            i <= tracks@.len(),
            track_views(r@) == track_views(tracks@).take(i as int),
        decreases tracks@.len() - i,
    {
        let ghost before = track_views(r@);
        let copy = tracks[i].clone();
        r.push(copy);
        assert(track_views(r@) =~= before.push(copy@));
        assert(track_views(r@) =~= track_views(tracks@).take(i + 1));
        i = i + 1;
    }
    assert(track_views(r@) =~= track_views(tracks@));
    r
}

fn copy_chapters(chapters: &Vec<Chapter>) -> (r: Vec<Chapter>)
    ensures
        chapter_views(r@) == chapter_views(chapters@),
{
    let mut r: Vec<Chapter> = Vec::new();
    let mut i: usize = 0;
    while i < chapters.len()
        invariant
            i <= chapters@.len(),
            chapter_views(r@) == chapter_views(chapters@).take(i as int),
        decreases chapters@.len() - i,
    {
        let ghost before = chapter_views(r@);
        let copy = chapters[i].clone();
        r.push(copy);
        assert(chapter_views(r@) =~= before.push(copy@));
        assert(chapter_views(r@) =~= chapter_views(chapters@).take(i + 1));
        i = i + 1;
    }
    assert(chapter_views(r@) =~= chapter_views(chapters@));
    r
}

impl Clone for MediaInfo {
    fn clone(&self) -> (r: MediaInfo)
        ensures
            r@ == self@,
    {
        MediaInfo {
            path: self.path.clone(),
            title: copy_text(&self.title),
            duration: self.duration,
            tracks: copy_tracks(&self.tracks),
            chapters: copy_chapters(&self.chapters),
            container: self.container.clone(),
            bit_rate: self.bit_rate,
        }
    }
}

impl Default for MediaInfo {
    fn default() -> (r: MediaInfo)
        ensures
            r@ == (MediaView {
                path: Seq::empty(),
                title: None,
                duration: 0,
                tracks: Seq::empty(),
                chapters: Seq::empty(),
                container: Seq::empty(),
                bit_rate: 0,
            }),
    {
        let r = MediaInfo {
            path: String::new(),
            title: None,
            duration: 0,
            tracks: Vec::new(),
            chapters: Vec::new(),
            container: String::new(),
            bit_rate: 0,
        };
        assert(r@.path =~= Seq::<char>::empty());
        assert(r@.container =~= Seq::<char>::empty());
        assert(r@.tracks =~= Seq::<TrackView>::empty());
        assert(r@.chapters =~= Seq::<ChapterView>::empty());
        r
    }
}

// ── Labels ──────────────────────────────────────────────────────────────

/// The name of a language: the handful worth spelling out, else the code
/// itself.
pub open spec fn language_text(code: Seq<char>) -> Seq<char> {
    if code == "eng"@ || code == "en"@ {
        "English"@
    } else if code == "spa"@ || code == "es"@ {
        "Spanish"@
    } else if code == "fra"@ || code == "fre"@ || code == "fr"@ {
        "French"@
    } else if code == "deu"@ || code == "ger"@ || code == "de"@ {
        "German"@
    } else if code == "ita"@ || code == "it"@ {
        "Italian"@
    } else if code == "por"@ || code == "pt"@ {
        "Portuguese"@
    } else if code == "rus"@ || code == "ru"@ {
        "Russian"@
    } else if code == "jpn"@ || code == "ja"@ {
        "Japanese"@
    } else if code == "kor"@ || code == "ko"@ {
        "Korean"@
    } else if code == "zho"@ || code == "chi"@ || code == "zh"@ {
        "Chinese"@
    } else if code == "ara"@ || code == "ar"@ {
        "Arabic"@
    } else if code == "hin"@ || code == "hi"@ {
        "Hindi"@
    } else if code == "nld"@ || code == "dut"@ || code == "nl"@ {
        "Dutch"@
    } else if code == "swe"@ || code == "sv"@ {
        "Swedish"@
    } else if code == "nor"@ || code == "no"@ {
        "Norwegian"@
    } else if code == "dan"@ || code == "da"@ {
        "Danish"@
    } else if code == "fin"@ || code == "fi"@ {
        "Finnish"@
    } else if code == "pol"@ || code == "pl"@ {
        "Polish"@
    } else if code == "tur"@ || code == "tr"@ {
        "Turkish"@
    } else {
        code
    }
}

pub fn language_name(code: &str) -> (r: &str)
    ensures
        r@ == language_text(code@),
{
    let c = code;
    if text::same_str(c, "eng") || text::same_str(c, "en") {
        "English"
    } else if text::same_str(c, "spa") || text::same_str(c, "es") {
        "Spanish"
    } else if text::same_str(c, "fra") || text::same_str(c, "fre") || text::same_str(c, "fr") {
        "French"
    } else if text::same_str(c, "deu") || text::same_str(c, "ger") || text::same_str(c, "de") {
        "German"
    } else if text::same_str(c, "ita") || text::same_str(c, "it") {
        "Italian"
    } else if text::same_str(c, "por") || text::same_str(c, "pt") {
        "Portuguese"
    } else if text::same_str(c, "rus") || text::same_str(c, "ru") {
        "Russian"
    } else if text::same_str(c, "jpn") || text::same_str(c, "ja") {
        "Japanese"
    } else if text::same_str(c, "kor") || text::same_str(c, "ko") {
        "Korean"
    } else if text::same_str(c, "zho") || text::same_str(c, "chi") || text::same_str(c, "zh") {
        "Chinese"
    } else if text::same_str(c, "ara") || text::same_str(c, "ar") {
        "Arabic"
    } else if text::same_str(c, "hin") || text::same_str(c, "hi") {
        "Hindi"
    } else if text::same_str(c, "nld") || text::same_str(c, "dut") || text::same_str(c, "nl") {
        "Dutch"
    } else if text::same_str(c, "swe") || text::same_str(c, "sv") {
        "Swedish"
    } else if text::same_str(c, "nor") || text::same_str(c, "no") {
        "Norwegian"
    } else if text::same_str(c, "dan") || text::same_str(c, "da") {
        "Danish"
    } else if text::same_str(c, "fin") || text::same_str(c, "fi") {
        "Finnish"
    } else if text::same_str(c, "pol") || text::same_str(c, "pl") {
        "Polish"
    } else if text::same_str(c, "tur") || text::same_str(c, "tr") {
        "Turkish"
    } else {
        code
    }
}

/// How many channels there are, by the name of their arrangement.
pub open spec fn channels_text(channels: u16) -> Seq<char> {
    if channels == 1 {
        "Mono"@
    } else if channels == 2 {
        "Stereo"@
    } else if channels == 6 {
        "5.1"@
    } else if channels == 8 {
        "7.1"@
    } else {
        text::decimal(channels as nat) + " ch"@
    }
}

impl TrackView {
    pub open spec fn language_label(self) -> Seq<char> {
        match self.language {
            Some(code) => language_text(code),
            None => "Unknown"@,
        }
    }

    /// The one-line label of a track.
    pub open spec fn label(self) -> Seq<char> {
        match self.title {
            Some(title) => title,
            None => match self.kind {
                TrackKind::Audio => self.language_label() + " · "@ + channels_text(self.channels)
                    + " · "@ + text::unicode_upper(self.codec),
                TrackKind::Subtitle => if self.is_forced {
                    self.language_label() + " (Forced)"@
                } else {
                    self.language_label()
                },
                TrackKind::Video => text::decimal(self.width as nat) + "×"@ + text::decimal(
                    self.height as nat,
                ) + " · "@ + text::unicode_upper(self.codec),
            },
        }
    }
}

impl Track {
    /// The one-line label for a track menu.
    pub fn label(&self) -> (r: String)
        ensures
            r@ == self@.label(),
    {
        let upper = text::to_upper(self.codec.as_str());
        self.label_with(&upper)
    }

    /// The label, given the codec's name in upper case.
    pub fn label_with(&self, codec: &String) -> (r: String)
        ensures
            codec@ == text::unicode_upper(self.codec@) ==> r@ == self@.label(),
            self@.title matches Some(title) ==> r@ == title,
            self@.title is None && self.kind is Audio ==> r@ == self@.language_label() + " · "@
                + channels_text(self.channels) + " · "@ + codec@,
            self@.title is None && self.kind is Subtitle ==> r@ == self@.label(),
            self@.title is None && self.kind is Video ==> r@ == text::decimal(self.width as nat)
                + "×"@ + text::decimal(self.height as nat) + " · "@ + codec@,
    {
        if let Some(t) = &self.title {
            return t.clone();
        }
        let lang: &str = match &self.language {
            Some(code) => language_name(code.as_str()),
            None => "Unknown",
        };
        let mut out: Vec<char> = Vec::new();
        match self.kind {
            TrackKind::Audio => {
                text::append_str(&mut out, lang);
                text::append_str(&mut out, " · ");
                match self.channels {
                    1 => text::append_str(&mut out, "Mono"),
                    2 => text::append_str(&mut out, "Stereo"),
                    6 => text::append_str(&mut out, "5.1"),
                    8 => text::append_str(&mut out, "7.1"),
                    n => {
                        text::append_decimal(&mut out, n as u64);
                        text::append_str(&mut out, " ch");
                    },
                }
                text::append_str(&mut out, " · ");
                text::append_str(&mut out, codec.as_str());
                assert(out@ =~= self@.language_label() + " · "@ + channels_text(self.channels)
                    + " · "@ + codec@);
            },
            TrackKind::Subtitle => {
                text::append_str(&mut out, lang);
                if self.is_forced {
                    text::append_str(&mut out, " (Forced)");
                }
                assert(out@ =~= self@.label());
            },
            TrackKind::Video => {
                text::append_decimal(&mut out, self.width as u64);
                text::append_str(&mut out, "×");
                text::append_decimal(&mut out, self.height as u64);
                text::append_str(&mut out, " · ");
                text::append_str(&mut out, codec.as_str());
                assert(out@ =~= text::decimal(self.width as nat) + "×"@ + text::decimal(
                    self.height as nat,
                ) + " · "@ + codec@);
            },
        }
        text::string_of(&out)
    }
}

/// The tracks of one kind, in order.
pub open spec fn of_kind(tracks: Seq<TrackView>, kind: TrackKind) -> Seq<TrackView>
    decreases tracks.len(),
{
    if tracks.len() == 0 {
        tracks
    } else if tracks.last().kind == kind {
        of_kind(tracks.drop_last(), kind).push(tracks.last())
    } else {
        of_kind(tracks.drop_last(), kind)
    }
}

pub open spec fn ref_views(tracks: Seq<&Track>) -> Seq<TrackView> {
    tracks.map_values(|t: &Track| t@)
}

/// A picture's size, by the name of its class.
pub open spec fn resolution_text(height: u32) -> Seq<char> {
    if height >= 4320 {
        "8K"@
    } else if height >= 2160 {
        "4K"@
    } else if height >= 1440 {
        "1440p"@
    } else if height >= 1080 {
        "1080p"@
    } else if height >= 720 {
        "720p"@
    } else {
        text::decimal(height as nat) + "p"@
    }
}

/// What to call an audio format, if it has a name of its own.
pub open spec fn audio_text(codec: Seq<char>) -> Option<Seq<char>> {
    if codec == "eac3"@ {
        Some("Dolby Digital+"@)
    } else if codec == "ac3"@ {
        Some("Dolby Digital"@)
    } else if codec == "truehd"@ {
        Some("Dolby TrueHD"@)
    } else if codec == "dts"@ {
        Some("DTS"@)
    } else if codec == "flac"@ {
        Some("FLAC"@)
    } else if codec == "aac"@ {
        Some("AAC"@)
    } else if codec == "opus"@ {
        Some("Opus"@)
    } else {
        None
    }
}

fn audio_name(codec: &str) -> (r: Option<&'static str>)
    ensures
        opt_label(r) == audio_text(codec@),
{
    if text::same_str(codec, "eac3") {
        Some("Dolby Digital+")
    } else if text::same_str(codec, "ac3") {
        Some("Dolby Digital")
    } else if text::same_str(codec, "truehd") {
        Some("Dolby TrueHD")
    } else if text::same_str(codec, "dts") {
        Some("DTS")
    } else if text::same_str(codec, "flac") {
        Some("FLAC")
    } else if text::same_str(codec, "aac") {
        Some("AAC")
    } else if text::same_str(codec, "opus") {
        Some("Opus")
    } else {
        None
    }
}

/// The chip that describes the picture: its resolution class and, as one
/// fact with it, its dynamic range.
pub open spec fn picture_chip(v: TrackView) -> Seq<char> {
    match v.hdr {
        Some(hdr) => resolution_text(v.height) + " "@ + hdr,
        None => resolution_text(v.height),
    }
}

/// The chip that describes the sound.
pub open spec fn sound_chip(codec: Seq<char>) -> Seq<char> {
    match audio_text(codec) {
        Some(name) => name,
        None => text::unicode_upper(codec),
    }
}

impl MediaView {
    /// The title to show: the file's own if it says anything, else a tidied
    /// file name.
    pub open spec fn display_title(self) -> Seq<char> {
        match self.title {
            Some(title) if text::trim(title).len() > 0 => title,
            _ => match path::file_stem(self.path) {
                Some(stem) => text::spaced(stem),
                None => "Unknown"@,
            },
        }
    }

    /// The chips beside the title: one for the picture, if there is one, and
    /// one for the sound.
    pub open spec fn chips(self) -> Seq<Seq<char>> {
        let video = of_kind(self.tracks, TrackKind::Video);
        let audio = of_kind(self.tracks, TrackKind::Audio);
        let first = if video.len() > 0 {
            seq![picture_chip(video[0])]
        } else {
            Seq::empty()
        };
        let second = if audio.len() > 0 {
            seq![sound_chip(audio[0].codec)]
        } else {
            Seq::empty()
        };
        first + second
    }
}

impl MediaInfo {
    /// The tracks of one kind, in order.
    pub fn tracks_of(&self, kind: TrackKind) -> (r: Vec<&Track>)
        ensures
            ref_views(r@) == of_kind(self@.tracks, kind),
    {
        let ghost all = self@.tracks;
        let mut r: Vec<&Track> = Vec::new();
        let mut i: usize = 0;
        assert(all.take(0) =~= Seq::<TrackView>::empty());
        assert(ref_views(r@) =~= Seq::<TrackView>::empty());
        while i < self.tracks.len()
            invariant
                i <= self.tracks@.len(),
                all == self@.tracks,
                ref_views(r@) == of_kind(all.take(i as int), kind),
            decreases self.tracks@.len() - i,
        {
            let ghost before = ref_views(r@);
            let ghost next = all.take(i + 1);
            assert(next.drop_last() =~= all.take(i as int));
            assert(next.last() == self.tracks@[i as int]@);
            if self.tracks[i].kind == kind {
                r.push(&self.tracks[i]);
                assert(ref_views(r@) =~= before.push(self.tracks@[i as int]@));
            }
            i = i + 1;
        }
        assert(all.take(i as int) =~= all);
        r
    }

    /// The title to show.
    pub fn display_title(&self) -> (r: String)
        ensures
            r@ == self@.display_title(),
    {
        if let Some(t) = &self.title {
            let chars = text::chars_of(t.as_str());
            let (from, to) = text::trim_bounds(&chars);
            if from < to {
                return t.clone();
            }
        }
        let path = text::chars_of(self.path.as_str());
        match path::stem_of(&path) {
            Some(stem) => {
                let tidy = text::to_spaced(&stem);
                text::string_of(&tidy)
            },
            None => "Unknown".to_string(),
        }
    }

    /// The chips beside the title. Derived, never stored, so that they
    /// always match the file.
    pub fn chips(&self) -> (r: Vec<String>)
        ensures
            text::texts(r@) == self@.chips(),
    {
        let mut chips: Vec<String> = Vec::new();
        let video = self.tracks_of(TrackKind::Video);
        assert(ref_views(video@).len() == video@.len());
        if video.len() > 0 {
            let v = video[0];
            assert(v@ == ref_views(video@)[0]);
            let mut out: Vec<char> = Vec::new();
            if v.height >= 4320 {
                text::append_str(&mut out, "8K");
            } else if v.height >= 2160 {
                text::append_str(&mut out, "4K");
            } else if v.height >= 1440 {
                text::append_str(&mut out, "1440p");
            } else if v.height >= 1080 {
                text::append_str(&mut out, "1080p");
            } else if v.height >= 720 {
                text::append_str(&mut out, "720p");
            } else {
                text::append_decimal(&mut out, v.height as u64);
                text::append_str(&mut out, "p");
            }
            assert(out@ =~= resolution_text(v.height));
            if let Some(hdr) = v.hdr {
                text::append_str(&mut out, " ");
                text::append_str(&mut out, hdr);
            }
            assert(out@ =~= picture_chip(v@));
            chips.push(text::string_of(&out));
        }
        let audio = self.tracks_of(TrackKind::Audio);
        assert(ref_views(audio@).len() == audio@.len());
        if audio.len() > 0 {
            let a = audio[0];
            assert(a@ == ref_views(audio@)[0]);
            let name: String = match audio_name(a.codec.as_str()) {
                Some(known) => known.to_string(),
                None => text::to_upper(a.codec.as_str()),
            };
            assert(name@ == sound_chip(a@.codec));
            chips.push(name);
        }
        assert(text::texts(chips@) =~= self@.chips());
        chips
    }
}

// ── Reading a file's structure ──────────────────────────────────────────

#[derive(Debug, Clone, Copy, PartialEq, Eq, Structural)]
pub enum Medium {
    Video,
    Audio,
    Subtitle,
    Other,
}

/// What a stream says of itself, as the demuxer reports it.
pub struct StreamInfo {
    pub index: usize,
    pub medium: Medium,
    pub codec: String,
    pub language: Option<String>,
    pub title: Option<String>,
    /// The stream is a picture attached to the file, such as cover art.
    pub attached_pic: bool,
    pub is_default: bool,
    pub is_forced: bool,
    /// Whether a decoder could be set up from the stream's parameters.
    pub decodable: bool,
    /// Size and transfer curve, when the video decoder opened.
    pub video: Option<(u32, u32, TransferCharacteristic)>,
    pub frame_rate: (i32, i32),
    /// Channels and sample rate, when the audio decoder opened.
    pub audio: Option<(u16, u32)>,
}

/// What a chapter says of itself.
pub struct ChapterInfo {
    pub title: Option<String>,
    pub start: i64,
    pub end: i64,
    pub base: TimeBase,
}

/// What a file says of itself.
pub struct FileInfo {
    pub title: Option<String>,
    /// In microseconds; not positive when it is not known.
    pub duration: i64,
    pub streams: Vec<StreamInfo>,
    pub chapters: Vec<ChapterInfo>,
    pub container: String,
    pub bit_rate: i64,
}

pub open spec fn kind_of(medium: Medium) -> Option<TrackKind> {
    match medium {
        Medium::Video => Some(TrackKind::Video),
        Medium::Audio => Some(TrackKind::Audio),
        Medium::Subtitle => Some(TrackKind::Subtitle),
        Medium::Other => None,
    }
}

/// The track that a stream makes. A cover picture inside a music file is a
/// video stream with one frame, and is no track; nor is a stream of another
/// medium.
pub open spec fn track_from(s: StreamInfo) -> Option<TrackView> {
    match kind_of(s.medium) {
        None => None,
        Some(kind) => if kind is Video && s.attached_pic {
            None
        } else {
            let video = if kind is Video && s.decodable {
                s.video
            } else {
                None
            };
            let audio = if kind is Audio && s.decodable {
                s.audio
            } else {
                None
            };
            Some(
                TrackView {
                    index: s.index,
                    kind: kind,
                    codec: s.codec@,
                    language: match opt_text(s.language) {
                        Some(l) if l != "und"@ => Some(l),
                        _ => None,
                    },
                    title: opt_text(s.title),
                    is_default: s.is_default,
                    is_forced: s.is_forced,
                    channels: match audio {
                        Some(a) => a.0,
                        None => 0,
                    },
                    sample_rate: match audio {
                        Some(a) => a.1,
                        None => 0,
                    },
                    width: match video {
                        Some(v) => v.0,
                        None => 0,
                    },
                    height: match video {
                        Some(v) => v.1,
                        None => 0,
                    },
                    frame_rate: if kind is Video && s.decodable && s.frame_rate.1 != 0 {
                        s.frame_rate
                    } else {
                        (0, 1)
                    },
                    hdr: match video {
                        Some(v) => frame::hdr_name(v.2),
                        None => None,
                    },
                },
            )
        },
    }
}

/// The track that a stream makes, if it makes one.
pub fn track_of(s: &StreamInfo) -> (r: Option<Track>)
    ensures
        r is Some <==> track_from(*s) is Some,
        r matches Some(t) ==> Some(t@) == track_from(*s),
{
    let kind = match s.medium {
        Medium::Video => TrackKind::Video,
        Medium::Audio => TrackKind::Audio,
        Medium::Subtitle => TrackKind::Subtitle,
        Medium::Other => return None,
    };
    if kind == TrackKind::Video && s.attached_pic {
        return None;
    }
    let language: Option<String> = match &s.language {
        Some(l) => if text::same_str(l.as_str(), "und") {
            None
        } else {
            Some(l.clone())
        },
        None => None,
    };
    let mut track = Track {
        index: s.index,
        kind: kind,
        codec: s.codec.clone(),
        language: language,
        title: copy_text(&s.title),
        is_default: s.is_default,
        is_forced: s.is_forced,
        channels: 0,
        sample_rate: 0,
        width: 0,
        height: 0,
        frame_rate: (0, 1),
        hdr: None,
    };
    if s.decodable {
        match kind {
            TrackKind::Video => {
                if let Some((width, height, transfer)) = s.video {
                    track.width = width;
                    track.height = height;
                    track.hdr = frame::hdr_label_of(transfer);
                }
                if s.frame_rate.1 != 0 {
                    track.frame_rate = s.frame_rate;
                }
            },
            TrackKind::Audio => {
                if let Some((channels, rate)) = s.audio {
                    track.channels = channels;
                    track.sample_rate = rate;
                }
            },
            TrackKind::Subtitle => {},
        }
    }
    Some(track)
}

/// The tracks of a file's streams, in order.
pub open spec fn tracks_from(streams: Seq<StreamInfo>) -> Seq<TrackView>
    decreases streams.len(),
{
    if streams.len() == 0 {
        Seq::empty()
    } else {
        match track_from(streams.last()) {
            Some(t) => tracks_from(streams.drop_last()).push(t),
            None => tracks_from(streams.drop_last()),
        }
    }
}

pub open spec fn chapter_from(c: ChapterInfo) -> ChapterView {
    ChapterView {
        title: match opt_text(c.title) {
            Some(t) => t,
            None => "Chapter"@,
        },
        start: time::ticks_time(c.start as int, c.base),
        end: time::ticks_time(c.end as int, c.base),
    }
}

/// How long a file is; zero when it is not known.
pub open spec fn duration_from(microseconds: i64) -> int {
    if microseconds > 0 {
        time::clamped(microseconds * MICROSECOND)
    } else {
        0
    }
}

/// Describes a file from what it says of itself.
pub fn describe(path: &str, file: &FileInfo) -> (r: MediaInfo)
    requires
        forall|i: int|
            0 <= i < file.chapters@.len() ==> (#[trigger] file.chapters@[i]).base.den > 0,
    ensures
        r@ == (MediaView {
            path: path@,
            title: opt_text(file.title),
            duration: duration_from(file.duration),
            tracks: tracks_from(file.streams@),
            chapters: file.chapters@.map_values(|c: ChapterInfo| chapter_from(c)),
            container: file.container@,
            bit_rate: file.bit_rate as int,
        }),
{
    let duration: i64 = if file.duration > 0 {
        time::clamp_time(file.duration as i128 * 1_000)
    } else {
        0
    };
    let mut tracks: Vec<Track> = Vec::new();
    let mut i: usize = 0;
    let ghost all = file.streams@;
    assert(all.take(0) =~= Seq::<StreamInfo>::empty());
    assert(track_views(tracks@) =~= Seq::<TrackView>::empty());
    while i < file.streams.len()
        invariant
            i <= file.streams@.len(),
            all == file.streams@,
            track_views(tracks@) == tracks_from(all.take(i as int)),
        decreases file.streams@.len() - i,
    {
        let ghost before = track_views(tracks@);
        let ghost next = all.take(i + 1);
        assert(next.drop_last() =~= all.take(i as int));
        assert(next.last() == all[i as int]);
        if let Some(track) = track_of(&file.streams[i]) {
            tracks.push(track);
            assert(track_views(tracks@) =~= before.push(track@));
        }
        i = i + 1;
    }
    assert(all.take(i as int) =~= all);
    let mut chapters: Vec<Chapter> = Vec::new();
    let mut k: usize = 0;
    let ghost wanted = file.chapters@.map_values(|c: ChapterInfo| chapter_from(c));
    assert(chapter_views(chapters@) =~= wanted.take(0));
    while k < file.chapters.len()
        invariant
            k <= file.chapters@.len(),
            wanted == file.chapters@.map_values(|c: ChapterInfo| chapter_from(c)),
            chapter_views(chapters@) == wanted.take(k as int),
            forall|i: int|
                0 <= i < file.chapters@.len() ==> (#[trigger] file.chapters@[i]).base.den > 0,
        decreases file.chapters@.len() - k,
    {
        let ghost before = chapter_views(chapters@);
        let c = &file.chapters[k];
        let title: String = match &c.title {
            Some(t) => t.clone(),
            None => "Chapter".to_string(),
        };
        let chapter = Chapter {
            title: title,
            start: c.base.time_of(c.start),
            end: c.base.time_of(c.end),
        };
        chapters.push(chapter);
        assert(chapter@ == wanted[k as int]);
        assert(chapter_views(chapters@) =~= before.push(chapter@));
        assert(chapter_views(chapters@) =~= wanted.take(k + 1));
        k = k + 1;
    }
    assert(wanted.take(k as int) =~= wanted);
    MediaInfo {
        path: path.to_string(),
        title: copy_text(&file.title),
        duration: duration,
        tracks: tracks,
        chapters: chapters,
        container: file.container.clone(),
        bit_rate: file.bit_rate,
    }
}

/// The name of a codec: its decoder's, else the lower-case form of the
/// codec's own.
pub fn codec_name(decoder: Option<String>, codec: &str) -> (r: String)
    ensures
        r@ == match opt_text(decoder) {
            Some(name) => name,
            None => text::unicode_lower(codec@),
        },
{
    match decoder {
        Some(name) => name,
        None => text::to_lower(codec),
    }
}

/// Attached pictures never become tracks, so a file whose only picture is
/// its cover has no video track.
pub proof fn cover_art_is_no_track(streams: Seq<StreamInfo>)
    requires
        forall|i: int|
            0 <= i < streams.len() && (#[trigger] streams[i]).medium is Video
                ==> streams[i].attached_pic,
    ensures
        of_kind(tracks_from(streams), TrackKind::Video).len() == 0,
    decreases streams.len(),
{
    if streams.len() > 0 {
        let head = streams.drop_last();
        assert forall|i: int|
            0 <= i < head.len() && (#[trigger] head[i]).medium is Video implies head[i].attached_pic by {
            assert(head[i] == streams[i]);
        }
        cover_art_is_no_track(head);
        assert(streams[streams.len() - 1] == streams.last());
        if let Some(t) = track_from(streams.last()) {
            assert(tracks_from(streams).drop_last() =~= tracks_from(head));
        }
    }
}

/// The tracks of a kind are those that are of it, each once and in order.
pub proof fn tracks_are_told_apart_by_kind(tracks: Seq<TrackView>, t: TrackView, kind: TrackKind)
    ensures
        of_kind(Seq::<TrackView>::empty(), kind).len() == 0,
        t.kind == kind ==> of_kind(tracks.push(t), kind) == of_kind(tracks, kind).push(t),
        t.kind != kind ==> of_kind(tracks.push(t), kind) == of_kind(tracks, kind),
{
    assert(tracks.push(t).drop_last() =~= tracks);
}

/// A stream becomes the track of its own kind, with its own index, codec and
/// marks; a picture attached to the file becomes none.
pub proof fn a_track_is_its_stream(s: StreamInfo)
    ensures
        track_from(s) is None <==> s.medium is Other || (s.medium is Video && s.attached_pic),
        track_from(s) matches Some(t) ==> {
            &&& t.index == s.index
            &&& t.codec == s.codec@
            &&& t.is_default == s.is_default
            &&& t.is_forced == s.is_forced
            &&& t.title == opt_text(s.title)
            &&& t.kind is Video <==> s.medium is Video
            &&& t.kind is Audio <==> s.medium is Audio
            &&& t.kind is Subtitle <==> s.medium is Subtitle
            &&& s.language is None ==> t.language is None
            &&& s.language is Some && s.language->0@ != "und"@ ==> t.language == Some(
                s.language->0@,
            )
            &&& s.language is Some && s.language->0@ == "und"@ ==> t.language is None
            &&& s.medium is Video && s.decodable && s.video is Some ==> t.width == (s.video->0).0
                && t.height == (s.video->0).1 && t.hdr == frame::hdr_name((s.video->0).2)
            &&& s.medium is Audio && s.decodable && s.audio is Some ==> t.channels == (s.audio->0).0
                && t.sample_rate == (s.audio->0).1
            &&& !(s.medium is Video && s.decodable && s.video is Some) ==> t.width == 0 && t.height
                == 0 && t.hdr is None
            &&& !(s.medium is Audio && s.decodable && s.audio is Some) ==> t.channels == 0
                && t.sample_rate == 0
        },
{
}

/// Every stream that makes a track makes it, in order, and no other does.
pub proof fn every_stream_makes_its_track(streams: Seq<StreamInfo>, s: StreamInfo)
    ensures
        tracks_from(Seq::<StreamInfo>::empty()).len() == 0,
        track_from(s) matches Some(t) ==> tracks_from(streams.push(s)) == tracks_from(streams).push(
            t,
        ),
        track_from(s) is None ==> tracks_from(streams.push(s)) == tracks_from(streams),
{
    assert(streams.push(s).drop_last() =~= streams);
}

/// One channel has a name, and two have; of six and eight the last is the bass
/// and counted behind the point; any other number is written out.
pub proof fn channels_are_counted(channels: u16)
    ensures
        channels == 6 || channels == 8 ==> channels_text(channels) == text::decimal(
            (channels - 1) as nat,
        ) + ".1"@,
        channels != 1 && channels != 2 && channels != 6 && channels != 8 ==> channels_text(channels)
            == text::decimal(channels as nat) + " ch"@,
        channels_text(1) == "Mono"@,
        channels_text(2) == "Stereo"@,
{
    reveal_strlit("5.1");
    reveal_strlit("7.1");
    reveal_strlit(".1");
    assert(text::decimal(5) =~= seq!['5']);
    assert(text::decimal(7) =~= seq!['7']);
    assert("5.1"@ =~= seq!['5'] + ".1"@);
    assert("7.1"@ =~= seq!['7'] + ".1"@);
}

/// A picture is named for the largest class that it reaches, and by its own
/// height below the smallest.
pub proof fn the_class_is_the_largest_reached(height: u32)
    ensures
        height < 1080 && height >= 720 ==> resolution_text(height) == resolution_text(720),
        height < 1440 && height >= 1080 ==> resolution_text(height) == resolution_text(1080),
        height < 2160 && height >= 1440 ==> resolution_text(height) == resolution_text(1440),
        height < 4320 && height >= 2160 ==> resolution_text(height) == "4K"@,
        height >= 4320 ==> resolution_text(height) == "8K"@,
        height <= 720 || height == 1080 || height == 1440 ==> resolution_text(height)
            == text::decimal(height as nat) + "p"@,
{
    reveal_strlit("720p");
    reveal_strlit("1080p");
    reveal_strlit("1440p");
    reveal_strlit("p");
    reveal_with_fuel(text::decimal, 5);
    assert(text::decimal(720) =~= seq!['7', '2', '0']);
    assert(text::decimal(1080) =~= seq!['1', '0', '8', '0']);
    assert(text::decimal(1440) =~= seq!['1', '4', '4', '0']);
    assert("720p"@ =~= seq!['7', '2', '0'] + "p"@);
    assert("1080p"@ =~= seq!['1', '0', '8', '0'] + "p"@);
    assert("1440p"@ =~= seq!['1', '4', '4', '0'] + "p"@);
}

/// The title is the file's own unless that is blank; then it is its name
/// without the extension, with dots and underscores as spaces.
pub proof fn a_title_of_its_own_is_shown(m: MediaView)
    ensures
        m.title is Some && text::trim(m.title->0).len() > 0 ==> m.display_title() == m.title->0,
        (m.title is None || text::trim(m.title->0).len() == 0) && path::file_stem(m.path) is Some
            ==> {
            let stem = path::file_stem(m.path)->0;
            let shown = m.display_title();
            &&& shown.len() == stem.len()
            &&& forall|i: int|
                0 <= i < stem.len() ==> #[trigger] shown[i] == if stem[i] == '.' || stem[i] == '_' {
                    ' '
                } else {
                    stem[i]
                }
        },
{
}

/// The chips are of the first picture and of the first sound, for as much as
/// there is.
pub proof fn the_chips_are_of_the_first_tracks(m: MediaView)
    ensures
        ({
            let v = of_kind(m.tracks, TrackKind::Video);
            let a = of_kind(m.tracks, TrackKind::Audio);
            &&& v.len() > 0 ==> m.chips().len() > 0 && m.chips()[0] == picture_chip(v[0])
            &&& a.len() > 0 ==> m.chips().len() > 0 && m.chips().last() == sound_chip(a[0].codec)
            &&& v.len() == 0 && a.len() == 0 ==> m.chips().len() == 0
            &&& m.chips().len() <= 2
        }),
{
}

/// The length of a file is stated in microseconds, and none is stated by
/// nothing positive.
pub proof fn the_length_is_in_microseconds(microseconds: i64)
    ensures
        0 < microseconds < 9_000_000_000_000_000 ==> duration_from(microseconds) == microseconds
            * 1_000,
        microseconds <= 0 ==> duration_from(microseconds) == 0,
{
}

/// A chapter runs between its own two times, and has a name in any case.
pub proof fn a_chapter_runs_between_its_times(c: ChapterInfo)
    ensures
        chapter_from(c).start == time::ticks_time(c.start as int, c.base),
        chapter_from(c).end == time::ticks_time(c.end as int, c.base),
        c.title is Some ==> chapter_from(c).title == c.title->0@,
        c.title is None ==> chapter_from(c).title == "Chapter"@,
{
}

/// A language is named by any of its codes, and a code that has no name stands
/// for itself.
pub proof fn languages_are_named(code: Seq<char>)
    ensures
        language_text("eng"@) == "English"@,
        language_text("en"@) == "English"@,
        language_text("spa"@) == "Spanish"@,
        language_text("es"@) == "Spanish"@,
        language_text("fra"@) == "French"@,
        language_text("fre"@) == "French"@,
        language_text("fr"@) == "French"@,
        language_text("deu"@) == "German"@,
        language_text("ger"@) == "German"@,
        language_text("de"@) == "German"@,
        language_text("ita"@) == "Italian"@,
        language_text("it"@) == "Italian"@,
        language_text("por"@) == "Portuguese"@,
        language_text("pt"@) == "Portuguese"@,
        language_text("rus"@) == "Russian"@,
        language_text("ru"@) == "Russian"@,
        language_text("jpn"@) == "Japanese"@,
        language_text("ja"@) == "Japanese"@,
        language_text("kor"@) == "Korean"@,
        language_text("ko"@) == "Korean"@,
        language_text("zho"@) == "Chinese"@,
        language_text("chi"@) == "Chinese"@,
        language_text("zh"@) == "Chinese"@,
        language_text("ara"@) == "Arabic"@,
        language_text("ar"@) == "Arabic"@,
        language_text("hin"@) == "Hindi"@,
        language_text("hi"@) == "Hindi"@,
        language_text("nld"@) == "Dutch"@,
        language_text("dut"@) == "Dutch"@,
        language_text("nl"@) == "Dutch"@,
        language_text("swe"@) == "Swedish"@,
        language_text("sv"@) == "Swedish"@,
        language_text("nor"@) == "Norwegian"@,
        language_text("no"@) == "Norwegian"@,
        language_text("dan"@) == "Danish"@,
        language_text("da"@) == "Danish"@,
        language_text("fin"@) == "Finnish"@,
        language_text("fi"@) == "Finnish"@,
        language_text("pol"@) == "Polish"@,
        language_text("pl"@) == "Polish"@,
        language_text("tur"@) == "Turkish"@,
        language_text("tr"@) == "Turkish"@,
        code != "eng"@ && code != "en"@ && code != "spa"@ && code != "es"@ && code != "fra"@ && code != "fre"@ && code != "fr"@ && code != "deu"@ && code != "ger"@ && code != "de"@ && code != "ita"@ && code != "it"@ && code != "por"@ && code != "pt"@ && code != "rus"@ && code != "ru"@ && code != "jpn"@ && code != "ja"@ && code != "kor"@ && code != "ko"@ && code != "zho"@ && code != "chi"@ && code != "zh"@ && code != "ara"@ && code != "ar"@ && code != "hin"@ && code != "hi"@ && code != "nld"@ && code != "dut"@ && code != "nl"@ && code != "swe"@ && code != "sv"@ && code != "nor"@ && code != "no"@ && code != "dan"@ && code != "da"@ && code != "fin"@ && code != "fi"@ && code != "pol"@ && code != "pl"@ && code != "tur"@ && code != "tr"@ ==> language_text(code)
            == code,
{
    reveal_strlit("eng");
    reveal_strlit("en");
    reveal_strlit("spa");
    reveal_strlit("es");
    reveal_strlit("fra");
    reveal_strlit("fre");
    reveal_strlit("fr");
    reveal_strlit("deu");
    reveal_strlit("ger");
    reveal_strlit("de");
    reveal_strlit("ita");
    reveal_strlit("it");
    reveal_strlit("por");
    reveal_strlit("pt");
    reveal_strlit("rus");
    reveal_strlit("ru");
    reveal_strlit("jpn");
    reveal_strlit("ja");
    reveal_strlit("kor");
    reveal_strlit("ko");
    reveal_strlit("zho");
    reveal_strlit("chi");
    reveal_strlit("zh");
    reveal_strlit("ara");
    reveal_strlit("ar");
    reveal_strlit("hin");
    reveal_strlit("hi");
    reveal_strlit("nld");
    reveal_strlit("dut");
    reveal_strlit("nl");
    reveal_strlit("swe");
    reveal_strlit("sv");
    reveal_strlit("nor");
    reveal_strlit("no");
    reveal_strlit("dan");
    reveal_strlit("da");
    reveal_strlit("fin");
    reveal_strlit("fi");
    reveal_strlit("pol");
    reveal_strlit("pl");
    reveal_strlit("tur");
    reveal_strlit("tr");
    assert("eng"@ =~= seq!['e', 'n', 'g']);
    assert("en"@ =~= seq!['e', 'n']);
    assert("spa"@ =~= seq!['s', 'p', 'a']);
    assert("es"@ =~= seq!['e', 's']);
    assert("fra"@ =~= seq!['f', 'r', 'a']);
    assert("fre"@ =~= seq!['f', 'r', 'e']);
    assert("fr"@ =~= seq!['f', 'r']);
    assert("deu"@ =~= seq!['d', 'e', 'u']);
    assert("ger"@ =~= seq!['g', 'e', 'r']);
    assert("de"@ =~= seq!['d', 'e']);
    assert("ita"@ =~= seq!['i', 't', 'a']);
    assert("it"@ =~= seq!['i', 't']);
    assert("por"@ =~= seq!['p', 'o', 'r']);
    assert("pt"@ =~= seq!['p', 't']);
    assert("rus"@ =~= seq!['r', 'u', 's']);
    assert("ru"@ =~= seq!['r', 'u']);
    assert("jpn"@ =~= seq!['j', 'p', 'n']);
    assert("ja"@ =~= seq!['j', 'a']);
    assert("kor"@ =~= seq!['k', 'o', 'r']);
    assert("ko"@ =~= seq!['k', 'o']);
    assert("zho"@ =~= seq!['z', 'h', 'o']);
    assert("chi"@ =~= seq!['c', 'h', 'i']);
    assert("zh"@ =~= seq!['z', 'h']);
    assert("ara"@ =~= seq!['a', 'r', 'a']);
    assert("ar"@ =~= seq!['a', 'r']);
    assert("hin"@ =~= seq!['h', 'i', 'n']);
    assert("hi"@ =~= seq!['h', 'i']);
    assert("nld"@ =~= seq!['n', 'l', 'd']);
    assert("dut"@ =~= seq!['d', 'u', 't']);
    assert("nl"@ =~= seq!['n', 'l']);
    assert("swe"@ =~= seq!['s', 'w', 'e']);
    assert("sv"@ =~= seq!['s', 'v']);
    assert("nor"@ =~= seq!['n', 'o', 'r']);
    assert("no"@ =~= seq!['n', 'o']);
    assert("dan"@ =~= seq!['d', 'a', 'n']);
    assert("da"@ =~= seq!['d', 'a']);
    assert("fin"@ =~= seq!['f', 'i', 'n']);
    assert("fi"@ =~= seq!['f', 'i']);
    assert("pol"@ =~= seq!['p', 'o', 'l']);
    assert("pl"@ =~= seq!['p', 'l']);
    assert("tur"@ =~= seq!['t', 'u', 'r']);
    assert("tr"@ =~= seq!['t', 'r']);
}

/// A sound format with a name of its own is shown by it, and any other by its
/// codec in capitals.
pub proof fn sound_formats_are_named(codec: Seq<char>)
    ensures
        sound_chip("eac3"@) == "Dolby Digital+"@,
        sound_chip("ac3"@) == "Dolby Digital"@,
        sound_chip("truehd"@) == "Dolby TrueHD"@,
        sound_chip("dts"@) == "DTS"@,
        sound_chip("flac"@) == "FLAC"@,
        sound_chip("aac"@) == "AAC"@,
        sound_chip("opus"@) == "Opus"@,
        codec != "eac3"@ && codec != "ac3"@ && codec != "truehd"@ && codec != "dts"@ && codec != "flac"@ && codec != "aac"@ && codec != "opus"@ ==> sound_chip(codec)
            == text::unicode_upper(codec),
{
    reveal_strlit("eac3");
    reveal_strlit("ac3");
    reveal_strlit("truehd");
    reveal_strlit("dts");
    reveal_strlit("flac");
    reveal_strlit("aac");
    reveal_strlit("opus");
    assert("eac3"@ =~= seq!['e', 'a', 'c', '3']);
    assert("ac3"@ =~= seq!['a', 'c', '3']);
    assert("truehd"@ =~= seq!['t', 'r', 'u', 'e', 'h', 'd']);
    assert("dts"@ =~= seq!['d', 't', 's']);
    assert("flac"@ =~= seq!['f', 'l', 'a', 'c']);
    assert("aac"@ =~= seq!['a', 'a', 'c']);
    assert("opus"@ =~= seq!['o', 'p', 'u', 's']);
}

/// A track is labelled by its own title if it has one; else sound by its
/// language, its channels and its codec, subtitles by their language and
/// whether they are forced, and a picture by its size and its codec.
pub proof fn a_track_says_what_it_is(t: TrackView)
    ensures
        t.title matches Some(title) ==> t.label() == title,
        t.language matches Some(code) ==> t.language_label() == language_text(code),
        t.language is None ==> t.language_label() == "Unknown"@,
        t.title is None && t.kind is Subtitle && t.is_forced ==> t.label() == t.language_label()
            + " (Forced)"@,
        t.title is None && t.kind is Subtitle && !t.is_forced ==> t.label() == t.language_label(),
        t.title is None && t.kind is Audio ==> t.label() == t.language_label() + " · "@
            + channels_text(t.channels) + " · "@ + text::unicode_upper(t.codec),
        t.title is None && t.kind is Video ==> t.label() == text::decimal(t.width as nat) + "×"@
            + text::decimal(t.height as nat) + " · "@ + text::unicode_upper(t.codec),
{
}

/// The chip of a picture is its class, and behind it its dynamic range where
/// that is high.
pub proof fn the_picture_chip_tells_the_range(v: TrackView)
    ensures
        v.hdr is None ==> picture_chip(v) == resolution_text(v.height),
        v.hdr matches Some(hdr) ==> picture_chip(v) == resolution_text(v.height) + " "@ + hdr,
{
}

} // verus!

//! The window's decisions, the queue, the browser and the preferences.

use owl_player::browse::{
    activate, default_places, extension_of, is_audio, is_media, list, name_of, natural_key,
    pretty_path, sort_naturally, stem_of, Activation, Entry, Row, SpecialDir,
};
use owl_player::cli::{associations_report, launch, Launch};
use owl_player::config::{
    config_dir, desktop_file, player_file, Appearance, Desktop, PlayerConfig, Positions, ThemeMode,
};
use owl_player::engine::Selection;
use owl_player::media::{Chapter, MediaInfo, Track, TrackKind};
use owl_player::order::{stable_order, TextKey};
use owl_player::player::{Engine, Player, Started, State, TrackPreference};
use owl_player::queue::Queue;
use owl_player::render::Rgb;
use owl_player::theme::{accent, accent_rgb, backdrop, colour_scheme, glass, is_hex, overlay_css, Scheme};
use owl_player::time::SECOND;
use owl_player::window::{
    audio_menu, browse_place, cannot_open, changes_track, chapter_rows, chapter_start, details,
    key_action, make_current, media_rows, moves_scrubber, mute_icon, open_all, play_button,
    play_from, primary_rows, queue_rows, remember_position, scrubber_end, step_queue, subtitle_menu,
    volume_icon, window_title, Candidate, Destination, Folder, Key, KeyAction, WindowState,
};

fn strings(s: &[&str]) -> Vec<String> {
    s.iter().map(|s| s.to_string()).collect()
}

// ── Browsing ────────────────────────────────────────────────────────────

#[test]
fn episodes_sort_numerically() {
    let names = strings(&["ep10.mkv", "ep2.mkv", "ep1.mkv"]);
    let sorted = sort_naturally(names);
    let order: Vec<String> = sorted.iter().map(|p| name_of(p)).collect();
    assert_eq!(order, vec!["ep1.mkv", "ep2.mkv", "ep10.mkv"]);
}

#[test]
fn media_is_recognised_case_insensitively() {
    assert!(is_media("Film.MKV"));
    assert!(is_media("song.flac"));
    assert!(!is_media("notes.txt"));
    assert!(!is_media("no-extension"));
}

#[test]
fn audio_and_video_are_distinguished() {
    assert!(is_audio("a.flac"));
    assert!(!is_audio("a.mkv"));
}

#[test]
fn every_extension_is_known() {
    const MEDIA: &[&str] = &[
        "mp4", "mkv", "webm", "mov", "avi", "m4v", "mpg", "mpeg", "mp2", "ts", "m2ts", "mts", "wmv",
        "flv", "ogv", "ogm", "3gp", "3g2", "divx", "vob", "rmvb", "asf", "f4v", "mxf", "y4m",
    ];
    const AUDIO: &[&str] = &[
        "mp3", "flac", "wav", "ogg", "oga", "opus", "m4a", "aac", "wma", "aiff", "aif", "ape", "wv",
        "mpc", "tta", "dsf", "spx", "caf", "au", "mka",
    ];
    for e in MEDIA {
        assert!(is_media(&format!("x.{e}")) && !is_audio(&format!("x.{e}")), "{e}");
    }
    for e in AUDIO {
        assert!(is_media(&format!("x.{e}")) && is_audio(&format!("x.{e}")), "{e}");
    }
}

#[test]
fn natural_order_looks_at_names_alone_and_keeps_ties() {
    let sorted = sort_naturally(strings(&["/b/A2.mkv", "/a/a10.mkv", "/c/a2.mkv", "/d/a02.mkv", "/e/b1"]));
    assert_eq!(sorted, ["/b/A2.mkv", "/c/a2.mkv", "/d/a02.mkv", "/a/a10.mkv", "/e/b1"]);
    // A number too large to hold counts for nothing.
    let k = natural_key("99999999999999999999999x7");
    let parts: Vec<(u64, String)> = k.parts.iter().map(|p| (p.number, p.text.iter().collect())).collect();
    assert_eq!(parts, [(0, String::new()), (0, "x".to_string()), (7, String::new())]);
    // A number sorts by its value, and a text counts as zero.
    assert_eq!(sort_naturally(strings(&["1", "a"])), ["a", "1"]);
}

#[test]
fn stable_order_keeps_equal_keys_in_place() {
    let key = |s: &str| TextKey { text: s.chars().collect() };
    assert_eq!(stable_order(&vec![key("b"), key("a"), key("b"), key(""), key("a")]), [3, 1, 4, 0, 2]);
    assert!(stable_order::<TextKey>(&Vec::new()).is_empty());
}

fn entry(path: &str, is_dir: bool) -> Entry {
    Entry { path: path.to_string(), is_dir }
}

fn kinds(rows: &[Row]) -> Vec<String> {
    rows.iter()
        .map(|r| match r {
            Row::Parent(p) => format!("^{p}"),
            Row::Folder(p) => format!("/{p}"),
            Row::Media(p) => p.clone(),
        })
        .collect()
}

#[test]
fn folders_come_first_and_noise_is_left_out() {
    let entries = vec![
        entry("/m/ep10.mkv", false),
        entry("/m/.hidden.mkv", false),
        entry("/m/notes.txt", false),
        entry("/m/Season 2", true),
        entry("/m/ep2.mkv", false),
        entry("/m/.git", true),
        entry("/m/Season 1", true),
    ];
    let (rows, empty) = list("/m", &entries);
    assert_eq!(kinds(&rows), ["^/", "//m/Season 1", "//m/Season 2", "/m/ep2.mkv", "/m/ep10.mkv"]);
    assert!(!empty);
    let (rows, empty) = list("/", &vec![entry("/notes.txt", false)]);
    assert!(rows.is_empty() && empty);
    let (_, empty) = list("/m", &vec![entry("/m/d", true)]);
    assert!(!empty, "a folder of folders is not empty");
}

#[test]
fn activating_a_file_queues_what_is_beside_it() {
    let rows = vec![
        Row::Parent("/".to_string()),
        Row::Folder("/m/d".to_string()),
        Row::Media("/m/1.mkv".to_string()),
        Row::Media("/m/2.mkv".to_string()),
    ];
    assert!(matches!(activate(&rows, 0), Activation::Navigate(d) if d == "/"));
    assert!(matches!(activate(&rows, 1), Activation::Navigate(d) if d == "/m/d"));
    match activate(&rows, 3) {
        Activation::Play { files, at } => assert_eq!((files, at), (strings(&["/m/1.mkv", "/m/2.mkv"]), 1)),
        other => panic!("{other:?}"),
    }
    assert!(matches!(activate(&rows, 4), Activation::Nothing));
}

#[test]
fn names_are_shown_tidily() {
    assert_eq!(stem_of("/m/my.film_2.mkv"), "my film 2");
    assert_eq!(stem_of("/"), "");
    assert_eq!(extension_of("/m/a.mkv"), "MKV");
    assert_eq!(extension_of("/m/a"), "");
    assert_eq!(name_of("/m/.."), "");
    assert_eq!(pretty_path("/home/u", "/home/u/"), "~");
    assert_eq!(pretty_path("/home/u/Videos", "/home/u"), "~/Videos");
    assert_eq!(pretty_path("/home/user", "/home/u"), "/home/user");
}

#[test]
fn places_are_those_that_exist() {
    let dir = |label: &str, path: Option<&str>, exists| SpecialDir {
        label: label.to_string(),
        path: path.map(|p| p.to_string()),
        exists,
    };
    let places = default_places(
        "/home/u",
        &vec![
            dir("Videos", Some("/home/u/Videos"), true),
            dir("Music", Some("/home/u/"), true),
            dir("Downloads", Some("/home/u/Downloads"), false),
            dir("Other", None, true),
        ],
    );
    let texts: Vec<(&str, &str)> = places.iter().map(|(a, b)| (a.as_str(), b.as_str())).collect();
    assert_eq!(texts, [("Home", "/home/u"), ("Videos", "/home/u/Videos")]);
}

// ── The queue ───────────────────────────────────────────────────────────

fn film(duration: i64) -> MediaInfo {
    MediaInfo { path: "/m/a.mkv".to_string(), title: Some("A".to_string()), duration, ..MediaInfo::default() }
}

#[test]
fn the_queue_holds_each_file_once() {
    let mut q = Queue::default();
    assert_eq!(q.summary(), "Nothing queued");
    assert_eq!(q.add("/m/a.mkv", Some(&film(60 * SECOND))), 0);
    assert_eq!(q.add("/m/b_c.mkv", None), 1);
    assert_eq!(q.add("/m//a.mkv", None), 0, "the same path in other words");
    assert_eq!(q.items[0].title, "A");
    assert_eq!(q.items[1].title, "b_c", "an unreadable file shows its name as it is");
    assert_eq!(q.add("/", None), 2);
    assert_eq!(q.items[2].title, "Unknown");
    assert_eq!(q.position("/m/b_c.mkv"), Some(1));
    assert_eq!(q.position("/m/x"), None);
}

#[test]
fn the_summary_counts_whole_minutes() {
    let mut q = Queue::default();
    q.add("/a", Some(&film(29 * SECOND)));
    assert_eq!(q.summary(), "1 item");
    q.add("/b", Some(&film(SECOND)));
    assert_eq!(q.total_duration(), 30 * SECOND as i128);
    assert_eq!(q.summary(), "2 items · 1 min", "half a minute rounds up");
    q.add("/c", Some(&film(3600 * SECOND)));
    assert_eq!(q.summary(), "3 items · 61 min");
}

#[test]
fn stepping_stops_at_the_ends() {
    let mut q = Queue::default();
    assert_eq!((q.next_index(), q.previous_index()), (None, None));
    q.add("/a", None);
    q.add("/b", None);
    q.current = Some(0);
    assert_eq!((q.next_index(), q.previous_index()), (Some(1), None));
    assert_eq!(step_queue(&q, true).as_deref(), Some("/b"));
    assert_eq!(step_queue(&q, false), None);
    q.current = Some(1);
    assert_eq!((q.next_index(), q.previous_index()), (None, Some(0)));
    assert_eq!(step_queue(&q, true), None, "the end is a stop, not a wrap-around");
    assert_eq!(step_queue(&q, false).as_deref(), Some("/a"));
}

fn candidate(path: &str) -> Candidate {
    Candidate { path: path.to_string(), info: None }
}

#[test]
fn opening_files_lines_them_up() {
    let mut q = Queue::default();
    q.add("/b", None);
    assert_eq!(open_all(&mut q, &Vec::new()), None);
    assert_eq!(open_all(&mut q, &vec![candidate("/c"), candidate("/b"), candidate("/d")]), Some(1));
    let paths: Vec<&str> = q.items.iter().map(|i| i.path.as_str()).collect();
    assert_eq!(paths, ["/b", "/c", "/d"]);
    make_current(&mut q, "/d", None);
    assert_eq!(q.current, Some(2));
    make_current(&mut q, "/e", None);
    assert_eq!((q.current, q.items.len()), (Some(3), 4));
    let rows = queue_rows(&q);
    assert_eq!((rows[3].title.as_str(), rows[3].time.as_str(), rows[3].is_current), ("e", "0:00", true));
    assert!(!rows[2].is_current);
}

#[test]
fn playing_a_folder_replaces_the_queue() {
    let mut q = Queue::default();
    q.add("/old", None);
    q.current = Some(0);
    assert_eq!(play_from(&mut q, &Vec::new(), 0), None);
    assert_eq!(q.items.len(), 1);
    let files = vec![candidate("/1"), candidate("/2")];
    assert_eq!(play_from(&mut q, &files, 1).as_deref(), Some("/2"));
    assert_eq!((q.items.len(), q.current), (2, None));
    assert_eq!(play_from(&mut q, &files, 7).as_deref(), Some("/1"));
}

// ── Chrome ──────────────────────────────────────────────────────────────

const W: i32 = 1000;
const H: i32 = 800;

fn at(x: i64, y: i64) -> WindowState {
    let mut w = WindowState::new(0);
    w.pointer_moved(x * 256, y * 256, 0);
    w
}

#[test]
fn everything_is_shown_at_rest() {
    let w = WindowState::new(0);
    let c = w.apply_chrome(State::Paused, W, H);
    assert!(c.sidebar && c.queue && c.transport && c.title_bar && c.title && c.cursor);
}

#[test]
fn chrome_belongs_to_edges() {
    let c = |x, y| at(x, y).apply_chrome(State::Playing, W, H);
    let middle = c(500, 400);
    assert!(!middle.sidebar && !middle.queue && !middle.transport && !middle.title_bar);
    assert!(c(130, 400).sidebar && c(130, 400).queue && !c(131, 400).sidebar);
    assert!(c(850, 400).queue && !c(849, 400).queue && !c(850, 400).sidebar);
    assert!(c(500, 110).title_bar && !c(500, 111).title_bar);
    assert!(c(500, 590).transport && !c(500, 589).transport);
    let mut w = at(10, 400);
    w.pointer_left();
    assert!(!w.apply_chrome(State::Playing, W, H).sidebar, "outside is near nothing");
}

#[test]
fn only_the_transport_answers_in_fullscreen() {
    let mut w = at(5, 5);
    assert!(w.toggle_fullscreen(0));
    let c = w.apply_chrome(State::Playing, W, H);
    assert!(!c.sidebar && !c.queue && !c.title_bar && !c.transport);
    w.pointer_moved(5 * 256, 799 * 256, 0);
    assert!(w.apply_chrome(State::Playing, W, H).transport);
    assert!(!w.apply_chrome(State::Paused, W, H).sidebar);
    assert!(!w.toggle_fullscreen(0));
}

#[test]
fn the_queue_is_the_viewers_choice() {
    let mut w = WindowState::new(0);
    w.toggle_queue();
    assert!(!w.apply_chrome(State::Paused, W, H).queue);
    w.toggle_queue();
    w.show(false);
    let c = w.apply_chrome(State::Paused, W, H);
    assert!(!c.queue && !c.title, "not over the browser");
}

#[test]
fn the_pointer_hides_when_it_rests() {
    let mut w = WindowState::new(0);
    assert!(!w.tick_chrome(State::Playing, 2_599_999_999));
    assert!(w.tick_chrome(State::Playing, 2_600_000_000));
    assert!(!w.apply_chrome(State::Playing, W, H).cursor);
    assert!(w.apply_chrome(State::Paused, W, H).cursor);
    w.note_activity(3_000_000_000);
    assert!(w.apply_chrome(State::Playing, W, H).cursor);
    w.hold_scrubber(true);
    assert!(w.scrubbing);
    assert!(w.take_revision(0) && !w.take_revision(0) && w.take_revision(1));
}

#[test]
fn keys_do_what_every_player_does() {
    let a = |k| key_action(k, false);
    assert_eq!((a(Key::Space), a(Key::K)), (KeyAction::Toggle, KeyAction::Toggle));
    assert_eq!(a(Key::Left), KeyAction::SeekBy(-10 * SECOND));
    assert_eq!(a(Key::Right), KeyAction::SeekBy(10 * SECOND));
    assert_eq!(a(Key::Down), KeyAction::SeekBy(-60 * SECOND));
    assert_eq!(a(Key::Up), KeyAction::SeekBy(60 * SECOND));
    assert_eq!((a(Key::F), a(Key::F11)), (KeyAction::ToggleFullscreen, KeyAction::ToggleFullscreen));
    assert_eq!(a(Key::Escape), KeyAction::Swallow);
    assert_eq!(key_action(Key::Escape, true), KeyAction::ToggleFullscreen);
    assert_eq!((a(Key::M), a(Key::O)), (KeyAction::ToggleMute, KeyAction::OpenFiles));
    assert_eq!((a(Key::B), a(Key::N), a(Key::P)), (KeyAction::Browse, KeyAction::Next, KeyAction::Previous));
    assert_eq!(a(Key::Other), KeyAction::Ignore);
}

#[test]
fn icons_follow_what_they_show() {
    assert_eq!(volume_icon(1_000), "audio-volume-muted-symbolic");
    assert_eq!(volume_icon(1_001), "audio-volume-low-symbolic");
    assert_eq!(volume_icon(340_000), "audio-volume-medium-symbolic");
    assert_eq!(volume_icon(670_000), "audio-volume-high-symbolic");
    assert_eq!(mute_icon(true), "audio-volume-muted-symbolic");
    assert_eq!(mute_icon(false), "audio-volume-high-symbolic");
    assert_eq!(play_button(State::Playing), ("media-playback-pause-symbolic", "Pause"));
    assert_eq!(play_button(State::Ended), ("media-playback-start-symbolic", "Play"));
}

#[test]
fn the_scrubber_follows_unless_it_is_held() {
    assert!(moves_scrubber(SECOND, false, 0, 50_000_001));
    assert!(!moves_scrubber(SECOND, false, 0, 50_000_000));
    assert!(moves_scrubber(SECOND, false, 50_000_001, 0));
    assert!(!moves_scrubber(SECOND, true, 0, SECOND));
    assert!(!moves_scrubber(0, false, 0, SECOND));
    assert!(moves_scrubber(1, false, i64::MIN, i64::MAX));
    assert_eq!((scrubber_end(0), scrubber_end(SECOND)), (1_000_000, SECOND));
}

#[test]
fn the_sidebar_leads_somewhere_or_is_pending() {
    let rows = primary_rows();
    assert_eq!((rows[0].label, rows[0].to), ("Now Playing", Destination::Player));
    assert_eq!((rows[2].label, rows[2].to), ("Library", Destination::Home));
    let live: Vec<&str> = rows.iter().chain(media_rows().iter()).filter(|r| r.sensitive()).map(|r| r.label).collect();
    assert_eq!(live, ["Now Playing", "Queue", "Library", "Movies", "TV Shows", "Music Videos", "Local Files"]);
    let videos = Some(Folder { path: "/v".to_string(), exists: true });
    let music = Some(Folder { path: "/m".to_string(), exists: false });
    let p = |to| browse_place(to, &videos, &music, "/h");
    assert_eq!(p(Destination::Videos), ("Movies & Shows", "/v".to_string()));
    assert_eq!(p(Destination::Music), ("Music", "/h".to_string()));
    assert_eq!(p(Destination::Home), ("Local Files", "/h".to_string()));
}

// ── Panels and menus ────────────────────────────────────────────────────

fn track(index: usize, kind: TrackKind) -> Track {
    Track {
        index,
        kind,
        codec: "aac".to_string(),
        language: Some("de".to_string()),
        title: None,
        is_default: false,
        is_forced: false,
        channels: 2,
        sample_rate: 48000,
        width: 16,
        height: 9,
        frame_rate: (0, 1),
        hdr: None,
    }
}

#[test]
fn details_list_what_there_is() {
    let mut i = film(3_723 * SECOND);
    i.container = "mov".to_string();
    i.bit_rate = 1_234_567;
    i.tracks = vec![track(0, TrackKind::Video), track(1, TrackKind::Audio), track(2, TrackKind::Subtitle)];
    let lines = details(&i);
    let texts: Vec<(&str, &str)> = lines.iter().map(|(a, b)| (a.as_str(), b.as_str())).collect();
    assert_eq!(
        texts,
        [
            ("Container", "mov"),
            ("Duration", "1:02:03"),
            ("Bit rate", "1234 kb/s"),
            ("Video", "16×9 · AAC"),
            ("Audio", "German · Stereo · AAC"),
            ("Subtitle", "German"),
        ]
    );
    i.bit_rate = 0;
    assert_eq!(details(&i).len(), 5);
    assert_eq!(window_title(&i), "A — Owl Player");
    assert_eq!(cannot_open("/x"), "Cannot open /x");
}

#[test]
fn chapters_are_listed_with_their_start() {
    let mut i = film(0);
    i.chapters = vec![Chapter { title: "One".to_string(), start: 61 * SECOND, end: 0 }];
    assert_eq!(chapter_rows(&i), [("One".to_string(), "1:01".to_string())]);
    assert_eq!((chapter_start(&i, 0), chapter_start(&i, 1)), (Some(61 * SECOND), None));
}

#[test]
fn menus_offer_a_choice_where_there_is_one() {
    let mut i = film(0);
    i.tracks = vec![track(1, TrackKind::Audio)];
    assert!(audio_menu(&i, Some(1)).is_empty() && subtitle_menu(&i, None).is_empty());
    i.tracks = vec![track(1, TrackKind::Audio), track(3, TrackKind::Subtitle), track(5, TrackKind::Audio)];
    let audio = audio_menu(&i, Some(5));
    let marks: Vec<(Option<usize>, bool)> = audio.iter().map(|c| (c.index, c.active)).collect();
    assert_eq!(marks, [(Some(1), false), (Some(5), true)]);
    let subs = subtitle_menu(&i, None);
    assert_eq!((subs[0].label.as_str(), subs[0].active, subs[0].index), ("Off", true, None));
    assert_eq!((subs[1].active, subs[1].index), (false, Some(3)));
    let s = Selection { video: Some(0), audio: Some(1), subtitle: None };
    assert!(!changes_track(Some(s), TrackKind::Audio, Some(1)));
    assert!(!changes_track(Some(s), TrackKind::Subtitle, None));
    assert!(changes_track(Some(s), TrackKind::Subtitle, Some(3)));
    assert!(changes_track(Some(s), TrackKind::Video, None));
    assert!(changes_track(None, TrackKind::Audio, None));
}

// ── Preferences ─────────────────────────────────────────────────────────

#[test]
fn positions_worth_resuming_are_remembered() {
    let mut c = PlayerConfig::default();
    let hour = 3600 * SECOND;
    c.remember("/a", 15 * SECOND, hour);
    c.remember("/b", 100 * SECOND, hour);
    assert_eq!(c.resume_for("/a"), Some(15 * SECOND));
    c.remember("/a", 15 * SECOND - 1, hour);
    assert_eq!(c.resume_for("/a"), None, "the first seconds are not worth it");
    c.remember("/a", hour - 30 * SECOND, hour);
    assert_eq!(c.resume_for("/a"), Some(hour - 30 * SECOND));
    c.remember("/a", hour - 30 * SECOND + 1, hour);
    assert_eq!(c.resume_for("/a"), None, "nor are the credits");
    c.remember("/b", 0, 0);
    assert_eq!(c.resume_for("/b"), Some(100 * SECOND), "an unknown length changes nothing");
    c.remember_position = false;
    assert_eq!(c.resume_for("/b"), None);
    c.remember("/b", 200 * SECOND, hour);
    c.remember_position = true;
    assert_eq!(c.resume_for("/b"), Some(100 * SECOND));
}

#[test]
fn positions_are_a_map() {
    let mut p = Positions::new();
    p.insert("b", 1);
    p.insert("a", 2);
    p.insert("b", 3);
    assert_eq!(p.len(), 2);
    let mut all: Vec<(String, i64)> = (0..p.len()).map(|i| (p.entry(i).0.to_string(), p.entry(i).1)).collect();
    all.sort();
    assert_eq!(all, [("a".to_string(), 2), ("b".to_string(), 3)]);
    p.remove("a");
    p.remove("zzz");
    assert_eq!((p.get("a"), p.get("b"), p.len()), (None, Some(3), 1));
}

#[test]
fn leaving_a_file_remembers_it() {
    let mut p = Player::new();
    let mut e: Engine<u8> = p.fresh_engine(0);
    let mut c = PlayerConfig::default();
    remember_position(&mut c, &p, &e, 0);
    assert_eq!(c.positions.len(), 0);
    let started = Started {
        info: film(3600 * SECOND),
        selection: Selection { video: None, audio: Some(0), subtitle: None },
        commands: Player::command_channel().0,
    };
    p.open(&mut e, Ok(started), TrackPreference::default(), 0).unwrap();
    p.play(&mut e, 0);
    remember_position(&mut c, &p, &e, 90 * SECOND as u64);
    assert_eq!(c.resume_for("/m/a.mkv"), Some(90 * SECOND));
}

#[test]
fn preferences_live_where_the_desktop_says() {
    assert_eq!(config_dir(Some("/x"), Some("/home/u")), "/x/raven");
    assert_eq!(config_dir(None, Some("/home/u")), "/home/u/.config/raven");
    assert_eq!(config_dir(None, None), "./raven");
    assert_eq!(player_file(None, Some("/h")), "/h/.config/raven/player.toml");
    assert_eq!(desktop_file(Some("/x/"), None), "/x/raven/desktop.toml");
    let c = PlayerConfig::default();
    assert!(c.show_sidebar && c.show_queue && c.remember_position);
    assert_eq!(c.volume, 1_000_000);
}

fn look(mode: ThemeMode, accent: &str) -> Appearance {
    Appearance { theme_mode: mode, accent: accent.to_string(), transparency: false }
}

#[test]
fn the_accent_is_the_desktops_if_it_is_a_colour() {
    assert!(is_hex("#0aF9zz") == false && is_hex("#0aF9bC") && !is_hex("0aF9bC7") && !is_hex("#fff"));
    let a = look(ThemeMode::Dark, "#102Aff");
    assert_eq!(accent(&a), "#102Aff");
    assert_eq!(accent_rgb(&a), (0x10, 0x2a, 0xff));
    let b = look(ThemeMode::Dark, "blue");
    assert_eq!(accent(&b), "#7AA2F7");
    assert_eq!(accent_rgb(&b), (0x7a, 0xa2, 0xf7));
}

#[test]
fn the_backdrop_matches_the_stylesheet_in_force() {
    let light = Rgb { r: 949, g: 949, b: 969 };
    let dark = Rgb { r: 90, g: 90, b: 114 };
    assert_eq!(backdrop(ThemeMode::Light), light);
    assert_eq!(backdrop(ThemeMode::Dark), dark);
    assert_eq!(backdrop(ThemeMode::Auto), dark);
    let css = |mode| overlay_css(&look(mode, "#000000"), "LIGHT");
    let head = "@define-color accent_bg_color #000000;\n@define-color accent_color #000000;\n";
    assert_eq!(css(ThemeMode::Light), format!("{head}LIGHT"));
    assert_eq!(css(ThemeMode::Auto), head);
    assert_eq!(colour_scheme(ThemeMode::Auto), Scheme::PreferDark);
    assert_eq!(colour_scheme(ThemeMode::Light), Scheme::ForceLight);
    assert_eq!(colour_scheme(ThemeMode::default()), Scheme::ForceDark);
    assert!(glass(&Desktop::default()));
    assert!(!glass(&Desktop { appearance: look(ThemeMode::Dark, "") }));
}

// ── The command line ────────────────────────────────────────────────────

#[test]
fn the_command_line_is_read() {
    for h in ["-h", "--help", "help"] {
        assert!(matches!(launch(strings(&["owl", h])), Launch::Help));
    }
    for v in ["-V", "--version"] {
        assert!(matches!(launch(strings(&["owl", v, "x"])), Launch::Version));
    }
    assert!(matches!(launch(strings(&["owl", "set-default"])), Launch::SetDefault));
    assert!(matches!(launch(strings(&["owl", "open", "a"])), Launch::Run(r) if r == ["owl", "a"]));
    assert!(matches!(launch(strings(&["owl", "a", "open"])), Launch::Run(r) if r == ["owl", "a", "open"]));
    assert!(matches!(launch(strings(&["owl"])), Launch::Run(r) if r == ["owl"]));
    assert_eq!(
        associations_report(0, 29),
        (true, "Owl Player is now the default for 29 media types.".to_string())
    );
    assert_eq!(
        associations_report(2, 29),
        (false, "owl-player: could not set 2 of 29 associations".to_string())
    );
}

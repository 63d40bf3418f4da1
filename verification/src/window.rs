//! The decisions behind the window: which chrome is shown, what keys and
//! buttons do, what the panels say, and how files are lined up and opened.

use vstd::prelude::*;

use crate::browse;
use crate::clock;
use crate::config;
use crate::config::PlayerConfig;
use crate::engine::Selection;
use crate::media;
use crate::media::{ChapterView, MediaInfo, MediaView, Track, TrackKind, TrackView};
use crate::player;
use crate::player::{Engine, Player, State};
use crate::queue;
use crate::queue::{ItemView, Queue};
use crate::text;
use crate::time;
use crate::time::SECOND;

verus! {

// ── Chrome ──────────────────────────────────────────────────────────────

/// How close to an edge the pointer has to be for that edge's chrome to
/// appear. Distances are in 256ths of a pixel.
pub const LEFT_ZONE: i64 = 33_280;

pub const RIGHT_ZONE: i64 = 38_400;

pub const TOP_ZONE: i64 = 28_160;

pub const BOTTOM_ZONE: i64 = 53_760;

/// How long the pointer has to sit still before it is hidden, in
/// nanoseconds.
pub const CHROME_IDLE: u64 = 2_600_000_000;

/// The pointer in the window's coordinates, in 256ths of a pixel.
#[derive(Debug, Clone, Copy, PartialEq, Eq, Structural)]
pub struct Pointer {
    pub x: i64,
    pub y: i64,
    pub inside: bool,
}

/// What decides which chrome is shown.
#[derive(Debug, Clone, Copy, PartialEq, Eq, Structural)]
pub struct Scene {
    pub state: State,
    pub fullscreen: bool,
    /// Whether the player is in view, rather than the browser.
    pub on_player: bool,
    /// Whether the viewer wants the queue panel at all.
    pub queue_wanted: bool,
    pub cursor_shown: bool,
    pub pointer: Pointer,
    /// The window's size in pixels.
    pub width: i32,
    pub height: i32,
}

/// Which chrome is shown.
#[derive(Debug, Clone, Copy, PartialEq, Eq, Structural)]
pub struct Chrome {
    pub sidebar: bool,
    pub queue: bool,
    /// The transport bar, and the watermark with it.
    pub transport: bool,
    pub title_bar: bool,
    pub title: bool,
    pub cursor: bool,
}

impl Scene {
    pub open spec fn near_left(self) -> bool {
        self.pointer.inside && self.pointer.x <= LEFT_ZONE
    }

    pub open spec fn near_right(self) -> bool {
        self.pointer.inside && self.pointer.x >= 256 * self.width - RIGHT_ZONE
    }

    pub open spec fn near_top(self) -> bool {
        self.pointer.inside && self.pointer.y <= TOP_ZONE
    }

    pub open spec fn near_bottom(self) -> bool {
        self.pointer.inside && self.pointer.y >= 256 * self.height - BOTTOM_ZONE
    }

    /// Every piece belongs to an edge and appears when the pointer is near
    /// that edge. While nothing plays, nothing is being interrupted, and it
    /// is all shown. In fullscreen the sidebar and the queue stay away, and
    /// of the rest only the transport answers the pointer.
    pub open spec fn shown(self) -> Chrome {
        let playing = self.state is Playing;
        Chrome {
            sidebar: !self.fullscreen && (!playing || self.near_left()),
            queue: !self.fullscreen && self.queue_wanted && self.on_player && (!playing
                || self.near_right() || self.near_left()),
            transport: !playing || self.near_bottom(),
            title_bar: !playing || (!self.fullscreen && self.near_top()),
            title: self.on_player,
            cursor: !playing || self.cursor_shown,
        }
    }
}

/// Which chrome is shown.
pub fn chrome(scene: &Scene) -> (r: Chrome)
    ensures
        r == scene.shown(),
{
    let playing: bool = scene.state == State::Playing;
    let p = scene.pointer;
    let near_left: bool = p.inside && p.x <= LEFT_ZONE;
    let near_right: bool = p.inside && p.x >= scene.width as i64 * 256 - RIGHT_ZONE;
    let near_top: bool = p.inside && p.y <= TOP_ZONE;
    let near_bottom: bool = p.inside && p.y >= scene.height as i64 * 256 - BOTTOM_ZONE;
    Chrome {
        sidebar: !scene.fullscreen && (!playing || near_left),
        queue: !scene.fullscreen && scene.queue_wanted && scene.on_player && (!playing
            || near_right || near_left),
        transport: !playing || near_bottom,
        title_bar: !playing || (!scene.fullscreen && near_top),
        title: scene.on_player,
        cursor: !playing || scene.cursor_shown,
    }
}

/// While nothing plays, everything is shown in a window: all but what the
/// viewer has put away.
pub proof fn everything_is_shown_at_rest(scene: Scene)
    requires
        !(scene.state is Playing),
        !scene.fullscreen,
    ensures
        scene.shown().sidebar,
        scene.shown().transport,
        scene.shown().title_bar,
        scene.shown().cursor,
        scene.shown().queue == (scene.queue_wanted && scene.on_player),
{
}

/// While a film plays in fullscreen, only the transport answers the pointer,
/// wherever it goes.
pub proof fn only_the_transport_answers_in_fullscreen(scene: Scene)
    requires
        scene.state is Playing,
        scene.fullscreen,
    ensures
        !scene.shown().sidebar,
        !scene.shown().queue,
        !scene.shown().title_bar,
        scene.shown().transport == scene.near_bottom(),
{
}

/// With the pointer away from every edge, a film that plays is alone.
pub proof fn a_film_is_left_alone(scene: Scene)
    requires
        scene.state is Playing,
        !scene.near_left(),
        !scene.near_right(),
        !scene.near_top(),
        !scene.near_bottom(),
    ensures
        !scene.shown().sidebar,
        !scene.shown().queue,
        !scene.shown().transport,
        !scene.shown().title_bar,
{
}

/// Whether the pointer itself is shown. It has no edge to belong to, so it
/// goes away when it has not moved for a while over a film that plays.
pub fn cursor_shown(state: State, idle: u64) -> (r: bool)
    ensures
        r == !(state is Playing && idle >= CHROME_IDLE),
{
    !(state == State::Playing && idle >= CHROME_IDLE)
}

/// What the window keeps between events.
#[derive(Debug, Clone, Copy, PartialEq, Eq, Structural)]
pub struct WindowState {
    pub fullscreen: bool,
    pub on_player: bool,
    pub queue_wanted: bool,
    pub cursor_shown: bool,
    pub pointer: Pointer,
    /// When the pointer or the keyboard last did anything.
    pub last_activity: u64,
    /// Whether the scrubber is being dragged.
    pub scrubbing: bool,
    /// The revision of the text subtitle that is on screen.
    pub subtitle_revision: u64,
}

impl WindowState {
    pub open spec fn scene_of(self, state: State, width: i32, height: i32) -> Scene {
        Scene {
            state: state,
            fullscreen: self.fullscreen,
            on_player: self.on_player,
            queue_wanted: self.queue_wanted,
            cursor_shown: self.cursor_shown,
            pointer: self.pointer,
            width: width,
            height: height,
        }
    }

    /// Somebody is at the keyboard or the mouse.
    pub open spec fn active(self, instant: u64) -> WindowState {
        WindowState { last_activity: instant, cursor_shown: true, ..self }
    }

    /// The pointer is at a place in the window.
    pub open spec fn pointed(self, x: i64, y: i64, instant: u64) -> WindowState {
        WindowState { pointer: Pointer { x: x, y: y, inside: true }, ..self.active(instant) }
    }

    /// The clock reads `instant` while the player is in this state.
    pub open spec fn ticked(self, state: State, instant: u64) -> WindowState {
        WindowState {
            cursor_shown: !(state is Playing && clock::elapsed(self.last_activity, instant)
                >= CHROME_IDLE),
            ..self
        }
    }

    pub fn new(instant: u64) -> (r: WindowState)
        ensures
            r == (WindowState {
                fullscreen: false,
                on_player: true,
                queue_wanted: true,
                cursor_shown: true,
                pointer: Pointer { x: 0, y: 0, inside: false },
                last_activity: instant,
                scrubbing: false,
                subtitle_revision: u64::MAX,
            }),
    {
        WindowState {
            fullscreen: false,
            on_player: true,
            queue_wanted: true,
            cursor_shown: true,
            pointer: Pointer { x: 0, y: 0, inside: false },
            last_activity: instant,
            scrubbing: false,
            subtitle_revision: u64::MAX,
        }
    }

    /// Which chrome is shown in a window of this size.
    pub fn apply_chrome(&self, state: State, width: i32, height: i32) -> (r: Chrome)
        ensures
            r == self.scene_of(state, width, height).shown(),
    {
        let scene = Scene {
            state: state,
            fullscreen: self.fullscreen,
            on_player: self.on_player,
            queue_wanted: self.queue_wanted,
            cursor_shown: self.cursor_shown,
            pointer: self.pointer,
            width: width,
            height: height,
        };
        chrome(&scene)
    }

    /// Somebody is at the keyboard or the mouse.
    pub fn note_activity(&mut self, instant: u64)
        ensures
            *final(self) == old(self).active(instant),
    {
        self.last_activity = instant;
        self.cursor_shown = true;
    }

    pub fn pointer_moved(&mut self, x: i64, y: i64, instant: u64)
        ensures
            *final(self) == old(self).pointed(x, y, instant),
    {
        self.pointer = Pointer { x: x, y: y, inside: true };
        self.note_activity(instant);
    }

    /// The pointer has left the window. Where it was is kept.
    pub fn pointer_left(&mut self)
        ensures
            *final(self) == (WindowState {
                pointer: Pointer { inside: false, ..old(self).pointer },
                ..*old(self)
            }),
    {
        self.pointer.inside = false;
    }

    /// Hides the pointer when it has not moved for a while over a film that
    /// plays. Says whether anything has changed.
    pub fn tick_chrome(&mut self, state: State, instant: u64) -> (r: bool)
        ensures
            *final(self) == old(self).ticked(state, instant),
            r == (final(self).cursor_shown != old(self).cursor_shown),
    {
        let idle: u64 = if instant > self.last_activity {
            instant - self.last_activity
        } else {
            0
        };
        let shown: bool = cursor_shown(state, idle);
        let changed: bool = shown != self.cursor_shown;
        self.cursor_shown = shown;
        changed
    }

    /// Goes to fullscreen and back. Returns which it is.
    pub fn toggle_fullscreen(&mut self, instant: u64) -> (r: bool)
        ensures
            r == !old(self).fullscreen,
            *final(self) == (WindowState { fullscreen: r, ..old(self).active(instant) }),
    {
        self.fullscreen = !self.fullscreen;
        self.note_activity(instant);
        self.fullscreen
    }

    /// Flips between wanting the queue panel and not.
    pub fn toggle_queue(&mut self)
        ensures
            *final(self) == (WindowState { queue_wanted: !old(self).queue_wanted, ..*old(self) }),
    {
        self.queue_wanted = !self.queue_wanted;
    }

    /// Switches to the player or the browser.
    pub fn show(&mut self, player: bool)
        ensures
            *final(self) == (WindowState { on_player: player, ..*old(self) }),
    {
        self.on_player = player;
    }

    /// The scrubber is taken hold of, or let go.
    pub fn hold_scrubber(&mut self, held: bool)
        ensures
            *final(self) == (WindowState { scrubbing: held, ..*old(self) }),
    {
        self.scrubbing = held;
    }

    /// Whether the label has to be built anew for this revision of the text.
    pub fn take_revision(&mut self, revision: u64) -> (r: bool)
        ensures
            r == (old(self).subtitle_revision != revision),
            *final(self) == (WindowState { subtitle_revision: revision, ..*old(self) }),
    {
        let changed: bool = self.subtitle_revision != revision;
        self.subtitle_revision = revision;
        changed
    }
}

/// Anything that the viewer does brings the pointer back, and it stays for a
/// while; left alone over a film it goes away.
pub proof fn the_pointer_follows_the_viewer(w: WindowState, at: u64, later: u64)
    requires
        at <= later,
    ensures
        w.active(at).cursor_shown,
        later - at < CHROME_IDLE ==> w.active(at).ticked(State::Playing, later).cursor_shown,
        later - at >= CHROME_IDLE ==> !w.active(at).ticked(State::Playing, later).cursor_shown,
        w.active(at).ticked(State::Paused, later).cursor_shown,
{
}

// ── Keys and buttons ────────────────────────────────────────────────────

#[derive(Debug, Clone, Copy, PartialEq, Eq, Structural)]
pub enum Key {
    Space,
    K,
    Left,
    Right,
    Down,
    Up,
    F,
    F11,
    Escape,
    M,
    O,
    B,
    N,
    P,
    Other,
}

#[derive(Debug, Clone, Copy, PartialEq, Eq, Structural)]
pub enum KeyAction {
    /// The key is for somebody else.
    Ignore,
    /// The key is taken and does nothing.
    Swallow,
    Toggle,
    SeekBy(i64),
    ToggleFullscreen,
    ToggleMute,
    OpenFiles,
    Browse,
    Next,
    Previous,
}

/// What a key does. The left arrow goes back ten seconds and the right one
/// forward; the up arrow goes forward a minute and the down arrow back, since
/// up is further along. The help text names the last two keys together with
/// their two directions, and does not pair them.
pub open spec fn action_of(key: Key, fullscreen: bool) -> KeyAction {
    match key {
        Key::Space | Key::K => KeyAction::Toggle,
        Key::Left => KeyAction::SeekBy((-10 * SECOND) as i64),
        Key::Right => KeyAction::SeekBy((10 * SECOND) as i64),
        Key::Down => KeyAction::SeekBy((-60 * SECOND) as i64),
        Key::Up => KeyAction::SeekBy((60 * SECOND) as i64),
        Key::F | Key::F11 => KeyAction::ToggleFullscreen,
        Key::Escape => if fullscreen {
            KeyAction::ToggleFullscreen
        } else {
            KeyAction::Swallow
        },
        Key::M => KeyAction::ToggleMute,
        Key::O => KeyAction::OpenFiles,
        Key::B => KeyAction::Browse,
        Key::N => KeyAction::Next,
        Key::P => KeyAction::Previous,
        Key::Other => KeyAction::Ignore,
    }
}

/// What a key does.
pub fn key_action(key: Key, fullscreen: bool) -> (r: KeyAction)
    ensures
        r == action_of(key, fullscreen),
{
    match key {
        Key::Space | Key::K => KeyAction::Toggle,
        Key::Left => KeyAction::SeekBy(-10_000_000_000),
        Key::Right => KeyAction::SeekBy(10_000_000_000),
        Key::Down => KeyAction::SeekBy(-60_000_000_000),
        Key::Up => KeyAction::SeekBy(60_000_000_000),
        Key::F | Key::F11 => KeyAction::ToggleFullscreen,
        Key::Escape => if fullscreen {
            KeyAction::ToggleFullscreen
        } else {
            KeyAction::Swallow
        },
        Key::M => KeyAction::ToggleMute,
        Key::O => KeyAction::OpenFiles,
        Key::B => KeyAction::Browse,
        Key::N => KeyAction::Next,
        Key::P => KeyAction::Previous,
        Key::Other => KeyAction::Ignore,
    }
}

/// The icon beside the volume, by how loud it is.
pub open spec fn volume_icon_of(volume: int) -> Seq<char> {
    if volume <= 1_000 {
        "audio-volume-muted-symbolic"@
    } else if volume < 340_000 {
        "audio-volume-low-symbolic"@
    } else if volume < 670_000 {
        "audio-volume-medium-symbolic"@
    } else {
        "audio-volume-high-symbolic"@
    }
}

pub fn volume_icon(volume: i64) -> (r: &'static str)
    ensures
        r@ == volume_icon_of(volume as int),
{
    if volume <= 1_000 {
        "audio-volume-muted-symbolic"
    } else if volume < 340_000 {
        "audio-volume-low-symbolic"
    } else if volume < 670_000 {
        "audio-volume-medium-symbolic"
    } else {
        "audio-volume-high-symbolic"
    }
}

/// The icon after the mute button was pressed.
pub fn mute_icon(muted: bool) -> (r: &'static str)
    ensures
        r@ == if muted {
            "audio-volume-muted-symbolic"@
        } else {
            "audio-volume-high-symbolic"@
        },
{
    if muted {
        "audio-volume-muted-symbolic"
    } else {
        "audio-volume-high-symbolic"
    }
}

/// The icon and the tooltip of the play button.
pub fn play_button(state: State) -> (r: (&'static str, &'static str))
    ensures
        state is Playing ==> r.0@ == "media-playback-pause-symbolic"@ && r.1@ == "Pause"@,
        !(state is Playing) ==> r.0@ == "media-playback-start-symbolic"@ && r.1@ == "Play"@,
{
    if state == State::Playing {
        ("media-playback-pause-symbolic", "Pause")
    } else {
        ("media-playback-start-symbolic", "Play")
    }
}

/// A twentieth of a second: the scrubber is not moved by less.
pub const SCRUBBER_STEP: i64 = 50_000_000;

/// Whether the scrubber follows playback: not while it is held, and not by
/// less than can be seen.
pub fn moves_scrubber(duration: i64, held: bool, value: i64, position: i64) -> (r: bool)
    ensures
        r == (duration > 0 && !held && (value - position > SCRUBBER_STEP || position - value
            > SCRUBBER_STEP)),
{
    let gap: i128 = value as i128 - position as i128;
    duration > 0 && !held && (gap > SCRUBBER_STEP as i128 || -gap > SCRUBBER_STEP as i128)
}

/// The end of the scrubber's range, which is never empty.
pub fn scrubber_end(duration: i64) -> (r: i64)
    ensures
        r == if duration < 1_000_000 {
            1_000_000
        } else {
            duration as int
        },
{
    if duration < 1_000_000 {
        1_000_000
    } else {
        duration
    }
}

// ── The sidebar ─────────────────────────────────────────────────────────

/// Where a row of the sidebar leads.
#[derive(Debug, Clone, Copy, PartialEq, Eq, Structural)]
pub enum Destination {
    /// The row is not wired to anything yet, and is insensitive.
    Nowhere,
    Player,
    /// Flips the queue panel; the selection stays where it was.
    Queue,
    Home,
    Videos,
    Music,
}

/// A row of the sidebar.
#[derive(Debug, Clone, Copy)]
pub struct NavRow {
    pub label: &'static str,
    pub icon: &'static str,
    pub to: Destination,
}

impl NavRow {
    /// Whether the row can be activated: one that looks live and does nothing
    /// is worse than one that looks pending.
    pub fn sensitive(&self) -> (r: bool)
        ensures
            r == (self.to != Destination::Nowhere),
    {
        match self.to {
            Destination::Nowhere => false,
            _ => true,
        }
    }
}

pub open spec fn nav_view(row: NavRow) -> (Seq<char>, Seq<char>, Destination) {
    (row.label@, row.icon@, row.to)
}

/// The rows above the heading.
pub fn primary_rows() -> (r: [NavRow; 6])
    ensures
        r@.map_values(|row: NavRow| nav_view(row)) == seq![
            ("Now Playing"@, "media-playback-start-symbolic"@, Destination::Player),
            ("Queue"@, "view-list-symbolic"@, Destination::Queue),
            ("Library"@, "folder-symbolic"@, Destination::Home),
            ("Playlists"@, "view-list-symbolic"@, Destination::Nowhere),
            ("Watch Later"@, "alarm-symbolic"@, Destination::Nowhere),
            ("Favorites"@, "emblem-favorite-symbolic"@, Destination::Nowhere),
        ],
{
    let r: [NavRow; 6] = [
        NavRow {
            label: "Now Playing",
            icon: "media-playback-start-symbolic",
            to: Destination::Player,
        },
        NavRow { label: "Queue", icon: "view-list-symbolic", to: Destination::Queue },
        NavRow { label: "Library", icon: "folder-symbolic", to: Destination::Home },
        NavRow { label: "Playlists", icon: "view-list-symbolic", to: Destination::Nowhere },
        NavRow { label: "Watch Later", icon: "alarm-symbolic", to: Destination::Nowhere },
        NavRow { label: "Favorites", icon: "emblem-favorite-symbolic", to: Destination::Nowhere },
    ];
    assert(r@.map_values(|row: NavRow| nav_view(row)) =~= seq![
        ("Now Playing"@, "media-playback-start-symbolic"@, Destination::Player),
        ("Queue"@, "view-list-symbolic"@, Destination::Queue),
        ("Library"@, "folder-symbolic"@, Destination::Home),
        ("Playlists"@, "view-list-symbolic"@, Destination::Nowhere),
        ("Watch Later"@, "alarm-symbolic"@, Destination::Nowhere),
        ("Favorites"@, "emblem-favorite-symbolic"@, Destination::Nowhere),
    ]);
    r
}

/// The rows below the heading.
pub fn media_rows() -> (r: [NavRow; 5])
    ensures
        r@.map_values(|row: NavRow| nav_view(row)) == seq![
            ("Movies"@, "video-x-generic-symbolic"@, Destination::Videos),
            ("TV Shows"@, "video-display-symbolic"@, Destination::Videos),
            ("Music Videos"@, "emblem-music-symbolic"@, Destination::Music),
            ("Local Files"@, "folder-open-symbolic"@, Destination::Home),
            ("Network"@, "network-workgroup-symbolic"@, Destination::Nowhere),
        ],
{
    let r: [NavRow; 5] = [
        NavRow { label: "Movies", icon: "video-x-generic-symbolic", to: Destination::Videos },
        NavRow { label: "TV Shows", icon: "video-display-symbolic", to: Destination::Videos },
        NavRow { label: "Music Videos", icon: "emblem-music-symbolic", to: Destination::Music },
        NavRow { label: "Local Files", icon: "folder-open-symbolic", to: Destination::Home },
        NavRow { label: "Network", icon: "network-workgroup-symbolic", to: Destination::Nowhere },
    ];
    assert(r@.map_values(|row: NavRow| nav_view(row)) =~= seq![
        ("Movies"@, "video-x-generic-symbolic"@, Destination::Videos),
        ("TV Shows"@, "video-display-symbolic"@, Destination::Videos),
        ("Music Videos"@, "emblem-music-symbolic"@, Destination::Music),
        ("Local Files"@, "folder-open-symbolic"@, Destination::Home),
        ("Network"@, "network-workgroup-symbolic"@, Destination::Nowhere),
    ]);
    r
}

/// A folder that may not exist.
#[derive(Debug)]
pub struct Folder {
    pub path: String,
    pub exists: bool,
}

/// The heading of the browser for a destination.
pub open spec fn place_label(to: Destination) -> Seq<char> {
    match to {
        Destination::Videos => "Movies & Shows"@,
        Destination::Music => "Music"@,
        _ => "Local Files"@,
    }
}

/// The folder for a destination. One that was never created is not an error:
/// the home directory stands in.
pub open spec fn place_dir(
    to: Destination,
    videos: Option<Folder>,
    music: Option<Folder>,
    home: Seq<char>,
) -> Seq<char> {
    let dir = match to {
        Destination::Videos => videos,
        Destination::Music => music,
        _ => None,
    };
    match dir {
        Some(f) if f.exists => f.path@,
        _ => home,
    }
}

/// What the browser shows for a destination: its heading and its folder.
pub fn browse_place(
    to: Destination,
    videos: &Option<Folder>,
    music: &Option<Folder>,
    home: &str,
) -> (r: (&'static str, String))
    ensures
        r.0@ == place_label(to),
        r.1@ == place_dir(to, *videos, *music, home@),
{
    match to {
        Destination::Videos => ("Movies & Shows", existing(videos, home)),
        Destination::Music => ("Music", existing(music, home)),
        _ => ("Local Files", home.to_string()),
    }
}

fn existing(dir: &Option<Folder>, home: &str) -> (r: String)
    ensures
        r@ == match *dir {
            Some(f) if f.exists => f.path@,
            _ => home@,
        },
{
    match dir {
        Some(f) => if f.exists {
            f.path.clone()
        } else {
            home.to_string()
        },
        None => home.to_string(),
    }
}

// ── What the panels say ─────────────────────────────────────────────────

pub open spec fn kind_text(kind: TrackKind) -> Seq<char> {
    match kind {
        TrackKind::Video => "Video"@,
        TrackKind::Audio => "Audio"@,
        TrackKind::Subtitle => "Subtitle"@,
    }
}

/// The lines of the details panel.
pub open spec fn details_of(info: MediaView) -> Seq<(Seq<char>, Seq<char>)> {
    let head = seq![
        ("Container"@, info.container),
        ("Duration"@, time::clock_text(info.duration)),
    ];
    let rate = if info.bit_rate > 0 {
        seq![("Bit rate"@, text::decimal((info.bit_rate / 1000) as nat) + " kb/s"@)]
    } else {
        Seq::empty()
    };
    head + rate + info.tracks.map_values(|t: TrackView| (kind_text(t.kind), t.label()))
}

fn kind_name(kind: TrackKind) -> (r: &'static str)
    ensures
        r@ == kind_text(kind),
{
    match kind {
        TrackKind::Video => "Video",
        TrackKind::Audio => "Audio",
        TrackKind::Subtitle => "Subtitle",
    }
}

/// The lines of the details panel.
pub fn details(info: &MediaInfo) -> (r: Vec<(String, String)>)
    ensures
        browse::pair_texts(r@) == details_of(info@),
{
    let mut lines: Vec<(String, String)> = Vec::new();
    lines.push(("Container".to_string(), info.container.clone()));
    lines.push(("Duration".to_string(), time::format_time(info.duration)));
    if info.bit_rate > 0 {
        let mut out: Vec<char> = Vec::new();
        text::append_decimal(&mut out, (info.bit_rate / 1000) as u64);
        text::append_str(&mut out, " kb/s");
        assert(out@ =~= text::decimal((info@.bit_rate / 1000) as nat) + " kb/s"@);
        lines.push(("Bit rate".to_string(), text::string_of(&out)));
    }
    let ghost head = browse::pair_texts(lines@);
    let ghost tail = info@.tracks.map_values(|t: TrackView| (kind_text(t.kind), t.label()));
    assert(head + tail =~= details_of(info@));
    let mut i: usize = 0;
    assert(head + tail.take(0) =~= head);
    while i < info.tracks.len()
        invariant
            i <= info.tracks@.len(),
            tail == info@.tracks.map_values(|t: TrackView| (kind_text(t.kind), t.label())),
            browse::pair_texts(lines@) == head + tail.take(i as int),
        decreases info.tracks@.len() - i,
    {
        let ghost before = browse::pair_texts(lines@);
        let track = &info.tracks[i];
        assert(info@.tracks[i as int] == track@);
        let line = (kind_name(track.kind).to_string(), track.label());
        lines.push(line);
        assert(browse::pair_texts(lines@) =~= before.push((line.0@, line.1@)));
        assert(tail[i as int] == (line.0@, line.1@));
        assert(browse::pair_texts(lines@) =~= head + tail.take(i + 1));
        i = i + 1;
    }
    assert(tail.take(i as int) =~= tail);
    lines
}

/// A row of the queue panel.
#[derive(Debug)]
pub struct QueueRow {
    pub title: String,
    pub time: String,
    pub is_current: bool,
}

pub open spec fn queue_row_views(rows: Seq<QueueRow>) -> Seq<(Seq<char>, Seq<char>, bool)> {
    rows.map_values(|r: QueueRow| (r.title@, r.time@, r.is_current))
}

/// The rows of the queue panel: title, length, and whether it is the current
/// one.
pub open spec fn queue_rows_of(items: Seq<ItemView>, current: Option<usize>) -> Seq<
    (Seq<char>, Seq<char>, bool),
> {
    items.map(
        |i: int, item: ItemView|
            (
                item.title,
                time::clock_text(item.duration),
                current matches Some(c) && c == i,
            ),
    )
}

pub fn queue_rows(queue: &Queue) -> (r: Vec<QueueRow>)
    ensures
        queue_row_views(r@) == queue_rows_of(queue.rows(), queue.current),
{
    let ghost all = queue_rows_of(queue.rows(), queue.current);
    let mut rows: Vec<QueueRow> = Vec::new();
    let mut i: usize = 0;
    assert(queue_row_views(rows@) =~= all.take(0));
    while i < queue.items.len()
        invariant
            i <= queue.items@.len(),
            all == queue_rows_of(queue.rows(), queue.current),
            queue_row_views(rows@) == all.take(i as int),
        decreases queue.items@.len() - i,
    {
        let ghost before = queue_row_views(rows@);
        assert(queue.rows()[i as int] == queue.items@[i as int]@);
        let row = QueueRow {
            title: queue.items[i].title.clone(),
            time: time::format_time(queue.items[i].duration),
            is_current: is_current(queue.current, i),
        };
        rows.push(row);
        assert(queue_row_views(rows@) =~= before.push((row.title@, row.time@, row.is_current)));
        assert(all[i as int] == (row.title@, row.time@, row.is_current));
        assert(queue_row_views(rows@) =~= all.take(i + 1));
        i = i + 1;
    }
    assert(all.take(i as int) =~= all);
    rows
}

/// The rows of the chapters panel: title and start.
pub open spec fn chapter_rows_of(info: MediaView) -> Seq<(Seq<char>, Seq<char>)> {
    info.chapters.map_values(|c: ChapterView| (c.title, time::clock_text(c.start)))
}

pub fn chapter_rows(info: &MediaInfo) -> (r: Vec<(String, String)>)
    ensures
        browse::pair_texts(r@) == chapter_rows_of(info@),
{
    let ghost all = chapter_rows_of(info@);
    let mut rows: Vec<(String, String)> = Vec::new();
    let mut i: usize = 0;
    assert(browse::pair_texts(rows@) =~= all.take(0));
    while i < info.chapters.len()
        invariant
            i <= info.chapters@.len(),
            all == chapter_rows_of(info@),
            browse::pair_texts(rows@) == all.take(i as int),
        decreases info.chapters@.len() - i,
    {
        let ghost before = browse::pair_texts(rows@);
        assert(info@.chapters[i as int] == info.chapters@[i as int]@);
        let row = (info.chapters[i].title.clone(), time::format_time(info.chapters[i].start));
        rows.push(row);
        assert(browse::pair_texts(rows@) =~= before.push((row.0@, row.1@)));
        assert(all[i as int] == (row.0@, row.1@));
        assert(browse::pair_texts(rows@) =~= all.take(i + 1));
        i = i + 1;
    }
    assert(all.take(i as int) =~= all);
    rows
}

/// Where a chapter starts, if there is such a one.
pub fn chapter_start(info: &MediaInfo, index: usize) -> (r: Option<i64>)
    ensures
        r is Some <==> index < info@.chapters.len(),
        r matches Some(t) ==> t == info@.chapters[index as int].start,
{
    if index < info.chapters.len() {
        assert(info@.chapters[index as int] == info.chapters@[index as int]@);
        Some(info.chapters[index].start)
    } else {
        None
    }
}

/// The window's title while a file is open.
pub fn window_title(info: &MediaInfo) -> (r: String)
    ensures
        r@ == info@.display_title() + " — Owl Player"@,
{
    let mut out = text::chars_of(info.display_title().as_str());
    text::append_str(&mut out, " — Owl Player");
    text::string_of(&out)
}

/// What the title says when a file cannot be opened.
pub fn cannot_open(file: &str) -> (r: String)
    ensures
        r@ == "Cannot open "@ + file@,
{
    let mut out = text::chars_of("Cannot open ");
    text::append_str(&mut out, file);
    text::string_of(&out)
}

/// A choice of track.
#[derive(Debug)]
pub struct Choice {
    pub label: String,
    pub active: bool,
    pub index: Option<usize>,
}

pub struct ChoiceView {
    pub label: Seq<char>,
    pub active: bool,
    pub index: Option<usize>,
}

impl View for Choice {
    type V = ChoiceView;

    open spec fn view(&self) -> ChoiceView {
        ChoiceView { label: self.label@, active: self.active, index: self.index }
    }
}

pub open spec fn choice_views(choices: Seq<Choice>) -> Seq<ChoiceView> {
    choices.map_values(|c: Choice| c@)
}

/// The choices among tracks of which `current` is in force.
pub open spec fn choices_of(tracks: Seq<TrackView>, current: Option<usize>) -> Seq<ChoiceView> {
    tracks.map_values(
        |t: TrackView|
            ChoiceView {
                label: t.label(),
                active: current == Some(t.index),
                index: Some(t.index),
            },
    )
}

/// The choices of sound: offered when there is more than one.
pub open spec fn audio_menu_of(info: MediaView, current: Option<usize>) -> Seq<ChoiceView> {
    let tracks = media::of_kind(info.tracks, TrackKind::Audio);
    if tracks.len() > 1 {
        choices_of(tracks, current)
    } else {
        Seq::empty()
    }
}

/// The choices of subtitles: offered when there are any, with none of them
/// as the first.
pub open spec fn subtitle_menu_of(info: MediaView, current: Option<usize>) -> Seq<ChoiceView> {
    let tracks = media::of_kind(info.tracks, TrackKind::Subtitle);
    if tracks.len() > 0 {
        seq![ChoiceView { label: "Off"@, active: current is None, index: None }] + choices_of(
            tracks,
            current,
        )
    } else {
        Seq::empty()
    }
}

fn is_current(current: Option<usize>, index: usize) -> (r: bool)
    ensures
        r == (current == Some(index)),
{
    match current {
        Some(i) => i == index,
        None => false,
    }
}

fn add_choices(choices: &mut Vec<Choice>, tracks: &Vec<&Track>, current: Option<usize>)
    ensures
        choice_views(final(choices)@) == choice_views(old(choices)@) + choices_of(
            media::ref_views(tracks@),
            current,
        ),
{
    let ghost head = choice_views(choices@);
    let ghost tail = choices_of(media::ref_views(tracks@), current);
    let mut i: usize = 0;
    assert(head + tail.take(0) =~= head);
    while i < tracks.len()
        invariant
            i <= tracks@.len(),
            tail == choices_of(media::ref_views(tracks@), current),
            choice_views(choices@) == head + tail.take(i as int),
        decreases tracks@.len() - i,
    {
        let ghost before = choice_views(choices@);
        let track = tracks[i];
        assert(media::ref_views(tracks@)[i as int] == track@);
        let choice = Choice {
            label: track.label(),
            active: is_current(current, track.index),
            index: Some(track.index),
        };
        choices.push(choice);
        assert(choice_views(choices@) =~= before.push(choice@));
        assert(tail[i as int] == choice@);
        assert(choice_views(choices@) =~= head + tail.take(i + 1));
        i = i + 1;
    }
    assert(tail.take(i as int) =~= tail);
}

/// The choices of sound.
pub fn audio_menu(info: &MediaInfo, current: Option<usize>) -> (r: Vec<Choice>)
    ensures
        choice_views(r@) == audio_menu_of(info@, current),
{
    let tracks = info.tracks_of(TrackKind::Audio);
    let mut choices: Vec<Choice> = Vec::new();
    assert(choice_views(choices@) =~= Seq::<ChoiceView>::empty());
    assert(media::ref_views(tracks@).len() == tracks@.len());
    if tracks.len() > 1 {
        add_choices(&mut choices, &tracks, current);
        assert(choice_views(choices@) =~= choices_of(media::ref_views(tracks@), current));
    }
    choices
}

/// The choices of subtitles.
pub fn subtitle_menu(info: &MediaInfo, current: Option<usize>) -> (r: Vec<Choice>)
    ensures
        choice_views(r@) == subtitle_menu_of(info@, current),
{
    let tracks = info.tracks_of(TrackKind::Subtitle);
    let mut choices: Vec<Choice> = Vec::new();
    assert(choice_views(choices@) =~= Seq::<ChoiceView>::empty());
    assert(media::ref_views(tracks@).len() == tracks@.len());
    if tracks.len() > 0 {
        let off = Choice { label: "Off".to_string(), active: current.is_none(), index: None };
        choices.push(off);
        assert(choice_views(choices@) =~= seq![
            ChoiceView { label: "Off"@, active: current is None, index: None },
        ]);
        add_choices(&mut choices, &tracks, current);
    }
    choices
}

/// The track of a kind that is selected.
pub open spec fn selected(s: Selection, kind: TrackKind) -> Option<usize> {
    match kind {
        TrackKind::Audio => s.audio,
        TrackKind::Subtitle => s.subtitle,
        TrackKind::Video => s.video,
    }
}

/// Whether choosing a track changes anything.
pub fn changes_track(selection: Option<Selection>, kind: TrackKind, index: Option<usize>) -> (r:
    bool)
    ensures
        r == !(selection matches Some(s) && selected(s, kind) == index),
{
    match selection {
        Some(s) => {
            let now: Option<usize> = match kind {
                TrackKind::Audio => s.audio,
                TrackKind::Subtitle => s.subtitle,
                TrackKind::Video => s.video,
            };
            match (now, index) {
                (Some(a), Some(b)) => a != b,
                (None, None) => false,
                _ => true,
            }
        },
        None => true,
    }
}

// ── Lining files up ─────────────────────────────────────────────────────

/// A file to line up, with what was read of it, if it could be.
pub struct Candidate {
    pub path: String,
    pub info: Option<MediaInfo>,
}

pub open spec fn candidate_info(c: Candidate) -> Option<&'static MediaInfo> {
    match c.info {
        Some(info) => Some(&info),
        None => None,
    }
}

/// The queue once a file has been added.
pub open spec fn with_file(rows: Seq<ItemView>, c: Candidate) -> Seq<ItemView> {
    if queue::position_of(rows, c.path@) is Some {
        rows
    } else {
        rows.push(queue::row_for(c.path@, candidate_info(c)))
    }
}

/// The queue once all of them have been added, in order.
pub open spec fn with_files(rows: Seq<ItemView>, files: Seq<Candidate>) -> Seq<ItemView>
    decreases files.len(),
{
    if files.len() == 0 {
        rows
    } else {
        with_file(with_files(rows, files.drop_last()), files.last())
    }
}

/// Adds files to the queue. Returns where the first of them is, which is what
/// is to be opened.
pub fn open_all(queue: &mut Queue, files: &Vec<Candidate>) -> (r: Option<usize>)
    requires
        old(queue).wf(),
    ensures
        final(queue).wf(),
        final(queue).current == old(queue).current,
        final(queue).rows() == with_files(old(queue).rows(), files@),
        files@.len() == 0 ==> r is None,
        files@.len() > 0 ==> {
            &&& r matches Some(i) && i < final(queue).items@.len()
            &&& Some(r->0 as int) == queue::position_of(
                with_file(old(queue).rows(), files@[0]),
                files@[0].path@,
            )
        },
{
    let ghost rows = queue.rows();
    let mut first: Option<usize> = None;
    let mut i: usize = 0;
    assert(files@.take(0) =~= Seq::<Candidate>::empty());
    while i < files.len()
        invariant
            i <= files@.len(),
            queue.wf(),
            queue.current == old(queue).current,
            rows == old(queue).rows(),
            queue.rows() == with_files(rows, files@.take(i as int)),
            i == 0 ==> first is None,
            i > 0 ==> {
                &&& first matches Some(at) && at < queue.items@.len()
                &&& Some(first->0 as int) == queue::position_of(
                    with_file(rows, files@[0]),
                    files@[0].path@,
                )
            },
        decreases files@.len() - i,
    {
        let ghost before = queue.rows();
        let ghost next = files@.take(i + 1);
        assert(next.drop_last() =~= files@.take(i as int));
        assert(next.last() == files@[i as int]);
        let file = &files[i];
        let info: Option<&MediaInfo> = match &file.info {
            Some(info) => Some(info),
            None => None,
        };
        let index: usize = queue.add(file.path.as_str(), info);
        proof {
            assert(queue.rows() == with_file(before, files@[i as int]));
            if queue::position_of(before, file.path@) is None {
                queue::a_queued_file_is_found(before, queue::row_for(file.path@, info));
            }
            assert(queue::position_of(queue.rows(), file.path@) == Some(index as int));
        }
        if i == 0 {
            first = Some(index);
        }
        i = i + 1;
    }
    assert(files@.take(i as int) =~= files@);
    first
}

/// Replaces the queue with a folder's files. Returns which of them is played:
/// the one picked, or the first if there is no such one.
pub fn play_from(queue: &mut Queue, files: &Vec<Candidate>, at: usize) -> (r: Option<String>)
    requires
        old(queue).wf(),
    ensures
        final(queue).wf(),
        files@.len() == 0 ==> r is None && *final(queue) == *old(queue),
        files@.len() > 0 ==> {
            &&& final(queue).rows() == with_files(Seq::<ItemView>::empty(), files@)
            &&& final(queue).current is None
            &&& r matches Some(file) && file@ == files@[if at < files@.len() {
                at as int
            } else {
                0
            }].path@
        },
{
    if files.len() == 0 {
        return None;
    }
    queue.clear();
    open_all(queue, files);
    let start: usize = if at < files.len() {
        at
    } else {
        0
    };
    Some(files[start].path.clone())
}

/// Makes a file the current one, adding it if it is not there.
pub fn make_current(queue: &mut Queue, file: &str, info: Option<&MediaInfo>)
    requires
        old(queue).wf(),
    ensures
        final(queue).wf(),
        final(queue).current matches Some(i) && queue::position_of(
            final(queue).rows(),
            file@,
        ) == Some(i as int),
        match queue::position_of(old(queue).rows(), file@) {
            Some(_) => final(queue).rows() == old(queue).rows(),
            None => final(queue).rows() == old(queue).rows().push(queue::row_for(file@, info)),
        },
{
    let ghost before = queue.rows();
    let index: usize = queue.add(file, info);
    proof {
        if queue::position_of(before, file@) is None {
            queue::a_queued_file_is_found(before, queue::row_for(file@, info));
        }
    }
    let ghost rows = queue.rows();
    queue.current = Some(index);
    assert(queue.rows() =~= rows);
}

/// The file a step away in the queue, forward or back, if there is one.
pub fn step_queue(queue: &Queue, forward: bool) -> (r: Option<String>)
    requires
        queue.wf(),
    ensures
        ({
            let target = if forward {
                queue::next_of(queue.current, queue.items@.len())
            } else {
                queue::previous_of(queue.current)
            };
            &&& r is Some <==> target is Some
            &&& r matches Some(file) ==> file@ == queue.rows()[target->0 as int].path
        }),
{
    let target: Option<usize> = if forward {
        queue.next_index()
    } else {
        queue.previous_index()
    };
    match target {
        Some(i) => {
            assert(queue.rows()[i as int] == queue.items@[i as int]@);
            Some(queue.items[i].path.clone())
        },
        None => None,
    }
}

/// Notes where the open file is being left.
pub fn remember_position<P>(
    preferences: &mut PlayerConfig,
    player: &Player,
    engine: &Engine<P>,
    instant: u64,
)
    requires
        old(preferences).positions.wf(),
    ensures
        final(preferences).positions.wf(),
        final(preferences).positions@ == match player.session {
            Some(s) => config::remembered(
                old(preferences).positions@,
                old(preferences).remember_position,
                s.info.path@,
                player::shown_position(engine.clock.position(instant), player.length()) as i64,
                s.info.duration,
            ),
            None => old(preferences).positions@,
        },
        final(preferences).show_sidebar == old(preferences).show_sidebar,
        final(preferences).show_queue == old(preferences).show_queue,
        final(preferences).volume == old(preferences).volume,
        final(preferences).remember_position == old(preferences).remember_position,
{
    if let Some(file) = player.path() {
        let position: i64 = player.position(engine, instant);
        let duration: i64 = player.duration();
        preferences.remember(file.as_str(), position, duration);
    }
}

// ── Laws ────────────────────────────────────────────────────────────────

/// Every file that was lined up is in the queue afterwards.
pub proof fn every_file_is_queued(rows: Seq<ItemView>, files: Seq<Candidate>, i: int)
    requires
        0 <= i < files.len(),
    ensures
        queue::position_of(with_files(rows, files), files[i].path@) is Some,
    decreases files.len(),
{
    let before = with_files(rows, files.drop_last());
    let last = files.last();
    if i == files.len() - 1 {
        if queue::position_of(before, last.path@) is None {
            queue::a_queued_file_is_found(
                before,
                queue::row_for(last.path@, candidate_info(last)),
            );
        }
    } else {
        assert(files.drop_last()[i] == files[i]);
        every_file_is_queued(rows, files.drop_last(), i);
        if queue::position_of(before, last.path@) is None {
            queue::adding_moves_nothing(
                before,
                queue::row_for(last.path@, candidate_info(last)),
                files[i].path@,
            );
        }
    }
}

/// Lining files up moves nothing that was in the queue before.
pub proof fn queued_files_stay(rows: Seq<ItemView>, files: Seq<Candidate>, p: Seq<char>)
    requires
        queue::position_of(rows, p) is Some,
    ensures
        queue::position_of(with_files(rows, files), p) == queue::position_of(rows, p),
    decreases files.len(),
{
    if files.len() > 0 {
        queued_files_stay(rows, files.drop_last(), p);
        let before = with_files(rows, files.drop_last());
        if queue::position_of(before, files.last().path@) is None {
            queue::adding_moves_nothing(
                before,
                queue::row_for(files.last().path@, candidate_info(files.last())),
                p,
            );
        }
    }
}

// ── Laws on the keys and the lists ──────────────────────────────────────

/// The arrows seek: left and right by ten seconds, down and up by a minute,
/// the two of a pair in opposite directions; and no other key seeks.
pub proof fn the_arrows_seek(key: Key, fullscreen: bool)
    ensures
        action_of(key, fullscreen) is SeekBy <==> key is Left || key is Right || key is Down || key
            is Up,
        action_of(Key::Right, fullscreen) == KeyAction::SeekBy(10_000_000_000),
        action_of(Key::Left, fullscreen) == KeyAction::SeekBy((-10_000_000_000) as i64),
        action_of(Key::Up, fullscreen) == KeyAction::SeekBy(60_000_000_000),
        action_of(Key::Down, fullscreen) == KeyAction::SeekBy((-60_000_000_000) as i64),
{
}

/// Space and K play and pause, F and F11 fill the screen and bring it back,
/// and Escape only brings it back; every other key does its own one thing.
pub proof fn each_key_does_its_thing(key: Key, fullscreen: bool)
    ensures
        action_of(key, fullscreen) is Toggle <==> key is Space || key is K,
        action_of(key, fullscreen) is ToggleFullscreen <==> key is F || key is F11 || (key is Escape
            && fullscreen),
        action_of(key, fullscreen) is ToggleMute <==> key is M,
        action_of(key, fullscreen) is OpenFiles <==> key is O,
        action_of(key, fullscreen) is Browse <==> key is B,
        action_of(key, fullscreen) is Next <==> key is N,
        action_of(key, fullscreen) is Previous <==> key is P,
        action_of(key, fullscreen) is Ignore <==> key is Other,
{
}

/// The icon says how loud it is: nothing up to a thousandth, then below 34, 67
/// and up to a hundred hundredths.
pub proof fn the_icon_says_how_loud(volume: int)
    ensures
        1000 * volume <= 1_000_000 ==> volume_icon_of(volume) == "audio-volume-muted-symbolic"@,
        1000 * volume > 1_000_000 && 100 * volume < 34 * 1_000_000 ==> volume_icon_of(volume)
            == "audio-volume-low-symbolic"@,
        100 * volume >= 34 * 1_000_000 && 100 * volume < 67 * 1_000_000 ==> volume_icon_of(volume)
            == "audio-volume-medium-symbolic"@,
        100 * volume >= 67 * 1_000_000 ==> volume_icon_of(volume) == "audio-volume-high-symbolic"@,
{
}

/// While a film plays in a window each piece of the chrome is there exactly
/// while the pointer is at its edge: within 130 pixels of the left, 150 of the
/// right, 110 of the top and 210 of the bottom. The left brings the queue too.
pub proof fn the_edges_bring_the_chrome(scene: Scene)
    requires
        scene.state is Playing,
        !scene.fullscreen,
    ensures
        ({
            let p = scene.pointer;
            let left = p.inside && p.x <= 130 * 256;
            let right = p.inside && p.x >= 256 * (scene.width - 150);
            let shown = scene.shown();
            &&& shown.sidebar <==> left
            &&& shown.queue <==> scene.queue_wanted && scene.on_player && (left || right)
            &&& shown.title_bar <==> p.inside && p.y <= 110 * 256
            &&& shown.transport <==> p.inside && p.y >= 256 * (scene.height - 210)
            &&& shown.cursor <==> scene.cursor_shown
            &&& shown.title <==> scene.on_player
        }),
{
}

/// The pointer hides after 2.6 seconds without a movement, while a film plays.
pub proof fn an_idle_pointer_hides(w: WindowState, at: u64, later: u64, state: State)
    requires
        at <= later,
    ensures
        !w.active(at).ticked(state, later).cursor_shown <==> state is Playing && later - at
            >= 2_600_000_000,
{
}

/// The list of choices shows every track, in order, and marks the one in
/// force; choosing a row asks for its own track.
pub proof fn every_track_can_be_chosen(tracks: Seq<TrackView>, current: Option<usize>, i: int)
    requires
        0 <= i < tracks.len(),
    ensures
        choices_of(tracks, current).len() == tracks.len(),
        choices_of(tracks, current)[i].index == Some(tracks[i].index),
        choices_of(tracks, current)[i].label == tracks[i].label(),
        choices_of(tracks, current)[i].active <==> current == Some(tracks[i].index),
{
}

/// Sound can be chosen when there is more than one track of it; subtitles
/// whenever there are any, and then they can be switched off as well.
pub proof fn subtitles_can_be_switched_off(info: MediaView, current: Option<usize>)
    ensures
        ({
            let subs = media::of_kind(info.tracks, TrackKind::Subtitle);
            let menu = subtitle_menu_of(info, current);
            &&& subs.len() == 0 ==> menu.len() == 0
            &&& subs.len() > 0 ==> menu.len() == subs.len() + 1 && menu[0].index is None && (
            menu[0].active <==> current is None)
            &&& forall|i: int|
                0 <= i < subs.len() ==> (#[trigger] menu[i + 1]).index == Some(subs[i].index)
        }),
        ({
            let sound = media::of_kind(info.tracks, TrackKind::Audio);
            audio_menu_of(info, current).len() == if sound.len() > 1 {
                sound.len()
            } else {
                0
            }
        }),
{
    let subs = media::of_kind(info.tracks, TrackKind::Subtitle);
    let menu = subtitle_menu_of(info, current);
    assert forall|i: int| 0 <= i < subs.len() implies (#[trigger] menu[i + 1]).index == Some(
        subs[i].index,
    ) by {
        assert(menu[i + 1] == choices_of(subs, current)[i]);
    }
}

/// The queue panel has a row for every file, in order, with its title and its
/// length, and marks the one that plays.
pub proof fn the_panel_shows_the_queue(items: Seq<ItemView>, current: Option<usize>, i: int)
    requires
        0 <= i < items.len(),
    ensures
        queue_rows_of(items, current).len() == items.len(),
        queue_rows_of(items, current)[i].0 == items[i].title,
        queue_rows_of(items, current)[i].1 == time::clock_text(items[i].duration),
        queue_rows_of(items, current)[i].2 <==> current is Some && current->0 == i,
{
}

/// A folder that exists is shown, and the home directory stands in for one
/// that does not.
pub proof fn a_missing_folder_is_no_error(videos: Option<Folder>, music: Option<Folder>, home: Seq<char>)
    ensures
        videos is Some && videos->0.exists ==> place_dir(Destination::Videos, videos, music, home)
            == videos->0.path@,
        music is Some && music->0.exists ==> place_dir(Destination::Music, videos, music, home)
            == music->0.path@,
        videos is None || !videos->0.exists ==> place_dir(Destination::Videos, videos, music, home)
            == home,
        music is None || !music->0.exists ==> place_dir(Destination::Music, videos, music, home)
            == home,
        place_dir(Destination::Home, videos, music, home) == home,
{
}

/// The track in force is the one of its own kind.
pub proof fn each_kind_has_its_own_track(s: Selection)
    ensures
        selected(s, TrackKind::Video) == s.video,
        selected(s, TrackKind::Audio) == s.audio,
        selected(s, TrackKind::Subtitle) == s.subtitle,
{
}

/// The details tell the container and the length first, the bit rate when it
/// is known, and then every track, in order.
pub proof fn the_details_tell_every_track(info: MediaView, i: int)
    ensures
        ({
            let rows = details_of(info);
            let head = if info.bit_rate > 0 {
                3int
            } else {
                2
            };
            &&& rows.len() == head + info.tracks.len()
            &&& rows[0] == ("Container"@, info.container)
            &&& rows[1] == ("Duration"@, time::clock_text(info.duration))
            &&& 0 <= i < info.tracks.len() ==> rows[head + i].1 == info.tracks[i].label()
        }),
{
}

/// A file that is queued already is not queued again, and another goes to the
/// end.
pub proof fn a_file_is_queued_once(rows: Seq<ItemView>, c: Candidate)
    ensures
        queue::position_of(rows, c.path@) is Some ==> with_file(rows, c) == rows,
        queue::position_of(rows, c.path@) is None ==> {
            let after = with_file(rows, c);
            &&& after.len() == rows.len() + 1
            &&& after.drop_last() == rows
            &&& after.last().path == c.path@
        },
{
    if queue::position_of(rows, c.path@) is None {
        assert(with_file(rows, c).drop_last() =~= rows);
    }
}

/// The chapters are listed in order, each with its title and its start.
pub proof fn the_chapters_are_listed(info: MediaView, i: int)
    requires
        0 <= i < info.chapters.len(),
    ensures
        chapter_rows_of(info).len() == info.chapters.len(),
        chapter_rows_of(info)[i] == (
            info.chapters[i].title,
            time::clock_text(info.chapters[i].start),
        ),
{
}

} // verus!

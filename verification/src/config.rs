//! Preferences: the slice of the desktop's that the player cares about, and
//! the player's own.

use vstd::prelude::*;

use crate::engine::UNITY;
use crate::path;
use crate::text;

verus! {

// ── The desktop's ───────────────────────────────────────────────────────

#[derive(Debug, Clone, Copy, PartialEq, Eq, Structural)]
pub enum ThemeMode {
    Light,
    Dark,
    Auto,
}

impl Default for ThemeMode {
    fn default() -> (r: ThemeMode)
        ensures
            r == ThemeMode::Dark,
    {
        ThemeMode::Dark
    }
}

#[derive(Debug)]
pub struct Appearance {
    pub theme_mode: ThemeMode,
    pub accent: String,
    pub transparency: bool,
}

/// The accent of a desktop that states none.
pub open spec fn default_accent() -> Seq<char> {
    "#7AA2F7"@
}

pub fn default_accent_text() -> (r: &'static str)
    ensures
        r@ == default_accent(),
{
    "#7AA2F7"
}

impl Default for Appearance {
    fn default() -> (r: Appearance)
        ensures
            r.theme_mode == ThemeMode::Dark,
            r.accent@ == default_accent(),
            r.transparency,
    {
        Appearance {
            theme_mode: ThemeMode::Dark,
            accent: default_accent_text().to_string(),
            transparency: true,
        }
    }
}

#[derive(Debug)]
pub struct Desktop {
    pub appearance: Appearance,
}

impl Default for Desktop {
    fn default() -> (r: Desktop)
        ensures
            r.appearance.theme_mode == ThemeMode::Dark,
            r.appearance.accent@ == default_accent(),
            r.appearance.transparency,
    {
        Desktop { appearance: Appearance::default() }
    }
}

// ── The player's own ────────────────────────────────────────────────────

/// Nothing before this is worth resuming.
pub const OPENING: i64 = 15_000_000_000;

/// Nothing in the last of this is worth resuming.
pub const CREDITS: i64 = 30_000_000_000;

#[derive(Debug)]
pub struct PlayerConfig {
    pub show_sidebar: bool,
    pub show_queue: bool,
    /// In millionths.
    pub volume: u32,
    /// Whether to resume each file where it was left.
    pub remember_position: bool,
    pub positions: Positions,
}

/// Where files were left, by their paths.
#[derive(Debug)]
pub struct Positions {
    entries: Vec<(String, i64)>,
}

pub open spec fn has_key(entries: Seq<(String, i64)>, key: Seq<char>) -> bool {
    exists|i: int| 0 <= i < entries.len() && (#[trigger] entries[i]).0@ == key
}

pub open spec fn key_place(entries: Seq<(String, i64)>, key: Seq<char>) -> int {
    choose|i: int| 0 <= i < entries.len() && (#[trigger] entries[i]).0@ == key
}

impl View for Positions {
    type V = Map<Seq<char>, i64>;

    closed spec fn view(&self) -> Map<Seq<char>, i64> {
        Map::new(
            |key: Seq<char>| has_key(self.entries@, key),
            |key: Seq<char>| self.entries@[key_place(self.entries@, key)].1,
        )
    }
}

impl Positions {
    /// No path is there twice.
    pub closed spec fn wf(self) -> bool {
        forall|i: int, j: int|
            #![trigger self.entries@[i], self.entries@[j]]
            0 <= i < j < self.entries@.len() ==> self.entries@[i].0@ != self.entries@[j].0@
    }

    proof fn entry_is_in_map(self, i: int)
        requires
            self.wf(),
            0 <= i < self.entries@.len(),
        ensures
            self@.dom().contains(self.entries@[i].0@),
            self@[self.entries@[i].0@] == self.entries@[i].1,
    {
        let key = self.entries@[i].0@;
        assert(has_key(self.entries@, key));
        let w = key_place(self.entries@, key);
        assert(0 <= w < self.entries@.len() && self.entries@[w].0@ == key);
        if w < i {
            assert(self.entries@[w].0@ != self.entries@[i].0@);
        } else if i < w {
            assert(self.entries@[i].0@ != self.entries@[w].0@);
        }
    }

    pub fn new() -> (r: Positions)
        ensures
            r.wf(),
            r@ == Map::<Seq<char>, i64>::empty(),
    {
        let r = Positions { entries: Vec::new() };
        assert(r@ =~= Map::<Seq<char>, i64>::empty());
        r
    }

    fn find(&self, key: &str) -> (r: Option<usize>)
        ensures
            r is Some <==> has_key(self.entries@, key@),
            r matches Some(i) ==> i < self.entries@.len() && self.entries@[i as int].0@ == key@,
    {
        let mut i: usize = 0;
        while i < self.entries.len()
            invariant
                i <= self.entries@.len(),
                forall|k: int| 0 <= k < i ==> (#[trigger] self.entries@[k]).0@ != key@,
            decreases self.entries@.len() - i,
        {
            if text::same_str(self.entries[i].0.as_str(), key) {
                return Some(i);
            }
            i = i + 1;
        }
        None
    }

    pub fn get(&self, key: &str) -> (r: Option<i64>)
        requires
            self.wf(),
        ensures
            r == if self@.dom().contains(key@) {
                Some(self@[key@])
            } else {
                None
            },
    {
        match self.find(key) {
            Some(i) => {
                proof {
                    self.entry_is_in_map(i as int);
                }
                Some(self.entries[i].1)
            },
            None => None,
        }
    }

    pub fn insert(&mut self, key: &str, position: i64)
        requires
            old(self).wf(),
        ensures
            final(self).wf(),
            final(self)@ == old(self)@.insert(key@, position),
    {
        self.remove(key);
        let ghost before = *self;
        self.entries.push((key.to_string(), position));
        proof {
            assert forall|i: int, j: int|
                #![trigger self.entries@[i], self.entries@[j]]
                0 <= i < j < self.entries@.len() implies self.entries@[i].0@
                != self.entries@[j].0@ by {
                if j < before.entries@.len() {
                    assert(before.entries@[i].0@ != before.entries@[j].0@);
                } else {
                    before.entry_is_in_map(i);
                }
            }
            let last = before.entries@.len() as int;
            let after = before@.insert(key@, position);
            assert forall|k: Seq<char>| self@.dom().contains(k) == after.dom().contains(k) by {
                if k == key@ {
                    self.entry_is_in_map(last);
                } else if self@.dom().contains(k) {
                    let w = key_place(self.entries@, k);
                    assert(0 <= w < self.entries@.len() && self.entries@[w].0@ == k);
                    assert(before.entries@[w].0@ == k);
                } else if before@.dom().contains(k) {
                    let w = key_place(before.entries@, k);
                    assert(0 <= w < before.entries@.len() && before.entries@[w].0@ == k);
                    assert(self.entries@[w].0@ == k);
                }
            }
            assert forall|k: Seq<char>| self@.dom().contains(k) implies self@[k] == after[k] by {
                if k == key@ {
                    self.entry_is_in_map(last);
                } else {
                    let w = key_place(self.entries@, k);
                    assert(0 <= w < self.entries@.len() && self.entries@[w].0@ == k);
                    assert(before.entries@[w] == self.entries@[w]);
                    before.entry_is_in_map(w);
                    self.entry_is_in_map(w);
                }
            }
            assert(self@ =~= after);
            assert(after =~= old(self)@.insert(key@, position));
        }
    }

    pub fn remove(&mut self, key: &str)
        requires
            old(self).wf(),
        ensures
            final(self).wf(),
            final(self)@ == old(self)@.remove(key@),
    {
        let ghost before = *self;
        match self.find(key) {
            Some(at) => {
                self.entries.remove(at);
                proof {
                    let gone = at as int;
                    assert(self.entries@ =~= before.entries@.remove(gone));
                    assert forall|i: int, j: int|
                        #![trigger self.entries@[i], self.entries@[j]]
                        0 <= i < j < self.entries@.len() implies self.entries@[i].0@
                        != self.entries@[j].0@ by {
                        let x = if i < gone {
                            i
                        } else {
                            i + 1
                        };
                        let y = if j < gone {
                            j
                        } else {
                            j + 1
                        };
                        assert(before.entries@[x].0@ != before.entries@[y].0@);
                    }
                    let after = before@.remove(key@);
                    assert forall|k: Seq<char>|
                        self@.dom().contains(k) == after.dom().contains(k) by {
                        if self@.dom().contains(k) {
                            let w = key_place(self.entries@, k);
                            assert(0 <= w < self.entries@.len() && self.entries@[w].0@ == k);
                            let x = if w < gone {
                                w
                            } else {
                                w + 1
                            };
                            assert(before.entries@[x].0@ == k);
                            if k == key@ {
                                if x < gone {
                                    assert(before.entries@[x].0@ != before.entries@[gone].0@);
                                } else {
                                    assert(before.entries@[gone].0@ != before.entries@[x].0@);
                                }
                            }
                        } else if before@.dom().contains(k) && k != key@ {
                            let w = key_place(before.entries@, k);
                            assert(0 <= w < before.entries@.len() && before.entries@[w].0@ == k);
                            let y = if w < gone {
                                w
                            } else {
                                w - 1
                            };
                            assert(self.entries@[y].0@ == k);
                        }
                    }
                    assert forall|k: Seq<char>| self@.dom().contains(k) implies self@[k]
                        == after[k] by {
                        let w = key_place(self.entries@, k);
                        assert(0 <= w < self.entries@.len() && self.entries@[w].0@ == k);
                        let x = if w < gone {
                            w
                        } else {
                            w + 1
                        };
                        assert(before.entries@[x] == self.entries@[w]);
                        before.entry_is_in_map(x);
                        self.entry_is_in_map(w);
                    }
                    assert(self@ =~= after);
                }
            },
            None => {
                assert(self@ =~= before@.remove(key@));
            },
        }
    }

    /// The entries in the order in which they are handed out, which is no
    /// particular one.
    pub closed spec fn listed(self) -> Seq<(Seq<char>, i64)> {
        self.entries@.map_values(|e: (String, i64)| (e.0@, e.1))
    }

    pub fn len(&self) -> (r: usize)
        ensures
            r == self.listed().len(),
    {
        self.entries.len()
    }

    /// The entry at `i`, in no particular order.
    pub fn entry(&self, i: usize) -> (r: (&str, i64))
        requires
            i < self.listed().len(),
        ensures
            (r.0@, r.1) == self.listed()[i as int],
    {
        (self.entries[i].0.as_str(), self.entries[i].1)
    }

    /// What is handed out is the whole map and nothing else: every file once,
    /// with its position.
    pub proof fn every_entry_is_listed_once(self)
        requires
            self.wf(),
        ensures
            forall|i: int, j: int|
                #![trigger self.listed()[i], self.listed()[j]]
                0 <= i < j < self.listed().len() ==> self.listed()[i].0 != self.listed()[j].0,
            forall|k: Seq<char>| #[trigger]
                self@.dom().contains(k) <==> lists(self.listed(), k, self@[k]),
            forall|i: int|
                0 <= i < self.listed().len() ==> self@.dom().contains(
                    (#[trigger] self.listed()[i]).0,
                ) && self@[self.listed()[i].0] == self.listed()[i].1,
            self@.dom().finite(),
            self@.len() == self.listed().len(),
    {
        let all = self.listed();
        assert forall|i: int, j: int|
            #![trigger all[i], all[j]]
            0 <= i < j < all.len() implies all[i].0 != all[j].0 by {
            assert(self.entries@[i].0@ != self.entries@[j].0@);
        }
        assert forall|i: int| 0 <= i < all.len() implies self@.dom().contains(
            (#[trigger] all[i]).0,
        ) && self@[all[i].0] == all[i].1 by {
            self.entry_is_in_map(i);
        }
        assert forall|k: Seq<char>| #[trigger]
            self@.dom().contains(k) <==> lists(all, k, self@[k]) by {
            if self@.dom().contains(k) {
                let w = key_place(self.entries@, k);
                assert(0 <= w < self.entries@.len() && self.entries@[w].0@ == k);
                self.entry_is_in_map(w);
                assert(all[w] == (k, self@[k]));
            }
        }
        let keys = all.map_values(|e: (Seq<char>, i64)| e.0);
        assert(keys.no_duplicates()) by {
            assert forall|i: int, j: int|
                0 <= i < keys.len() && 0 <= j < keys.len() && i != j implies keys[i] != keys[j] by {
                if i < j {
                    assert(all[i].0 != all[j].0);
                } else {
                    assert(all[j].0 != all[i].0);
                }
            }
        }
        assert(keys.to_set() =~= self@.dom()) by {
            assert forall|k: Seq<char>| keys.to_set().contains(k) == self@.dom().contains(k) by {
                if keys.contains(k) {
                    let i = choose|i: int| 0 <= i < keys.len() && keys[i] == k;
                    assert(self@.dom().contains(all[i].0));
                }
                if self@.dom().contains(k) {
                    assert(lists(all, k, self@[k]));
                    let i = choose|i: int|
                        0 <= i < all.len() && #[trigger] all[i] == (k, self@[k]);
                    assert(keys[i] == k);
                }
            }
        }
        keys.unique_seq_to_set();
    }
}

/// Whether the entries have this one among them.
pub open spec fn lists(entries: Seq<(Seq<char>, i64)>, key: Seq<char>, position: i64) -> bool {
    exists|i: int| 0 <= i < entries.len() && #[trigger] entries[i] == (key, position)
}

impl Default for PlayerConfig {
    fn default() -> (r: PlayerConfig)
        ensures
            r.positions.wf(),
            r.show_sidebar,
            r.show_queue,
            r.volume == UNITY,
            r.remember_position,
            r.positions@ == Map::<Seq<char>, i64>::empty(),
    {
        PlayerConfig {
            show_sidebar: true,
            show_queue: true,
            volume: UNITY,
            remember_position: true,
            positions: Positions::new(),
        }
    }
}

/// Whether a position is worth resuming: not the first few seconds, and not
/// the credits.
pub open spec fn worth_resuming(position: int, duration: int) -> bool {
    OPENING <= position <= duration - CREDITS
}

/// What is remembered once a file has been left at `position`.
pub open spec fn remembered(
    positions: Map<Seq<char>, i64>,
    remembers: bool,
    file: Seq<char>,
    position: i64,
    duration: i64,
) -> Map<Seq<char>, i64> {
    if !remembers || duration <= 0 {
        positions
    } else if worth_resuming(position as int, duration as int) {
        positions.insert(file, position)
    } else {
        positions.remove(file)
    }
}

impl PlayerConfig {
    /// Notes where a file was left.
    pub fn remember(&mut self, file: &str, position: i64, duration: i64)
        requires
            old(self).positions.wf(),
        ensures
            final(self).positions.wf(),
            final(self).positions@ == remembered(
                old(self).positions@,
                old(self).remember_position,
                file@,
                position,
                duration,
            ),
            final(self).show_sidebar == old(self).show_sidebar,
            final(self).show_queue == old(self).show_queue,
            final(self).volume == old(self).volume,
            final(self).remember_position == old(self).remember_position,
    {
        if !self.remember_position || duration <= 0 {
            return;
        }
        if position < OPENING || position > duration - CREDITS {
            self.positions.remove(file);
        } else {
            self.positions.insert(file, position);
        }
    }

    /// Where to resume a file, if anywhere.
    pub fn resume_for(&self, file: &str) -> (r: Option<i64>)
        requires
            self.positions.wf(),
        ensures
            r == if self.remember_position && self.positions@.dom().contains(file@) {
                Some(self.positions@[file@])
            } else {
                None
            },
    {
        if !self.remember_position {
            return None;
        }
        self.positions.get(file)
    }
}

// ── Where they are kept ─────────────────────────────────────────────────

/// The directory of the preferences: below the stated one, else below the
/// home directory's, else below the current one.
pub open spec fn config_place(stated: Option<Seq<char>>, home: Option<Seq<char>>) -> Seq<char> {
    let base = match (stated, home) {
        (Some(dir), _) => dir,
        (None, Some(dir)) => path::joined(dir, ".config"@),
        (None, None) => "."@,
    };
    path::joined(base, "raven"@)
}

pub open spec fn opt_str(o: Option<&str>) -> Option<Seq<char>> {
    match o {
        Some(s) => Some(s@),
        None => None,
    }
}

/// The directory of the preferences.
pub fn config_dir(stated: Option<&str>, home: Option<&str>) -> (r: String)
    ensures
        r@ == config_place(opt_str(stated), opt_str(home)),
{
    let base: Vec<char> = match (stated, home) {
        (Some(dir), _) => text::chars_of(dir),
        (None, Some(dir)) => {
            let chars = text::chars_of(dir);
            path::join(&chars, ".config")
        },
        (None, None) => text::chars_of("."),
    };
    let place = path::join(&base, "raven");
    text::string_of(&place)
}

/// The file of the player's own preferences.
pub fn player_file(stated: Option<&str>, home: Option<&str>) -> (r: String)
    ensures
        r@ == path::joined(config_place(opt_str(stated), opt_str(home)), "player.toml"@),
{
    let dir = config_dir(stated, home);
    let chars = text::chars_of(dir.as_str());
    let place = path::join(&chars, "player.toml");
    text::string_of(&place)
}

/// The file of the desktop's preferences.
pub fn desktop_file(stated: Option<&str>, home: Option<&str>) -> (r: String)
    ensures
        r@ == path::joined(config_place(opt_str(stated), opt_str(home)), "desktop.toml"@),
{
    let dir = config_dir(stated, home);
    let chars = text::chars_of(dir.as_str());
    let place = path::join(&chars, "desktop.toml");
    text::string_of(&place)
}

// ── Laws ────────────────────────────────────────────────────────────────

/// A file left at a position worth resuming is resumed there, and one left
/// elsewhere is not resumed.
pub proof fn what_is_remembered_is_resumed(
    positions: Map<Seq<char>, i64>,
    file: Seq<char>,
    position: i64,
    duration: i64,
)
    requires
        duration > 0,
    ensures
        ({
            let after = remembered(positions, true, file, position, duration);
            &&& worth_resuming(position as int, duration as int) ==> after.dom().contains(file)
                && after[file] == position
            &&& !worth_resuming(position as int, duration as int) ==> !after.dom().contains(file)
        }),
{
}

/// Leaving one file changes nothing about another.
pub proof fn other_files_are_kept(
    positions: Map<Seq<char>, i64>,
    remembers: bool,
    file: Seq<char>,
    other: Seq<char>,
    position: i64,
    duration: i64,
)
    requires
        file != other,
    ensures
        ({
            let after = remembered(positions, remembers, file, position, duration);
            &&& after.dom().contains(other) == positions.dom().contains(other)
            &&& positions.dom().contains(other) ==> after[other] == positions[other]
        }),
{
}

/// A file is resumed where it was left if that is neither in its first fifteen
/// seconds nor in its last thirty, and otherwise from the start; without the
/// wish to, or without a length, nothing that is remembered changes.
pub proof fn the_middle_of_a_file_is_remembered(
    positions: Map<Seq<char>, i64>,
    remembers: bool,
    file: Seq<char>,
    position: i64,
    duration: i64,
)
    ensures
        ({
            let after = remembered(positions, remembers, file, position, duration);
            let middle = 15_000_000_000 <= position && position + 30_000_000_000 <= duration;
            &&& remembers && duration > 0 ==> (after.dom().contains(file) <==> middle)
            &&& remembers && duration > 0 && middle ==> after[file] == position
            &&& !remembers || duration <= 0 ==> after == positions
        }),
{
}

/// The preferences are in a directory named for the desktop, inside the stated
/// one if there is one, else inside the home directory's.
pub proof fn the_preferences_have_their_place(dir: Seq<char>, home: Seq<char>)
    requires
        dir.len() > 0 && dir.last() != '/',
        home.len() > 0 && home.last() != '/',
    ensures
        config_place(Some(dir), Some(home)) == dir + seq!['/'] + "raven"@,
        config_place(Some(dir), None) == dir + seq!['/'] + "raven"@,
        config_place(None, Some(home)) == home + seq!['/'] + ".config"@ + seq!['/'] + "raven"@,
{
    reveal_strlit("raven");
    reveal_strlit(".config");
    let inner = home + seq!['/'] + ".config"@;
    assert(inner.last() == 'g');
}

} // verus!

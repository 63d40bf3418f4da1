//! Finding something to play: the places where media lives, and a plain view
//! of what is in them. Folders and files that can be played, and nothing
//! else.

use vstd::prelude::*;

use crate::order;
use crate::order::Ranked;
use crate::path;
use crate::text;

verus! {

// ── What can be played ──────────────────────────────────────────────────

/// Extensions, in lower case, of files with a picture.
pub open spec fn video_extension(e: Seq<char>) -> bool {
    ||| e == "mp4"@
    ||| e == "mkv"@
    ||| e == "webm"@
    ||| e == "mov"@
    ||| e == "avi"@
    ||| e == "m4v"@
    ||| e == "mpg"@
    ||| e == "mpeg"@
    ||| e == "mp2"@
    ||| e == "ts"@
    ||| e == "m2ts"@
    ||| e == "mts"@
    ||| e == "wmv"@
    ||| e == "flv"@
    ||| e == "ogv"@
    ||| e == "ogm"@
    ||| e == "3gp"@
    ||| e == "3g2"@
    ||| e == "divx"@
    ||| e == "vob"@
    ||| e == "rmvb"@
    ||| e == "asf"@
    ||| e == "f4v"@
    ||| e == "mxf"@
    ||| e == "y4m"@
}

/// Extensions, in lower case, of files with sound alone.
pub open spec fn audio_extension(e: Seq<char>) -> bool {
    ||| e == "mp3"@
    ||| e == "flac"@
    ||| e == "wav"@
    ||| e == "ogg"@
    ||| e == "oga"@
    ||| e == "opus"@
    ||| e == "m4a"@
    ||| e == "aac"@
    ||| e == "wma"@
    ||| e == "aiff"@
    ||| e == "aif"@
    ||| e == "ape"@
    ||| e == "wv"@
    ||| e == "mpc"@
    ||| e == "tta"@
    ||| e == "dsf"@
    ||| e == "spx"@
    ||| e == "caf"@
    ||| e == "au"@
    ||| e == "mka"@
}

fn is_video_extension(e: &[char]) -> (r: bool)
    ensures
        r == video_extension(e@),
{
    text::is(e, "mp4") || text::is(e, "mkv") || text::is(e, "webm") || text::is(e, "mov") || text::is(e, "avi") || text::is(e, "m4v") || text::is(e, "mpg") || text::is(e, "mpeg") || text::is(e, "mp2") || text::is(e, "ts") || text::is(e, "m2ts") || text::is(e, "mts") || text::is(e, "wmv") || text::is(e, "flv") || text::is(e, "ogv") || text::is(e, "ogm") || text::is(e, "3gp") || text::is(e, "3g2") || text::is(e, "divx") || text::is(e, "vob") || text::is(e, "rmvb") || text::is(e, "asf") || text::is(e, "f4v") || text::is(e, "mxf") || text::is(e, "y4m")
}

fn is_audio_extension(e: &[char]) -> (r: bool)
    ensures
        r == audio_extension(e@),
{
    text::is(e, "mp3") || text::is(e, "flac") || text::is(e, "wav") || text::is(e, "ogg") || text::is(e, "oga") || text::is(e, "opus") || text::is(e, "m4a") || text::is(e, "aac") || text::is(e, "wma") || text::is(e, "aiff") || text::is(e, "aif") || text::is(e, "ape") || text::is(e, "wv") || text::is(e, "mpc") || text::is(e, "tta") || text::is(e, "dsf") || text::is(e, "spx") || text::is(e, "caf") || text::is(e, "au") || text::is(e, "mka")
}

/// Whether a path names a file worth showing.
pub open spec fn names_media(p: Seq<char>) -> bool {
    path::extension(p) matches Some(e) && (video_extension(text::ascii_lower(e))
        || audio_extension(text::ascii_lower(e)))
}

/// Whether a path names a file with sound alone.
pub open spec fn names_audio(p: Seq<char>) -> bool {
    path::extension(p) matches Some(e) && audio_extension(text::ascii_lower(e))
}

pub fn is_media(file: &str) -> (r: bool)
    ensures
        r == names_media(file@),
{
    let chars = text::chars_of(file);
    match path::extension_of(&chars) {
        Some(e) => {
            let lower = text::to_ascii_lower(&e);
            is_video_extension(&lower) || is_audio_extension(&lower)
        },
        None => false,
    }
}

pub fn is_audio(file: &str) -> (r: bool)
    ensures
        r == names_audio(file@),
{
    let chars = text::chars_of(file);
    match path::extension_of(&chars) {
        Some(e) => {
            let lower = text::to_ascii_lower(&e);
            is_audio_extension(&lower)
        },
        None => false,
    }
}

/// Everything with sound alone is media.
pub proof fn audio_is_media(p: Seq<char>)
    ensures
        names_audio(p) ==> names_media(p),
{
}

// ── Names ───────────────────────────────────────────────────────────────

pub open spec fn name_text(p: Seq<char>) -> Seq<char> {
    match path::file_name(p) {
        Some(name) => name,
        None => Seq::empty(),
    }
}

/// The last component of a path, or nothing.
pub fn name_of(file: &str) -> (r: String)
    ensures
        r@ == name_text(file@),
{
    let chars = text::chars_of(file);
    match path::name_of(&chars) {
        Some(name) => text::string_of(&name),
        None => {
            let none: Vec<char> = Vec::new();
            assert(none@ =~= Seq::<char>::empty());
            text::string_of(&none)
        },
    }
}

/// A file's name as a title: without its extension, and tidied.
pub fn stem_of(file: &str) -> (r: String)
    ensures
        r@ == match path::file_stem(file@) {
            Some(stem) => text::spaced(stem),
            None => Seq::empty(),
        },
{
    let chars = text::chars_of(file);
    match path::stem_of(&chars) {
        Some(stem) => {
            let tidy = text::to_spaced(&stem);
            text::string_of(&tidy)
        },
        None => {
            let none: Vec<char> = Vec::new();
            assert(none@ =~= Seq::<char>::empty());
            text::string_of(&none)
        },
    }
}

/// A file's extension as a badge.
pub fn extension_of(file: &str) -> (r: String)
    ensures
        r@ == match path::extension(file@) {
            Some(e) => text::unicode_upper(e),
            None => Seq::empty(),
        },
{
    let chars = text::chars_of(file);
    match path::extension_of(&chars) {
        Some(e) => {
            let ext = text::string_of(&e);
            text::to_upper(ext.as_str())
        },
        None => {
            let none: Vec<char> = Vec::new();
            assert(none@ =~= Seq::<char>::empty());
            text::string_of(&none)
        },
    }
}

/// A path as it is shown: below the home directory it starts with a tilde.
pub open spec fn pretty_text(p: Seq<char>, home: Seq<char>) -> Seq<char> {
    match path::below(p, home) {
        Some(rest) => if rest.len() == 0 {
            "~"@
        } else {
            "~/"@ + rest
        },
        None => p,
    }
}

pub fn pretty_path(file: &str, home: &str) -> (r: String)
    ensures
        r@ == pretty_text(file@, home@),
{
    let chars = text::chars_of(file);
    let base = text::chars_of(home);
    match path::strip_prefix(&chars, &base) {
        Some(rest) => {
            if rest.len() == 0 {
                return "~".to_string();
            }
            let mut out = text::chars_of("~/");
            text::append_chars(&mut out, &rest);
            text::string_of(&out)
        },
        None => file.to_string(),
    }
}

// ── Natural order ───────────────────────────────────────────────────────

/// How many characters from the front are digits, if the first is, or are
/// not, if it is not.
pub open spec fn run_length(s: Seq<char>) -> int
    decreases s.len(),
{
    if s.len() <= 1 {
        s.len() as int
    } else if text::is_digit(s.last()) == text::is_digit(s[0]) && run_length(s.drop_last())
        == s.len() - 1 {
        s.len() as int
    } else {
        run_length(s.drop_last())
    }
}

/// What a run of digits counts for: its value, or zero when that is too
/// large to hold.
pub open spec fn run_value(digits: Seq<char>) -> nat {
    match text::parse_unsigned(digits, u64::MAX as nat) {
        Some(v) => v,
        None => 0,
    }
}

/// A name as a list of numbers and the texts between them, in order.
pub open spec fn natural_key_of(s: Seq<char>) -> Seq<(nat, Seq<char>)>
    decreases s.len(),
    via natural_key_ends
{
    if s.len() == 0 {
        Seq::empty()
    } else {
        let run = s.take(run_length(s));
        let rest = s.skip(run_length(s));
        let part = if text::is_digit(s[0]) {
            (run_value(run), Seq::<char>::empty())
        } else {
            (0nat, run)
        };
        seq![part] + natural_key_of(rest)
    }
}

#[via_fn]
proof fn natural_key_ends(s: Seq<char>) {
    run_length_bounds(s);
}

proof fn run_length_bounds(s: Seq<char>)
    ensures
        0 <= run_length(s) <= s.len(),
        s.len() > 0 ==> 1 <= run_length(s),
        forall|i: int|
            0 <= i < run_length(s) ==> text::is_digit(#[trigger] s[i]) == text::is_digit(s[0]),
        run_length(s) < s.len() ==> text::is_digit(s[run_length(s)]) != text::is_digit(s[0]),
    decreases s.len(),
{
    if s.len() > 1 {
        let head = s.drop_last();
        run_length_bounds(head);
        assert(head[0] == s[0]);
        assert forall|i: int| 0 <= i < run_length(s) implies text::is_digit(#[trigger] s[i])
            == text::is_digit(s[0]) by {
            if i < head.len() {
                assert(head[i] == s[i]);
            }
        }
        if run_length(s) < s.len() {
            if run_length(head) < head.len() {
                assert(head[run_length(head)] == s[run_length(head)]);
            }
        }
    }
}

/// A run is as long as it can be: the only prefix of one sort that what
/// follows does not carry on.
proof fn run_length_is(s: Seq<char>, n: int)
    requires
        0 < n <= s.len(),
        forall|i: int| 0 <= i < n ==> text::is_digit(#[trigger] s[i]) == text::is_digit(s[0]),
        n < s.len() ==> text::is_digit(s[n]) != text::is_digit(s[0]),
    ensures
        run_length(s) == n,
{
    run_length_bounds(s);
    let m = run_length(s);
    if m < n {
        assert(text::is_digit(s[m]) == text::is_digit(s[0]));
    } else if n < m {
        assert(text::is_digit(s[n]) == text::is_digit(s[0]));
    }
}

/// A number, or the text up to the next one.
pub struct KeyPart {
    pub number: u64,
    pub text: Vec<char>,
}

/// What a name is sorted by.
pub struct NaturalKey {
    pub parts: Vec<KeyPart>,
}

impl View for NaturalKey {
    type V = Seq<(nat, Seq<char>)>;

    open spec fn view(&self) -> Seq<(nat, Seq<char>)> {
        self.parts@.map_values(|p: KeyPart| (p.number as nat, p.text@))
    }
}

pub open spec fn part_at_most(a: (nat, Seq<char>), b: (nat, Seq<char>)) -> bool {
    a.0 < b.0 || (a.0 == b.0 && order::text_at_most(a.1, b.1))
}

/// Whether one key comes before another, part by part.
pub open spec fn key_at_most(a: Seq<(nat, Seq<char>)>, b: Seq<(nat, Seq<char>)>) -> bool
    decreases a.len(),
{
    if a.len() == 0 {
        true
    } else if b.len() == 0 {
        false
    } else if a[0] == b[0] {
        key_at_most(a.drop_first(), b.drop_first())
    } else {
        part_at_most(a[0], b[0])
    }
}

proof fn keys_compare(a: Seq<(nat, Seq<char>)>, b: Seq<(nat, Seq<char>)>)
    ensures
        key_at_most(a, b) || key_at_most(b, a),
    decreases a.len(),
{
    if a.len() > 0 && b.len() > 0 {
        if a[0] == b[0] {
            keys_compare(a.drop_first(), b.drop_first());
        } else {
            order::texts_compare(a[0].1, b[0].1);
        }
    }
}

proof fn key_order_carries_over(
    a: Seq<(nat, Seq<char>)>,
    b: Seq<(nat, Seq<char>)>,
    c: Seq<(nat, Seq<char>)>,
)
    requires
        key_at_most(a, b),
        key_at_most(b, c),
    ensures
        key_at_most(a, c),
    decreases a.len(),
{
    if a.len() > 0 && b.len() > 0 && c.len() > 0 {
        if a[0] == b[0] && b[0] == c[0] {
            key_order_carries_over(a.drop_first(), b.drop_first(), c.drop_first());
        } else if a[0] == b[0] || b[0] == c[0] {
        } else {
            if a[0].0 == b[0].0 && b[0].0 == c[0].0 {
                order::text_order_carries_over(a[0].1, b[0].1, c[0].1);
                if a[0] == c[0] {
                    order::texts_compare(a[0].1, b[0].1);
                }
            }
        }
    }
}

impl Ranked for NaturalKey {
    open spec fn at_most(&self, other: &NaturalKey) -> bool {
        key_at_most(self@, other@)
    }

    proof fn any_two_compare(a: &NaturalKey, b: &NaturalKey) {
        keys_compare(a@, b@);
    }

    proof fn order_carries_over(a: &NaturalKey, b: &NaturalKey, c: &NaturalKey) {
        key_order_carries_over(a@, b@, c@);
    }

    fn is_at_most(&self, other: &NaturalKey) -> bool {
        let mut i: usize = 0;
        assert(self@.skip(0) =~= self@);
        assert(other@.skip(0) =~= other@);
        while i < self.parts.len() && i < other.parts.len()
            invariant
                i <= self.parts@.len(),
                i <= other.parts@.len(),
                key_at_most(self@, other@) == key_at_most(
                    self@.skip(i as int),
                    other@.skip(i as int),
                ),
            decreases self.parts@.len() - i,
        {
            let a = &self.parts[i];
            let b = &other.parts[i];
            assert(self@.skip(i as int)[0] == (a.number as nat, a.text@));
            assert(other@.skip(i as int)[0] == (b.number as nat, b.text@));
            assert(self@.skip(i as int).drop_first() =~= self@.skip(i + 1));
            assert(other@.skip(i as int).drop_first() =~= other@.skip(i + 1));
            if a.number != b.number {
                return a.number < b.number;
            }
            if !text::same(&a.text, &b.text) {
                return order::is_text_at_most(&a.text, &b.text);
            }
            i = i + 1;
        }
        i == self.parts.len()
    }
}

/// The key of a name that is in lower case already.
pub fn key_of_name(name: &str) -> (r: NaturalKey)
    ensures
        r@ == natural_key_of(name@),
{
    let chars = text::chars_of(name);
    let n: usize = chars.len();
    let mut parts: Vec<KeyPart> = Vec::new();
    let mut i: usize = 0;
    let ghost all = natural_key_of(chars@);
    let ghost mut done: Seq<(nat, Seq<char>)> = Seq::empty();
    assert(chars@.skip(0) =~= chars@);
    assert(done + natural_key_of(chars@.skip(0)) =~= all);
    while i < n
        invariant
            i <= n == chars@.len(),
            all == natural_key_of(chars@),
            done == parts@.map_values(|p: KeyPart| (p.number as nat, p.text@)),
            all == done + natural_key_of(chars@.skip(i as int)),
        decreases n - i,
    {
        let ghost rest = chars@.skip(i as int);
        let digits: bool = text::ascii_digit(chars[i]);
        let mut j: usize = i + 1;
        while j < n && text::ascii_digit(chars[j]) == digits
            invariant
                i < j <= n == chars@.len(),
                forall|k: int| i <= k < j ==> text::is_digit(#[trigger] chars@[k]) == digits,
            decreases n - j,
        {
            j = j + 1;
        }
        let run = text::slice_of(&chars, i, j);
        proof {
            assert forall|k: int| 0 <= k < j - i implies text::is_digit(#[trigger] rest[k])
                == text::is_digit(rest[0]) by {
                assert(rest[k] == chars@[i + k]);
                assert(rest[0] == chars@[i as int]);
            }
            if j < n {
                assert(rest[j - i] == chars@[j as int]);
            }
            run_length_is(rest, j - i);
            assert(run@ =~= rest.take(j - i));
            assert(rest.skip(j - i) =~= chars@.skip(j as int));
        }
        let part = if digits {
            let number: u64 = match text::parse_u64(&run) {
                Some(v) => v,
                None => 0,
            };
            let none: Vec<char> = Vec::new();
            assert(none@ =~= Seq::<char>::empty());
            KeyPart { number: number, text: none }
        } else {
            KeyPart { number: 0, text: run }
        };
        parts.push(part);
        proof {
            let next = (part.number as nat, part.text@);
            assert(natural_key_of(rest) == seq![next] + natural_key_of(chars@.skip(j as int)));
            let longer = done.push(next);
            assert(longer =~= parts@.map_values(|p: KeyPart| (p.number as nat, p.text@)));
            assert(all =~= longer + natural_key_of(chars@.skip(j as int)));
            done = longer;
        }
        i = j;
    }
    assert(natural_key_of(chars@.skip(n as int)) =~= Seq::<(nat, Seq<char>)>::empty());
    let r = NaturalKey { parts: parts };
    assert(r@ =~= all);
    r
}

/// The key of a path: that of its last component, whatever its case.
pub open spec fn path_key(p: Seq<char>) -> Seq<(nat, Seq<char>)> {
    natural_key_of(text::unicode_lower(name_text(p)))
}

/// Sorts "Episode 2" before "Episode 10", which plain text order does not.
pub fn natural_key(file: &str) -> (r: NaturalKey)
    ensures
        r@ == path_key(file@),
{
    let name = name_of(file);
    let lower = text::to_lower(name.as_str());
    key_of_name(lower.as_str())
}

/// Two names that are the same up to a number are in the order of their
/// numbers: the second episode comes before the tenth.
pub proof fn episodes_sort_numerically(a: Seq<(nat, Seq<char>)>, b: Seq<(nat, Seq<char>)>, i: int)
    requires
        0 <= i < a.len(),
        i < b.len(),
        a.take(i) == b.take(i),
        a[i].0 < b[i].0,
    ensures
        key_at_most(a, b),
        !key_at_most(b, a),
    decreases i,
{
    if i > 0 {
        assert(a.take(i)[0] == b.take(i)[0]);
        let x = a.drop_first();
        let y = b.drop_first();
        assert(x.take(i - 1) =~= a.take(i).drop_first());
        assert(y.take(i - 1) =~= b.take(i).drop_first());
        episodes_sort_numerically(x, y, i - 1);
    }
}

// ── A folder ────────────────────────────────────────────────────────────

/// Something in a folder.
#[derive(Debug)]
pub struct Entry {
    pub path: String,
    pub is_dir: bool,
}

#[derive(Debug)]
pub enum Row {
    Parent(String),
    Folder(String),
    Media(String),
}

/// A row as a value.
pub enum RowView {
    Parent(Seq<char>),
    Folder(Seq<char>),
    Media(Seq<char>),
}

impl View for Row {
    type V = RowView;

    open spec fn view(&self) -> RowView {
        match self {
            Row::Parent(p) => RowView::Parent(p@),
            Row::Folder(p) => RowView::Folder(p@),
            Row::Media(p) => RowView::Media(p@),
        }
    }
}

pub open spec fn row_views(rows: Seq<Row>) -> Seq<RowView> {
    rows.map_values(|r: Row| r@)
}

/// Whether an entry's name starts with a dot, which is noise in a folder of
/// media.
pub open spec fn is_hidden(p: Seq<char>) -> bool {
    path::file_name(p) matches Some(name) && name.len() > 0 && name[0] == '.'
}

/// The folders among the entries, in order.
pub open spec fn folders_of(entries: Seq<Entry>) -> Seq<Seq<char>>
    decreases entries.len(),
{
    if entries.len() == 0 {
        Seq::empty()
    } else {
        let e = entries.last();
        let rest = folders_of(entries.drop_last());
        if !is_hidden(e.path@) && e.is_dir {
            rest.push(e.path@)
        } else {
            rest
        }
    }
}

/// The files among the entries that can be played, in order.
pub open spec fn files_of(entries: Seq<Entry>) -> Seq<Seq<char>>
    decreases entries.len(),
{
    if entries.len() == 0 {
        Seq::empty()
    } else {
        let e = entries.last();
        let rest = files_of(entries.drop_last());
        if !is_hidden(e.path@) && !e.is_dir && names_media(e.path@) {
            rest.push(e.path@)
        } else {
            rest
        }
    }
}

/// Whether the path at `i` belongs before the one at `j`.
pub open spec fn path_first(paths: Seq<Seq<char>>, i: int, j: int) -> bool {
    &&& key_at_most(path_key(paths[i]), path_key(paths[j]))
    &&& key_at_most(path_key(paths[j]), path_key(paths[i])) ==> i < j
}

/// Whether `order` lists the positions of `paths`, each once, in natural
/// order.
pub open spec fn arranges(paths: Seq<Seq<char>>, order: Seq<usize>) -> bool {
    &&& order.len() == paths.len()
    &&& forall|a: int| 0 <= a < order.len() ==> #[trigger] order[a] < paths.len()
    &&& forall|a: int, b: int|
        #![trigger order[a], order[b]]
        0 <= a < b < order.len() ==> path_first(paths, order[a] as int, order[b] as int)
    &&& forall|p: int| 0 <= p < paths.len() ==> #[trigger] order::listed(order, p)
}

/// The paths in a given order.
pub open spec fn in_order(paths: Seq<Seq<char>>, order: Seq<usize>) -> Seq<Seq<char>> {
    order.map_values(|i: usize| paths[i as int])
}

/// Whether `sorted` is `paths` in natural order.
pub open spec fn naturally_sorted(paths: Seq<Seq<char>>, sorted: Seq<Seq<char>>) -> bool {
    exists|order: Seq<usize>| #[trigger] arranges(paths, order) && sorted == in_order(paths, order)
}

/// The rows of a folder: the way up, the folders, the files.
pub open spec fn rows_of(
    dir: Seq<char>,
    folders: Seq<Seq<char>>,
    files: Seq<Seq<char>>,
) -> Seq<RowView> {
    let up = match path::parent(dir) {
        Some(p) => seq![RowView::Parent(p)],
        None => Seq::empty(),
    };
    up + folders.map_values(|p: Seq<char>| RowView::Folder(p)) + files.map_values(
        |p: Seq<char>| RowView::Media(p),
    )
}

/// The paths sorted naturally.
pub fn sort_naturally(paths: Vec<String>) -> (r: Vec<String>)
    ensures
        naturally_sorted(text::texts(paths@), text::texts(r@)),
{
    let ghost all = text::texts(paths@);
    let mut keys: Vec<NaturalKey> = Vec::new();
    let mut i: usize = 0;
    while i < paths.len()
        invariant
            i <= paths@.len(),
            keys@.len() == i,
            forall|k: int| 0 <= k < i ==> (#[trigger] keys@[k])@ == path_key(paths@[k]@),
        decreases paths@.len() - i,
    {
        keys.push(natural_key(paths[i].as_str()));
        i = i + 1;
    }
    let sorted = order::stable_order(&keys);
    let mut r: Vec<String> = Vec::new();
    let mut n: usize = 0;
    while n < sorted.len()
        invariant
            n <= sorted@.len(),
            keys@.len() == paths@.len(),
            order::sorts(keys@, sorted@, 0, keys@.len() as int),
            all == text::texts(paths@),
            text::texts(r@) == in_order(all, sorted@).take(n as int),
        decreases sorted@.len() - n,
    {
        let ghost before = text::texts(r@);
        let copy = paths[sorted[n]].clone();
        r.push(copy);
        assert(text::texts(r@) =~= before.push(copy@));
        assert(in_order(all, sorted@)[n as int] == copy@);
        assert(text::texts(r@) =~= in_order(all, sorted@).take(n + 1));
        n = n + 1;
    }
    proof {
        assert(in_order(all, sorted@).take(n as int) =~= in_order(all, sorted@));
        assert forall|a: int, b: int|
            #![trigger sorted@[a], sorted@[b]]
            0 <= a < b < sorted@.len() implies path_first(
            all,
            sorted@[a] as int,
            sorted@[b] as int,
        ) by {
            let x = sorted@[a] as int;
            let y = sorted@[b] as int;
            assert(order::goes_first(keys@, x, y));
            assert(keys@[x]@ == path_key(all[x]));
            assert(keys@[y]@ == path_key(all[y]));
        }
        assert(arranges(all, sorted@));
    }
    r
}

/// What a folder shows, and whether it shows neither folders nor files.
pub fn list(dir: &str, entries: &Vec<Entry>) -> (r: (Vec<Row>, bool))
    ensures
        exists|folders: Seq<Seq<char>>, files: Seq<Seq<char>>|
            #![trigger rows_of(dir@, folders, files)]
            {
                &&& naturally_sorted(folders_of(entries@), folders)
                &&& naturally_sorted(files_of(entries@), files)
                &&& row_views(r.0@) == rows_of(dir@, folders, files)
            },
        r.1 == (folders_of(entries@).len() == 0 && files_of(entries@).len() == 0),
{
    let mut folders: Vec<String> = Vec::new();
    let mut files: Vec<String> = Vec::new();
    let mut i: usize = 0;
    let ghost all = entries@;
    assert(all.take(0) =~= Seq::<Entry>::empty());
    assert(text::texts(folders@) =~= Seq::<Seq<char>>::empty());
    assert(text::texts(files@) =~= Seq::<Seq<char>>::empty());
    while i < entries.len()
        invariant
            i <= entries@.len(),
            all == entries@,
            text::texts(folders@) == folders_of(all.take(i as int)),
            text::texts(files@) == files_of(all.take(i as int)),
        decreases entries@.len() - i,
    {
        let e = &entries[i];
        let ghost next = all.take(i + 1);
        assert(next.drop_last() =~= all.take(i as int));
        assert(next.last() == all[i as int]);
        let ghost folders_before = text::texts(folders@);
        let ghost files_before = text::texts(files@);
        let chars = text::chars_of(e.path.as_str());
        let hidden: bool = match path::name_of(&chars) {
            Some(name) => name.len() > 0 && name[0] == '.',
            None => false,
        };
        assert(hidden == is_hidden(e.path@));
        if !hidden {
            if e.is_dir {
                let copy = e.path.clone();
                folders.push(copy);
                assert(text::texts(folders@) =~= folders_before.push(copy@));
            } else if is_media(e.path.as_str()) {
                let copy = e.path.clone();
                files.push(copy);
                assert(text::texts(files@) =~= files_before.push(copy@));
            }
        }
        i = i + 1;
    }
    assert(all.take(i as int) =~= all);
    let empty: bool = folders.len() == 0 && files.len() == 0;
    assert(text::texts(folders@).len() == folders@.len());
    assert(text::texts(files@).len() == files@.len());
    let folders = sort_naturally(folders);
    let files = sort_naturally(files);

    let mut rows: Vec<Row> = Vec::new();
    let here = text::chars_of(dir);
    if let Some(up) = path::parent_of(&here) {
        rows.push(Row::Parent(text::string_of(&up)));
    }
    let ghost up = match path::parent(dir@) {
        Some(p) => seq![RowView::Parent(p)],
        None => Seq::empty(),
    };
    assert(row_views(rows@) =~= up);
    let ghost folder_texts = text::texts(folders@);
    let ghost folder_rows = folder_texts.map_values(|p: Seq<char>| RowView::Folder(p));
    let mut k: usize = 0;
    assert(up + folder_rows.take(0) =~= up);
    while k < folders.len()
        invariant
            k <= folders@.len(),
            folder_texts == text::texts(folders@),
            folder_rows == folder_texts.map_values(|p: Seq<char>| RowView::Folder(p)),
            row_views(rows@) == up + folder_rows.take(k as int),
        decreases folders@.len() - k,
    {
        let ghost before = row_views(rows@);
        let row = Row::Folder(folders[k].clone());
        rows.push(row);
        assert(row_views(rows@) =~= before.push(row@));
        assert(folder_rows[k as int] == row@);
        assert(row_views(rows@) =~= up + folder_rows.take(k + 1));
        k = k + 1;
    }
    assert(folder_rows.take(k as int) =~= folder_rows);
    let ghost head = up + folder_rows;
    let ghost file_texts = text::texts(files@);
    let ghost file_rows = file_texts.map_values(|p: Seq<char>| RowView::Media(p));
    let mut n: usize = 0;
    assert(head + file_rows.take(0) =~= head);
    while n < files.len()
        invariant
            n <= files@.len(),
            file_texts == text::texts(files@),
            file_rows == file_texts.map_values(|p: Seq<char>| RowView::Media(p)),
            row_views(rows@) == head + file_rows.take(n as int),
        decreases files@.len() - n,
    {
        let ghost before = row_views(rows@);
        let row = Row::Media(files[n].clone());
        rows.push(row);
        assert(row_views(rows@) =~= before.push(row@));
        assert(file_rows[n as int] == row@);
        assert(row_views(rows@) =~= head + file_rows.take(n + 1));
        n = n + 1;
    }
    assert(file_rows.take(n as int) =~= file_rows);
    assert(row_views(rows@) == rows_of(dir@, folder_texts, file_texts));
    (rows, empty)
}

// ── Activating a row ────────────────────────────────────────────────────

/// What activating a row does.
#[derive(Debug)]
pub enum Activation {
    Nothing,
    /// Show this folder.
    Navigate(String),
    /// Play these files from this one on.
    Play { files: Vec<String>, at: usize },
}

/// The files among the rows, in the order shown.
pub open spec fn playable(rows: Seq<RowView>) -> Seq<Seq<char>>
    decreases rows.len(),
{
    if rows.len() == 0 {
        Seq::empty()
    } else {
        match rows.last() {
            RowView::Media(p) => playable(rows.drop_last()).push(p),
            _ => playable(rows.drop_last()),
        }
    }
}

/// Where a path first is among others.
pub open spec fn place_of(files: Seq<Seq<char>>, p: Seq<char>) -> Option<int>
    decreases files.len(),
{
    if files.len() == 0 {
        None
    } else if path::same_path(files[0], p) {
        Some(0)
    } else {
        match place_of(files.drop_first(), p) {
            Some(i) => Some(i + 1),
            None => None,
        }
    }
}

fn find_place(files: &Vec<String>, wanted: &str) -> (r: Option<usize>)
    ensures
        r is Some <==> place_of(text::texts(files@), wanted@) is Some,
        r matches Some(i) ==> place_of(text::texts(files@), wanted@) == Some(i as int) && i
            < files@.len(),
{
    let p = text::chars_of(wanted);
    let ghost all = text::texts(files@);
    let mut i: usize = 0;
    assert(all.skip(0) =~= all);
    while i < files.len()
        invariant
            i <= files@.len(),
            p@ == wanted@,
            all == text::texts(files@),
            place_of(all, wanted@) is Some <==> place_of(all.skip(i as int), wanted@) is Some,
            place_of(all.skip(i as int), wanted@) matches Some(k) ==> place_of(all, wanted@)
                == Some(k + i),
        decreases files@.len() - i,
    {
        let have = text::chars_of(files[i].as_str());
        assert(all.skip(i as int)[0] == have@);
        assert(all.skip(i as int).drop_first() =~= all.skip(i + 1));
        if path::is_same_path(&have, &p) {
            return Some(i);
        }
        i = i + 1;
    }
    None
}

/// Everything that can be played in a folder becomes the queue, in the order
/// shown, starting at what was picked; a folder is shown.
pub fn activate(rows: &Vec<Row>, index: usize) -> (r: Activation)
    ensures
        index >= rows@.len() ==> r is Nothing,
        index < rows@.len() ==> match rows@[index as int] {
            Row::Parent(p) => r matches Activation::Navigate(dir) && dir@ == p@,
            Row::Folder(p) => r matches Activation::Navigate(dir) && dir@ == p@,
            Row::Media(p) => r matches Activation::Play { files, at } && text::texts(files@)
                == playable(row_views(rows@)) && Some(at as int) == place_of(
                playable(row_views(rows@)),
                p@,
            ),
        },
{
    if index >= rows.len() {
        return Activation::Nothing;
    }
    match &rows[index] {
        Row::Parent(p) => Activation::Navigate(p.clone()),
        Row::Folder(p) => Activation::Navigate(p.clone()),
        Row::Media(p) => {
            let ghost all = row_views(rows@);
            let mut files: Vec<String> = Vec::new();
            let mut i: usize = 0;
            assert(all.take(0) =~= Seq::<RowView>::empty());
            assert(text::texts(files@) =~= Seq::<Seq<char>>::empty());
            while i < rows.len()
                invariant
                    i <= rows@.len(),
                    all == row_views(rows@),
                    text::texts(files@) == playable(all.take(i as int)),
                decreases rows@.len() - i,
            {
                let ghost next = all.take(i + 1);
                assert(next.drop_last() =~= all.take(i as int));
                assert(next.last() == rows@[i as int]@);
                let ghost before = text::texts(files@);
                if let Row::Media(f) = &rows[i] {
                    let copy = f.clone();
                    files.push(copy);
                    assert(text::texts(files@) =~= before.push(copy@));
                }
                i = i + 1;
            }
            assert(all.take(i as int) =~= all);
            proof {
                assert(all[index as int] == rows@[index as int]@);
                picked_is_playable(all, index as int, p@);
                listed_has_a_place(playable(all), p@);
            }
            let at: usize = match find_place(&files, p.as_str()) {
                Some(at) => at,
                None => 0,
            };
            Activation::Play { files: files, at: at }
        },
    }
}

proof fn picked_is_playable(rows: Seq<RowView>, i: int, p: Seq<char>)
    requires
        0 <= i < rows.len(),
        rows[i] == RowView::Media(p),
    ensures
        playable(rows).contains(p),
    decreases rows.len(),
{
    let head = playable(rows.drop_last());
    if i == rows.len() - 1 {
        assert(playable(rows)[head.len() as int] == p);
    } else {
        assert(rows.drop_last()[i] == rows[i]);
        picked_is_playable(rows.drop_last(), i, p);
        let w = choose|w: int| 0 <= w < head.len() && head[w] == p;
        assert(playable(rows)[w] == p);
    }
}

proof fn listed_has_a_place(files: Seq<Seq<char>>, p: Seq<char>)
    requires
        files.contains(p),
    ensures
        place_of(files, p) is Some,
    decreases files.len(),
{
    if !path::same_path(files[0], p) {
        let w = choose|w: int| 0 <= w < files.len() && files[w] == p;
        assert(w > 0);
        assert(files.drop_first()[w - 1] == p);
        listed_has_a_place(files.drop_first(), p);
    }
}

/// What plays first is what was picked.
pub proof fn playback_starts_where_picked(files: Seq<Seq<char>>, p: Seq<char>)
    requires
        files.contains(p),
    ensures
        place_of(files, p) matches Some(at) && 0 <= at < files.len() && path::same_path(
            files[at],
            p,
        ),
    decreases files.len(),
{
    listed_has_a_place(files, p);
    if !path::same_path(files[0], p) {
        let w = choose|w: int| 0 <= w < files.len() && files[w] == p;
        assert(files.drop_first()[w - 1] == p);
        playback_starts_where_picked(files.drop_first(), p);
    }
}

// ── Places ──────────────────────────────────────────────────────────────

/// A folder that the desktop has a name for, and whether it exists.
#[derive(Debug)]
pub struct SpecialDir {
    pub label: String,
    pub path: Option<String>,
    pub exists: bool,
}

/// Whether a special folder is offered: it exists and is not the home
/// directory itself.
pub open spec fn offered(s: SpecialDir, home: Seq<char>) -> bool {
    s.path matches Some(p) && s.exists && !path::same_path(p@, home)
}

/// The places to start from: the home directory, and the special folders
/// that are offered.
pub open spec fn places_of(home: Seq<char>, specials: Seq<SpecialDir>) -> Seq<
    (Seq<char>, Seq<char>),
>
    decreases specials.len(),
{
    if specials.len() == 0 {
        seq![("Home"@, home)]
    } else if offered(specials.last(), home) {
        places_of(home, specials.drop_last()).push(
            (specials.last().label@, specials.last().path->0@),
        )
    } else {
        places_of(home, specials.drop_last())
    }
}

pub open spec fn pair_texts(pairs: Seq<(String, String)>) -> Seq<(Seq<char>, Seq<char>)> {
    pairs.map_values(|p: (String, String)| (p.0@, p.1@))
}

pub fn default_places(home: &str, specials: &Vec<SpecialDir>) -> (r: Vec<(String, String)>)
    ensures
        pair_texts(r@) == places_of(home@, specials@),
{
    let base = text::chars_of(home);
    let mut places: Vec<(String, String)> = Vec::new();
    places.push(("Home".to_string(), home.to_string()));
    let ghost all = specials@;
    let mut i: usize = 0;
    assert(all.take(0) =~= Seq::<SpecialDir>::empty());
    assert(pair_texts(places@) =~= places_of(home@, all.take(0)));
    while i < specials.len()
        invariant
            i <= specials@.len(),
            all == specials@,
            base@ == home@,
            pair_texts(places@) == places_of(home@, all.take(i as int)),
        decreases specials@.len() - i,
    {
        let ghost next = all.take(i + 1);
        assert(next.drop_last() =~= all.take(i as int));
        assert(next.last() == all[i as int]);
        let ghost before = pair_texts(places@);
        if let Some(dir) = &specials[i].path {
            let chars = text::chars_of(dir.as_str());
            if specials[i].exists && !path::is_same_path(&chars, &base) {
                let pair = (specials[i].label.clone(), dir.clone());
                places.push(pair);
                assert(pair_texts(places@) =~= before.push((pair.0@, pair.1@)));
            }
        }
        i = i + 1;
    }
    assert(all.take(i as int) =~= all);
    places
}

// ── Laws on names and lists ─────────────────────────────────────────────

/// A folder is listed with its folders and its playable files, each once and
/// in order, and without what is hidden.
pub proof fn entries_are_listed(entries: Seq<Entry>, e: Entry)
    ensures
        folders_of(Seq::<Entry>::empty()).len() == 0,
        files_of(Seq::<Entry>::empty()).len() == 0,
        e.is_dir && !is_hidden(e.path@) ==> folders_of(entries.push(e)) == folders_of(entries).push(
            e.path@,
        ),
        !e.is_dir || is_hidden(e.path@) ==> folders_of(entries.push(e)) == folders_of(entries),
        !e.is_dir && !is_hidden(e.path@) && names_media(e.path@) ==> files_of(entries.push(e))
            == files_of(entries).push(e.path@),
        e.is_dir || is_hidden(e.path@) || !names_media(e.path@) ==> files_of(entries.push(e))
            == files_of(entries),
{
    assert(entries.push(e).drop_last() =~= entries);
}

/// What a file is called decides by its extension alone, whatever its case.
pub proof fn case_does_not_matter(p: Seq<char>, q: Seq<char>)
    requires
        path::extension(p) is Some,
        path::extension(q) is Some,
        text::ascii_lower(path::extension(p)->0) == text::ascii_lower(path::extension(q)->0),
    ensures
        names_media(p) == names_media(q),
        names_audio(p) == names_audio(q),
{
}

/// The rows of a folder: the way up first, unless there is none, then the
/// folders, then the files.
pub proof fn folders_come_before_files(
    dir: Seq<char>,
    folders: Seq<Seq<char>>,
    files: Seq<Seq<char>>,
    i: int,
)
    ensures
        ({
            let rows = rows_of(dir, folders, files);
            let up = if path::parent(dir) is Some {
                1int
            } else {
                0
            };
            &&& rows.len() == up + folders.len() + files.len()
            &&& path::parent(dir) matches Some(p) ==> rows[0] == RowView::Parent(p)
            &&& 0 <= i < folders.len() ==> rows[up + i] == RowView::Folder(folders[i])
            &&& 0 <= i < files.len() ==> rows[up + folders.len() + i] == RowView::Media(files[i])
        }),
{
}

/// All the files of a folder are played, in the order shown, and nothing else.
pub proof fn every_file_shown_is_played(rows: Seq<RowView>, row: RowView)
    ensures
        playable(Seq::<RowView>::empty()).len() == 0,
        row matches RowView::Media(p) ==> playable(rows.push(row)) == playable(rows).push(p),
        !(row is Media) ==> playable(rows.push(row)) == playable(rows),
{
    assert(rows.push(row).drop_last() =~= rows);
}

/// The home directory is offered first, and a special folder when it exists
/// and is another.
pub proof fn existing_places_are_offered(home: Seq<char>, specials: Seq<SpecialDir>, s: SpecialDir)
    ensures
        places_of(home, Seq::<SpecialDir>::empty()) == seq![("Home"@, home)],
        s.path is Some && s.exists && !path::same_path(s.path->0@, home) ==> places_of(
            home,
            specials.push(s),
        ) == places_of(home, specials).push((s.label@, s.path->0@)),
        s.path is None || !s.exists || path::same_path(s.path->0@, home) ==> places_of(
            home,
            specials.push(s),
        ) == places_of(home, specials),
{
    assert(specials.push(s).drop_last() =~= specials);
}

/// Where a number starts a new part starts, so the parts before it are those
/// of what stands before it.
proof fn a_number_starts_a_part(head: Seq<char>, tail: Seq<char>)
    requires
        head.len() == 0 || !text::is_digit(head.last()),
        tail.len() > 0 && text::is_digit(tail[0]),
    ensures
        natural_key_of(head + tail) == natural_key_of(head) + natural_key_of(tail),
    decreases head.len(),
{
    if head.len() == 0 {
        assert(head + tail =~= tail);
        assert(natural_key_of(head) + natural_key_of(tail) =~= natural_key_of(tail));
    } else {
        let s = head + tail;
        run_length_bounds(head);
        let n = run_length(head);
        assert forall|i: int| 0 <= i < n implies text::is_digit(#[trigger] s[i])
            == text::is_digit(s[0]) by {
            assert(head[i] == s[i]);
        }
        if n < head.len() {
            assert(s[n] == head[n]);
        } else {
            assert(head[n - 1] == head.last());
            assert(s[n] == tail[0]);
        }
        run_length_is(s, n);
        let rest = head.skip(n);
        assert(s.skip(n) =~= rest + tail);
        assert(s.take(n) =~= head.take(n));
        if rest.len() > 0 {
            assert(rest.last() == head.last());
        }
        a_number_starts_a_part(rest, tail);
        let part = if text::is_digit(s[0]) {
            (run_value(s.take(n)), Seq::<char>::empty())
        } else {
            (0nat, s.take(n))
        };
        assert(natural_key_of(s) == seq![part] + natural_key_of(rest + tail));
        assert(natural_key_of(head) == seq![part] + natural_key_of(rest));
        assert(seq![part] + (natural_key_of(rest) + natural_key_of(tail)) =~= (seq![part]
            + natural_key_of(rest)) + natural_key_of(tail));
    }
}

/// The first part of a name that starts with a number is the number.
proof fn a_number_is_its_value(n: nat, tail: Seq<char>)
    requires
        n <= u64::MAX,
        tail.len() == 0 || !text::is_digit(tail[0]),
    ensures
        natural_key_of(text::decimal(n) + tail).len() > 0,
        natural_key_of(text::decimal(n) + tail)[0] == (n, Seq::<char>::empty()),
{
    let d = text::decimal(n);
    let s = d + tail;
    text::decimal_is_digits(n);
    assert forall|i: int| 0 <= i < d.len() implies text::is_digit(#[trigger] s[i])
        == text::is_digit(s[0]) by {
        assert(text::is_digit(d[i]) && s[i] == d[i]);
        assert(text::is_digit(d[0]) && s[0] == d[0]);
    }
    assert(text::is_digit(d[0]) && s[0] == d[0]);
    if tail.len() > 0 {
        assert(s[d.len() as int] == tail[0]);
    }
    run_length_is(s, d.len() as int);
    assert(s.take(d.len() as int) =~= d);
    text::only_numbers_are_read(d, u64::MAX as nat);
    let rest = natural_key_of(s.skip(d.len() as int));
    assert(natural_key_of(s) == seq![(n, Seq::<char>::empty())] + rest);
}

/// Episode 2 comes before episode 10: of two names that are the same up to a
/// number the one with the smaller number comes first, whatever follows.
pub proof fn smaller_numbers_come_first(
    head: Seq<char>,
    a: nat,
    b: nat,
    after_a: Seq<char>,
    after_b: Seq<char>,
)
    requires
        head.len() == 0 || !text::is_digit(head.last()),
        a < b <= u64::MAX,
        after_a.len() == 0 || !text::is_digit(after_a[0]),
        after_b.len() == 0 || !text::is_digit(after_b[0]),
    ensures
        ({
            let x = natural_key_of(head + (text::decimal(a) + after_a));
            let y = natural_key_of(head + (text::decimal(b) + after_b));
            key_at_most(x, y) && !key_at_most(y, x)
        }),
{
    let s = text::decimal(a) + after_a;
    let t = text::decimal(b) + after_b;
    text::decimal_is_digits(a);
    text::decimal_is_digits(b);
    assert(text::is_digit(text::decimal(a)[0]) && s[0] == text::decimal(a)[0]);
    assert(text::is_digit(text::decimal(b)[0]) && t[0] == text::decimal(b)[0]);
    a_number_starts_a_part(head, s);
    a_number_starts_a_part(head, t);
    a_number_is_its_value(a, after_a);
    a_number_is_its_value(b, after_b);
    let k = natural_key_of(head);
    let x = natural_key_of(head + s);
    let y = natural_key_of(head + t);
    assert(x.take(k.len() as int) =~= y.take(k.len() as int));
    assert(x[k.len() as int] == natural_key_of(s)[0]);
    assert(y[k.len() as int] == natural_key_of(t)[0]);
    episodes_sort_numerically(x, y, k.len() as int);
}

/// The file formats that are played, whatever the case of the extension: these
/// with a picture, and those with sound alone.
pub proof fn known_formats_are_played(p: Seq<char>, e: Seq<char>)
    requires
        path::extension(p) is Some,
        e == text::ascii_lower(path::extension(p)->0),
    ensures
        names_media(p) <==> e == "mp4"@ || e == "mkv"@ || e == "webm"@ || e == "mov"@ || e == "avi"@ || e == "m4v"@ || e == "mpg"@ || e == "mpeg"@ || e == "mp2"@ || e == "ts"@ || e == "m2ts"@ || e == "mts"@ || e == "wmv"@ || e == "flv"@ || e == "ogv"@ || e == "ogm"@ || e == "3gp"@ || e == "3g2"@ || e == "divx"@ || e == "vob"@ || e == "rmvb"@ || e == "asf"@ || e == "f4v"@ || e == "mxf"@ || e == "y4m"@ || names_audio(p),
        names_audio(p) <==> e == "mp3"@ || e == "flac"@ || e == "wav"@ || e == "ogg"@ || e == "oga"@ || e == "opus"@ || e == "m4a"@ || e == "aac"@ || e == "wma"@ || e == "aiff"@ || e == "aif"@ || e == "ape"@ || e == "wv"@ || e == "mpc"@ || e == "tta"@ || e == "dsf"@ || e == "spx"@ || e == "caf"@ || e == "au"@ || e == "mka"@,
{
}

/// A path in the home directory is shown behind a tilde, the home directory
/// itself as one, and a path elsewhere as it is.
pub proof fn the_home_is_a_tilde(home: Seq<char>, name: Seq<char>, p: Seq<char>)
    requires
        home.len() > 1,
        home.last() != '/',
        home.last() != '.',
        name.len() > 0,
        forall|i: int| 0 <= i < name.len() ==> #[trigger] name[i] != '/',
        name != seq!['.'],
    ensures
        pretty_text(home + seq!['/'] + name, home) == "~/"@ + name,
        pretty_text(home, home) == "~"@,
        path::below(p, home) is None ==> pretty_text(p, home) == p,
{
    path::a_file_is_below_its_directory(home, name);
    path::a_path_is_below_itself(home);
}

/// Sorting puts every path in its place: none is lost or added, and of any two
/// the one with the smaller key comes first.
pub proof fn sorting_sorts(paths: Seq<Seq<char>>, sorted: Seq<Seq<char>>, a: int, b: int)
    requires
        naturally_sorted(paths, sorted),
        0 <= a < b < sorted.len(),
    ensures
        sorted.len() == paths.len(),
        paths.contains(sorted[a]),
        key_at_most(
            natural_key_of(text::unicode_lower(name_text(sorted[a]))),
            natural_key_of(text::unicode_lower(name_text(sorted[b]))),
        ),
        forall|p: int| 0 <= p < paths.len() ==> sorted.contains(#[trigger] paths[p]),
{
    let order = choose|order: Seq<usize>| #[trigger]
        arranges(paths, order) && sorted == in_order(paths, order);
    assert(sorted[a] == paths[order[a] as int]);
    assert(sorted[b] == paths[order[b] as int]);
    assert(path_first(paths, order[a] as int, order[b] as int));
    assert forall|p: int| 0 <= p < paths.len() implies sorted.contains(#[trigger] paths[p]) by {
        assert(order::listed(order, p));
        let w = choose|w: int| 0 <= w < order.len() && #[trigger] order[w] == p;
        assert(sorted[w] == paths[p]);
    }
}

/// Names without numbers sort as texts do.
pub proof fn plain_names_sort_as_texts(x: Seq<char>, y: Seq<char>)
    requires
        x.len() > 0,
        y.len() > 0,
        forall|i: int| 0 <= i < x.len() ==> !text::is_digit(#[trigger] x[i]),
        forall|i: int| 0 <= i < y.len() ==> !text::is_digit(#[trigger] y[i]),
    ensures
        key_at_most(natural_key_of(x), natural_key_of(y)) == order::text_at_most(x, y),
{
    plain_key(x);
    plain_key(y);
    order::texts_compare(x, y);
    let (a, b) = (natural_key_of(x), natural_key_of(y));
    if x == y {
        assert(a.drop_first().len() == 0);
        assert(key_at_most(a.drop_first(), b.drop_first()));
    } else {
        assert(a[0] != b[0]);
    }
}

proof fn plain_key(x: Seq<char>)
    requires
        x.len() > 0,
        forall|i: int| 0 <= i < x.len() ==> !text::is_digit(#[trigger] x[i]),
    ensures
        natural_key_of(x) == seq![(0nat, x)],
{
    assert(!text::is_digit(x[0]));
    assert forall|i: int| 0 <= i < x.len() implies text::is_digit(#[trigger] x[i])
        == text::is_digit(x[0]) by {}
    run_length_is(x, x.len() as int);
    assert(x.take(x.len() as int) =~= x);
    assert(x.skip(x.len() as int).len() == 0);
    assert(natural_key_of(x.skip(x.len() as int)) =~= Seq::empty());
    assert(seq![(0nat, x)] + Seq::<(nat, Seq<char>)>::empty() =~= seq![(0nat, x)]);
}

/// A file is found at the first place that names it.
pub proof fn the_first_of_equal_paths_is_found(files: Seq<Seq<char>>, p: Seq<char>)
    ensures
        match place_of(files, p) {
            Some(i) => 0 <= i < files.len() && path::same_path(files[i], p) && forall|j: int|
                0 <= j < i ==> !path::same_path(#[trigger] files[j], p),
            None => forall|j: int|
                0 <= j < files.len() ==> !path::same_path(#[trigger] files[j], p),
        },
    decreases files.len(),
{
    if files.len() > 0 && !path::same_path(files[0], p) {
        let rest = files.drop_first();
        the_first_of_equal_paths_is_found(rest, p);
        match place_of(rest, p) {
            Some(i) => {
                assert(rest[i] == files[i + 1]);
                assert forall|j: int| 0 <= j < i + 1 implies !path::same_path(
                    #[trigger] files[j],
                    p,
                ) by {
                    if j > 0 {
                        assert(rest[j - 1] == files[j]);
                    }
                }
            },
            None => {
                assert forall|j: int| 0 <= j < files.len() implies !path::same_path(
                    #[trigger] files[j],
                    p,
                ) by {
                    if j > 0 {
                        assert(rest[j - 1] == files[j]);
                    }
                }
            },
        }
    }
}

/// Only what starts with a dot is hidden.
pub proof fn dotted_names_are_hidden(p: Seq<char>)
    requires
        path::file_name(p) is Some,
    ensures
        is_hidden(p) <==> path::file_name(p)->0.len() > 0 && path::file_name(p)->0[0] == '.',
        name_text(p) == path::file_name(p)->0,
{
}

} // verus!

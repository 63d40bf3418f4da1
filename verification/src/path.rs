//! Paths as texts, read the way the system reads them: components between
//! slashes, with repeated slashes and inner dots meaning nothing.

use vstd::prelude::*;

use crate::text;

verus! {

/// Where the next slash at or after `i` is, or the end.
pub open spec fn next_slash(s: Seq<char>, i: int) -> int
    decreases s.len() - i,
{
    if i >= s.len() {
        s.len() as int
    } else if s[i] == '/' {
        i
    } else {
        next_slash(s, i + 1)
    }
}

/// Whether a piece between slashes is no component.
pub open spec fn idle_piece(piece: Seq<char>) -> bool {
    piece.len() == 0 || (piece.len() == 1 && piece[0] == '.')
}

/// Where the components from position `i` on start and end.
pub open spec fn spans_from(s: Seq<char>, i: int) -> Seq<(int, int)>
    decreases s.len() + 1 - i,
    when 0 <= i
    via spans_from_ends
{
    if i >= s.len() {
        Seq::empty()
    } else {
        let j = next_slash(s, i);
        let rest = spans_from(s, j + 1);
        if idle_piece(s.subrange(i, j)) {
            rest
        } else {
            seq![(i, j)] + rest
        }
    }
}

#[via_fn]
proof fn spans_from_ends(s: Seq<char>, i: int) {
    if i < s.len() {
        next_slash_bounds(s, i);
    }
}

proof fn next_slash_bounds(s: Seq<char>, i: int)
    requires
        i <= s.len(),
    ensures
        i <= next_slash(s, i) <= s.len(),
        forall|k: int| i <= k < next_slash(s, i) && 0 <= k ==> s[k] != '/',
    decreases s.len() - i,
{
    if i < s.len() && s[i] != '/' {
        next_slash_bounds(s, i + 1);
    }
}

/// Whether a path starts at the root.
pub open spec fn is_absolute(s: Seq<char>) -> bool {
    s.len() > 0 && s[0] == '/'
}

/// Whether a path starts with a component that names the current directory.
pub open spec fn starts_here(s: Seq<char>) -> bool {
    s.len() > 0 && s[0] == '.' && (s.len() == 1 || s[1] == '/')
}

/// Where the components of a path start and end. The root and a leading dot
/// are components of one character.
pub open spec fn spans(s: Seq<char>) -> Seq<(int, int)> {
    if is_absolute(s) || starts_here(s) {
        seq![(0int, 1int)] + spans_from(s, 1)
    } else {
        spans_from(s, 0)
    }
}

/// The components of a path.
pub open spec fn components(s: Seq<char>) -> Seq<Seq<char>> {
    spans(s).map_values(|p: (int, int)| s.subrange(p.0, p.1))
}

/// Whether two texts name the same path.
pub open spec fn same_path(a: Seq<char>, b: Seq<char>) -> bool {
    components(a) == components(b)
}

/// Whether a component is the name of something in a directory.
pub open spec fn is_name(component: Seq<char>) -> bool {
    component != seq!['/'] && component != seq!['.'] && component != seq!['.', '.']
}

/// The last component of a path, if it is a name.
pub open spec fn file_name(s: Seq<char>) -> Option<Seq<char>> {
    let all = components(s);
    if all.len() > 0 && is_name(all.last()) {
        Some(all.last())
    } else {
        None
    }
}

/// The path without its last component: none for the root and for nothing.
pub open spec fn parent(s: Seq<char>) -> Option<Seq<char>> {
    let all = spans(s);
    if all.len() == 0 || (all.len() == 1 && is_absolute(s)) {
        None
    } else if all.len() == 1 {
        Some(Seq::empty())
    } else {
        Some(s.take(all[all.len() - 2].1))
    }
}

/// Where the last dot of a name is, if it has one past its first character.
pub open spec fn last_dot(name: Seq<char>) -> Option<int>
    decreases name.len(),
{
    if name.len() <= 1 {
        None
    } else if name.last() == '.' {
        Some(name.len() - 1)
    } else {
        last_dot(name.drop_last())
    }
}

/// A file's name without its extension.
pub open spec fn file_stem(s: Seq<char>) -> Option<Seq<char>> {
    match file_name(s) {
        Some(name) => match last_dot(name) {
            Some(i) => Some(name.take(i)),
            None => Some(name),
        },
        None => None,
    }
}

/// What stands behind the last dot of a file's name.
pub open spec fn extension(s: Seq<char>) -> Option<Seq<char>> {
    match file_name(s) {
        Some(name) => match last_dot(name) {
            Some(i) => Some(name.skip(i + 1)),
            None => None,
        },
        None => None,
    }
}

/// What is left of a path below `base`, if it is below it or the same.
pub open spec fn below(s: Seq<char>, base: Seq<char>) -> Option<Seq<char>> {
    let all = spans(s);
    let n = components(base).len() as int;
    if n > all.len() || components(s).take(n) != components(base) {
        None
    } else if n == all.len() {
        Some(Seq::empty())
    } else {
        Some(s.subrange(all[n].0, all.last().1))
    }
}

/// `base` with `name` behind it. An absolute `name` stands for itself.
pub open spec fn joined(base: Seq<char>, name: Seq<char>) -> Seq<char> {
    if is_absolute(name) {
        name
    } else if base.len() == 0 || base.last() == '/' {
        base + name
    } else {
        base + seq!['/'] + name
    }
}

proof fn spans_from_bounds(s: Seq<char>, i: int)
    requires
        0 <= i,
    ensures
        forall|k: int|
            0 <= k < spans_from(s, i).len() ==> i <= (#[trigger] spans_from(s, i)[k]).0
                < spans_from(s, i)[k].1 <= s.len(),
    decreases s.len() + 1 - i,
{
    if i < s.len() {
        let j = next_slash(s, i);
        next_slash_bounds(s, i);
        spans_from_bounds(s, j + 1);
        let rest = spans_from(s, j + 1);
        let all = spans_from(s, i);
        assert forall|k: int| 0 <= k < all.len() implies i <= (#[trigger] all[k]).0 < all[k].1
            <= s.len() by {
            if !idle_piece(s.subrange(i, j)) && k > 0 {
                assert(all[k] == rest[k - 1]);
            }
        }
    }
}

proof fn spans_bounds(s: Seq<char>)
    ensures
        forall|k: int|
            0 <= k < spans(s).len() ==> 0 <= (#[trigger] spans(s)[k]).0 < spans(s)[k].1 <= s.len(),
{
    spans_from_bounds(s, 0);
    spans_from_bounds(s, 1);
    let all = spans(s);
    assert forall|k: int| 0 <= k < all.len() implies 0 <= (#[trigger] all[k]).0 < all[k].1
        <= s.len() by {
        if (is_absolute(s) || starts_here(s)) && k > 0 {
            assert(all[k] == spans_from(s, 1)[k - 1]);
        }
    }
}

pub open spec fn as_ints(spans: Seq<(usize, usize)>) -> Seq<(int, int)> {
    spans.map_values(|p: (usize, usize)| (p.0 as int, p.1 as int))
}

fn spans_of(s: &[char]) -> (r: Vec<(usize, usize)>)
    ensures
        as_ints(r@) == spans(s@),
        forall|k: int| 0 <= k < r@.len() ==> (#[trigger] r@[k]).0 < r@[k].1 <= s@.len(),
{
    let n: usize = s.len();
    let mut r: Vec<(usize, usize)> = Vec::new();
    let mut i: usize = 0;
    if n > 0 && (s[0] == '/' || (s[0] == '.' && (n == 1 || s[1] == '/'))) {
        r.push((0, 1));
        i = 1;
    }
    let ghost head = as_ints(r@);
    assert(spans(s@) =~= head + spans_from(s@, i as int));
    while i < n
        invariant
            i <= n == s@.len(),
            spans(s@) == as_ints(r@) + spans_from(s@, i as int),
        decreases n - i,
    {
        let mut j: usize = i;
        while j < n && s[j] != '/'
            invariant
                i <= j <= n == s@.len(),
                next_slash(s@, i as int) == next_slash(s@, j as int),
            decreases n - j,
        {
            j = j + 1;
        }
        assert(next_slash(s@, i as int) == j);
        let ghost piece = s@.subrange(i as int, j as int);
        let ghost rest = spans_from(s@, j + 1);
        let idle: bool = j == i || (j - i == 1 && s[i] == '.');
        assert(idle == idle_piece(piece)) by {
            if j > i {
                assert(piece[0] == s@[i as int]);
            }
        }
        let ghost before = as_ints(r@);
        if !idle {
            r.push((i, j));
            assert(as_ints(r@) =~= before.push((i as int, j as int)));
        }
        assert(spans(s@) =~= as_ints(r@) + rest);
        if j < n {
            i = j + 1;
        } else {
            assert(rest =~= spans_from(s@, n as int));
            i = n;
        }
    }
    assert(as_ints(r@) =~= spans(s@));
    proof {
        spans_bounds(s@);
        assert forall|k: int| 0 <= k < r@.len() implies (#[trigger] r@[k]).0 < r@[k].1
            <= s@.len() by {
            assert(as_ints(r@)[k] == spans(s@)[k]);
        }
    }
    r
}

/// Whether two texts name the same path.
pub fn is_same_path(a: &[char], b: &[char]) -> (r: bool)
    ensures
        r == same_path(a@, b@),
{
    let x = spans_of(a);
    let y = spans_of(b);
    if x.len() != y.len() {
        assert(components(a@).len() == x@.len());
        assert(components(b@).len() == y@.len());
        return false;
    }
    let same = shared_components(a, &x, b, &y, x.len());
    assert(components(a@).take(x@.len() as int) =~= components(a@));
    assert(components(b@).take(x@.len() as int) =~= components(b@));
    same
}

/// Whether the first `n` components of two paths are the same.
fn shared_components(
    a: &[char],
    x: &Vec<(usize, usize)>,
    b: &[char],
    y: &Vec<(usize, usize)>,
    n: usize,
) -> (r: bool)
    requires
        as_ints(x@) == spans(a@),
        as_ints(y@) == spans(b@),
        n <= x@.len(),
        n <= y@.len(),
        forall|k: int| 0 <= k < x@.len() ==> (#[trigger] x@[k]).0 < x@[k].1 <= a@.len(),
        forall|k: int| 0 <= k < y@.len() ==> (#[trigger] y@[k]).0 < y@[k].1 <= b@.len(),
    ensures
        r == (components(a@).take(n as int) == components(b@).take(n as int)),
{
    let mut i: usize = 0;
    while i < n
        invariant
            i <= n,
            n <= x@.len(),
            n <= y@.len(),
            as_ints(x@) == spans(a@),
            as_ints(y@) == spans(b@),
            forall|k: int| 0 <= k < x@.len() ==> (#[trigger] x@[k]).0 < x@[k].1 <= a@.len(),
            forall|k: int| 0 <= k < y@.len() ==> (#[trigger] y@[k]).0 < y@[k].1 <= b@.len(),
            forall|k: int| 0 <= k < i ==> components(a@)[k] == #[trigger] components(b@)[k],
        decreases n - i,
    {
        let (p, q) = x[i];
        let (u, v) = y[i];
        let left = text::slice_of(a, p, q);
        let right = text::slice_of(b, u, v);
        assert(as_ints(x@)[i as int] == spans(a@)[i as int]);
        assert(as_ints(y@)[i as int] == spans(b@)[i as int]);
        assert(left@ == components(a@)[i as int]);
        assert(right@ == components(b@)[i as int]);
        if !text::same(&left, &right) {
            assert(components(a@).take(n as int)[i as int] != components(b@).take(
                n as int,
            )[i as int]);
            return false;
        }
        i = i + 1;
    }
    assert(components(a@).len() == x@.len());
    assert(components(b@).len() == y@.len());
    assert(components(a@).take(n as int) =~= components(b@).take(n as int));
    true
}

/// The last component of a path, if it is a name.
pub fn name_of(s: &[char]) -> (r: Option<Vec<char>>)
    ensures
        r is Some <==> file_name(s@) is Some,
        r matches Some(name) ==> Some(name@) == file_name(s@),
{
    let all = spans_of(s);
    assert(components(s@).len() == all@.len());
    if all.len() == 0 {
        return None;
    }
    let (p, q) = all[all.len() - 1];
    let name = text::slice_of(s, p, q);
    proof {
        let last = all@.len() - 1;
        assert(as_ints(all@)[last] == spans(s@)[last]);
        assert(name@ == components(s@).last());
        if name@.len() == 1 && name@[0] == '/' {
            assert(name@ =~= seq!['/']);
        }
        if name@.len() == 1 && name@[0] == '.' {
            assert(name@ =~= seq!['.']);
        }
        if name@.len() == 2 && name@[0] == '.' && name@[1] == '.' {
            assert(name@ =~= seq!['.', '.']);
        }
    }
    if name.len() == 1 && (name[0] == '/' || name[0] == '.') {
        return None;
    }
    if name.len() == 2 && name[0] == '.' && name[1] == '.' {
        return None;
    }
    Some(name)
}

/// Where the last dot of a name is, if it has one past its first character.
fn dot_in(name: &[char]) -> (r: Option<usize>)
    ensures
        r is Some <==> last_dot(name@) is Some,
        r matches Some(i) ==> last_dot(name@) == Some(i as int) && i < name@.len(),
{
    let mut n: usize = name.len();
    assert(name@.take(n as int) =~= name@);
    while n > 1
        invariant
            n <= name@.len(),
            last_dot(name@) == last_dot(name@.take(n as int)),
        decreases n,
    {
        assert(name@.take(n as int).drop_last() =~= name@.take(n - 1));
        if name[n - 1] == '.' {
            return Some(n - 1);
        }
        n = n - 1;
    }
    None
}

/// A file's name without its extension.
pub fn stem_of(s: &[char]) -> (r: Option<Vec<char>>)
    ensures
        r is Some <==> file_stem(s@) is Some,
        r matches Some(stem) ==> Some(stem@) == file_stem(s@),
{
    match name_of(s) {
        Some(name) => match dot_in(&name) {
            Some(i) => {
                let stem = text::slice_of(&name, 0, i);
                assert(stem@ =~= name@.take(i as int));
                Some(stem)
            },
            None => Some(name),
        },
        None => None,
    }
}

/// What stands behind the last dot of a file's name.
pub fn extension_of(s: &[char]) -> (r: Option<Vec<char>>)
    ensures
        r is Some <==> extension(s@) is Some,
        r matches Some(ext) ==> Some(ext@) == extension(s@),
{
    match name_of(s) {
        Some(name) => match dot_in(&name) {
            Some(i) => {
                let end: usize = name.len();
                let ext = text::slice_of(&name, i + 1, end);
                assert(ext@ =~= name@.skip(i + 1));
                Some(ext)
            },
            None => None,
        },
        None => None,
    }
}

/// The path without its last component: none for the root and for nothing.
pub fn parent_of(s: &[char]) -> (r: Option<Vec<char>>)
    ensures
        r is Some <==> parent(s@) is Some,
        r matches Some(p) ==> Some(p@) == parent(s@),
{
    let all = spans_of(s);
    assert(spans(s@).len() == all@.len());
    if all.len() == 0 {
        return None;
    }
    if all.len() == 1 {
        assert(as_ints(all@)[0] == spans(s@)[0]);
        if s[0] == '/' {
            return None;
        }
        let none: Vec<char> = Vec::new();
        assert(none@ =~= Seq::<char>::empty());
        return Some(none);
    }
    let (_, end) = all[all.len() - 2];
    assert(as_ints(all@)[all@.len() - 2] == spans(s@)[all@.len() - 2]);
    let p = text::slice_of(s, 0, end);
    assert(p@ =~= s@.take(end as int));
    Some(p)
}

/// What is left of a path below `base`, if it is below it or the same.
pub fn strip_prefix(s: &[char], base: &[char]) -> (r: Option<Vec<char>>)
    ensures
        r is Some <==> below(s@, base@) is Some,
        r matches Some(rest) ==> Some(rest@) == below(s@, base@),
{
    let all = spans_of(s);
    let head = spans_of(base);
    let n: usize = head.len();
    assert(components(base@).len() == n);
    assert(spans(s@).len() == all@.len());
    if n > all.len() {
        return None;
    }
    assert(components(base@).take(n as int) =~= components(base@));
    if !shared_components(s, &all, base, &head, n) {
        return None;
    }
    if n == all.len() {
        let none: Vec<char> = Vec::new();
        assert(none@ =~= Seq::<char>::empty());
        return Some(none);
    }
    let (from, _) = all[n];
    let (_, to) = all[all.len() - 1];
    assert(as_ints(all@)[n as int] == spans(s@)[n as int]);
    assert(as_ints(all@)[all@.len() - 1] == spans(s@)[all@.len() - 1]);
    proof {
        spans_in_order(s@, n as int, all@.len() - 1);
    }
    Some(text::slice_of(s, from, to))
}

proof fn spans_from_in_order(s: Seq<char>, i: int, a: int, b: int)
    requires
        0 <= i,
        0 <= a <= b < spans_from(s, i).len(),
    ensures
        spans_from(s, i)[a].0 <= spans_from(s, i)[b].0,
    decreases s.len() + 1 - i,
{
    if i < s.len() {
        let j = next_slash(s, i);
        next_slash_bounds(s, i);
        let rest = spans_from(s, j + 1);
        spans_from_bounds(s, j + 1);
        if idle_piece(s.subrange(i, j)) {
            spans_from_in_order(s, j + 1, a, b);
        } else if a > 0 {
            spans_from_in_order(s, j + 1, a - 1, b - 1);
        } else if b > 0 {
            assert(spans_from(s, i)[b] == rest[b - 1]);
        }
    }
}

proof fn spans_in_order(s: Seq<char>, a: int, b: int)
    requires
        0 <= a <= b < spans(s).len(),
    ensures
        spans(s)[a].0 <= spans(s)[b].0,
        spans(s)[a].0 <= spans(s)[b].1,
{
    spans_bounds(s);
    if is_absolute(s) || starts_here(s) {
        spans_from_bounds(s, 1);
        if a > 0 {
            spans_from_in_order(s, 1, a - 1, b - 1);
        }
    } else {
        spans_from_in_order(s, 0, a, b);
    }
}

/// `base` with `name` behind it. An absolute `name` stands for itself.
pub fn join(base: &[char], name: &str) -> (r: Vec<char>)
    ensures
        r@ == joined(base@, name@),
{
    let tail = text::chars_of(name);
    if tail.len() > 0 && tail[0] == '/' {
        return tail;
    }
    let mut r = text::slice_of(base, 0, base.len());
    assert(r@ =~= base@);
    if r.len() > 0 && r[r.len() - 1] != '/' {
        r.push('/');
    }
    text::append_chars(&mut r, &tail);
    assert(r@ =~= joined(base@, name@));
    r
}

// ── Laws ────────────────────────────────────────────────────────────────

/// A path is below itself with nothing left over.
pub proof fn a_path_is_below_itself(s: Seq<char>)
    ensures
        below(s, s) == Some(Seq::<char>::empty()),
{
    assert(components(s).len() == spans(s).len());
    assert(components(s).take(components(s).len() as int) =~= components(s));
}

/// A file's name is its stem, or its stem, a dot and its extension.
pub proof fn stem_and_extension_make_the_name(s: Seq<char>)
    requires
        file_name(s) is Some,
    ensures
        file_stem(s) is Some,
        extension(s) matches Some(ext) ==> file_name(s)->0 == file_stem(s)->0 + seq!['.'] + ext,
        extension(s) is None ==> file_name(s) == file_stem(s),
{
    let name = file_name(s)->0;
    last_dot_is_a_dot(name);
    if let Some(i) = last_dot(name) {
        assert(name =~= name.take(i) + seq!['.'] + name.skip(i + 1));
    }
}

proof fn last_dot_is_a_dot(name: Seq<char>)
    ensures
        last_dot(name) matches Some(i) ==> 0 < i < name.len() && name[i] == '.',
    decreases name.len(),
{
    if name.len() > 1 && name.last() != '.' {
        last_dot_is_a_dot(name.drop_last());
    }
}

/// The piece behind the last slash is the last component.
proof fn the_last_piece_is_last(s: Seq<char>, i: int, k: int)
    requires
        0 <= i <= k + 1 < s.len(),
        s[k] == '/',
        forall|j: int| k < j < s.len() ==> s[j] != '/',
        !idle_piece(s.subrange(k + 1, s.len() as int)),
    ensures
        spans_from(s, i).len() > 0,
        spans_from(s, i).last() == (k + 1, s.len() as int),
    decreases s.len() - i,
{
    next_slash_bounds(s, i);
    let j = next_slash(s, i);
    if i == k + 1 {
        next_slash_is(s, i, s.len() as int);
        assert(spans_from(s, j + 1).len() == 0);
        assert(spans_from(s, i) =~= seq![(i, j)]);
    } else {
        if j > k {
            assert(s[k] != '/');
        }
        the_last_piece_is_last(s, j + 1, k);
    }
}

proof fn next_slash_is(s: Seq<char>, i: int, n: int)
    requires
        0 <= i <= n <= s.len(),
        forall|j: int| i <= j < n ==> s[j] != '/',
        n < s.len() ==> s[n] == '/',
    ensures
        next_slash(s, i) == n,
    decreases n - i,
{
    if i < n {
        next_slash_is(s, i + 1, n);
    }
}

/// A file put in a directory has the name that it was put there by.
pub proof fn a_file_keeps_its_name(dir: Seq<char>, name: Seq<char>)
    requires
        name.len() > 0,
        forall|i: int| 0 <= i < name.len() ==> #[trigger] name[i] != '/',
        name != seq!['.'],
        name != seq!['.', '.'],
    ensures
        file_name(dir + seq!['/'] + name) == Some(name),
        dir.len() > 0 && dir.last() != '/' ==> file_name(joined(dir, name)) == Some(name),
{
    let s = dir + seq!['/'] + name;
    let k = dir.len() as int;
    let n = s.len() as int;
    assert(s.subrange(k + 1, n) =~= name);
    assert forall|j: int| k < j < s.len() implies s[j] != '/' by {
        assert(s[j] == name[j - k - 1]);
    }
    if name.len() == 1 && name[0] == '.' {
        assert(name =~= seq!['.']);
    }
    if is_absolute(s) || starts_here(s) {
        the_last_piece_is_last(s, 1, k);
        let rest = spans_from(s, 1);
        assert(spans(s).last() == rest.last());
    } else {
        the_last_piece_is_last(s, 0, k);
    }
    let all = spans(s);
    assert(components(s).last() == s.subrange(all.last().0, all.last().1));
    assert(name != seq!['/']) by {
        if name == seq!['/'] {
            assert(name[0] == '/');
        }
    }
    assert(!is_absolute(name));
}

/// The extension is what stands behind the last dot, and a name that only
/// starts with a dot has none.
pub proof fn the_extension_is_behind_the_last_dot(s: Seq<char>)
    ensures
        extension(s) matches Some(e) ==> forall|i: int| 0 <= i < e.len() ==> #[trigger] e[i] != '.',
        extension(s) is Some ==> file_stem(s) is Some && file_stem(s)->0.len() > 0,
        extension(s) is None && file_name(s) is Some ==> forall|i: int|
            1 <= i < file_name(s)->0.len() ==> #[trigger] file_name(s)->0[i] != '.',
{
    if let Some(name) = file_name(s) {
        no_dot_behind_the_last(name);
        if let Some(d) = last_dot(name) {
            let e = name.skip(d + 1);
            assert forall|i: int| 0 <= i < e.len() implies #[trigger] e[i] != '.' by {
                assert(e[i] == name[d + 1 + i]);
            }
        }
    }
}

proof fn no_dot_behind_the_last(name: Seq<char>)
    ensures
        match last_dot(name) {
            Some(d) => 0 < d < name.len() && forall|i: int|
                d < i < name.len() ==> #[trigger] name[i] != '.',
            None => forall|i: int| 1 <= i < name.len() ==> #[trigger] name[i] != '.',
        },
    decreases name.len(),
{
    if name.len() > 1 && name.last() != '.' {
        let init = name.drop_last();
        no_dot_behind_the_last(init);
        match last_dot(init) {
            Some(d) => {
                assert forall|i: int| d < i < name.len() implies #[trigger] name[i] != '.' by {
                    if i < init.len() {
                        assert(init[i] == name[i]);
                    }
                }
            },
            None => {
                assert forall|i: int| 1 <= i < name.len() implies #[trigger] name[i] != '.' by {
                    if i < init.len() {
                        assert(init[i] == name[i]);
                    }
                }
            },
        }
    }
}

/// What stands behind a directory adds its components to those of the
/// directory.
proof fn spans_go_on(dir: Seq<char>, tail: Seq<char>, i: int)
    requires
        0 <= i <= dir.len(),
    ensures
        ({
            let s = dir + seq!['/'] + tail;
            spans_from(s, i) == spans_from(dir, i) + spans_from(s, dir.len() as int + 1)
        }),
    decreases dir.len() - i,
{
    let s = dir + seq!['/'] + tail;
    let n = dir.len() as int;
    next_slash_bounds(dir, i);
    let j = next_slash(dir, i);
    assert forall|k: int| i <= k < j implies s[k] != '/' by {
        assert(s[k] == dir[k]);
    }
    if j < n {
        next_slash_stops(dir, i);
        assert(s[j] == dir[j]);
    } else {
        assert(s[j] == '/');
    }
    next_slash_is(s, i, j);
    assert(s.subrange(i, j) =~= dir.subrange(i, j));
    if j < n {
        spans_go_on(dir, tail, j + 1);
        let more = spans_from(s, n + 1);
        assert(seq![(i, j)] + (spans_from(dir, j + 1) + more) =~= (seq![(i, j)] + spans_from(
            dir,
            j + 1,
        )) + more);
    } else {
        let more = spans_from(s, n + 1);
        let none = Seq::<(int, int)>::empty();
        assert(none + more =~= more);
        assert(seq![(i, j)] + none =~= seq![(i, j)]);
        assert(spans_from(dir, j + 1) =~= none);
        if i == n {
            assert(s.subrange(i, j).len() == 0);
            assert(spans_from(dir, i) =~= none);
        }
    }
}

proof fn next_slash_stops(s: Seq<char>, i: int)
    requires
        0 <= i <= s.len(),
    ensures
        next_slash(s, i) < s.len() ==> s[next_slash(s, i)] == '/',
    decreases s.len() - i,
{
    if i < s.len() && s[i] != '/' {
        next_slash_stops(s, i + 1);
    }
}

/// Where the last piece of a path is a component, the components end where the
/// path does.
proof fn components_reach_the_end(dir: Seq<char>, i: int)
    requires
        0 <= i < dir.len(),
        dir.last() != '/',
        dir.last() != '.',
    ensures
        spans_from(dir, i).len() > 0,
        spans_from(dir, i).last().1 == dir.len(),
    decreases dir.len() - i,
{
    next_slash_bounds(dir, i);
    next_slash_stops(dir, i);
    let j = next_slash(dir, i);
    if j == dir.len() {
        let piece = dir.subrange(i, j);
        assert(piece.last() == dir.last());
        assert(spans_from(dir, j + 1).len() == 0);
        assert(spans_from(dir, i) =~= seq![(i, j)]);
    } else {
        assert(dir[dir.len() - 1] != '/');
        components_reach_the_end(dir, j + 1);
    }
}

/// A file in a directory is below the directory by its own name, and the way
/// up from it leads back to the directory.
pub proof fn a_file_is_below_its_directory(dir: Seq<char>, name: Seq<char>)
    requires
        dir.len() > 1,
        dir.last() != '/',
        dir.last() != '.',
        name.len() > 0,
        forall|i: int| 0 <= i < name.len() ==> #[trigger] name[i] != '/',
        name != seq!['.'],
    ensures
        below(dir + seq!['/'] + name, dir) == Some(name),
        parent(dir + seq!['/'] + name) == Some(dir),
{
    let s = dir + seq!['/'] + name;
    let k = dir.len() as int;
    let n = s.len() as int;
    assert(s.subrange(k + 1, n) =~= name);
    assert forall|j: int| k < j < s.len() implies s[j] != '/' by {
        assert(s[j] == name[j - k - 1]);
    }
    if name.len() == 1 && name[0] == '.' {
        assert(name =~= seq!['.']);
    }
    assert(s[0] == dir[0] && s[1] == dir[1]);
    let from = if is_absolute(dir) || starts_here(dir) {
        1int
    } else {
        0
    };
    spans_go_on(dir, name, from);
    next_slash_is(s, k + 1, n);
    assert(spans_from(s, n + 1).len() == 0);
    assert(spans_from(s, k + 1) =~= seq![(k + 1, n)]);
    components_reach_the_end(dir, from);
    let all = spans(s);
    let own = spans(dir);
    assert(all =~= own.push((k + 1, n)));
    assert(own.last().1 == k);
    spans_bounds(dir);
    assert(components(s).take(own.len() as int) =~= components(dir)) by {
        assert forall|c: int| 0 <= c < own.len() implies components(s)[c] == components(
            dir,
        )[c] by {
            assert(all[c] == own[c]);
            assert(s.subrange(own[c].0, own[c].1) =~= dir.subrange(own[c].0, own[c].1));
        }
    }
    assert(components(dir).len() == own.len());
    assert(all[own.len() as int] == (k + 1, n));
    assert(all[all.len() - 2] == own[own.len() - 1]);
    assert(s.take(k) =~= dir);
}

} // verus!

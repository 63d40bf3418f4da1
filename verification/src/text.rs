//! Strings as sequences of characters: trimming, searching, numbers and
//! case, each against a short statement of what it means.

use vstd::prelude::*;
use vstd::string::*;

verus! {

// ── Between strings and characters ──────────────────────────────────────

/// `String::push`: appends one character and leaves the rest alone.
#[verifier::external_body]
fn push_char(s: &mut String, c: char)
    ensures
        final(s)@ == old(s)@.push(c),
{
    s.push(c)
}

/// The characters of `s`.
pub fn chars_of(s: &str) -> (r: Vec<char>)
    ensures
        r@ == s@,
{
    let mut r: Vec<char> = Vec::new();
    for c in it: s.chars()
        invariant
            r@ == it.seq().take(it.index()),
            it.seq() == s@,
    {
        r.push(c);
    }
    r
}

/// The string made of `chars`.
pub fn string_of(chars: &[char]) -> (r: String)
    ensures
        r@ == chars@,
{
    let mut r = String::new();
    let mut i: usize = 0;
    while i < chars.len()
        invariant
            i <= chars@.len(),
            r@ == chars@.take(i as int),
        decreases chars@.len() - i,
    {
        push_char(&mut r, chars[i]);
        i = i + 1;
    }
    r
}

/// Whether two character slices hold the same text.
pub fn same(a: &[char], b: &[char]) -> (r: bool)
    ensures
        r == (a@ == b@),
{
    if a.len() != b.len() {
        return false;
    }
    let mut i: usize = 0;
    while i < a.len()
        invariant
            i <= a@.len(),
            a@.len() == b@.len(),
            forall|k: int| 0 <= k < i ==> a@[k] == b@[k],
        decreases a@.len() - i,
    {
        if a[i] != b[i] {
            assert(a@[i as int] != b@[i as int]);
            return false;
        }
        i = i + 1;
    }
    assert(a@ =~= b@);
    true
}

/// Whether two strings hold the same text.
pub fn same_str(a: &str, b: &str) -> (r: bool)
    ensures
        r == (a@ == b@),
{
    let x = chars_of(a);
    let y = chars_of(b);
    same(&x, &y)
}

/// Whether `chars` spell `s`.
pub fn is(chars: &[char], s: &str) -> (r: bool)
    ensures
        r == (chars@ == s@),
{
    let other = chars_of(s);
    same(chars, &other)
}

/// Appends `src` to `dst`.
pub fn append_chars(dst: &mut Vec<char>, src: &[char])
    ensures
        final(dst)@ == old(dst)@ + src@,
{
    let ghost before = dst@;
    let mut i: usize = 0;
    while i < src.len()
        invariant
            i <= src@.len(),
            dst@ == before + src@.take(i as int),
        decreases src@.len() - i,
    {
        dst.push(src[i]);
        assert(dst@ =~= before + src@.take(i + 1));
        i = i + 1;
    }
    assert(src@.take(i as int) =~= src@);
}

/// Appends the characters of `src` to `dst`.
pub fn append_str(dst: &mut Vec<char>, src: &str)
    ensures
        final(dst)@ == old(dst)@ + src@,
{
    let chars = chars_of(src);
    append_chars(dst, &chars);
}

/// A copy of the characters from `from` up to `to`.
pub fn slice_of(chars: &[char], from: usize, to: usize) -> (r: Vec<char>)
    requires
        from <= to <= chars@.len(),
    ensures
        r@ == chars@.subrange(from as int, to as int),
{
    let mut r: Vec<char> = Vec::new();
    let mut i: usize = from;
    while i < to
        invariant
            from <= i <= to <= chars@.len(),
            r@ == chars@.subrange(from as int, i as int),
        decreases to - i,
    {
        r.push(chars[i]);
        assert(r@ =~= chars@.subrange(from as int, i + 1));
        i = i + 1;
    }
    r
}

// ── White space ─────────────────────────────────────────────────────────

/// The Unicode `White_Space` property.
pub open spec fn white_space(c: char) -> bool {
    let u = c as int;
    ||| 0x09 <= u <= 0x0d
    ||| u == 0x20
    ||| u == 0x85
    ||| u == 0xa0
    ||| u == 0x1680
    ||| 0x2000 <= u <= 0x200a
    ||| u == 0x2028
    ||| u == 0x2029
    ||| u == 0x202f
    ||| u == 0x205f
    ||| u == 0x3000
}

pub fn is_white_space(c: char) -> (r: bool)
    ensures
        r == white_space(c),
{
    let u: u32 = c as u32;
    (0x09 <= u && u <= 0x0d) || u == 0x20 || u == 0x85 || u == 0xa0 || u == 0x1680 || (0x2000 <= u
        && u <= 0x200a) || u == 0x2028 || u == 0x2029 || u == 0x202f || u == 0x205f || u == 0x3000
}

/// `s` without the white space it starts with.
pub open spec fn trim_start(s: Seq<char>) -> Seq<char>
    decreases s.len(),
{
    if s.len() > 0 && white_space(s[0]) {
        trim_start(s.drop_first())
    } else {
        s
    }
}

/// `s` without the white space it ends with.
pub open spec fn trim_end(s: Seq<char>) -> Seq<char>
    decreases s.len(),
{
    if s.len() > 0 && white_space(s.last()) {
        trim_end(s.drop_last())
    } else {
        s
    }
}

/// `s` without the white space at either end.
pub open spec fn trim(s: Seq<char>) -> Seq<char> {
    trim_end(trim_start(s))
}

/// Where the trimmed text starts and ends within `chars`.
pub fn trim_bounds(chars: &[char]) -> (r: (usize, usize))
    ensures
        r.0 <= r.1 <= chars@.len(),
        trim(chars@) == chars@.subrange(r.0 as int, r.1 as int),
{
    let n: usize = chars.len();
    assert(chars@.subrange(0, n as int) =~= chars@);
    let mut a: usize = 0;
    while a < n && is_white_space(chars[a])
        invariant
            a <= n == chars@.len(),
            trim_start(chars@) == trim_start(chars@.subrange(a as int, n as int)),
        decreases n - a,
    {
        assert(chars@.subrange(a as int, n as int).drop_first() =~= chars@.subrange(
            a + 1,
            n as int,
        ));
        a = a + 1;
    }
    assert(trim_start(chars@) == chars@.subrange(a as int, n as int));
    let mut b: usize = n;
    while b > a && is_white_space(chars[b - 1])
        invariant
            a <= b <= n == chars@.len(),
            trim_end(chars@.subrange(a as int, n as int)) == trim_end(
                chars@.subrange(a as int, b as int),
            ),
        decreases b - a,
    {
        assert(chars@.subrange(a as int, b as int).drop_last() =~= chars@.subrange(
            a as int,
            b - 1,
        ));
        b = b - 1;
    }
    (a, b)
}

/// A trimmed copy of `chars`.
pub fn trimmed(chars: &[char]) -> (r: Vec<char>)
    ensures
        r@ == trim(chars@),
{
    let (a, b) = trim_bounds(chars);
    slice_of(chars, a, b)
}

/// Trimming twice trims no more than trimming once.
pub proof fn trim_is_idempotent(s: Seq<char>)
    ensures
        trim(trim(s)) == trim(s),
{
    let t = trim_start(s);
    trim_start_stops(s);
    trim_end_stops(t);
    trim_end_is_prefix(t);
    let u = trim_end(t);
    if u.len() > 0 {
        assert(u[0] == t[0]);
    }
    assert(trim_start(u) == u);
    assert(trim_end(u) == u);
}

proof fn trim_start_stops(s: Seq<char>)
    ensures
        trim_start(s).len() == 0 || !white_space(trim_start(s)[0]),
    decreases s.len(),
{
    if s.len() > 0 && white_space(s[0]) {
        trim_start_stops(s.drop_first());
    }
}

proof fn trim_end_stops(s: Seq<char>)
    ensures
        trim_end(s).len() == 0 || !white_space(trim_end(s).last()),
    decreases s.len(),
{
    if s.len() > 0 && white_space(s.last()) {
        trim_end_stops(s.drop_last());
    }
}

proof fn trim_end_is_prefix(s: Seq<char>)
    ensures
        trim_end(s).len() <= s.len(),
        trim_end(s) == s.take(trim_end(s).len() as int),
    decreases s.len(),
{
    if s.len() > 0 && white_space(s.last()) {
        trim_end_is_prefix(s.drop_last());
        let k = trim_end(s).len() as int;
        assert(s.drop_last().take(k) =~= s.take(k));
    } else {
        assert(s.take(s.len() as int) =~= s);
    }
}

// ── Numbers ─────────────────────────────────────────────────────────────

pub open spec fn is_digit(c: char) -> bool {
    '0' <= c <= '9'
}

pub fn ascii_digit(c: char) -> (r: bool)
    ensures
        r == is_digit(c),
{
    c >= '0' && c <= '9'
}

pub open spec fn all_digits(s: Seq<char>) -> bool {
    forall|i: int| 0 <= i < s.len() ==> is_digit(#[trigger] s[i])
}

/// The number that a run of decimal digits stands for.
pub open spec fn digits_value(s: Seq<char>) -> nat
    decreases s.len(),
{
    if s.len() == 0 {
        0
    } else {
        digits_value(s.drop_last()) * 10 + (s.last() as int - '0' as int) as nat
    }
}

/// What an unsigned number no greater than `max` reads as: an optional plus
/// sign and at least one decimal digit, and nothing else.
pub open spec fn parse_unsigned(s: Seq<char>, max: nat) -> Option<nat> {
    let body = if s.len() > 0 && s[0] == '+' {
        s.drop_first()
    } else {
        s
    };
    if body.len() == 0 || !all_digits(body) || digits_value(body) > max {
        None
    } else {
        Some(digits_value(body))
    }
}

/// Reads an unsigned number that fits in 64 bits.
pub fn parse_u64(chars: &[char]) -> (r: Option<u64>)
    ensures
        r matches Some(v) ==> parse_unsigned(chars@, u64::MAX as nat) == Some(v as nat),
        r is None ==> parse_unsigned(chars@, u64::MAX as nat) is None,
{
    let n: usize = chars.len();
    let from: usize = if n > 0 && chars[0] == '+' {
        1
    } else {
        0
    };
    let ghost body = chars@.subrange(from as int, n as int);
    proof {
        if from == 1 {
            assert(body =~= chars@.drop_first());
        } else {
            assert(body =~= chars@);
        }
    }
    if from == n {
        return None;
    }
    let mut i: usize = from;
    let mut value: u64 = 0;
    let mut overflow: bool = false;
    while i < n
        invariant
            from <= i <= n == chars@.len(),
            body == chars@.subrange(from as int, n as int),
            body == if chars@.len() > 0 && chars@[0] == '+' {
                chars@.drop_first()
            } else {
                chars@
            },
            all_digits(body.take(i - from)),
            !overflow ==> value == digits_value(body.take(i - from)),
            overflow ==> digits_value(body.take(i - from)) > u64::MAX,
        decreases n - i,
    {
        let c: char = chars[i];
        let ghost k = i - from;
        assert(body[k] == c);
        if !ascii_digit(c) {
            assert(!all_digits(body)) by {
                assert(!is_digit(body[k]));
            }
            return None;
        }
        proof {
            let longer = body.take(k + 1);
            assert(longer.drop_last() =~= body.take(k));
            assert(longer.last() == c);
            assert forall|j: int| 0 <= j < longer.len() implies is_digit(#[trigger] longer[j]) by {
                if j < k {
                    assert(longer[j] == body.take(k)[j]);
                }
            }
        }
        let d: u64 = (c as u32 - '0' as u32) as u64;
        if !overflow {
            if value > (u64::MAX - d) / 10 {
                overflow = true;
            } else {
                value = value * 10 + d;
            }
        }
        i = i + 1;
    }
    assert(body.take(n - from) =~= body);
    if overflow {
        None
    } else {
        Some(value)
    }
}

/// Reads an unsigned number that fits in 32 bits.
pub fn parse_u32(chars: &[char]) -> (r: Option<u32>)
    ensures
        r matches Some(v) ==> parse_unsigned(chars@, u32::MAX as nat) == Some(v as nat),
        r is None ==> parse_unsigned(chars@, u32::MAX as nat) is None,
{
    match parse_u64(chars) {
        Some(v) => if v <= 0xffff_ffff {
            Some(v as u32)
        } else {
            None
        },
        None => None,
    }
}

pub open spec fn digit_char(d: nat) -> char {
    ('0' as int + d) as char
}

/// `n` in decimal, with no leading zeros.
pub open spec fn decimal(n: nat) -> Seq<char>
    decreases n,
{
    if n < 10 {
        seq![digit_char(n)]
    } else {
        decimal(n / 10).push(digit_char(n % 10))
    }
}

/// `n` in decimal, with a leading zero below ten.
pub open spec fn two_digits(n: nat) -> Seq<char> {
    if n < 10 {
        seq!['0', digit_char(n)]
    } else {
        decimal(n)
    }
}

fn digit_of(d: u64) -> (r: char)
    requires
        d < 10,
    ensures
        r == digit_char(d as nat),
{
    (48u8 + d as u8) as char
}

/// Appends `n` in decimal.
pub fn append_decimal(dst: &mut Vec<char>, n: u64)
    ensures
        final(dst)@ == old(dst)@ + decimal(n as nat),
    decreases n,
{
    let ghost before = dst@;
    if n >= 10 {
        append_decimal(dst, n / 10);
    }
    dst.push(digit_of(n % 10));
    assert(dst@ =~= before + decimal(n as nat));
}

/// Appends `n` in decimal, with a leading zero below ten.
pub fn append_two_digits(dst: &mut Vec<char>, n: u64)
    ensures
        final(dst)@ == old(dst)@ + two_digits(n as nat),
{
    let ghost before = dst@;
    if n < 10 {
        dst.push('0');
    }
    append_decimal(dst, n);
    assert(dst@ =~= before + two_digits(n as nat));
}

/// Reading back what was written in decimal gives the number again.
pub proof fn decimal_reads_back(n: nat, max: nat)
    requires
        n <= max,
    ensures
        parse_unsigned(decimal(n), max) == Some(n),
{
    decimal_digits(n);
    assert(is_digit(decimal(n)[0]));
}

proof fn decimal_digits(n: nat)
    ensures
        decimal(n).len() > 0,
        all_digits(decimal(n)),
        digits_value(decimal(n)) == n,
    decreases n,
{
    reveal_with_fuel(digits_value, 2);
    let s = decimal(n);
    if n >= 10 {
        decimal_digits(n / 10);
        assert(s.drop_last() =~= decimal(n / 10));
        assert forall|i: int| 0 <= i < s.len() implies is_digit(#[trigger] s[i]) by {
            if i < s.len() - 1 {
                assert(s[i] == decimal(n / 10)[i]);
            }
        }
    } else {
        assert(s.drop_last() =~= Seq::<char>::empty());
    }
}

// ── Searching ───────────────────────────────────────────────────────────

/// Whether `needle` stands in `s` at position `i`.
pub open spec fn occurs_at(s: Seq<char>, needle: Seq<char>, i: int) -> bool {
    0 <= i && i + needle.len() <= s.len() && s.subrange(i, i + needle.len()) == needle
}

pub open spec fn contains_text(s: Seq<char>, needle: Seq<char>) -> bool {
    exists|i: int| occurs_at(s, needle, i)
}

/// Whether `s` starts with `prefix`.
pub open spec fn has_prefix(s: Seq<char>, prefix: Seq<char>) -> bool {
    occurs_at(s, prefix, 0)
}

pub fn is_at(chars: &[char], needle: &[char], i: usize) -> (r: bool)
    requires
        i <= chars@.len(),
    ensures
        r == occurs_at(chars@, needle@, i as int),
{
    if needle.len() > chars.len() - i {
        return false;
    }
    let mut k: usize = 0;
    while k < needle.len()
        invariant
            k <= needle@.len(),
            i + needle.len() <= chars.len(),
            forall|j: int| 0 <= j < k ==> chars@[i + j] == needle@[j],
        decreases needle@.len() - k,
    {
        if chars[i + k] != needle[k] {
            assert(chars@.subrange(i as int, i + needle@.len())[k as int] != needle@[k as int]);
            return false;
        }
        k = k + 1;
    }
    assert(chars@.subrange(i as int, i + needle@.len()) =~= needle@);
    true
}

pub fn starts_with(chars: &[char], prefix: &str) -> (r: bool)
    ensures
        r == has_prefix(chars@, prefix@),
{
    let p = chars_of(prefix);
    is_at(chars, &p, 0)
}

/// Whether `needle` occurs anywhere in `chars`.
pub fn contains(chars: &[char], needle: &str) -> (r: bool)
    ensures
        r == contains_text(chars@, needle@),
{
    let p = chars_of(needle);
    let mut i: usize = 0;
    while i <= chars.len()
        invariant
            i <= chars@.len() + 1,
            p@ == needle@,
            forall|k: int| 0 <= k < i ==> !occurs_at(chars@, needle@, k),
        decreases chars@.len() + 1 - i,
    {
        if is_at(chars, &p, i) {
            return true;
        }
        if i == chars.len() {
            assert forall|k: int| !occurs_at(chars@, needle@, k) by {}
            return false;
        }
        i = i + 1;
    }
    false
}

// ── Case ────────────────────────────────────────────────────────────────

pub open spec fn ascii_lower_char(c: char) -> char {
    if 'A' <= c <= 'Z' {
        (c as int + 32) as char
    } else {
        c
    }
}

pub open spec fn ascii_upper_char(c: char) -> char {
    if 'a' <= c <= 'z' {
        (c as int - 32) as char
    } else {
        c
    }
}

pub open spec fn ascii_lower(s: Seq<char>) -> Seq<char> {
    s.map_values(|c: char| ascii_lower_char(c))
}

pub open spec fn ascii_upper(s: Seq<char>) -> Seq<char> {
    s.map_values(|c: char| ascii_upper_char(c))
}

/// A copy with `A` to `Z` made lower case and everything else kept.
pub fn to_ascii_lower(chars: &[char]) -> (r: Vec<char>)
    ensures
        r@ == ascii_lower(chars@),
{
    let mut r: Vec<char> = Vec::new();
    let mut i: usize = 0;
    while i < chars.len()
        invariant
            i <= chars@.len(),
            r@ == ascii_lower(chars@).take(i as int),
        decreases chars@.len() - i,
    {
        let c: char = chars[i];
        let lower: char = if c >= 'A' && c <= 'Z' {
            (c as u8 + 32u8) as char
        } else {
            c
        };
        r.push(lower);
        assert(r@ =~= ascii_lower(chars@).take(i + 1));
        i = i + 1;
    }
    assert(r@ =~= ascii_lower(chars@));
    r
}

/// The upper-case form of a text under the full Unicode mapping.
pub uninterp spec fn unicode_upper(s: Seq<char>) -> Seq<char>;

/// `str::to_uppercase`: the Unicode upper-case mapping, which on ASCII text
/// is the ASCII one.
#[verifier::external_body]
pub(crate) fn to_upper(s: &str) -> (r: String)
    ensures
        r@ == unicode_upper(s@),
        s.is_ascii() ==> r@ == ascii_upper(s@),
{
    s.to_uppercase()
}

/// The lower-case form of a text under the full Unicode mapping.
pub uninterp spec fn unicode_lower(s: Seq<char>) -> Seq<char>;

/// `str::to_lowercase`: the Unicode lower-case mapping, which on ASCII text
/// is the ASCII one.
#[verifier::external_body]
pub(crate) fn to_lower(s: &str) -> (r: String)
    ensures
        r@ == unicode_lower(s@),
        s.is_ascii() ==> r@ == ascii_lower(s@),
{
    s.to_lowercase()
}

// ── Joining and tidying ─────────────────────────────────────────────────

/// The parts in order with `sep` between them.
pub open spec fn joined(parts: Seq<Seq<char>>, sep: Seq<char>) -> Seq<char>
    decreases parts.len(),
{
    if parts.len() == 0 {
        Seq::empty()
    } else if parts.len() == 1 {
        parts[0]
    } else {
        joined(parts.drop_last(), sep) + sep + parts.last()
    }
}

pub open spec fn texts(parts: Seq<String>) -> Seq<Seq<char>> {
    parts.map_values(|p: String| p@)
}

/// The parts in order with `sep` between them.
pub fn join(parts: &[String], sep: &str) -> (r: Vec<char>)
    ensures
        r@ == joined(texts(parts@), sep@),
{
    let mut r: Vec<char> = Vec::new();
    let ghost all = texts(parts@);
    let mut i: usize = 0;
    while i < parts.len()
        invariant
            i <= parts@.len(),
            all == texts(parts@),
            r@ == joined(all.take(i as int), sep@),
        decreases parts@.len() - i,
    {
        let ghost before = r@;
        if i > 0 {
            append_str(&mut r, sep);
        }
        append_str(&mut r, parts[i].as_str());
        proof {
            let next = all.take(i + 1);
            assert(next.drop_last() =~= all.take(i as int));
            assert(next.last() == parts@[i as int]@);
            if i == 0 {
                assert(r@ =~= next[0]);
            }
        }
        i = i + 1;
    }
    assert(all.take(i as int) =~= all);
    r
}

/// A text with dots and underscores read as spaces.
pub open spec fn spaced(s: Seq<char>) -> Seq<char> {
    s.map_values(
        |c: char|
            if c == '.' || c == '_' {
                ' '
            } else {
                c
            },
    )
}

pub fn to_spaced(chars: &[char]) -> (r: Vec<char>)
    ensures
        r@ == spaced(chars@),
{
    let mut r: Vec<char> = Vec::new();
    let mut i: usize = 0;
    while i < chars.len()
        invariant
            i <= chars@.len(),
            r@ == spaced(chars@).take(i as int),
        decreases chars@.len() - i,
    {
        let c: char = chars[i];
        r.push(
            if c == '.' || c == '_' {
                ' '
            } else {
                c
            },
        );
        assert(r@ =~= spaced(chars@).take(i + 1));
        i = i + 1;
    }
    assert(r@ =~= spaced(chars@));
    r
}

/// A number is written in decimal digits, which read back as the number.
pub proof fn decimal_is_digits(n: nat)
    ensures
        all_digits(decimal(n)),
        decimal(n).len() > 0,
        digits_value(decimal(n)) == n,
    decreases n,
{
    if n < 10 {
        assert(decimal(n).drop_last() =~= Seq::<char>::empty());
        assert(digits_value(Seq::<char>::empty()) == 0);
    } else {
        decimal_is_digits(n / 10);
        assert(decimal(n).drop_last() =~= decimal(n / 10));
        let d = digit_char(n % 10);
        assert(is_digit(d));
        assert forall|i: int| 0 <= i < decimal(n).len() implies is_digit(
            #[trigger] decimal(n)[i],
        ) by {
            if i < decimal(n / 10).len() {
                assert(decimal(n)[i] == decimal(n / 10)[i]);
            }
        }
    }
}

pub(crate) proof fn two_digits_are_two(n: nat)
    requires
        n < 100,
    ensures
        two_digits(n).len() == 2,
{
    if n >= 10 {
        assert(decimal(n / 10).len() == 1);
    }
}

proof fn trim_start_is_a_part(s: Seq<char>) -> (n: int)
    ensures
        0 <= n <= s.len(),
        trim_start(s) == s.skip(n),
        forall|i: int| 0 <= i < n ==> white_space(#[trigger] s[i]),
    decreases s.len(),
{
    if s.len() > 0 && white_space(s[0]) {
        let rest = s.drop_first();
        let n = trim_start_is_a_part(rest);
        assert(rest.skip(n) =~= s.skip(n + 1));
        assert forall|i: int| 0 <= i < n + 1 implies white_space(#[trigger] s[i]) by {
            if i > 0 {
                assert(rest[i - 1] == s[i]);
            }
        }
        n + 1
    } else {
        assert(s.skip(0) =~= s);
        0
    }
}

proof fn trim_end_is_a_part(s: Seq<char>) -> (n: int)
    ensures
        0 <= n <= s.len(),
        trim_end(s) == s.take(n),
        forall|i: int| n <= i < s.len() ==> white_space(#[trigger] s[i]),
    decreases s.len(),
{
    if s.len() > 0 && white_space(s.last()) {
        let rest = s.drop_last();
        let n = trim_end_is_a_part(rest);
        assert(rest.take(n) =~= s.take(n));
        assert forall|i: int| n <= i < s.len() implies white_space(#[trigger] s[i]) by {
            if i < rest.len() {
                assert(rest[i] == s[i]);
            }
        }
        n
    } else {
        assert(s.take(s.len() as int) =~= s);
        s.len() as int
    }
}

/// Trimming takes away white space at the two ends, all of it, and nothing
/// else.
pub proof fn trim_is_a_part(s: Seq<char>)
    ensures
        exists|from: int|
            0 <= from && from + trim(s).len() <= s.len() && trim(s) == #[trigger] s.subrange(
                from,
                from + trim(s).len(),
            ) && (forall|i: int|
                0 <= i < from || from + trim(s).len() <= i < s.len() ==> white_space(
                    #[trigger] s[i],
                )),
        trim(s).len() > 0 ==> !white_space(trim(s)[0]) && !white_space(trim(s).last()),
{
    let a = trim_start_is_a_part(s);
    let t = trim_start(s);
    let n = trim_end_is_a_part(t);
    assert(trim(s) =~= s.subrange(a, a + n));
    assert(trim(s).len() == n);
    assert(trim(s) == s.subrange(a, a + trim(s).len()));
    assert forall|i: int| 0 <= i < a || a + n <= i < s.len() implies white_space(
        #[trigger] s[i],
    ) by {
        if a + n <= i {
            assert(t[i - a] == s[i]);
        }
    }
    trimmed_ends(s);
}

proof fn trimmed_ends(s: Seq<char>)
    ensures
        trim(s).len() > 0 ==> !white_space(trim(s)[0]) && !white_space(trim(s).last()),
{
    start_is_dark(s);
    end_is_dark(trim_start(s));
    let n = trim_end_is_a_part(trim_start(s));
    if trim(s).len() > 0 {
        assert(trim(s)[0] == trim_start(s)[0]);
    }
}

proof fn start_is_dark(s: Seq<char>)
    ensures
        trim_start(s).len() > 0 ==> !white_space(trim_start(s)[0]),
    decreases s.len(),
{
    if s.len() > 0 && white_space(s[0]) {
        start_is_dark(s.drop_first());
    }
}

proof fn end_is_dark(s: Seq<char>)
    ensures
        trim_end(s).len() > 0 ==> !white_space(trim_end(s).last()),
    decreases s.len(),
{
    if s.len() > 0 && white_space(s.last()) {
        end_is_dark(s.drop_last());
    }
}

/// Letters change their case by a fixed distance, everything else is left
/// alone, and the two cases of a text are the same in lower case.
pub proof fn case_is_folded(s: Seq<char>, i: int)
    requires
        0 <= i < s.len(),
    ensures
        ascii_lower(s).len() == s.len(),
        'A' <= s[i] <= 'Z' ==> ascii_lower(s)[i] as int == s[i] as int - 'A' as int + 'a' as int,
        !('A' <= s[i] <= 'Z') ==> ascii_lower(s)[i] == s[i],
        'a' <= s[i] <= 'z' ==> ascii_upper(s)[i] as int == s[i] as int - 'a' as int + 'A' as int,
        !('a' <= s[i] <= 'z') ==> ascii_upper(s)[i] == s[i],
        ascii_lower(ascii_lower(s)) == ascii_lower(s),
        ascii_lower(ascii_upper(s)) == ascii_lower(s),
{
    assert(ascii_lower(ascii_lower(s)) =~= ascii_lower(s));
    assert(ascii_lower(ascii_upper(s)) =~= ascii_lower(s));
}

/// A number is read from its digits, behind a plus sign or not, and from
/// nothing else; and only when it fits.
pub proof fn only_numbers_are_read(s: Seq<char>, max: nat)
    ensures
        parse_unsigned(s, max) matches Some(v) ==> v <= max && s.len() > 0 && (forall|i: int|
            1 <= i < s.len() ==> is_digit(#[trigger] s[i])) && (is_digit(s[0]) || (s[0] == '+'
            && s.len() > 1)),
        s.len() > 0 && all_digits(s) && digits_value(s) <= max ==> parse_unsigned(s, max) == Some(
            digits_value(s),
        ),
        s.len() > 0 && all_digits(s) && digits_value(s) <= max ==> parse_unsigned(
            seq!['+'] + s,
            max,
        ) == Some(digits_value(s)),
{
    let body = if s.len() > 0 && s[0] == '+' {
        s.drop_first()
    } else {
        s
    };
    if parse_unsigned(s, max) is Some {
        assert(all_digits(body));
        assert forall|i: int| 1 <= i < s.len() implies is_digit(#[trigger] s[i]) by {
            if body.len() < s.len() {
                assert(is_digit(body[i - 1]));
            }
        }
        if s[0] != '+' {
            assert(is_digit(body[0]));
        }
    }
    assert((seq!['+'] + s).drop_first() =~= s);
    if s.len() > 0 && all_digits(s) {
        assert(is_digit(s[0]));
    }
}

/// Joining puts the separator between neighbours and nowhere else.
pub proof fn joining_separates(parts: Seq<Seq<char>>, part: Seq<char>, sep: Seq<char>)
    ensures
        joined(Seq::<Seq<char>>::empty(), sep).len() == 0,
        joined(seq![part], sep) == part,
        parts.len() > 0 ==> joined(parts.push(part), sep) == joined(parts, sep) + sep + part,
{
    assert(parts.push(part).drop_last() =~= parts);
}

/// A text holds what is put in it, wherever it stands, and starts with what it
/// is started with.
pub proof fn what_is_put_in_is_found(before: Seq<char>, needle: Seq<char>, after: Seq<char>)
    ensures
        contains_text(before + needle + after, needle),
        has_prefix(needle + after, needle),
        needle.len() > 0 ==> !contains_text(Seq::<char>::empty(), needle),
{
    let s = before + needle + after;
    let n = before.len() as int;
    assert(s.subrange(n, n + needle.len()) =~= needle);
    assert(occurs_at(s, needle, n));
    assert((needle + after).subrange(0, needle.len() as int) =~= needle);
}

} // verus!

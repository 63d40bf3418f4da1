//! Time. Every position and duration is a whole number of nanoseconds.

use vstd::prelude::*;

use crate::text;

verus! {

/// One second.
pub const SECOND: i64 = 1_000_000_000;

/// One millisecond.
pub const MILLISECOND: i64 = 1_000_000;

/// One microsecond, the unit that containers state durations in.
pub const MICROSECOND: i64 = 1_000;

/// The nearest time that can be represented.
pub open spec fn clamped(t: int) -> int {
    if t < i64::MIN {
        i64::MIN as int
    } else if t > i64::MAX {
        i64::MAX as int
    } else {
        t
    }
}

pub fn clamp_time(t: i128) -> (r: i64)
    ensures
        r == clamped(t as int),
{
    if t < i64::MIN as i128 {
        i64::MIN
    } else if t > i64::MAX as i128 {
        i64::MAX
    } else {
        t as i64
    }
}

/// The sum of two times, held within what can be represented.
pub fn plus(a: i64, b: i64) -> (r: i64)
    ensures
        r == clamped(a + b),
{
    clamp_time(a as i128 + b as i128)
}

/// `a / b` rounded down.
pub fn floor_div(a: i128, b: i128) -> (r: i128)
    requires
        b > 0,
        a > i128::MIN,
    ensures
        r == a as int / b as int,
{
    if a >= 0 {
        a / b
    } else {
        let m: i128 = -a;
        let q: i128 = m / b;
        let rem: i128 = m % b;
        assert(m == b * q + rem) by (nonlinear_arith)
            requires
                b > 0,
                m >= 0,
                q == m as int / b as int,
                rem == m as int % b as int,
        ;
        assert(q <= m) by (nonlinear_arith)
            requires
                b > 0,
                m >= 0,
                q == m as int / b as int,
        ;
        if rem == 0 {
            assert(a as int == b * (-q)) by (nonlinear_arith)
                requires
                    a == -m,
                    m == b * q + 0,
            ;
            proof {
                vstd::arithmetic::div_mod::lemma_fundamental_div_mod_converse(
                    a as int,
                    b as int,
                    -q as int,
                    0,
                );
            }
            -q
        } else {
            assert(q < m) by (nonlinear_arith)
                requires
                    b > 0,
                    m == b * q + rem,
                    rem > 0,
                    q >= 0,
            ;
            assert(a as int == b * (-q - 1) + (b - rem)) by (nonlinear_arith)
                requires
                    a == -m,
                    m == b * q + rem,
            ;
            proof {
                vstd::arithmetic::div_mod::lemma_fundamental_div_mod_converse(
                    a as int,
                    b as int,
                    -q - 1,
                    b - rem,
                );
            }
            -q - 1
        }
    }
}

/// The length of one tick of a stream, as a fraction of a second.
#[derive(Debug, Clone, Copy, PartialEq, Eq, Structural)]
pub struct TimeBase {
    pub num: u32,
    pub den: u32,
}

/// The time that a count of ticks stands for, rounded down.
pub open spec fn ticks_time(ticks: int, base: TimeBase) -> int {
    clamped((ticks * base.num * SECOND) / base.den as int)
}

impl TimeBase {
    pub fn time_of(&self, ticks: i64) -> (r: i64)
        requires
            self.den > 0,
        ensures
            r == ticks_time(ticks as int, *self),
    {
        let num: i128 = self.num as i128;
        let t: i128 = ticks as i128;
        assert(-0x8000_0000_0000_0000_0000_0000 < t * num < 0x8000_0000_0000_0000_0000_0000)
            by (nonlinear_arith)
            requires
                -0x8000_0000_0000_0000 <= t <= 0x7fff_ffff_ffff_ffff,
                0 <= num <= 0xffff_ffff,
        ;
        let product: i128 = t * num;
        assert(-0x7000_0000_0000_0000_0000_0000_0000_0000 < product * 1_000_000_000
            < 0x7000_0000_0000_0000_0000_0000_0000_0000) by (nonlinear_arith)
            requires
                -0x8000_0000_0000_0000_0000_0000 < product < 0x8000_0000_0000_0000_0000_0000,
        ;
        let scaled: i128 = product * 1_000_000_000;
        clamp_time(floor_div(scaled, self.den as i128))
    }
}

/// How long `samples` take at `per_second` of them each second, rounded down.
pub open spec fn samples_time(samples: int, per_second: int) -> int {
    clamped(samples * SECOND / per_second)
}

pub fn time_of_samples(samples: u64, per_second: u64) -> (r: i64)
    requires
        per_second > 0,
    ensures
        r == samples_time(samples as int, per_second as int),
{
    let scaled: i128 = samples as i128 * 1_000_000_000;
    clamp_time(floor_div(scaled, per_second as i128))
}

// ── Showing a time ──────────────────────────────────────────────────────

/// A time as a clock shows it: hours only when there are any, and minutes
/// and seconds in two digits behind them. A negative time shows as zero.
pub open spec fn clock_text(t: int) -> Seq<char> {
    let total = if t < 0 {
        0
    } else {
        t / SECOND as int
    };
    let h = (total / 3600) as nat;
    let m = (total % 3600 / 60) as nat;
    let s = (total % 60) as nat;
    if h > 0 {
        text::decimal(h) + seq![':'] + text::two_digits(m) + seq![':'] + text::two_digits(s)
    } else {
        text::decimal(m) + seq![':'] + text::two_digits(s)
    }
}

/// `1:02:03`, or `2:03` below an hour.
pub fn format_time(t: i64) -> (r: String)
    ensures
        r@ == clock_text(t as int),
{
    let total: u64 = if t < 0 {
        0
    } else {
        t as u64 / SECOND as u64
    };
    let h: u64 = total / 3600;
    let m: u64 = (total % 3600) / 60;
    let s: u64 = total % 60;
    let mut out: Vec<char> = Vec::new();
    if h > 0 {
        text::append_decimal(&mut out, h);
        out.push(':');
        text::append_two_digits(&mut out, m);
    } else {
        text::append_decimal(&mut out, m);
    }
    out.push(':');
    text::append_two_digits(&mut out, s);
    assert(out@ =~= clock_text(t as int));
    text::string_of(&out)
}

// ── Laws ────────────────────────────────────────────────────────────────

/// The nearest time that can be represented is the time itself wherever it
/// can be, and otherwise the end of the range on its side.
pub proof fn what_fits_is_kept(t: int)
    ensures
        -0x8000_0000_0000_0000 <= clamped(t) <= 0x7fff_ffff_ffff_ffff,
        -0x8000_0000_0000_0000 <= t <= 0x7fff_ffff_ffff_ffff ==> clamped(t) == t,
        forall|x: int|
            -0x8000_0000_0000_0000 <= x <= 0x7fff_ffff_ffff_ffff ==> apart(clamped(t), t)
                <= #[trigger] apart(x, t),
{
}

/// How far two numbers are apart.
pub open spec fn apart(a: int, b: int) -> int {
    if a < b {
        b - a
    } else {
        a - b
    }
}

proof fn rounded_down(a: int, d: int)
    requires
        d > 0,
    ensures
        (a / d) * d <= a < (a / d + 1) * d,
{
    vstd::arithmetic::div_mod::lemma_fundamental_div_mod(a, d);
    vstd::arithmetic::div_mod::lemma_mod_bound(a, d);
    let q = a / d;
    assert(d * q == q * d) by (nonlinear_arith);
    assert((q + 1) * d == q * d + d) by (nonlinear_arith);
}

/// A count of ticks stands for that many ticks' worth of nanoseconds, short
/// of the exact time by less than one.
pub proof fn ticks_keep_their_time(ticks: int, base: TimeBase)
    requires
        base.den > 0,
        -0x8000_0000_0000_0000 < ticks_time(ticks, base) < 0x7fff_ffff_ffff_ffff,
    ensures
        ticks_time(ticks, base) * base.den <= ticks * base.num * 1_000_000_000 < (ticks_time(
            ticks,
            base,
        ) + 1) * base.den,
{
    rounded_down(ticks * base.num * 1_000_000_000, base.den as int);
}

/// As many ticks as there are in a second, over again, are whole seconds.
pub proof fn a_second_of_ticks_is_a_second(base: TimeBase, k: int)
    requires
        base.den > 0,
        -9_000_000_000 < k * base.num < 9_000_000_000,
    ensures
        ticks_time(k * base.den, base) == k * base.num * 1_000_000_000,
{
    let d = base.den as int;
    let n = base.num as int;
    let whole = k * n * 1_000_000_000;
    assert(k * d * n * 1_000_000_000 == whole * d) by (nonlinear_arith)
        requires
            whole == k * n * 1_000_000_000,
    ;
    vstd::arithmetic::div_mod::lemma_div_multiples_vanish(whole, d);
    assert(whole * d == d * whole) by (nonlinear_arith);
}

/// Samples last as long as their rate says, short of the exact time by less
/// than a nanosecond.
pub proof fn samples_keep_their_time(samples: int, per_second: int)
    requires
        per_second > 0,
        -0x8000_0000_0000_0000 < samples_time(samples, per_second) < 0x7fff_ffff_ffff_ffff,
    ensures
        samples_time(samples, per_second) * per_second <= samples * 1_000_000_000 < (samples_time(
            samples,
            per_second,
        ) + 1) * per_second,
{
    rounded_down(samples * 1_000_000_000, per_second);
}

/// What the groups before the last colon are worth, in units of the last.
pub open spec fn face_before(face: Seq<char>) -> int
    decreases face.len(),
{
    if face.len() == 0 {
        0
    } else if face.last() == ':' {
        60 * (face_before(face.drop_last()) + face_units(face.drop_last()))
    } else {
        face_before(face.drop_last())
    }
}

/// The number behind the last colon.
pub open spec fn face_units(face: Seq<char>) -> int
    decreases face.len(),
{
    if face.len() == 0 || face.last() == ':' {
        0
    } else {
        10 * face_units(face.drop_last()) + (face.last() as int - '0' as int)
    }
}

proof fn digits_are_read(head: Seq<char>, digits: Seq<char>)
    requires
        text::all_digits(digits),
        head.len() == 0 || head.last() == ':',
    ensures
        face_units(head + digits) == text::digits_value(digits),
        face_before(head + digits) == face_before(head),
    decreases digits.len(),
{
    if digits.len() == 0 {
        assert(head + digits =~= head);
    } else {
        let init = digits.drop_last();
        assert((head + digits).drop_last() =~= head + init);
        assert(text::all_digits(init)) by {
            assert forall|i: int| 0 <= i < init.len() implies text::is_digit(#[trigger] init[i]) by {
                assert(text::is_digit(digits[i]));
            }
        }
        digits_are_read(head, init);
        assert(text::is_digit(digits[digits.len() - 1]));
    }
}

proof fn a_group_is_read(head: Seq<char>, n: nat, group: Seq<char>)
    requires
        group == text::decimal(n) || group == text::two_digits(n),
        head.len() == 0 || head.last() == ':',
    ensures
        face_units(head + group) == n,
        face_before(head + group) == face_before(head),
        group.len() > 0,
        text::is_digit(group.last()),
{
    text::decimal_is_digits(n);
    if group == text::two_digits(n) && n < 10 {
        let d = text::digit_char(n);
        assert(group =~= seq!['0', d]);
        assert(text::is_digit(d));
        reveal_with_fuel(text::digits_value, 3);
        assert(group.drop_last() =~= seq!['0']);
        assert(seq!['0'].drop_last() =~= Seq::<char>::empty());
        assert(text::digits_value(seq!['0']) == 0);
        assert(text::digits_value(group) == n);
        assert(text::all_digits(group));
    }
    digits_are_read(head, group);
    assert(text::is_digit(group[group.len() - 1]));
}

proof fn a_colon_counts_sixty(face: Seq<char>)
    ensures
        face_before(face.push(':')) == 60 * (face_before(face) + face_units(face)),
        face_units(face.push(':')) == 0,
{
    assert(face.push(':').drop_last() =~= face);
}

/// The time that is shown is the time in whole seconds: read as a clock face
/// it gives them back, whatever the time. Behind every colon there are two
/// digits, and the hours are there when there are any.
pub proof fn the_time_shown_is_the_time(t: int)
    ensures
        ({
            let face = clock_text(t);
            let seconds = if t < 0 {
                0
            } else {
                t / 1_000_000_000
            };
            let n = face.len() as int;
            &&& face_before(face) + face_units(face) == seconds
            &&& n >= 4 && face[n - 3] == ':'
            &&& face_units(face) < 60
            &&& seconds >= 3600 ==> n >= 7 && face[n - 6] == ':'
            &&& seconds < 3600 ==> face_before(face.take(n - 3)) == 0
        }),
{
    let total = if t < 0 {
        0
    } else {
        t / 1_000_000_000
    };
    let h = (total / 3600) as nat;
    let m = (total % 3600 / 60) as nat;
    let s = (total % 60) as nat;
    assert(total == 3600 * h + 60 * m + s);
    let none = Seq::<char>::empty();
    text::two_digits_are_two(m);
    text::two_digits_are_two(s);
    let face = clock_text(t);
    let n = face.len() as int;
    if h > 0 {
        let hours = text::decimal(h);
        assert(none + hours =~= hours);
        a_group_is_read(none, h, hours);
        a_colon_counts_sixty(hours);
        let a = hours.push(':');
        let b = a + text::two_digits(m);
        a_group_is_read(a, m, text::two_digits(m));
        a_colon_counts_sixty(b);
        let c = b.push(':');
        a_group_is_read(c, s, text::two_digits(s));
        assert(face =~= c + text::two_digits(s));
        assert(face_before(face) == 60 * (60 * h + m));
    } else {
        let minutes = text::decimal(m);
        assert(none + minutes =~= minutes);
        a_group_is_read(none, m, minutes);
        a_colon_counts_sixty(minutes);
        let c = minutes.push(':');
        a_group_is_read(c, s, text::two_digits(s));
        assert(face =~= c + text::two_digits(s));
        assert(face.take(n - 3) =~= minutes);
    }
}

} // verus!

//! What the colour conversion does to a picture: it undoes the way in which
//! video is stored, at every depth and in every colour space.

use vstd::arithmetic::power2;
use vstd::prelude::*;

use crate::colour;
use crate::colour::Fraction;
use crate::frame::Space;

verus! {

/// A fraction as a number.
pub open spec fn value(f: Fraction) -> real {
    f.num as real / f.den as real
}

/// The samples of a pixel, each over the largest there is. In studio swing
/// luma takes the values from 16 to 235 and chroma those from 16 to 240, of
/// eight bits and in proportion above; chroma is centred on the middle of the
/// container.
pub open spec fn stored(full_range: bool, bits: nat, y: real, u: real, v: real) -> (real, real, real) {
    let max = (power2::pow2(bits) - 1) as real;
    let unit = power2::pow2((bits - 8) as nat) as real;
    let middle = power2::pow2((bits - 1) as nat) as real;
    if full_range {
        (y, u + middle / max, v + middle / max)
    } else {
        (
            (16real * unit + (219real * unit) * y) / max,
            (middle + (224real * unit) * u) / max,
            (middle + (224real * unit) * v) / max,
        )
    }
}

/// A colour as it is stored, with these luma weights of red and blue. Luma is
/// the weighted sum of the colours, and the two chromas are how far blue and
/// red are from it, scaled to reach half of one either way.
pub open spec fn encoded(
    kr: real,
    kb: real,
    full_range: bool,
    bits: nat,
    r: real,
    g: real,
    b: real,
) -> (real, real, real) {
    let y = kr * r + (1real - kr - kb) * g + kb * b;
    let u = (b - y) / (2real * (1real - kb));
    let v = (r - y) / (2real * (1real - kr));
    stored(full_range, bits, y, u, v)
}

/// One colour of a pixel, by the matrix and the offsets.
pub open spec fn decoded(m: Seq<Fraction>, o: Seq<Fraction>, s: (real, real, real), channel: int) -> real {
    value(m[channel]) * (s.0 - value(o[0])) + value(m[3 + channel]) * (s.1 - value(o[1])) + value(m[6 + channel]) * (s.2 - value(o[2]))
}

proof fn undone(max: real, span: real, start: real, y: real)
    requires
        max > 0real,
        span > 0real,
    ensures
        (max / span) * ((start + span * y) / max - start / max) == y,
{
    let a = (start + span * y) / max;
    let b = start / max;
    let c = max / span;
    assert(a * max == start + span * y) by (nonlinear_arith)
        requires
            a == (start + span * y) / max,
            max > 0real,
    ;
    assert(b * max == start) by (nonlinear_arith)
        requires
            b == start / max,
            max > 0real,
    ;
    assert(c * span == max) by (nonlinear_arith)
        requires
            c == max / span,
            span > 0real,
    ;
    assert((a - b) * max == span * y) by (nonlinear_arith)
        requires
            a * max == start + span * y,
            b * max == start,
    ;
    let d = a - b;
    assert(span * (c * d) == span * y) by (nonlinear_arith)
        requires
            d * max == span * y,
            c * span == max,
    ;
    assert(c * d == y) by (nonlinear_arith)
        requires
            span * (c * d) == span * y,
            span > 0real,
    ;
}

proof fn value_times(f: Fraction, g: Fraction)
    requires
        f.den != 0,
        g.den != 0,
    ensures
        value(f.times(g)) == value(f) * value(g),
        f.times(g).den != 0,
{
    let (a, b, c, d) = (f.num, f.den, g.num, g.den);
    assert((a * c) as real == (a as real) * (c as real)) by (nonlinear_arith);
    assert((b * d) as real == (b as real) * (d as real)) by (nonlinear_arith);
    assert(b * d != 0) by (nonlinear_arith)
        requires
            b != 0,
            d != 0,
    ;
    let (x, y, z, w) = (a as real, b as real, c as real, d as real);
    assert((x * z) / (y * w) == (x / y) * (z / w)) by (nonlinear_arith)
        requires
            y != 0real,
            w != 0real,
    ;
}

proof fn value_negated(f: Fraction)
    requires
        f.den != 0,
    ensures
        value(colour::negated(f)) == -value(f),
{
    let (x, y) = (f.num as real, f.den as real);
    assert((-x) / y == -(x / y)) by (nonlinear_arith)
        requires
            y != 0real,
    ;
}

proof fn taken_in(f: real, c: real, d: real, u: real)
    requires
        c * d == u,
    ensures
        (f * c) * d == f * u,
        (-(f * c)) * d == -(f * u),
{
    assert((f * c) * d == f * u && (-(f * c)) * d == -(f * u)) by (nonlinear_arith)
        requires
            c * d == u,
    ;
}

proof fn recovered_bt709(r: real, g: real, b: real, y: real, u: real, v: real)
    requires
        y == (2126real / 10000real) * r + (1real - 2126real / 10000real - 722real / 10000real) * g
            + (722real / 10000real) * b,
        u == (b - y) / (2real * (1real - 722real / 10000real)),
        v == (r - y) / (2real * (1real - 2126real / 10000real)),
    ensures
        y + (15748real / 10000real) * v == r,
        y - (13397432real / 71520000real) * u - (33480248real / 71520000real) * v == g,
        y + (18556real / 10000real) * u == b,
{
    assert((18556real / 10000real) * u == b - y) by (nonlinear_arith)
        requires
            u == (b - y) / (2real * (1real - 722real / 10000real)),
    ;
    assert((15748real / 10000real) * v == r - y) by (nonlinear_arith)
        requires
            v == (r - y) / (2real * (1real - 2126real / 10000real)),
    ;
    assert(y - (13397432real / 71520000real) * u - (33480248real / 71520000real) * v == g)
        by (nonlinear_arith)
        requires
            (18556real / 10000real) * u == b - y,
            (15748real / 10000real) * v == r - y,
            y == (2126real / 10000real) * r + (1real - 2126real / 10000real - 722real / 10000real)
                * g + (722real / 10000real) * b,
    ;
}

proof fn factors_bt709()
    ensures
        value(colour::own_factor(2126)) == 15748real / 10000real,
        value(colour::own_factor(722)) == 18556real / 10000real,
        value(colour::green_factor(2126, 7152)) == 33480248real / 71520000real,
        value(colour::green_factor(722, 7152)) == 13397432real / 71520000real,
{
}

proof fn recovered_bt601(r: real, g: real, b: real, y: real, u: real, v: real)
    requires
        y == (2990real / 10000real) * r + (1real - 2990real / 10000real - 1140real / 10000real) * g
            + (1140real / 10000real) * b,
        u == (b - y) / (2real * (1real - 1140real / 10000real)),
        v == (r - y) / (2real * (1real - 2990real / 10000real)),
    ensures
        y + (14020real / 10000real) * v == r,
        y - (20200800real / 58700000real) * u - (41919800real / 58700000real) * v == g,
        y + (17720real / 10000real) * u == b,
{
    assert((17720real / 10000real) * u == b - y) by (nonlinear_arith)
        requires
            u == (b - y) / (2real * (1real - 1140real / 10000real)),
    ;
    assert((14020real / 10000real) * v == r - y) by (nonlinear_arith)
        requires
            v == (r - y) / (2real * (1real - 2990real / 10000real)),
    ;
    assert(y - (20200800real / 58700000real) * u - (41919800real / 58700000real) * v == g)
        by (nonlinear_arith)
        requires
            (17720real / 10000real) * u == b - y,
            (14020real / 10000real) * v == r - y,
            y == (2990real / 10000real) * r + (1real - 2990real / 10000real - 1140real / 10000real)
                * g + (1140real / 10000real) * b,
    ;
}

proof fn factors_bt601()
    ensures
        value(colour::own_factor(2990)) == 14020real / 10000real,
        value(colour::own_factor(1140)) == 17720real / 10000real,
        value(colour::green_factor(2990, 5870)) == 41919800real / 58700000real,
        value(colour::green_factor(1140, 5870)) == 20200800real / 58700000real,
{
}

proof fn recovered_bt2020(r: real, g: real, b: real, y: real, u: real, v: real)
    requires
        y == (2627real / 10000real) * r + (1real - 2627real / 10000real - 593real / 10000real) * g
            + (593real / 10000real) * b,
        u == (b - y) / (2real * (1real - 593real / 10000real)),
        v == (r - y) / (2real * (1real - 2627real / 10000real)),
    ensures
        y + (14746real / 10000real) * v == r,
        y - (11156702real / 67800000real) * u - (38737742real / 67800000real) * v == g,
        y + (18814real / 10000real) * u == b,
{
    assert((18814real / 10000real) * u == b - y) by (nonlinear_arith)
        requires
            u == (b - y) / (2real * (1real - 593real / 10000real)),
    ;
    assert((14746real / 10000real) * v == r - y) by (nonlinear_arith)
        requires
            v == (r - y) / (2real * (1real - 2627real / 10000real)),
    ;
    assert(y - (11156702real / 67800000real) * u - (38737742real / 67800000real) * v == g)
        by (nonlinear_arith)
        requires
            (18814real / 10000real) * u == b - y,
            (14746real / 10000real) * v == r - y,
            y == (2627real / 10000real) * r + (1real - 2627real / 10000real - 593real / 10000real)
                * g + (593real / 10000real) * b,
    ;
}

proof fn factors_bt2020()
    ensures
        value(colour::own_factor(2627)) == 14746real / 10000real,
        value(colour::own_factor(593)) == 18814real / 10000real,
        value(colour::green_factor(2627, 6780)) == 38737742real / 67800000real,
        value(colour::green_factor(593, 6780)) == 11156702real / 67800000real,
{
}

/// How the samples of a pixel, with their offsets taken off, add up.
proof fn put_together(
    y: real,
    u: real,
    v: real,
    m: (real, real, real, real),
    c: real,
    s: (real, real, real),
    f: (real, real, real, real),
)
    requires
        m.0 * s.0 == y,
        c * s.1 == u,
        c * s.2 == v,
    ensures
        m.0 * s.0 + 0real * s.1 + (f.0 * c) * s.2 == y + f.0 * v,
        m.0 * s.0 + (-(f.1 * c)) * s.1 + (-(f.2 * c)) * s.2 == y - f.1 * u - f.2 * v,
        m.0 * s.0 + (f.3 * c) * s.1 + 0real * s.2 == y + f.3 * u,
{
    taken_in(f.0, c, s.2, v);
    taken_in(f.1, c, s.1, u);
    taken_in(f.2, c, s.2, v);
    taken_in(f.3, c, s.1, u);
    let (a, b) = (s.1, s.2);
    assert(0real * a == 0real && 0real * b == 0real) by (nonlinear_arith);
}

proof fn offsets_come_off(full_range: bool, bits: nat, y: real, u: real, v: real, s: (real, real, real))
    requires
        bits >= 8,
        s == stored(full_range, bits, y, u, v),
    ensures
        value(colour::luma_scale(full_range, bits)) * (s.0 - value(
            colour::offsets_of(full_range, bits)[0],
        )) == y,
        value(colour::chroma_scale(full_range, bits)) * (s.1 - value(
            colour::offsets_of(full_range, bits)[1],
        )) == u,
        value(colour::chroma_scale(full_range, bits)) * (s.2 - value(
            colour::offsets_of(full_range, bits)[2],
        )) == v,
        colour::chroma_scale(full_range, bits).den != 0,
{
    power2::lemma_pow2_pos((bits - 8) as nat);
    power2::lemma_pow2_pos((bits - 1) as nat);
    power2::lemma_pow2_unfold(bits);
    let max = (power2::pow2(bits) - 1) as real;
    let unit = power2::pow2((bits - 8) as nat) as real;
    let middle = power2::pow2((bits - 1) as nat) as real;
    if full_range {
        assert(1real / 1real == 1real && 0real / 1real == 0real) by (nonlinear_arith);
        assert(1real * y == y && 1real * u == u && 1real * v == v) by (nonlinear_arith);
        assert(s.0 - 0real == y && s.1 - middle / max == u && s.2 - middle / max == v);
    } else {
        undone(max, 219real * unit, 16real * unit, y);
        undone(max, 224real * unit, middle, u);
        undone(max, 224real * unit, middle, v);
    }
}

proof fn inverts_bt709(space: Space, full_range: bool, bits: nat, r: real, g: real, b: real)
    requires
        bits >= 8,
        colour::weights_of(space) == (2126int, 722int),
    ensures
        ({
            let s = encoded(
                2126real / 10000real,
                722real / 10000real,
                full_range,
                bits,
                r,
                g,
                b,
            );
            let m = colour::matrix_of(space, full_range, bits);
            let o = colour::offsets_of(full_range, bits);
            &&& decoded(m, o, s, 0) == r
            &&& decoded(m, o, s, 1) == g
            &&& decoded(m, o, s, 2) == b
        }),
{
    let kr = 2126real / 10000real;
    let kb = 722real / 10000real;
    let y = kr * r + (1real - kr - kb) * g + kb * b;
    let u = (b - y) / (2real * (1real - kb));
    let v = (r - y) / (2real * (1real - kr));
    let s = stored(full_range, bits, y, u, v);
    let m = colour::matrix_of(space, full_range, bits);
    let o = colour::offsets_of(full_range, bits);
    let cs = colour::chroma_scale(full_range, bits);
    let ys = value(colour::luma_scale(full_range, bits));
    offsets_come_off(full_range, bits, y, u, v, s);
    recovered_bt709(r, g, b, y, u, v);
    factors_bt709();
    value_times(colour::own_factor(2126), cs);
    value_times(colour::own_factor(722), cs);
    value_times(colour::green_factor(2126, 7152), cs);
    value_times(colour::green_factor(722, 7152), cs);
    value_negated(colour::green_factor(2126, 7152).times(cs));
    value_negated(colour::green_factor(722, 7152).times(cs));
    put_together(
        y,
        u,
        v,
        (ys, ys, ys, ys),
        value(cs),
        (s.0 - value(o[0]), s.1 - value(o[1]), s.2 - value(o[2])),
        (
            15748real / 10000real,
            13397432real / 71520000real,
            33480248real / 71520000real,
            18556real / 10000real,
        ),
    );
    assert(0real / 1real == 0real) by (nonlinear_arith);
    assert(value(m[3]) == 0real && value(m[8]) == 0real);
}

proof fn inverts_bt601(space: Space, full_range: bool, bits: nat, r: real, g: real, b: real)
    requires
        bits >= 8,
        colour::weights_of(space) == (2990int, 1140int),
    ensures
        ({
            let s = encoded(
                2990real / 10000real,
                1140real / 10000real,
                full_range,
                bits,
                r,
                g,
                b,
            );
            let m = colour::matrix_of(space, full_range, bits);
            let o = colour::offsets_of(full_range, bits);
            &&& decoded(m, o, s, 0) == r
            &&& decoded(m, o, s, 1) == g
            &&& decoded(m, o, s, 2) == b
        }),
{
    let kr = 2990real / 10000real;
    let kb = 1140real / 10000real;
    let y = kr * r + (1real - kr - kb) * g + kb * b;
    let u = (b - y) / (2real * (1real - kb));
    let v = (r - y) / (2real * (1real - kr));
    let s = stored(full_range, bits, y, u, v);
    let m = colour::matrix_of(space, full_range, bits);
    let o = colour::offsets_of(full_range, bits);
    let cs = colour::chroma_scale(full_range, bits);
    let ys = value(colour::luma_scale(full_range, bits));
    offsets_come_off(full_range, bits, y, u, v, s);
    recovered_bt601(r, g, b, y, u, v);
    factors_bt601();
    value_times(colour::own_factor(2990), cs);
    value_times(colour::own_factor(1140), cs);
    value_times(colour::green_factor(2990, 5870), cs);
    value_times(colour::green_factor(1140, 5870), cs);
    value_negated(colour::green_factor(2990, 5870).times(cs));
    value_negated(colour::green_factor(1140, 5870).times(cs));
    put_together(
        y,
        u,
        v,
        (ys, ys, ys, ys),
        value(cs),
        (s.0 - value(o[0]), s.1 - value(o[1]), s.2 - value(o[2])),
        (
            14020real / 10000real,
            20200800real / 58700000real,
            41919800real / 58700000real,
            17720real / 10000real,
        ),
    );
    assert(0real / 1real == 0real) by (nonlinear_arith);
    assert(value(m[3]) == 0real && value(m[8]) == 0real);
}

proof fn inverts_bt2020(space: Space, full_range: bool, bits: nat, r: real, g: real, b: real)
    requires
        bits >= 8,
        colour::weights_of(space) == (2627int, 593int),
    ensures
        ({
            let s = encoded(
                2627real / 10000real,
                593real / 10000real,
                full_range,
                bits,
                r,
                g,
                b,
            );
            let m = colour::matrix_of(space, full_range, bits);
            let o = colour::offsets_of(full_range, bits);
            &&& decoded(m, o, s, 0) == r
            &&& decoded(m, o, s, 1) == g
            &&& decoded(m, o, s, 2) == b
        }),
{
    let kr = 2627real / 10000real;
    let kb = 593real / 10000real;
    let y = kr * r + (1real - kr - kb) * g + kb * b;
    let u = (b - y) / (2real * (1real - kb));
    let v = (r - y) / (2real * (1real - kr));
    let s = stored(full_range, bits, y, u, v);
    let m = colour::matrix_of(space, full_range, bits);
    let o = colour::offsets_of(full_range, bits);
    let cs = colour::chroma_scale(full_range, bits);
    let ys = value(colour::luma_scale(full_range, bits));
    offsets_come_off(full_range, bits, y, u, v, s);
    recovered_bt2020(r, g, b, y, u, v);
    factors_bt2020();
    value_times(colour::own_factor(2627), cs);
    value_times(colour::own_factor(593), cs);
    value_times(colour::green_factor(2627, 6780), cs);
    value_times(colour::green_factor(593, 6780), cs);
    value_negated(colour::green_factor(2627, 6780).times(cs));
    value_negated(colour::green_factor(593, 6780).times(cs));
    put_together(
        y,
        u,
        v,
        (ys, ys, ys, ys),
        value(cs),
        (s.0 - value(o[0]), s.1 - value(o[1]), s.2 - value(o[2])),
        (
            14746real / 10000real,
            11156702real / 67800000real,
            38737742real / 67800000real,
            18814real / 10000real,
        ),
    );
    assert(0real / 1real == 0real) by (nonlinear_arith);
    assert(value(m[3]) == 0real && value(m[8]) == 0real);
}

/// Converting a stored pixel gives back its colour, whatever the colour, at
/// every depth, in either range and in every space. So red does not depend on
/// the chroma of blue, nor blue on that of red.
pub proof fn conversion_inverts_the_encoding(
    space: Space,
    full_range: bool,
    bits: nat,
    r: real,
    g: real,
    b: real,
)
    requires
        bits >= 8,
    ensures
        ({
            let w = colour::weights_of(space);
            let s = encoded(
                w.0 as real / 10000real,
                w.1 as real / 10000real,
                full_range,
                bits,
                r,
                g,
                b,
            );
            let m = colour::matrix_of(space, full_range, bits);
            let o = colour::offsets_of(full_range, bits);
            &&& decoded(m, o, s, 0) == r
            &&& decoded(m, o, s, 1) == g
            &&& decoded(m, o, s, 2) == b
        }),
{
    let (wr, wb) = colour::weights_of(space);
    if wr == 2126 && wb == 722 {
        inverts_bt709(space, full_range, bits, r, g, b);
    } else if wr == 2990 && wb == 1140 {
        inverts_bt601(space, full_range, bits, r, g, b);
    } else if wr == 2627 && wb == 593 {
        inverts_bt2020(space, full_range, bits, r, g, b);
    }
}

// ── Where the numbers come from ─────────────────────────────────────────

/// The chromaticities of a colour space, in ten-thousandths: of its red, its
/// green, its blue and its white.
pub struct Gamut {
    pub red: (int, int),
    pub green: (int, int),
    pub blue: (int, int),
    pub white: (int, int),
}

/// What a colour adds to the first or the third of the tristimulus values for
/// each unit of its luminance, times the product of all four second
/// coordinates.
pub open spec fn pull(g: Gamut, c: (int, int), third: bool) -> int {
    let all = g.red.1 * g.green.1 * g.blue.1 * g.white.1;
    (if third {
        10000 - c.0 - c.1
    } else {
        c.0
    }) * (all / c.1)
}

/// How far the three primaries, in these amounts (in ten-thousandths), are
/// from a colour in this amount.
pub open spec fn miss(g: Gamut, amounts: (int, int, int), c: (int, int), amount: int, third: bool) -> int {
    amounts.0 * pull(g, g.red, third) + amounts.1 * pull(g, g.green, third) + amounts.2 * pull(
        g,
        g.blue,
        third,
    ) - amount * pull(g, c, third)
}

pub open spec fn within(v: int, bound: int) -> bool {
    -bound <= v <= bound
}

/// Standard definition: the primaries of 1953 and illuminant C.
pub open spec fn gamut_601() -> Gamut {
    Gamut { red: (6700, 3300), green: (2100, 7100), blue: (1400, 800), white: (3100, 3160) }
}

/// High definition, with the white of daylight.
pub open spec fn gamut_709() -> Gamut {
    Gamut { red: (6400, 3300), green: (3000, 6000), blue: (1500, 600), white: (3127, 3290) }
}

/// Ultra high definition, with the same white.
pub open spec fn gamut_2020() -> Gamut {
    Gamut { red: (7080, 2920), green: (1700, 7970), blue: (1310, 460), white: (3127, 3290) }
}

proof fn white_of_601()
    by (nonlinear_arith)
    ensures
        ({
            let g = gamut_601();
            let k = (2990int, 5870int, 1140int);
            let all = g.red.1 * g.green.1 * g.blue.1 * g.white.1;
            &&& within(miss(g, k, g.white, 10000, false), 60 * all)
            &&& within(miss(g, k, g.white, 10000, true), 60 * all)
        }),
{
}

proof fn white_of_709()
    by (nonlinear_arith)
    ensures
        ({
            let g = gamut_709();
            let k = (2126int, 7152int, 722int);
            let all = g.red.1 * g.green.1 * g.blue.1 * g.white.1;
            &&& within(miss(g, k, g.white, 10000, false), 2 * all)
            &&& within(miss(g, k, g.white, 10000, true), 2 * all)
        }),
{
}

proof fn white_of_2020()
    by (nonlinear_arith)
    ensures
        ({
            let g = gamut_2020();
            let k = (2627int, 6780int, 593int);
            let all = g.red.1 * g.green.1 * g.blue.1 * g.white.1;
            &&& within(miss(g, k, g.white, 10000, false), 2 * all)
            &&& within(miss(g, k, g.white, 10000, true), 2 * all)
        }),
{
}

proof fn wide_primary_0()
    by (nonlinear_arith)
    ensures
        ({
            let g = gamut_709();
            let k = (3530int, -892int, -14int);
            let all = g.red.1 * g.green.1 * g.blue.1 * g.white.1;
            &&& within(
                (miss(g, k, g.white, 0, false)) * 2920 - 2627 * 7080 * all,
                20 * all * 2920,
            )
            &&& within(
                (miss(g, k, g.white, 0, true)) * 2920 - 2627 * 0 * all,
                20 * all * 2920,
            )
        }),
{
}

proof fn wide_primary_1()
    by (nonlinear_arith)
    ensures
        ({
            let g = gamut_709();
            let k = (-1250int, 8102int, -73int);
            let all = g.red.1 * g.green.1 * g.blue.1 * g.white.1;
            &&& within(
                (miss(g, k, g.white, 0, false)) * 7970 - 6780 * 1700 * all,
                20 * all * 7970,
            )
            &&& within(
                (miss(g, k, g.white, 0, true)) * 7970 - 6780 * 330 * all,
                20 * all * 7970,
            )
        }),
{
}

proof fn wide_primary_2()
    by (nonlinear_arith)
    ensures
        ({
            let g = gamut_709();
            let k = (-155int, -60int, 807int);
            let all = g.red.1 * g.green.1 * g.blue.1 * g.white.1;
            &&& within(
                (miss(g, k, g.white, 0, false)) * 460 - 593 * 1310 * all,
                20 * all * 460,
            )
            &&& within(
                (miss(g, k, g.white, 0, true)) * 460 - 593 * 8230 * all,
                20 * all * 460,
            )
        }),
{
}

/// The luma weights of a space are the amounts of its primaries that make its
/// white: to two ten-thousandths where they are stated to four digits, and to
/// sixty where they are stated to three.
pub proof fn the_weights_make_white(space: Space)
    ensures
        ({
            let (wr, wb) = colour::weights_of(space);
            let k = (wr, 10000 - wr - wb, wb);
            let (g, off) = match space {
                Space::BT470BG | Space::SMPTE170M | Space::SMPTE240M => (gamut_601(), 60int),
                Space::BT2020NCL | Space::BT2020CL => (gamut_2020(), 2int),
                _ => (gamut_709(), 2int),
            };
            let all = g.red.1 * g.green.1 * g.blue.1 * g.white.1;
            &&& within(miss(g, k, g.white, 10000, false), off * all)
            &&& within(miss(g, k, g.white, 10000, true), off * all)
        }),
{
    match space {
        Space::BT470BG | Space::SMPTE170M | Space::SMPTE240M => white_of_601(),
        Space::BT2020NCL | Space::BT2020CL => white_of_2020(),
        _ => white_of_709(),
    }
}

/// Mapping the wide primaries to the narrow ones changes no colour: each wide
/// primary, in the amounts of the narrow ones that the matrix gives it, has
/// its own tristimulus values, to two thousandths.
pub proof fn mapping_primaries_keeps_the_colour(j: int)
    requires
        0 <= j < 3,
    ensures
        ({
            let g = gamut_709();
            let m = colour::primaries_of(true);
            let (nr, nb) = colour::weights_of(Space::BT709);
            let (wr, wb) = colour::weights_of(Space::BT2020NCL);
            let k = (
                nr * m[3 * j] / 10000,
                (10000 - nr - nb) * m[3 * j + 1] / 10000,
                nb * m[3 * j + 2] / 10000,
            );
            let own = if j == 0 {
                wr
            } else if j == 1 {
                10000 - wr - wb
            } else {
                wb
            };
            let wide = if j == 0 {
                gamut_2020().red
            } else if j == 1 {
                gamut_2020().green
            } else {
                gamut_2020().blue
            };
            let all = g.red.1 * g.green.1 * g.blue.1 * g.white.1;
            // Its luminance, and the other two values, over its own second
            // coordinate.
            &&& within(k.0 + k.1 + k.2 - own, 4)
            &&& within(
                (miss(g, k, g.white, 0, false)) * wide.1 - own * wide.0 * all,
                20 * all * wide.1,
            )
            &&& within(
                (miss(g, k, g.white, 0, true)) * wide.1 - own * (10000 - wide.0 - wide.1) * all,
                20 * all * wide.1,
            )
        }),
{
    let m = colour::primaries_of(true);
    assert(m[0] == 16605 && m[1] == -1246 && m[2] == -182);
    assert(m[3] == -5876 && m[4] == 11329 && m[5] == -1006);
    assert(m[6] == -728 && m[7] == -83 && m[8] == 11187);
    if j == 0 {
        wide_primary_0();
    } else if j == 1 {
        wide_primary_1();
    } else {
        wide_primary_2();
    }
}

/// Without tone mapping every primary stays what it is.
pub proof fn unmapped_primaries_stay(i: int, j: int)
    requires
        0 <= i < 3,
        0 <= j < 3,
    ensures
        colour::primaries_of(false)[3 * j + i] == if i == j {
            10000int
        } else {
            0
        },
{
    let m = colour::primaries_of(false);
    assert(m[0] == 10000 && m[1] == 0 && m[2] == 0 && m[3] == 0 && m[4] == 10000 && m[5] == 0
        && m[6] == 0 && m[7] == 0 && m[8] == 10000);
}

/// The depth to convert from is the one stated, and eight bits where fewer are.
pub proof fn the_depth_is_the_stated_one(bit_depth: u8)
    ensures
        bit_depth >= 8 ==> colour::depth_for(bit_depth) == bit_depth,
        bit_depth < 8 ==> colour::depth_for(bit_depth) == 8,
{
}

} // verus!

//! YUV to RGB, derived rather than tabulated.
//!
//! Every broadcast colour space is the same pair of equations with different
//! luma weights, so the matrices are made from those, and the corrections for
//! range and bit depth are applied in one place. Everything is an exact
//! fraction.

use vstd::arithmetic::power2;
use vstd::prelude::*;

use crate::frame::{PixelLayout, Space};

verus! {

/// A fraction. The denominator is positive.
#[derive(Debug, Clone, Copy, PartialEq, Eq, Structural)]
pub struct Ratio {
    pub num: i128,
    pub den: i128,
}

/// A fraction as a value.
pub struct Fraction {
    pub num: int,
    pub den: int,
}

impl Fraction {
    pub open spec fn whole(n: int) -> Fraction {
        Fraction { num: n, den: 1 }
    }

    pub open spec fn plus(self, o: Fraction) -> Fraction {
        Fraction { num: self.num * o.den + o.num * self.den, den: self.den * o.den }
    }

    pub open spec fn minus(self, o: Fraction) -> Fraction {
        Fraction { num: self.num * o.den - o.num * self.den, den: self.den * o.den }
    }

    pub open spec fn times(self, o: Fraction) -> Fraction {
        Fraction { num: self.num * o.num, den: self.den * o.den }
    }

    /// Whether two fractions are the same number.
    pub open spec fn equals(self, o: Fraction) -> bool {
        self.num * o.den == o.num * self.den
    }
}

impl View for Ratio {
    type V = Fraction;

    open spec fn view(&self) -> Fraction {
        Fraction { num: self.num as int, den: self.den as int }
    }
}

/// The luma weights of red and blue, in ten-thousandths.
pub open spec fn weights_of(space: Space) -> (int, int) {
    match space {
        Space::BT470BG | Space::SMPTE170M | Space::SMPTE240M => (2990, 1140),
        Space::BT2020NCL | Space::BT2020CL => (2627, 593),
        _ => (2126, 722),
    }
}

/// The luma weights of red and blue for the spaces worth telling apart:
/// BT.601 for standard definition, BT.2020, and BT.709 for everything else.
pub fn luma_weights(space: Space) -> (r: (i128, i128))
    ensures
        (r.0 as int, r.1 as int) == weights_of(space),
{
    match space {
        Space::BT470BG | Space::SMPTE170M | Space::SMPTE240M => (2990, 1140),
        Space::BT2020NCL | Space::BT2020CL => (2627, 593),
        _ => (2126, 722),
    }
}

/// The bit depth to convert from: at least eight.
pub open spec fn depth_for(bit_depth: u8) -> nat {
    if bit_depth < 8 {
        8
    } else {
        bit_depth as nat
    }
}

/// The largest sample of this many bits.
pub open spec fn max_sample(bits: nat) -> int {
    power2::pow2(bits) - 1
}

/// How much larger samples of this many bits are than those of eight.
pub open spec fn depth_shift(bits: nat) -> int {
    power2::pow2((bits - 8) as nat) as int
}

/// What a sample of luma is multiplied by: studio swing uses 219 of the
/// values of eight bits.
pub open spec fn luma_scale(full_range: bool, bits: nat) -> Fraction {
    if full_range {
        Fraction { num: 1, den: 1 }
    } else {
        Fraction { num: max_sample(bits), den: 219 * depth_shift(bits) }
    }
}

/// What a sample of chroma is multiplied by: studio swing uses 224 of the
/// values of eight bits.
pub open spec fn chroma_scale(full_range: bool, bits: nat) -> Fraction {
    if full_range {
        Fraction { num: 1, den: 1 }
    } else {
        Fraction { num: max_sample(bits), den: 224 * depth_shift(bits) }
    }
}

/// What is taken off a sample of luma: studio swing starts at 16.
pub open spec fn luma_offset(full_range: bool, bits: nat) -> Fraction {
    if full_range {
        Fraction { num: 0, den: 1 }
    } else {
        Fraction { num: 16 * depth_shift(bits), den: max_sample(bits) }
    }
}

/// Neutral chroma: the midpoint of the container.
pub open spec fn chroma_offset(bits: nat) -> Fraction {
    Fraction { num: power2::pow2((bits - 1) as nat) as int, den: max_sample(bits) }
}

/// The factor of chroma in the colour whose weight is `k`.
pub open spec fn own_factor(k: int) -> Fraction {
    Fraction { num: 2 * (10000 - k), den: 10000 }
}

/// The factor of that chroma in green, to be taken off.
pub open spec fn green_factor(k: int, kg: int) -> Fraction {
    Fraction { num: 2 * (10000 - k) * k, den: 10000 * kg }
}

/// The conversion matrix, in columns: the contributions of Y, U and V to red,
/// green and blue.
pub open spec fn matrix_of(space: Space, full_range: bool, bits: nat) -> Seq<Fraction> {
    let (kr, kb) = weights_of(space);
    let kg = 10000 - kr - kb;
    let y = luma_scale(full_range, bits);
    let c = chroma_scale(full_range, bits);
    let zero = Fraction { num: 0, den: 1 };
    seq![
        y,
        y,
        y,
        zero,
        negated(green_factor(kb, kg).times(c)),
        own_factor(kb).times(c),
        own_factor(kr).times(c),
        negated(green_factor(kr, kg).times(c)),
        zero,
    ]
}

pub open spec fn negated(f: Fraction) -> Fraction {
    Fraction { num: -f.num, den: f.den }
}

/// What is taken off the samples of Y, U and V first.
pub open spec fn offsets_of(full_range: bool, bits: nat) -> Seq<Fraction> {
    seq![luma_offset(full_range, bits), chroma_offset(bits), chroma_offset(bits)]
}

pub open spec fn fractions(ratios: Seq<Ratio>) -> Seq<Fraction> {
    ratios.map_values(|r: Ratio| r@)
}

/// Two to the power of `bits`.
fn two_to(bits: u32) -> (r: i128)
    requires
        bits <= 32,
    ensures
        r == power2::pow2(bits as nat),
        1 <= r <= 0x1_0000_0000,
{
    let mut r: i128 = 1;
    let mut i: u32 = 0;
    proof {
        power2::lemma2_to64();
        assert(power2::pow2(0) == 1);
        assert(power2::pow2(32) == 0x1_0000_0000);
    }
    while i < bits
        invariant
            i <= bits <= 32,
            r == power2::pow2(i as nat),
            1 <= r <= 0x1_0000_0000,
            power2::pow2(32) == 0x1_0000_0000,
        decreases bits - i,
    {
        proof {
            power2::lemma_pow2_unfold((i + 1) as nat);
            if i + 1 < 32 {
                power2::lemma_pow2_strictly_increases((i + 1) as nat, 32);
            }
        }
        r = r * 2;
        i = i + 1;
    }
    r
}

/// The matrix, in columns, and the offset to take off each sample before it
/// is applied.
pub fn yuv_to_rgb(space: Space, full_range: bool, bit_depth: u8) -> (r: ([Ratio; 9], [Ratio; 3]))
    requires
        bit_depth <= 31,
    ensures
        fractions(r.0@) == matrix_of(space, full_range, depth_for(bit_depth)),
        fractions(r.1@) == offsets_of(full_range, depth_for(bit_depth)),
{
    let (kr, kb) = luma_weights(space);
    let kg: i128 = 10000 - kr - kb;
    let bits: u32 = if bit_depth < 8 {
        8
    } else {
        bit_depth as u32
    };
    let max: i128 = two_to(bits) - 1;
    let shift: i128 = two_to(bits - 8);
    let (y, c, y_offset): (Ratio, Ratio, Ratio) = if full_range {
        (Ratio { num: 1, den: 1 }, Ratio { num: 1, den: 1 }, Ratio { num: 0, den: 1 })
    } else {
        (
            Ratio { num: max, den: 219 * shift },
            Ratio { num: max, den: 224 * shift },
            Ratio { num: 16 * shift, den: max },
        )
    };
    let c_offset = Ratio { num: two_to(bits - 1), den: max };
    let zero = Ratio { num: 0, den: 1 };
    let green_u: i128 = 2 * (10000 - kb) * kb;
    let green_v: i128 = 2 * (10000 - kr) * kr;
    assert(0 <= green_u <= 2 * 10000 * 10000 && 0 <= green_v <= 2 * 10000 * 10000);
    let n: i128 = c.num;
    let d: i128 = c.den;
    assert(0 <= n <= 0x1_0000_0000);
    assert(1 <= d <= 224 * 0x1_0000_0000);
    assert(0 <= green_u * n <= 2 * 10000 * 10000 * 0x1_0000_0000) by (nonlinear_arith)
        requires
            0 <= green_u <= 2 * 10000 * 10000,
            0 <= n <= 0x1_0000_0000,
    ;
    assert(0 <= green_v * n <= 2 * 10000 * 10000 * 0x1_0000_0000) by (nonlinear_arith)
        requires
            0 <= green_v <= 2 * 10000 * 10000,
            0 <= n <= 0x1_0000_0000,
    ;
    let gd: i128 = 10000 * kg;
    assert(0 <= gd * d <= 10000 * 10000 * 224 * 0x1_0000_0000) by (nonlinear_arith)
        requires
            0 <= gd <= 10000 * 10000,
            1 <= d <= 224 * 0x1_0000_0000,
    ;
    let ob: i128 = 2 * (10000 - kb);
    let or: i128 = 2 * (10000 - kr);
    assert(0 <= ob * n <= 20000 * 0x1_0000_0000 && 0 <= or * n <= 20000 * 0x1_0000_0000)
        by (nonlinear_arith)
        requires
            0 <= ob <= 20000,
            0 <= or <= 20000,
            0 <= n <= 0x1_0000_0000,
    ;
    let ug = Ratio { num: -(green_u * n), den: gd * d };
    let vg = Ratio { num: -(green_v * n), den: gd * d };
    let ub = Ratio { num: ob * n, den: 10000 * d };
    let vr = Ratio { num: or * n, den: 10000 * d };
    let matrix: [Ratio; 9] = [y, y, y, zero, ug, ub, vr, vg, zero];
    let offset: [Ratio; 3] = [y_offset, c_offset, c_offset];
    assert(fractions(matrix@) =~= matrix_of(space, full_range, depth_for(bit_depth)));
    assert(fractions(offset@) =~= offsets_of(full_range, depth_for(bit_depth)));
    (matrix, offset)
}

/// BT.2020 primaries to BT.709, in ten-thousandths and in columns, applied in
/// linear light while tone mapping. Nothing changes when the source is not
/// mapped.
pub open spec fn primaries_of(tone_mapping: bool) -> Seq<int> {
    if tone_mapping {
        seq![16605int, -1246, -182, -5876, 11329, -1006, -728, -83, 11187]
    } else {
        seq![10000int, 0, 0, 0, 10000, 0, 0, 0, 10000]
    }
}

pub fn primaries_matrix(tone_mapping: bool) -> (r: [i32; 9])
    ensures
        r@.map_values(|v: i32| v as int) == primaries_of(tone_mapping),
{
    if tone_mapping {
        let r: [i32; 9] = [16605, -1246, -182, -5876, 11329, -1006, -728, -83, 11187];
        assert(r@.map_values(|v: i32| v as int) =~= primaries_of(true));
        r
    } else {
        let r: [i32; 9] = [10000, 0, 0, 0, 10000, 0, 0, 0, 10000];
        assert(r@.map_values(|v: i32| v as int) =~= primaries_of(false));
        r
    }
}

/// The factor that brings a sample in a 16-bit texture back to its real
/// value. Planar formats hold their bits at the bottom of the word, the
/// others at the top.
pub open spec fn texture_scale(layout: PixelLayout) -> Fraction {
    match layout {
        PixelLayout::Planar16 { bits, .. } => Fraction {
            num: 65535,
            den: max_sample(bits as nat),
        },
        PixelLayout::BiPlanar16 { bits } => Fraction {
            num: 65535,
            den: max_sample(bits as nat) * power2::pow2((16 - bits) as nat),
        },
        _ => Fraction { num: 1, den: 1 },
    }
}

pub fn depth_scale(layout: PixelLayout) -> (r: Ratio)
    requires
        1 <= layout.depth() <= 16,
    ensures
        r@ == texture_scale(layout),
        r.den > 0,
{
    match layout {
        PixelLayout::Planar16 { bits, .. } => {
            proof {
                power2::lemma_pow2_unfold(bits as nat);
                power2::lemma_pow2_pos((bits - 1) as nat);
            }
            Ratio { num: 65535, den: two_to(bits as u32) - 1 }
        },
        PixelLayout::BiPlanar16 { bits } => {
            proof {
                power2::lemma_pow2_unfold(bits as nat);
                power2::lemma_pow2_pos((bits - 1) as nat);
            }
            let max: i128 = two_to(bits as u32) - 1;
            let top: i128 = two_to(16 - bits as u32);
            assert(1 <= max * top <= 0x1_0000_0000 * 0x1_0000_0000) by (nonlinear_arith)
                requires
                    1 <= max <= 0x1_0000_0000,
                    1 <= top <= 0x1_0000_0000,
            ;
            Ratio { num: 65535, den: max * top }
        },
        _ => Ratio { num: 1, den: 1 },
    }
}

// ── Laws ────────────────────────────────────────────────────────────────

/// The sample `v` of `bits` bits as the shader reads it: between 0 and 1.
pub open spec fn sampled(v: int, bits: nat) -> Fraction {
    Fraction { num: v, den: max_sample(bits) }
}

/// One channel of the colour of a pixel, `0` for red, `1` for green and `2`
/// for blue.
pub open spec fn converted(
    space: Space,
    full_range: bool,
    bits: nat,
    channel: int,
    y: int,
    u: int,
    v: int,
) -> Fraction {
    let m = matrix_of(space, full_range, bits);
    let o = offsets_of(full_range, bits);
    m[channel].times(sampled(y, bits).minus(o[0])).plus(
        m[3 + channel].times(sampled(u, bits).minus(o[1])),
    ).plus(m[6 + channel].times(sampled(v, bits).minus(o[2])))
}

/// The value of neutral chroma.
pub open spec fn neutral(bits: nat) -> int {
    power2::pow2((bits - 1) as nat) as int
}

proof fn depths_are_positive(bits: nat)
    requires
        bits >= 8,
    ensures
        max_sample(bits) > 0,
        depth_shift(bits) > 0,
{
    power2::lemma_pow2_pos((bits - 8) as nat);
    power2::lemma_pow2_pos((bits - 1) as nat);
    power2::lemma_pow2_unfold(bits);
}

proof fn nothing_added(f: Fraction, z: Fraction)
    requires
        z.num == 0,
        z.den != 0,
    ensures
        f.plus(z).equals(f),
        f.plus(z).num == f.num * z.den,
        f.plus(z).den == f.den * z.den,
{
    assert((f.num * z.den + 0 * f.den) * f.den == f.num * (f.den * z.den)) by (nonlinear_arith);
    assert(z.num * f.den == 0) by (nonlinear_arith)
        requires
            z.num == 0,
    ;
}

proof fn chroma_vanishes(space: Space, full_range: bool, bits: nat, k: int)
    requires
        bits >= 8,
        3 <= k < 9,
    ensures
        ({
            let t = matrix_of(space, full_range, bits)[k].times(
                sampled(neutral(bits), bits).minus(chroma_offset(bits)),
            );
            t.num == 0 && t.den != 0
        }),
{
    depths_are_positive(bits);
    let m = matrix_of(space, full_range, bits)[k];
    let s = sampled(neutral(bits), bits).minus(chroma_offset(bits));
    let max = max_sample(bits);
    let n = neutral(bits);
    assert(s.num == n * max - n * max);
    assert(s.num == 0);
    assert(s.den == max * max);
    assert(max * max > 0) by (nonlinear_arith)
        requires
            max > 0,
    ;
    let (kr, kb) = weights_of(space);
    let kg = 10000 - kr - kb;
    let c = chroma_scale(full_range, bits);
    assert(c.den > 0);
    assert(m.den > 0) by {
        let gd = 10000 * kg;
        assert(gd * c.den > 0) by (nonlinear_arith)
            requires
                gd > 0,
                c.den > 0,
        ;
    }
    assert(m.num * s.num == 0) by (nonlinear_arith)
        requires
            s.num == 0,
    ;
    assert(m.den * s.den > 0) by (nonlinear_arith)
        requires
            m.den > 0,
            s.den > 0,
    ;
}

/// Without colour the three channels are the same: the luma, corrected for
/// its range.
pub proof fn neutral_chroma_gives_grey(
    space: Space,
    full_range: bool,
    bits: nat,
    channel: int,
    y: int,
)
    requires
        bits >= 8,
        0 <= channel < 3,
    ensures
        converted(space, full_range, bits, channel, y, neutral(bits), neutral(bits)).equals(
            luma_scale(full_range, bits).times(
                sampled(y, bits).minus(luma_offset(full_range, bits)),
            ),
        ),
{
    let m = matrix_of(space, full_range, bits);
    let o = offsets_of(full_range, bits);
    let a = m[channel].times(sampled(y, bits).minus(o[0]));
    let b = m[3 + channel].times(sampled(neutral(bits), bits).minus(o[1]));
    let c = m[6 + channel].times(sampled(neutral(bits), bits).minus(o[2]));
    chroma_vanishes(space, full_range, bits, 3 + channel);
    chroma_vanishes(space, full_range, bits, 6 + channel);
    nothing_added(a, b);
    nothing_added(a.plus(b), c);
    let whole = a.plus(b).plus(c);
    assert(whole.num == a.num * b.den * c.den);
    assert(whole.den == a.den * b.den * c.den);
    assert((a.num * b.den * c.den) * a.den == a.num * (a.den * b.den * c.den)) by (nonlinear_arith);
    assert(m[channel] == luma_scale(full_range, bits));
}

/// White survives the round trip: in studio swing it is 235, at whatever
/// depth.
pub proof fn limited_range_white_maps_to_one(space: Space, bits: nat, channel: int)
    requires
        bits >= 8,
        0 <= channel < 3,
    ensures
        luma_scale(false, bits).times(
            sampled(235 * depth_shift(bits), bits).minus(luma_offset(false, bits)),
        ).equals(Fraction::whole(1)),
        converted(
            space,
            false,
            bits,
            channel,
            235 * depth_shift(bits),
            neutral(bits),
            neutral(bits),
        ).equals(Fraction::whole(1)),
{
    depths_are_positive(bits);
    let max = max_sample(bits);
    let s = depth_shift(bits);
    let l = luma_scale(false, bits).times(sampled(235 * s, bits).minus(luma_offset(false, bits)));
    assert(l.num == max * ((235 * s) * max - (16 * s) * max));
    assert(l.den == (219 * s) * (max * max));
    assert(max * ((235 * s) * max - (16 * s) * max) == (219 * s) * (max * max)) by (nonlinear_arith);
    neutral_chroma_gives_grey(space, false, bits, channel, 235 * s);
    let w = converted(space, false, bits, channel, 235 * s, neutral(bits), neutral(bits));
    assert(l.den > 0) by (nonlinear_arith)
        requires
            l.den == (219 * s) * (max * max),
            s > 0,
            max > 0,
    ;
    same_as_one(w, l);
}

proof fn same_as_one(w: Fraction, l: Fraction)
    requires
        w.equals(l),
        l.num == l.den,
        l.den > 0,
    ensures
        w.equals(Fraction::whole(1)),
{
    let d = l.den;
    assert(w.num * d == d * w.den);
    assert(w.num == w.den) by (nonlinear_arith)
        requires
            w.num * d == d * w.den,
            d > 0,
    ;
}

/// Black survives too: in studio swing it is 16.
pub proof fn limited_range_black_maps_to_zero(space: Space, bits: nat, channel: int)
    requires
        bits >= 8,
        0 <= channel < 3,
    ensures
        converted(
            space,
            false,
            bits,
            channel,
            16 * depth_shift(bits),
            neutral(bits),
            neutral(bits),
        ).num == 0,
{
    depths_are_positive(bits);
    let max = max_sample(bits);
    let s = depth_shift(bits);
    let m = matrix_of(space, false, bits);
    let o = offsets_of(false, bits);
    let a = m[channel].times(sampled(16 * s, bits).minus(o[0]));
    let b = m[3 + channel].times(sampled(neutral(bits), bits).minus(o[1]));
    let c = m[6 + channel].times(sampled(neutral(bits), bits).minus(o[2]));
    assert(a.num == max * ((16 * s) * max - (16 * s) * max));
    assert(a.num == 0) by (nonlinear_arith)
        requires
            a.num == max * ((16 * s) * max - (16 * s) * max),
    ;
    chroma_vanishes(space, false, bits, 3 + channel);
    chroma_vanishes(space, false, bits, 6 + channel);
    nothing_added(a, b);
    nothing_added(a.plus(b), c);
    assert(a.num * b.den == 0) by (nonlinear_arith)
        requires
            a.num == 0,
    ;
    let ab = a.plus(b);
    assert(ab.num == 0);
    assert(ab.num * c.den == 0) by (nonlinear_arith)
        requires
            ab.num == 0,
    ;
}

/// Content that uses the whole range is not stretched a second time.
pub proof fn full_range_is_untouched(space: Space, bits: nat)
    ensures
        matrix_of(space, true, bits)[0].equals(Fraction::whole(1)),
        offsets_of(true, bits)[0].equals(Fraction::whole(0)),
{
}

/// The largest sample that a layout can hold is brought back to one.
pub proof fn the_largest_sample_reads_as_one(layout: PixelLayout)
    requires
        1 <= layout.depth() <= 16,
    ensures
        layout matches PixelLayout::Planar16 { bits, .. } ==> texture_scale(layout).times(
            Fraction { num: max_sample(bits as nat), den: 65535 },
        ).equals(Fraction::whole(1)),
        layout matches PixelLayout::BiPlanar16 { bits } ==> texture_scale(layout).times(
            Fraction {
                num: max_sample(bits as nat) * power2::pow2((16 - bits) as nat),
                den: 65535,
            },
        ).equals(Fraction::whole(1)),
{
    if let PixelLayout::Planar16 { bits, .. } = layout {
        let max = max_sample(bits as nat);
        assert(65535 * max == max * 65535) by (nonlinear_arith);
    }
    if let PixelLayout::BiPlanar16 { bits } = layout {
        let top = max_sample(bits as nat) * power2::pow2((16 - bits) as nat);
        assert(65535 * top == top * 65535) by (nonlinear_arith);
    }
}

} // verus!

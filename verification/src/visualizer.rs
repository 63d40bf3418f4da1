//! What to draw when there is no picture: a window of the samples on their
//! way to the sound card, and the bands that their spectrum is shown in.

use vstd::arithmetic::power2;
use vstd::prelude::*;

use crate::ring;

verus! {

/// Samples per analysis window: long enough to resolve the bass, short
/// enough that the display still moves with the music.
pub const WINDOW: usize = 1024;

/// Bars on screen.
pub const BANDS: usize = 56;

// ── The tap ─────────────────────────────────────────────────────────────

/// The most recent mono samples.
#[derive(Debug)]
pub struct Tap<T: Copy> {
    buf: Vec<T>,
    /// Where the oldest sample is.
    write: usize,
    live: bool,
}

impl<T: Copy> View for Tap<T> {
    type V = Seq<T>;

    /// The window, oldest sample first.
    closed spec fn view(&self) -> Seq<T> {
        Seq::new(WINDOW as nat, |i: int| self.buf@[(self.write + i) % WINDOW as int])
    }
}

/// The last `WINDOW` samples of the window followed by `more`.
pub open spec fn latest<T>(window: Seq<T>, more: Seq<T>) -> Seq<T> {
    (window + more).skip(more.len() as int)
}

/// Whether `mono` holds one sample for every whole frame of `channels`
/// samples, each made from that frame by `mix`.
pub open spec fn mixed_by<T, F: Fn(&[T], usize, usize) -> T>(
    mix: F,
    interleaved: &[T],
    channels: int,
    mono: Seq<T>,
) -> bool {
    &&& mono.len() == interleaved@.len() as int / channels
    &&& forall|i: int|
        0 <= i < mono.len() ==> call_ensures(
            mix,
            (interleaved, (i * channels) as usize, (i * channels + channels) as usize),
            #[trigger] mono[i],
        )
}

/// How many samples make a frame.
pub open spec fn frame_size(channels: u16) -> int {
    if channels == 0 {
        1
    } else {
        channels as int
    }
}

impl<T: Copy> Tap<T> {
    pub closed spec fn wf(self) -> bool {
        self.buf@.len() == WINDOW && self.write < WINDOW
    }

    /// Whether audio is flowing, which tells silence from no audio at all.
    pub closed spec fn flowing(self) -> bool {
        self.live
    }

    pub fn new(silence: T) -> (r: Tap<T>)
        ensures
            r.wf(),
            r@ == ring::repeated(silence, WINDOW as int),
            !r.flowing(),
    {
        let mut buf: Vec<T> = Vec::new();
        let mut i: usize = 0;
        while i < WINDOW
            invariant
                i <= WINDOW,
                buf@.len() == i,
                forall|k: int| 0 <= k < i ==> buf@[k] == silence,
            decreases WINDOW - i,
        {
            buf.push(silence);
            i = i + 1;
        }
        let r = Tap { buf: buf, write: 0, live: false };
        assert(r@ =~= ring::repeated(silence, WINDOW as int));
        r
    }

    /// Takes one mono sample.
    fn take_in(&mut self, sample: T)
        requires
            old(self).wf(),
        ensures
            final(self).wf(),
            final(self)@ == old(self)@.push(sample).skip(1),
            final(self).live == old(self).live,
    {
        let ghost before = *self;
        let at: usize = self.write;
        self.buf[at] = sample;
        self.write = if at + 1 == WINDOW {
            0
        } else {
            at + 1
        };
        assert(self@ =~= before@.push(sample).skip(1)) by {
            assert forall|i: int| 0 <= i < WINDOW implies self@[i] == before@.push(sample).skip(
                1,
            )[i] by {
                assert((at + 1 + i) % WINDOW as int == (self.write + i) % WINDOW as int);
                if i < WINDOW - 1 {
                    assert((at + i + 1) % WINDOW as int != at);
                } else {
                    assert((at + 1 + i) % WINDOW as int == at);
                }
            }
        }
    }

    /// Takes interleaved output samples. The channels of each frame are made
    /// into one sample by `mix`; what is left of a broken last frame is
    /// dropped.
    pub fn push<F: Fn(&[T], usize, usize) -> T>(
        &mut self,
        interleaved: &[T],
        channels: u16,
        mix: F,
    )
        requires
            old(self).wf(),
            forall|a: usize, b: usize|
                a < b <= interleaved@.len() ==> #[trigger] call_requires(mix, (interleaved, a, b)),
        ensures
            final(self).wf(),
            final(self).flowing(),
            exists|mono: Seq<T>| #[trigger]
                mixed_by(mix, interleaved, frame_size(channels), mono) && final(self)@ == latest(
                    old(self)@,
                    mono,
                ),
    {
        let size: usize = if channels == 0 {
            1
        } else {
            channels as usize
        };
        let ghost first = self@;
        let ghost mut mono: Seq<T> = Seq::empty();
        let total: usize = interleaved.len();
        let mut at: usize = 0;
        assert(latest(first, mono) =~= first);
        while total - at >= size
            invariant
                self.wf(),
                size >= 1,
                size == frame_size(channels),
                total == interleaved@.len(),
                at <= total,
                at == mono.len() * size,
                self@ == latest(first, mono),
                forall|a: usize, b: usize|
                    a < b <= interleaved@.len() ==> #[trigger] call_requires(
                        mix,
                        (interleaved, a, b),
                    ),
                forall|i: int|
                    0 <= i < mono.len() ==> call_ensures(
                        mix,
                        (interleaved, (i * size) as usize, (i * size + size) as usize),
                        #[trigger] mono[i],
                    ),
            decreases total - at,
        {
            let sample: T = mix(interleaved, at, at + size);
            let ghost before = self@;
            self.take_in(sample);
            proof {
                let longer = mono.push(sample);
                assert(latest(first, longer) =~= before.push(sample).skip(1));
                assert((mono.len() + 1) * size == mono.len() * size + size) by (nonlinear_arith);
                mono = longer;
            }
            at = at + size;
        }
        proof {
            vstd::arithmetic::div_mod::lemma_fundamental_div_mod_converse(
                total as int,
                size as int,
                mono.len() as int,
                total - at,
            );
            assert(mixed_by(mix, interleaved, frame_size(channels), mono));
        }
        self.live = true;
        assert(self@ =~= latest(first, mono));
    }

    pub fn is_live(&self) -> (r: bool)
        ensures
            r == self.flowing(),
    {
        self.live
    }

    /// Says that audio has stopped. The window stays.
    pub fn reset(&mut self)
        requires
            old(self).wf(),
        ensures
            final(self).wf(),
            final(self)@ == old(self)@,
            !final(self).flowing(),
    {
        let ghost before = self@;
        self.live = false;
        assert(self@ =~= before);
    }

    /// The most recent window, oldest sample first.
    pub fn snapshot(&self) -> (r: Vec<T>)
        requires
            self.wf(),
        ensures
            r@ == self@,
    {
        let mut r: Vec<T> = Vec::new();
        let mut i: usize = 0;
        while i < WINDOW
            invariant
                self.wf(),
                i <= WINDOW,
                r@ == self@.take(i as int),
            decreases WINDOW - i,
        {
            r.push(self.buf[(self.write + i) % WINDOW]);
            assert(r@ =~= self@.take(i + 1));
            i = i + 1;
        }
        assert(r@ =~= self@);
        r
    }
}

// ── Bands ───────────────────────────────────────────────────────────────

pub open spec fn seventh_power(x: int) -> int {
    x * x * x * x * x * x * x
}

/// Whether `e` is the bin where band `i` starts on a logarithmic scale from
/// bin 2 to the last one: the whole number nearest to 2 to the power of
/// `1 + i / 7`.
pub open spec fn nearest_edge(e: int, i: int) -> bool {
    seventh_power(2 * e - 1) <= power2::pow2((14 + i) as nat) < seventh_power(2 * e + 1)
}

/// The edges moved up where needed, so that each is past the one before it.
pub open spec fn separated(raw: Seq<int>, i: int) -> int
    decreases i,
{
    if i <= 0 {
        raw[0]
    } else if raw[i] <= separated(raw, i - 1) {
        separated(raw, i - 1) + 1
    } else {
        raw[i]
    }
}

fn power_of_seven(x: u128) -> (r: u128)
    requires
        x <= 1025,
    ensures
        r == seventh_power(x as int),
{
    assert(0 <= x * x <= 1025 * 1025) by (nonlinear_arith)
        requires
            0 <= x <= 1025,
    ;
    let x2: u128 = x * x;
    assert(0 <= x2 * x <= 1025 * 1025 * 1025) by (nonlinear_arith)
        requires
            0 <= x <= 1025,
            0 <= x2 <= 1025 * 1025,
    ;
    let x3: u128 = x2 * x;
    assert(0 <= x3 * x <= 1025 * 1025 * 1025 * 1025) by (nonlinear_arith)
        requires
            0 <= x <= 1025,
            0 <= x3 <= 1025 * 1025 * 1025,
    ;
    let x4: u128 = x3 * x;
    assert(0 <= x4 * x <= 1025 * 1025 * 1025 * 1025 * 1025) by (nonlinear_arith)
        requires
            0 <= x <= 1025,
            0 <= x4 <= 1025 * 1025 * 1025 * 1025,
    ;
    let x5: u128 = x4 * x;
    assert(0 <= x5 * x <= 1025 * 1025 * 1025 * 1025 * 1025 * 1025) by (nonlinear_arith)
        requires
            0 <= x <= 1025,
            0 <= x5 <= 1025 * 1025 * 1025 * 1025 * 1025,
    ;
    let x6: u128 = x5 * x;
    assert(0 <= x6 * x <= 1025 * 1025 * 1025 * 1025 * 1025 * 1025 * 1025) by (nonlinear_arith)
        requires
            0 <= x <= 1025,
            0 <= x6 <= 1025 * 1025 * 1025 * 1025 * 1025 * 1025,
    ;
    x6 * x
}

/// The bins where the bands start and end on a logarithmic scale: pitch is
/// logarithmic, and linear bins would cram the bass into one bar.
pub fn logarithmic_edges() -> (r: Vec<usize>)
    ensures
        r@.len() == BANDS + 1,
        forall|i: int| 0 <= i <= BANDS ==> nearest_edge(#[trigger] r@[i] as int, i),
        forall|i: int| 0 <= i <= BANDS ==> 1 <= #[trigger] r@[i] <= 512,
{
    let mut r: Vec<usize> = Vec::new();
    let mut i: usize = 0;
    let mut e: usize = 1;
    // Two to the power of 14.
    let mut target: u128 = 16384;
    proof {
        power2::lemma2_to64();
        assert(power2::pow2(14) == 16384);
        assert(seventh_power(1) == 1) by (nonlinear_arith);
    }
    while i <= BANDS
        invariant
            i <= BANDS + 1,
            r@.len() == i,
            1 <= e <= 512,
            target == power2::pow2((14 + i) as nat),
            seventh_power(2 * e - 1) <= target,
            forall|k: int| 0 <= k < i ==> nearest_edge(#[trigger] r@[k] as int, k),
            forall|k: int| 0 <= k < i ==> 1 <= #[trigger] r@[k] <= 512,
        decreases BANDS + 1 - i,
    {
        proof {
            top_edge_is_high();
            power2::lemma_pow2_unfold((15 + i) as nat);
            if i < BANDS {
                power2::lemma_pow2_strictly_increases((14 + i) as nat, 70);
            }
        }
        while e < 512 && power_of_seven(2 * e as u128 + 1) <= target
            invariant
                1 <= e <= 512,
                seventh_power(2 * e - 1) <= target,
            ensures
                1 <= e <= 512,
                seventh_power(2 * e - 1) <= target,
                e < 512 ==> seventh_power(2 * e + 1) > target,
            decreases 512 - e,
        {
            e = e + 1;
        }
        assert(nearest_edge(e as int, i as int));
        r.push(e);
        i = i + 1;
        target = target * 2;
    }
    r
}

proof fn top_edge_is_high()
    ensures
        power2::pow2(70) == 0x40_0000_0000_0000_0000,
        seventh_power(1025) > power2::pow2(70),
{
    power2::lemma2_to64();
    power2::lemma2_to64_rest();
    power2::lemma_pow2_adds(6, 64);
    assert(power2::pow2(70) == 0x40_0000_0000_0000_0000);
    assert(1025int * 1025 * 1025 * 1025 * 1025 * 1025 * 1025 == 1188685753668212890625)
        by (nonlinear_arith);
}

/// The bins that the bars of the display stand for.
#[derive(Debug)]
pub struct Analyzer {
    /// Where each band starts, and where the last one ends.
    pub edges: Vec<usize>,
}

impl Analyzer {
    /// Every band ends past its start, and the bands lie in the window.
    pub open spec fn wf(self) -> bool {
        &&& self.edges@.len() == BANDS + 1
        &&& forall|i: int| 0 <= i < BANDS ==> #[trigger] self.edges@[i] < self.edges@[i + 1]
        &&& forall|i: int| 0 <= i <= BANDS ==> #[trigger] self.edges@[i] <= 512 + i
    }

    /// The first bin of a band and the one past its last.
    pub fn band(&self, band: usize) -> (r: (usize, usize))
        requires
            self.wf(),
            band < BANDS,
        ensures
            r.0 == self.edges@[band as int],
            r.1 == if self.edges@[band + 1] > 512 && r.0 < 512 {
                512
            } else if r.0 < 512 {
                self.edges@[band + 1] as int
            } else {
                r.0 + 1
            },
            r.0 < r.1 < WINDOW,
    {
        let from: usize = self.edges[band];
        let end: usize = if self.edges[band + 1] > WINDOW / 2 {
            WINDOW / 2
        } else {
            self.edges[band + 1]
        };
        assert(self.edges@[band as int] < self.edges@[band + 1]);
        (
            from,
            if end > from {
                end
            } else {
                from + 1
            },
        )
    }
}

pub open spec fn whole(edges: Seq<usize>) -> Seq<int> {
    edges.map_values(|e: usize| e as int)
}

/// Moves the edges up where needed, so that every band owns at least one
/// bin, even at the bottom where the logarithm packs them together.
pub fn separate(edges: &mut Vec<usize>)
    requires
        old(edges)@.len() > 0,
        forall|i: int|
            0 <= i < old(edges)@.len() ==> #[trigger] old(edges)@[i] + old(edges)@.len()
                <= usize::MAX,
    ensures
        final(edges)@.len() == old(edges)@.len(),
        forall|i: int|
            0 <= i < final(edges)@.len() ==> #[trigger] final(edges)@[i] == separated(
                whole(old(edges)@),
                i,
            ),
{
    let ghost raw = whole(edges@);
    let ghost first = edges@;
    let n: usize = edges.len();
    let mut i: usize = 1;
    while i < n
        invariant
            1 <= i <= n,
            n == edges@.len(),
            n == first.len(),
            raw == whole(first),
            forall|k: int| 0 <= k < n ==> #[trigger] first[k] + n <= usize::MAX,
            forall|k: int| i <= k < n ==> #[trigger] edges@[k] == first[k],
            forall|k: int| 0 <= k < i ==> #[trigger] edges@[k] == separated(raw, k),
            forall|k: int| 0 <= k < i ==> #[trigger] edges@[k] + n - k <= usize::MAX,
        decreases n - i,
    {
        assert(raw[i as int] == first[i as int]);
        assert(edges@[i - 1] + n - (i - 1) <= usize::MAX);
        if edges[i] <= edges[i - 1] {
            let next: usize = edges[i - 1] + 1;
            edges[i] = next;
        }
        i = i + 1;
    }
}

impl Default for Analyzer {
    fn default() -> (r: Analyzer)
        ensures
            r.wf(),
            exists|raw: Seq<int>|
                #![trigger separated(raw, 0)]
                raw.len() == BANDS + 1 && (forall|i: int|
                    0 <= i <= BANDS ==> nearest_edge(#[trigger] raw[i], i)) && (forall|i: int|
                    0 <= i <= BANDS ==> #[trigger] r.edges@[i] == separated(raw, i)),
    {
        let mut edges = logarithmic_edges();
        let ghost raw = whole(edges@);
        separate(&mut edges);
        proof {
            assert(separated(raw, 0) == raw[0]);
            assert forall|i: int| 0 <= i < BANDS implies #[trigger] edges@[i] < edges@[i + 1] by {
                edges_part(raw, i + 1);
            }
            assert forall|i: int| 0 <= i <= BANDS implies #[trigger] edges@[i] <= 512 + i by {
                edges_stay_low(raw, i);
            }
        }
        Analyzer { edges: edges }
    }
}

proof fn edges_part(raw: Seq<int>, i: int)
    requires
        i > 0,
    ensures
        separated(raw, i - 1) < separated(raw, i),
        raw[i] <= separated(raw, i),
{
}

proof fn edges_stay_low(raw: Seq<int>, i: int)
    requires
        0 <= i < raw.len(),
        forall|k: int| 0 <= k < raw.len() ==> #[trigger] raw[k] <= 512,
    ensures
        separated(raw, i) <= 512 + i,
    decreases i,
{
    if i > 0 {
        edges_stay_low(raw, i - 1);
    }
}

/// Whatever edges it starts from, separating them leaves no band empty and
/// moves no edge down.
pub proof fn every_band_owns_a_bin(raw: Seq<int>, i: int)
    requires
        0 < i < raw.len(),
    ensures
        separated(raw, i - 1) < separated(raw, i),
        raw[i] <= separated(raw, i),
{
    edges_part(raw, i);
}

/// The edges are the only ones: no other whole number is as near.
pub proof fn edges_are_unique(a: int, b: int, i: int)
    requires
        nearest_edge(a, i),
        nearest_edge(b, i),
        1 <= a,
        1 <= b,
    ensures
        a == b,
{
    if a < b {
        seventh_power_grows(2 * a + 1, 2 * b - 1);
    } else if b < a {
        seventh_power_grows(2 * b + 1, 2 * a - 1);
    }
}

proof fn seventh_power_grows(x: int, y: int)
    requires
        0 <= x <= y,
    ensures
        seventh_power(x) <= seventh_power(y),
{
    let x2 = x * x;
    let y2 = y * y;
    product_grows(x, y, x, y);
    let x3 = x2 * x;
    let y3 = y2 * y;
    product_grows(x2, y2, x, y);
    let x4 = x3 * x;
    let y4 = y3 * y;
    product_grows(x3, y3, x, y);
    let x5 = x4 * x;
    let y5 = y4 * y;
    product_grows(x4, y4, x, y);
    let x6 = x5 * x;
    let y6 = y5 * y;
    product_grows(x5, y5, x, y);
    product_grows(x6, y6, x, y);
}

proof fn product_grows(a: int, b: int, x: int, y: int)
    by (nonlinear_arith)
    requires
        0 <= a <= b,
        0 <= x <= y,
    ensures
        0 <= a * x <= b * y,
{
}

// ── The order of the transform ──────────────────────────────────────────

/// `i` with its lowest `bits` bits in reverse.
pub open spec fn reversed(i: int, bits: nat) -> int
    decreases bits,
{
    if bits == 0 {
        0
    } else {
        (i % 2) * power2::pow2((bits - 1) as nat) + reversed(i / 2, (bits - 1) as nat)
    }
}

/// Where the transform puts the sample at `i` before it starts.
pub fn bit_reversed(i: usize) -> (r: usize)
    requires
        i < WINDOW,
    ensures
        r == reversed(i as int, 10),
        r < WINDOW,
{
    let mut rest: usize = i;
    let mut weight: usize = WINDOW / 2;
    let mut sum: usize = 0;
    let mut left: usize = 10;
    proof {
        power2::lemma2_to64();
        assert(power2::pow2(10) == 1024);
        assert(power2::pow2(9) == 512);
        reversed_fits(i as int, 10);
    }
    while left > 0
        invariant
            left <= 10,
            left > 0 ==> weight == power2::pow2((left - 1) as nat),
            sum + reversed(rest as int, left as nat) == reversed(i as int, 10),
            reversed(i as int, 10) < WINDOW,
            reversed(rest as int, left as nat) >= 0,
            weight <= WINDOW,
        decreases left,
    {
        proof {
            reversed_fits(rest as int / 2, (left - 1) as nat);
            if left > 1 {
                power2::lemma_pow2_unfold((left - 1) as nat);
            }
        }
        assert((rest % 2) * weight == if rest % 2 == 1 {
            weight as int
        } else {
            0
        }) by (nonlinear_arith)
            requires
                0 <= rest % 2 <= 1,
        ;
        if rest % 2 == 1 {
            sum = sum + weight;
        }
        rest = rest / 2;
        weight = weight / 2;
        left = left - 1;
    }
    sum
}

proof fn reversed_fits(i: int, bits: nat)
    ensures
        0 <= reversed(i, bits) < power2::pow2(bits),
    decreases bits,
{
    power2::lemma_pow2_pos(bits);
    if bits > 0 {
        reversed_fits(i / 2, (bits - 1) as nat);
        power2::lemma_pow2_unfold(bits);
        power2::lemma_pow2_pos((bits - 1) as nat);
        let p = power2::pow2((bits - 1) as nat) as int;
        assert(0 <= (i % 2) * p <= p) by (nonlinear_arith)
            requires
                0 <= i % 2 <= 1,
                p > 0,
        ;
    }
}

/// The same from the other end: the top bit comes out lowest.
proof fn reversed_from_the_top(i: int, bits: nat)
    requires
        bits > 0,
        0 <= i < power2::pow2(bits),
    ensures
        reversed(i, bits) == 2 * reversed(i % power2::pow2((bits - 1) as nat) as int, (bits - 1) as nat)
            + i / power2::pow2((bits - 1) as nat) as int,
    decreases bits,
{
    let p = power2::pow2((bits - 1) as nat) as int;
    power2::lemma_pow2_pos((bits - 1) as nat);
    power2::lemma_pow2_unfold(bits);
    reveal_with_fuel(reversed, 2);
    if bits == 1 {
        power2::lemma2_to64();
        assert(power2::pow2(0) == 1);
        assert((i % 2) * 1 == i);
    } else {
        let b = (bits - 1) as nat;
        let q = power2::pow2((bits - 2) as nat) as int;
        power2::lemma_pow2_pos((bits - 2) as nat);
        power2::lemma_pow2_unfold(b);
        assert(p == 2 * q);
        reversed_from_the_top(i / 2, b);
        let d = i / p;
        let m = i % p;
        assert(i == p * d + m) by {
            vstd::arithmetic::div_mod::lemma_fundamental_div_mod(i, p);
        }
        vstd::arithmetic::div_mod::lemma_mod_bound(i, p);
        assert(p * d == 2 * (q * d)) by (nonlinear_arith)
            requires
                p == 2 * q,
        ;
        assert(i % 2 == m % 2);
        assert(i / 2 == q * d + m / 2);
        vstd::arithmetic::div_mod::lemma_fundamental_div_mod_converse(i / 2, q, d, m / 2);
        assert((i / 2) / q == d);
        assert((i / 2) % q == m / 2);
        assert((i % 2) * p == 2 * ((m % 2) * q)) by (nonlinear_arith)
            requires
                p == 2 * q,
                i % 2 == m % 2,
        ;
        assert(reversed(m, b) == (m % 2) * q + reversed(m / 2, (bits - 2) as nat));
    }
}

/// Reversing twice gives the index back, so the reordering is made of swaps
/// and loses nothing.
pub proof fn reversing_twice_gives_back(i: int, bits: nat)
    requires
        0 <= i < power2::pow2(bits),
    ensures
        reversed(reversed(i, bits), bits) == i,
        0 <= reversed(i, bits) < power2::pow2(bits),
    decreases bits,
{
    reversed_fits(i, bits);
    if bits == 0 {
        power2::lemma2_to64();
    } else {
        let b = (bits - 1) as nat;
        let p = power2::pow2(b) as int;
        power2::lemma_pow2_pos(b);
        power2::lemma_pow2_unfold(bits);
        let r = reversed(i / 2, b);
        reversed_fits(i / 2, b);
        reversing_twice_gives_back(i / 2, b);
        let j = reversed(i, bits);
        assert(j == p * (i % 2) + r) by (nonlinear_arith)
            requires
                j == (i % 2) * p + r,
        ;
        vstd::arithmetic::div_mod::lemma_fundamental_div_mod_converse(j, p, i % 2, r);
        reversed_from_the_top(j, bits);
    }
}

/// The window holds the newest samples: what comes in pushes out as much of
/// the oldest.
pub proof fn the_window_holds_the_newest<T>(window: Seq<T>, more: Seq<T>, i: int)
    requires
        0 <= i < window.len(),
    ensures
        latest(window, more).len() == window.len(),
        i + more.len() < window.len() ==> latest(window, more)[i] == window[i + more.len()],
        i + more.len() >= window.len() ==> latest(window, more)[i] == more[i + more.len()
            - window.len()],
{
}

/// Frames are as many samples as there are channels.
pub proof fn a_frame_has_every_channel(channels: u16)
    ensures
        channels > 0 ==> frame_size(channels) == channels,
        frame_size(channels) > 0,
{
}

proof fn octave_power(k: nat)
    ensures
        seventh_power(power2::pow2(k + 2) as int) == power2::pow2(14 + 7 * k),
{
    let p = power2::pow2(k + 2) as int;
    power2::lemma_pow2_adds(k + 2, k + 2);
    power2::lemma_pow2_adds(2 * k + 4, k + 2);
    power2::lemma_pow2_adds(3 * k + 6, k + 2);
    power2::lemma_pow2_adds(4 * k + 8, k + 2);
    power2::lemma_pow2_adds(5 * k + 10, k + 2);
    power2::lemma_pow2_adds(6 * k + 12, k + 2);
}

/// Every seven bands are an octave: the bands start at bin 2, and seven bands
/// further the bin is twice as high.
pub proof fn seven_bands_are_an_octave(k: nat, e: int)
    requires
        nearest_edge(e, (7 * k) as int),
        1 <= e,
    ensures
        e == power2::pow2(k + 1),
{
    let d = power2::pow2(k + 1) as int;
    power2::lemma_pow2_pos(k + 1);
    power2::lemma_pow2_unfold(k + 2);
    octave_power(k);
    assert(power2::pow2((14 + 7 * k) as nat) == seventh_power(2 * d));
    seventh_power_grows(2 * d - 1, 2 * d);
    seventh_power_rises(2 * d);
    assert(nearest_edge(d, (7 * k) as int));
    edges_are_unique(e, d, (7 * k) as int);
}

proof fn seventh_power_rises(x: int)
    requires
        x > 0,
    ensures
        seventh_power(x) < seventh_power(x + 1),
{
    let y = x + 1;
    let (x2, y2) = (x * x, y * y);
    assert(0 < x2 < y2) by (nonlinear_arith)
        requires
            x2 == x * x,
            y2 == y * y,
            y == x + 1,
            x > 0,
    ;
    let (x4, y4) = (x2 * x2, y2 * y2);
    assert(0 < x4 < y4) by (nonlinear_arith)
        requires
            x4 == x2 * x2,
            y4 == y2 * y2,
            0 < x2 < y2,
    ;
    let (x6, y6) = (x4 * x2, y4 * y2);
    assert(0 < x6 < y6) by (nonlinear_arith)
        requires
            x6 == x4 * x2,
            y6 == y4 * y2,
            0 < x4 < y4,
            0 < x2 < y2,
    ;
    assert(x6 * x < y6 * y) by (nonlinear_arith)
        requires
            0 < x6 < y6,
            0 < x,
            y == x + 1,
    ;
    assert(x * x * x * x * x * x * x == x6 * x) by (nonlinear_arith)
        requires
            x6 == x4 * x2,
            x4 == x2 * x2,
            x2 == x * x,
    ;
    assert(y * y * y * y * y * y * y == y6 * y) by (nonlinear_arith)
        requires
            y6 == y4 * y2,
            y4 == y2 * y2,
            y2 == y * y,
    ;
}

/// An edge is moved only as far as it has to be to leave the band before it a
/// bin, and the first is not moved.
pub proof fn edges_move_only_to_make_room(raw: Seq<int>, i: int)
    requires
        0 <= i < raw.len(),
    ensures
        separated(raw, 0) == raw[0],
        i > 0 && raw[i] > separated(raw, i - 1) ==> separated(raw, i) == raw[i],
        i > 0 && raw[i] <= separated(raw, i - 1) ==> separated(raw, i) == separated(raw, i - 1) + 1,
{
}

} // verus!

//! Putting things in order, stably: equal keys keep the order in which they
//! came.

use vstd::prelude::*;

verus! {

/// A key to sort by.
pub trait Ranked: Sized {
    /// Whether this key may stand before the other. Equal keys may stand
    /// either way.
    spec fn at_most(&self, other: &Self) -> bool;

    proof fn any_two_compare(a: &Self, b: &Self)
        ensures
            a.at_most(b) || b.at_most(a),
    ;

    proof fn order_carries_over(a: &Self, b: &Self, c: &Self)
        requires
            a.at_most(b),
            b.at_most(c),
        ensures
            a.at_most(c),
    ;

    fn is_at_most(&self, other: &Self) -> (r: bool)
        ensures
            r == self.at_most(other),
    ;
}

/// Whether the key at `i` belongs before the key at `j`: it is smaller, or
/// equal and came first.
pub open spec fn goes_first<K: Ranked>(keys: Seq<K>, i: int, j: int) -> bool {
    keys[i].at_most(&keys[j]) && (keys[j].at_most(&keys[i]) ==> i < j)
}

/// Whether `order` lists the positions of `keys` from `from` up to `to`,
/// each once, in stable order.
pub open spec fn sorts<K: Ranked>(keys: Seq<K>, order: Seq<usize>, from: int, to: int) -> bool {
    &&& order.len() == to - from
    &&& forall|a: int| 0 <= a < order.len() ==> from <= #[trigger] order[a] < to
    &&& forall|a: int, b: int|
        #![trigger order[a], order[b]]
        0 <= a < b < order.len() ==> goes_first(keys, order[a] as int, order[b] as int)
    &&& forall|p: int| from <= p < to ==> #[trigger] listed(order, p)
}

/// Whether position `p` is in the list.
pub open spec fn listed(order: Seq<usize>, p: int) -> bool {
    exists|a: int| 0 <= a < order.len() && #[trigger] order[a] == p
}

proof fn goes_first_carries_over<K: Ranked>(keys: Seq<K>, i: int, j: int, k: int)
    requires
        goes_first(keys, i, j),
        goes_first(keys, j, k),
    ensures
        goes_first(keys, i, k),
{
    K::order_carries_over(&keys[i], &keys[j], &keys[k]);
    if keys[k].at_most(&keys[i]) {
        K::order_carries_over(&keys[k], &keys[i], &keys[j]);
        K::order_carries_over(&keys[j], &keys[k], &keys[i]);
    }
}

/// The positions of the keys in stable order.
pub fn stable_order<K: Ranked>(keys: &Vec<K>) -> (order: Vec<usize>)
    ensures
        sorts(keys@, order@, 0, keys@.len() as int),
{
    sort_range(keys, 0, keys.len())
}

fn sort_range<K: Ranked>(keys: &Vec<K>, from: usize, to: usize) -> (order: Vec<usize>)
    requires
        from <= to <= keys@.len(),
    ensures
        sorts(keys@, order@, from as int, to as int),
    decreases to - from,
{
    let mut order: Vec<usize> = Vec::new();
    if to - from <= 1 {
        if from < to {
            order.push(from);
            assert(order@[0] == from);
        }
        return order;
    }
    let mid: usize = from + (to - from) / 2;
    let left = sort_range(keys, from, mid);
    let right = sort_range(keys, mid, to);
    merge(keys, &left, &right, Ghost(from as int), Ghost(mid as int), Ghost(to as int))
}

/// Whether everything put out so far goes before `p`.
pub open spec fn all_before<K: Ranked>(keys: Seq<K>, out: Seq<usize>, p: int) -> bool {
    forall|c: int| 0 <= c < out.len() ==> goes_first(keys, #[trigger] out[c] as int, p)
}

fn merge<K: Ranked>(
    keys: &Vec<K>,
    left: &Vec<usize>,
    right: &Vec<usize>,
    from: Ghost<int>,
    mid: Ghost<int>,
    to: Ghost<int>,
) -> (out: Vec<usize>)
    requires
        0 <= from@ <= mid@ <= to@ <= keys@.len(),
        sorts(keys@, left@, from@, mid@),
        sorts(keys@, right@, mid@, to@),
    ensures
        sorts(keys@, out@, from@, to@),
{
    let mut out: Vec<usize> = Vec::new();
    let mut a: usize = 0;
    let mut b: usize = 0;
    while a < left.len() || b < right.len()
        invariant
            0 <= from@ <= mid@ <= to@ <= keys@.len(),
            sorts(keys@, left@, from@, mid@),
            sorts(keys@, right@, mid@, to@),
            a <= left@.len(),
            b <= right@.len(),
            out@.len() == a + b,
            forall|c: int| 0 <= c < out@.len() ==> from@ <= #[trigger] out@[c] < to@,
            forall|c: int, d: int|
                #![trigger out@[c], out@[d]]
                0 <= c < d < out@.len() ==> goes_first(keys@, out@[c] as int, out@[d] as int),
            forall|x: int| a <= x < left@.len() ==> all_before(keys@, out@, #[trigger] left@[x] as int),
            forall|y: int|
                b <= y < right@.len() ==> all_before(keys@, out@, #[trigger] right@[y] as int),
            forall|x: int| 0 <= x < a ==> #[trigger] listed(out@, left@[x] as int),
            forall|y: int| 0 <= y < b ==> #[trigger] listed(out@, right@[y] as int),
        decreases left@.len() - a + right@.len() - b,
    {
        let ghost before = out@;
        let take_left: bool = if a == left.len() {
            false
        } else if b == right.len() {
            true
        } else {
            keys[left[a]].is_at_most(&keys[right[b]])
        };
        let next: usize = if take_left {
            left[a]
        } else {
            right[b]
        };
        let ghost a0 = a as int;
        let ghost b0 = b as int;
        out.push(next);
        if take_left {
            a = a + 1;
        } else {
            b = b + 1;
        }
        proof {
            let p = next as int;
            assert(all_before(keys@, before, p));
            assert forall|c: int, d: int|
                #![trigger out@[c], out@[d]]
                0 <= c < d < out@.len() implies goes_first(
                keys@,
                out@[c] as int,
                out@[d] as int,
            ) by {
                assert(out@[c] == before[c]);
                if d < before.len() {
                    assert(out@[d] == before[d]);
                }
            }
            // Between the two heads the chosen one goes first.
            if a0 < left@.len() && b0 < right@.len() {
                let l = left@[a0] as int;
                let r = right@[b0] as int;
                K::any_two_compare(&keys@[l], &keys@[r]);
                assert(goes_first(keys@, l, r) || goes_first(keys@, r, l));
            }
            assert forall|x: int| a <= x < left@.len() implies all_before(
                keys@,
                out@,
                #[trigger] left@[x] as int,
            ) by {
                let q = left@[x] as int;
                assert(all_before(keys@, before, q));
                if take_left {
                    assert(goes_first(keys@, left@[a0] as int, left@[x] as int));
                } else if x > a0 {
                    assert(goes_first(keys@, left@[a0] as int, left@[x] as int));
                    goes_first_carries_over(keys@, p, left@[a0] as int, q);
                }
                assert(goes_first(keys@, p, q));
                assert forall|c: int| 0 <= c < out@.len() implies goes_first(
                    keys@,
                    #[trigger] out@[c] as int,
                    q,
                ) by {
                    if c < before.len() {
                        assert(out@[c] == before[c]);
                    }
                }
            }
            assert forall|y: int| b <= y < right@.len() implies all_before(
                keys@,
                out@,
                #[trigger] right@[y] as int,
            ) by {
                let q = right@[y] as int;
                assert(all_before(keys@, before, q));
                if !take_left {
                    assert(goes_first(keys@, right@[b0] as int, right@[y] as int));
                } else if y > b0 {
                    assert(goes_first(keys@, right@[b0] as int, right@[y] as int));
                    goes_first_carries_over(keys@, p, right@[b0] as int, q);
                }
                assert(goes_first(keys@, p, q));
                assert forall|c: int| 0 <= c < out@.len() implies goes_first(
                    keys@,
                    #[trigger] out@[c] as int,
                    q,
                ) by {
                    if c < before.len() {
                        assert(out@[c] == before[c]);
                    }
                }
            }
            assert forall|x: int| 0 <= x < a implies #[trigger] listed(
                out@,
                left@[x] as int,
            ) by {
                if x < a0 {
                    still_listed(before, next, left@[x] as int);
                    assert(listed(before, left@[x] as int));
                } else {
                    assert(out@[before.len() as int] == left@[x]);
                }
            }
            assert forall|y: int| 0 <= y < b implies #[trigger] listed(
                out@,
                right@[y] as int,
            ) by {
                if y < b0 {
                    still_listed(before, next, right@[y] as int);
                    assert(listed(before, right@[y] as int));
                } else {
                    assert(out@[before.len() as int] == right@[y]);
                }
            }
        }
    }
    proof {
        assert forall|p: int| from@ <= p < to@ implies #[trigger] listed(out@, p) by {
            if p < mid@ {
                assert(listed(left@, p));
                let x = choose|x: int| 0 <= x < left@.len() && #[trigger] left@[x] == p;
                assert(listed(out@, left@[x] as int));
            } else {
                assert(listed(right@, p));
                let y = choose|y: int| 0 <= y < right@.len() && #[trigger] right@[y] == p;
                assert(listed(out@, right@[y] as int));
            }
        }
    }
    out
}

proof fn still_listed(before: Seq<usize>, next: usize, p: int)
    ensures
        listed(before, p) ==> listed(before.push(next), p),
{
    if listed(before, p) {
        let w = choose|w: int| 0 <= w < before.len() && #[trigger] before[w] == p;
        assert(before.push(next)[w] == p);
    }
}

// ── Texts as keys ───────────────────────────────────────────────────────

/// Whether `a` comes before `b`, or is `b`, character by character.
pub open spec fn text_at_most(a: Seq<char>, b: Seq<char>) -> bool
    decreases a.len(),
{
    if a.len() == 0 {
        true
    } else if b.len() == 0 {
        false
    } else if a[0] == b[0] {
        text_at_most(a.drop_first(), b.drop_first())
    } else {
        a[0] < b[0]
    }
}

pub proof fn texts_compare(a: Seq<char>, b: Seq<char>)
    ensures
        text_at_most(a, b) || text_at_most(b, a),
        text_at_most(a, b) && text_at_most(b, a) ==> a == b,
        text_at_most(a, a),
    decreases a.len(),
{
    if a.len() > 0 && b.len() > 0 && a[0] == b[0] {
        texts_compare(a.drop_first(), b.drop_first());
        if text_at_most(a, b) && text_at_most(b, a) {
            assert(a =~= seq![a[0]] + a.drop_first());
            assert(b =~= seq![b[0]] + b.drop_first());
        }
    } else if a.len() == 0 && b.len() == 0 {
        assert(a =~= b);
    }
    if a.len() > 0 {
        texts_compare(a.drop_first(), a.drop_first());
    }
}

pub proof fn text_order_carries_over(a: Seq<char>, b: Seq<char>, c: Seq<char>)
    requires
        text_at_most(a, b),
        text_at_most(b, c),
    ensures
        text_at_most(a, c),
    decreases a.len(),
{
    if a.len() > 0 && b.len() > 0 && c.len() > 0 && a[0] == b[0] && b[0] == c[0] {
        text_order_carries_over(a.drop_first(), b.drop_first(), c.drop_first());
    }
}

pub fn is_text_at_most(a: &Vec<char>, b: &Vec<char>) -> (r: bool)
    ensures
        r == text_at_most(a@, b@),
{
    let mut i: usize = 0;
    assert(a@.skip(0) =~= a@);
    assert(b@.skip(0) =~= b@);
    while i < a.len() && i < b.len()
        invariant
            i <= a@.len(),
            i <= b@.len(),
            text_at_most(a@, b@) == text_at_most(a@.skip(i as int), b@.skip(i as int)),
        decreases a@.len() - i,
    {
        assert(a@.skip(i as int).drop_first() =~= a@.skip(i + 1));
        assert(b@.skip(i as int).drop_first() =~= b@.skip(i + 1));
        if a[i] != b[i] {
            return a[i] < b[i];
        }
        i = i + 1;
    }
    i == a.len()
}

/// A text to sort by.
pub struct TextKey {
    pub text: Vec<char>,
}

impl Ranked for TextKey {
    open spec fn at_most(&self, other: &TextKey) -> bool {
        text_at_most(self.text@, other.text@)
    }

    proof fn any_two_compare(a: &TextKey, b: &TextKey) {
        texts_compare(a.text@, b.text@);
    }

    proof fn order_carries_over(a: &TextKey, b: &TextKey, c: &TextKey) {
        text_order_carries_over(a.text@, b.text@, c.text@);
    }

    fn is_at_most(&self, other: &TextKey) -> bool {
        is_text_at_most(&self.text, &other.text)
    }
}

// ── Laws ────────────────────────────────────────────────────────────────

/// Every position stands in the order exactly once.
pub proof fn each_position_once<K: Ranked>(keys: Seq<K>, order: Seq<usize>, a: int, b: int)
    requires
        sorts(keys, order, 0, keys.len() as int),
        0 <= a < order.len(),
        0 <= b < order.len(),
        order[a] == order[b],
    ensures
        a == b,
{
    if a < b {
        assert(goes_first(keys, order[a] as int, order[b] as int));
    } else if b < a {
        assert(goes_first(keys, order[b] as int, order[a] as int));
    }
}

/// There is only one stable order.
pub proof fn the_order_is_unique<K: Ranked>(keys: Seq<K>, one: Seq<usize>, other: Seq<usize>)
    requires
        sorts(keys, one, 0, keys.len() as int),
        sorts(keys, other, 0, keys.len() as int),
    ensures
        one == other,
{
    assert forall|n: int| 0 <= n <= one.len() implies #[trigger] one.take(n) == other.take(n) by {
        orders_agree(keys, one, other, n);
    }
    assert(one.take(one.len() as int) =~= one);
    assert(other.take(other.len() as int) =~= other);
}

proof fn orders_agree<K: Ranked>(keys: Seq<K>, one: Seq<usize>, other: Seq<usize>, n: int)
    requires
        sorts(keys, one, 0, keys.len() as int),
        sorts(keys, other, 0, keys.len() as int),
        0 <= n <= one.len(),
    ensures
        one.take(n) == other.take(n),
    decreases n,
{
    if n > 0 {
        let m = n - 1;
        orders_agree(keys, one, other, m);
        let p = one[m] as int;
        let q = other[m] as int;
        if p != q {
            assert(listed(other, p));
            let w = choose|w: int| 0 <= w < other.len() && #[trigger] other[w] == p;
            if w < m {
                assert(one.take(m)[w] == other.take(m)[w]);
                each_position_once(keys, one, w, m);
            }
            assert(goes_first(keys, other[m] as int, other[w] as int));
            assert(listed(one, q));
            let v = choose|v: int| 0 <= v < one.len() && #[trigger] one[v] == q;
            if v < m {
                assert(one.take(m)[v] == other.take(m)[v]);
                each_position_once(keys, other, v, m);
            }
            assert(goes_first(keys, one[m] as int, one[v] as int));
        }
        assert(one.take(n) =~= one.take(m).push(one[m]));
        assert(other.take(n) =~= other.take(m).push(other[m]));
    } else {
        assert(one.take(0) =~= other.take(0));
    }
}

/// Of two texts the first difference decides, and a text comes before what it
/// starts.
pub proof fn the_first_difference_decides(
    head: Seq<char>,
    a: char,
    b: char,
    after_a: Seq<char>,
    after_b: Seq<char>,
)
    requires
        a < b,
    ensures
        ({
            let x = head + (seq![a] + after_a);
            let y = head + (seq![b] + after_b);
            &&& text_at_most(x, y) && !text_at_most(y, x)
            &&& text_at_most(head, x) && !text_at_most(x, head)
        }),
    decreases head.len(),
{
    let s = seq![a] + after_a;
    let t = seq![b] + after_b;
    let x = head + s;
    let y = head + t;
    if head.len() == 0 {
        assert(x =~= s && y =~= t);
        assert(s[0] == a && t[0] == b);
    } else {
        let rest = head.drop_first();
        the_first_difference_decides(rest, a, b, after_a, after_b);
        assert(x.drop_first() =~= rest + s);
        assert(y.drop_first() =~= rest + t);
        assert(x[0] == head[0] && y[0] == head[0]);
    }
}

} // verus!

//! The samples between the audio decoder and the sound card: a queue of
//! fixed capacity that is written at one end, read at the other, and counts
//! what it has given out.

use vstd::prelude::*;

verus! {

#[derive(Debug)]
pub struct AudioRing<T: Copy> {
    buf: Vec<T>,
    /// Where the oldest sample is.
    read: usize,
    /// How many samples are waiting.
    filled: usize,
    /// What to play when there is nothing to play.
    silence: T,
    /// Samples given out since the last reset.
    consumed: u64,
}

/// `count` times the same sample.
pub open spec fn repeated<T>(sample: T, count: int) -> Seq<T> {
    Seq::new(count as nat, |i: int| sample)
}

pub open spec fn least(a: int, b: int) -> int {
    if a <= b {
        a
    } else {
        b
    }
}

impl<T: Copy> View for AudioRing<T> {
    type V = Seq<T>;

    /// The samples waiting to be played, the oldest first.
    closed spec fn view(&self) -> Seq<T> {
        Seq::new(self.filled as nat, |i: int| self.buf@[(self.read + i) % self.buf@.len() as int])
    }
}

impl<T: Copy> AudioRing<T> {
    pub closed spec fn wf(self) -> bool {
        &&& self.filled <= self.buf@.len()
        &&& self.buf@.len() == 0 || self.read < self.buf@.len()
        &&& self.buf@.len() <= usize::MAX
    }

    /// How many samples fit.
    pub closed spec fn room(self) -> nat {
        self.buf@.len()
    }

    /// What plays when there is nothing to play.
    pub closed spec fn quiet(self) -> T {
        self.silence
    }

    /// How many samples have been given out since the last reset.
    pub closed spec fn taken(self) -> u64 {
        self.consumed
    }

    pub fn new(capacity: usize, silence: T) -> (r: AudioRing<T>)
        ensures
            r.wf(),
            r@ == Seq::<T>::empty(),
            r.room() == capacity,
            r.quiet() == silence,
            r.taken() == 0,
    {
        let mut buf: Vec<T> = Vec::new();
        let mut i: usize = 0;
        while i < capacity
            invariant
                i <= capacity,
                buf@.len() == i,
            decreases capacity - i,
        {
            buf.push(silence);
            i = i + 1;
        }
        let r = AudioRing { buf: buf, read: 0, filled: 0, silence: silence, consumed: 0 };
        assert(r@ =~= Seq::<T>::empty());
        r
    }

    pub fn capacity(&self) -> (r: usize)
        ensures
            r == self.room(),
    {
        self.buf.len()
    }

    /// Samples waiting to be played.
    pub fn len(&self) -> (r: usize)
        ensures
            r == self@.len(),
    {
        self.filled
    }

    pub fn is_empty(&self) -> (r: bool)
        ensures
            r == (self@.len() == 0),
    {
        self.filled == 0
    }

    pub fn free(&self) -> (r: usize)
        requires
            self.wf(),
        ensures
            r == self.room() - self@.len(),
    {
        self.buf.len() - self.filled
    }

    pub fn consumed(&self) -> (r: u64)
        ensures
            r == self.taken(),
    {
        self.consumed
    }

    /// What plays when there is nothing to play.
    pub fn silence(&self) -> (r: T)
        ensures
            r == self.quiet(),
    {
        self.silence
    }

    /// Where the sample `offset` places behind the oldest one stands.
    fn slot(&self, offset: usize) -> (r: usize)
        requires
            self.wf(),
            offset <= self.buf@.len(),
            0 < self.buf@.len(),
        ensures
            r == (self.read + offset) % self.buf@.len() as int,
            r < self.buf@.len(),
    {
        let cap: usize = self.buf.len();
        if offset < cap - self.read {
            assert((self.read + offset) % cap as int == self.read + offset) by {
                vstd::arithmetic::div_mod::lemma_small_mod(
                    (self.read + offset) as nat,
                    cap as nat,
                );
            }
            self.read + offset
        } else {
            assert((self.read + offset) % cap as int == self.read + offset - cap) by {
                if self.read + offset - cap < cap {
                    vstd::arithmetic::div_mod::lemma_fundamental_div_mod_converse(
                        self.read + offset,
                        cap as int,
                        1,
                        self.read + offset - cap,
                    );
                }
            }
            offset - (cap - self.read)
        }
    }

    /// Takes in as many samples as fit, from `from` on, and says how many
    /// that were. A short count means that the ring is full and the caller
    /// should wait: the device sets the pace.
    pub fn push(&mut self, src: &[T], from: usize) -> (n: usize)
        requires
            old(self).wf(),
            from <= src@.len(),
        ensures
            final(self).wf(),
            n == least(src@.len() - from, old(self).room() - old(self)@.len()),
            final(self)@ == old(self)@ + src@.subrange(from as int, from + n),
            final(self).room() == old(self).room(),
            final(self).quiet() == old(self).quiet(),
            final(self).taken() == old(self).taken(),
    {
        let free: usize = self.buf.len() - self.filled;
        let wanted: usize = src.len() - from;
        let n: usize = if wanted < free {
            wanted
        } else {
            free
        };
        let ghost first = *self;
        let mut i: usize = 0;
        assert(src@.subrange(from as int, from + 0) =~= Seq::<T>::empty());
        assert(first@ + Seq::<T>::empty() =~= first@);
        while i < n
            invariant
                i <= n,
                from + n <= src.len(),
                first.filled + n <= self.buf@.len(),
                self.wf(),
                self.filled == first.filled + i,
                self.buf@.len() == first.buf@.len(),
                self.silence == first.silence,
                self.consumed == first.consumed,
                self@ == first@ + src@.subrange(from as int, from + i),
            decreases n - i,
        {
            let ghost before = *self;
            let at: usize = self.slot(self.filled);
            self.buf[at] = src[from + i];
            self.filled = self.filled + 1;
            proof {
                let cap = self.buf@.len() as int;
                assert forall|k: int| 0 <= k < before.filled implies self@[k] == before@[k] by {
                    slots_differ(self.read as int, k, before.filled as int, cap);
                }
                assert(self@ =~= before@.push(src@[from + i]));
                assert(src@.subrange(from as int, from + i + 1) =~= src@.subrange(
                    from as int,
                    from + i,
                ).push(src@[from + i]));
                assert(self@ =~= first@ + src@.subrange(from as int, from + i + 1));
            }
            i = i + 1;
        }
        n
    }

    /// Fills `dst` with the oldest samples, and with silence where there are
    /// not enough of them. Returns how many samples there were.
    pub fn pop_into(&mut self, dst: &mut [T]) -> (n: usize)
        requires
            old(self).wf(),
        ensures
            final(self).wf(),
            n == least(old(dst)@.len() as int, old(self)@.len() as int),
            final(dst)@ == old(self)@.take(n as int) + repeated(
                old(self).quiet(),
                old(dst)@.len() - n,
            ),
            final(self)@ == old(self)@.skip(n as int),
            final(self).room() == old(self).room(),
            final(self).quiet() == old(self).quiet(),
            final(self).taken() == old(self).taken().wrapping_add(n as u64),
    {
        let total: usize = dst.len();
        let n: usize = if total < self.filled {
            total
        } else {
            self.filled
        };
        let mut i: usize = 0;
        while i < n
            invariant
                i <= n <= total,
                n <= self.filled,
                self.wf(),
                dst@.len() == total,
                self@.len() == self.filled,
                forall|k: int| 0 <= k < i ==> dst@[k] == self@[k],
            decreases n - i,
        {
            let at: usize = self.slot(i);
            let sample: T = self.buf[at];
            assert(sample == self@[i as int]);
            dst[i] = sample;
            i = i + 1;
        }
        let mut j: usize = n;
        while j < total
            invariant
                n <= j <= total,
                dst@.len() == total,
                n <= self@.len(),
                forall|k: int| 0 <= k < n ==> dst@[k] == self@[k],
                forall|k: int| n <= k < j ==> dst@[k] == self.silence,
            decreases total - j,
        {
            dst[j] = self.silence;
            j = j + 1;
        }
        assert(dst@ =~= self@.take(n as int) + repeated(self.silence, total - n));
        let ghost first = *self;
        if self.buf.len() > 0 {
            let next: usize = self.slot(n);
            self.read = next;
            self.filled = self.filled - n;
            proof {
                let cap = self.buf@.len() as int;
                assert forall|k: int| 0 <= k < self.filled implies self@[k] == first@[k + n] by {
                    vstd::arithmetic::div_mod::lemma_add_mod_noop(first.read + n, k, cap);
                    vstd::arithmetic::div_mod::lemma_add_mod_noop(self.read as int, k, cap);
                    vstd::arithmetic::div_mod::lemma_mod_twice(first.read + n, cap);
                }
            }
        }
        assert(self@ =~= first@.skip(n as int));
        self.consumed = self.consumed.wrapping_add(n as u64);
        assert(self@ =~= first@.skip(n as int));
        n
    }

    /// Drops everything that is waiting, and starts to count again.
    pub fn reset(&mut self)
        requires
            old(self).wf(),
        ensures
            final(self).wf(),
            final(self)@ == Seq::<T>::empty(),
            final(self).room() == old(self).room(),
            final(self).quiet() == old(self).quiet(),
            final(self).taken() == 0,
    {
        self.filled = 0;
        self.consumed = 0;
        assert(self@ =~= Seq::<T>::empty());
    }
}

// ── Laws ────────────────────────────────────────────────────────────────

/// Samples come out in the order they went in, none lost and none twice. A
/// ring that held `held` and took in `taken` gives out, over two reads of
/// which the first gets `first` samples, all that it held and then all that
/// it took in; and reading before or after the write makes no difference to
/// what is left.
pub proof fn samples_come_out_as_they_went_in<T>(held: Seq<T>, taken: Seq<T>, first: int)
    requires
        0 <= first <= held.len() + taken.len(),
    ensures
        (held + taken).take(first) + (held + taken).skip(first) == held + taken,
        first <= held.len() ==> (held + taken).take(first) == held.take(first),
        first <= held.len() ==> (held + taken).skip(first) == held.skip(first) + taken,
        first >= held.len() ==> (held + taken).take(first) == held + taken.take(
            first - held.len(),
        ),
{
    let all = held + taken;
    assert(all.take(first) + all.skip(first) =~= all);
    if first <= held.len() {
        assert(all.take(first) =~= held.take(first));
        assert(all.skip(first) =~= held.skip(first) + taken);
    }
    if first >= held.len() {
        assert(all.take(first) =~= held + taken.take(first - held.len()));
    }
}

/// Samples that do not all fit at once lose nothing by going in in parts,
/// each from where the one before it stopped.
pub proof fn feeding_in_parts_loses_nothing<T>(held: Seq<T>, src: Seq<T>, from: int, n: int)
    requires
        0 <= from,
        0 <= n,
        from + n <= src.len(),
    ensures
        held + src.subrange(from, from + n) + src.subrange(from + n, src.len() as int) == held
            + src.subrange(from, src.len() as int),
{
    assert(held + src.subrange(from, from + n) + src.subrange(from + n, src.len() as int) =~= held
        + src.subrange(from, src.len() as int));
}

/// Two offsets less than a capacity apart never share a slot.
proof fn slots_differ(read: int, a: int, b: int, cap: int)
    requires
        0 <= read < cap,
        0 <= a < b < cap,
    ensures
        (read + a) % cap != (read + b) % cap,
{
    assert((read + a) % cap == if read + a < cap {
        read + a
    } else {
        read + a - cap
    }) by {
        one_turn(read + a, cap);
    }
    one_turn(read + b, cap);
}

proof fn one_turn(v: int, cap: int)
    requires
        0 <= v < 2 * cap,
    ensures
        v % cap == if v < cap {
            v
        } else {
            v - cap
        },
{
    if v < cap {
        vstd::arithmetic::div_mod::lemma_small_mod(v as nat, cap as nat);
    } else {
        vstd::arithmetic::div_mod::lemma_fundamental_div_mod_converse(v, cap, 1, v - cap);
    }
}

} // verus!

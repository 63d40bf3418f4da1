//! Cues waiting to be shown, and the ones on screen now.
//!
//! The visible set carries a generation, so that whoever draws it copies it
//! only when it has changed: a bitmap cue is a whole image, and handing one
//! out every frame would copy it sixty times a second.

use std::collections::VecDeque;

use vstd::prelude::*;

use crate::subtitle;
use crate::subtitle::{CueView, SubtitleCue};

verus! {

/// What is filed and what is shown, as values.
pub struct CueBoard {
    pub pending: Seq<CueView>,
    pub active: Seq<CueView>,
    pub generation: u64,
}

#[derive(Debug)]
pub struct SubtitleState {
    pending: VecDeque<SubtitleCue>,
    active: Vec<SubtitleCue>,
    generation: u64,
}

impl View for SubtitleState {
    type V = CueBoard;

    closed spec fn view(&self) -> CueBoard {
        CueBoard {
            pending: subtitle::cue_views(self.pending@),
            active: subtitle::cue_views(self.active@),
            generation: self.generation,
        }
    }
}

/// A generation different from `g`.
pub open spec fn next_generation(g: u64) -> u64 {
    if g == u64::MAX {
        0
    } else {
        (g + 1) as u64
    }
}

/// `cue`, over by `t` at the latest.
pub open spec fn ended_by(cue: CueView, t: int) -> CueView {
    if cue.end > t {
        CueView { end: t, ..cue }
    } else {
        cue
    }
}

/// The cues with the last of them ended by `t`, back to the first that was
/// already over.
pub open spec fn cut_back(cues: Seq<CueView>, t: int) -> Seq<CueView>
    decreases cues.len(),
{
    if cues.len() > 0 && cues.last().end > t {
        cut_back(cues.drop_last(), t).push(ended_by(cues.last(), t))
    } else {
        cues
    }
}

/// Every cue ended by `t`.
pub open spec fn cut_all(cues: Seq<CueView>, t: int) -> Seq<CueView> {
    cues.map_values(|c: CueView| ended_by(c, t))
}

/// Whether any cue is still up past `t`.
pub open spec fn any_past(cues: Seq<CueView>, t: int) -> bool {
    exists|i: int| 0 <= i < cues.len() && (#[trigger] cues[i]).end > t
}

/// The cues that are not over at `t`.
pub open spec fn not_over(cues: Seq<CueView>, t: int) -> Seq<CueView>
    decreases cues.len(),
{
    if cues.len() == 0 {
        cues
    } else if cues.last().end > t {
        not_over(cues.drop_last(), t).push(cues.last())
    } else {
        not_over(cues.drop_last(), t)
    }
}

/// How many cues from the front have started by `t`.
pub open spec fn started(cues: Seq<CueView>, t: int) -> int
    decreases cues.len(),
{
    if cues.len() > 0 && cues[0].start <= t {
        1 + started(cues.drop_first(), t)
    } else {
        0
    }
}

impl CueBoard {
    /// Nothing filed and nothing shown.
    pub open spec fn blank() -> CueBoard {
        CueBoard { pending: Seq::empty(), active: Seq::empty(), generation: 0 }
    }

    /// The board once `cue` has been filed: it ends what came before it, and
    /// joins the queue unless it shows nothing.
    pub open spec fn filed(self, cue: CueView) -> CueBoard {
        let rest = cut_back(self.pending, cue.start);
        CueBoard {
            pending: if cue.is_empty() {
                rest
            } else {
                rest.push(cue)
            },
            active: cut_all(self.active, cue.start),
            generation: if any_past(self.active, cue.start) {
                next_generation(self.generation)
            } else {
                self.generation
            },
        }
    }

    /// What is shown once the clock reads `t`.
    pub open spec fn shown_at(self, t: int) -> Seq<CueView> {
        not_over(self.active, t) + not_over(self.pending.take(started(self.pending, t)), t)
    }

    /// Whether the clock reading `t` takes anything down or puts anything up.
    pub open spec fn changes_at(self, t: int) -> bool {
        ||| not_over(self.active, t).len() != self.active.len()
        ||| not_over(self.pending.take(started(self.pending, t)), t).len() > 0
    }

    /// The board once the clock reads `t`.
    pub open spec fn at(self, t: int) -> CueBoard {
        CueBoard {
            pending: self.pending.skip(started(self.pending, t)),
            active: self.shown_at(t),
            generation: if self.changes_at(t) {
                next_generation(self.generation)
            } else {
                self.generation
            },
        }
    }

    /// The board after everything has been dropped.
    pub open spec fn cleared(self) -> CueBoard {
        CueBoard {
            pending: Seq::empty(),
            active: Seq::empty(),
            generation: next_generation(self.generation),
        }
    }

    /// No cue outlasts the one filed after it.
    pub open spec fn orderly(self) -> bool {
        forall|i: int, j: int|
            #![trigger self.pending[i], self.pending[j]]
            0 <= i <= j < self.pending.len() ==> self.pending[i].end <= self.pending[j].end
    }
}

fn copy_cues(cues: &Vec<SubtitleCue>) -> (r: Vec<SubtitleCue>)
    ensures
        subtitle::cue_views(r@) == subtitle::cue_views(cues@),
{
    let mut r: Vec<SubtitleCue> = Vec::new();
    let mut i: usize = 0;
    while i < cues.len()
        invariant
            i <= cues@.len(),
            subtitle::cue_views(r@) == subtitle::cue_views(cues@).take(i as int),
        decreases cues@.len() - i,
    {
        let ghost before = subtitle::cue_views(r@);
        let copy = cues[i].clone();
        r.push(copy);
        assert(subtitle::cue_views(r@) =~= before.push(copy@));
        assert(subtitle::cue_views(r@) =~= subtitle::cue_views(cues@).take(i + 1));
        i = i + 1;
    }
    assert(subtitle::cue_views(r@) =~= subtitle::cue_views(cues@));
    r
}

impl Default for SubtitleState {
    fn default() -> (r: SubtitleState)
        ensures
            r@ == CueBoard::blank(),
    {
        let r = SubtitleState { pending: VecDeque::new(), active: Vec::new(), generation: 0 };
        assert(r@.pending =~= Seq::<CueView>::empty());
        assert(r@.active =~= Seq::<CueView>::empty());
        r
    }
}

impl SubtitleState {
    /// Files a decoded cue.
    ///
    /// Formats differ on how a cue ends. Some state an end; others run until
    /// the next one replaces them, and say "nothing now" with a cue that
    /// shows nothing. So an open-ended cue comes with a long provisional end,
    /// and filing the next one truncates it.
    pub fn push_subtitle(&mut self, cue: SubtitleCue)
        ensures
            final(self)@ == old(self)@.filed(cue@),
    {
        let start: i64 = cue.start;
        let ghost first = self@;
        let ghost t = start as int;

        let mut i: usize = self.pending.len();
        assert(first.pending.take(i as int) =~= first.pending);
        while i > 0 && self.pending[i - 1].end > start
            invariant
                i <= self.pending@.len(),
                self.pending@.len() == first.pending.len(),
                t == start,
                self@.active == first.active,
                self@.generation == first.generation,
                self@.pending.take(i as int) == first.pending.take(i as int),
                cut_back(first.pending, t) == cut_back(first.pending.take(i as int), t)
                    + self@.pending.skip(i as int),
            decreases i,
        {
            let ghost before = self.pending@;
            let ghost head = first.pending.take(i as int);
            assert(head.last() == self@.pending.take(i as int)[i - 1]);
            assert(head.drop_last() =~= first.pending.take(i - 1));
            match self.pending.remove(i - 1) {
                Some(c) => {
                    let mut cut = c;
                    cut.end = start;
                    self.pending.insert(i - 1, cut);
                    assert(cut@ == ended_by(head.last(), t));
                    assert(self.pending@ =~= before.update(i - 1, cut));
                    assert(self@.pending =~= subtitle::cue_views(before).update(i - 1, cut@));
                },
                None => {},
            }
            i = i - 1;
            assert(self@.pending.take(i as int) =~= first.pending.take(i as int)) by {
                assert forall|k: int| 0 <= k < i implies self@.pending.take(i as int)[k]
                    == first.pending.take(i as int)[k] by {
                    assert(subtitle::cue_views(before).take(i + 1)[k] == first.pending.take(
                        i + 1,
                    )[k]);
                }
            }
            assert(cut_back(head, t) == cut_back(head.drop_last(), t).push(
                ended_by(head.last(), t),
            ));
            assert(cut_back(first.pending, t) =~= cut_back(first.pending.take(i as int), t)
                + self@.pending.skip(i as int));
        }
        proof {
            let head = first.pending.take(i as int);
            if i > 0 {
                assert(head.last() == self@.pending.take(i as int)[i - 1]);
            }
            assert(cut_back(head, t) == head);
            assert(self@.pending =~= self@.pending.take(i as int) + self@.pending.skip(i as int));
            assert(self@.pending == cut_back(first.pending, t));
        }

        let mut visible_changed: bool = false;
        let mut k: usize = 0;
        assert(self@.active.skip(0) =~= first.active.skip(0));
        while k < self.active.len()
            invariant
                k <= self.active@.len(),
                self.active@.len() == first.active.len(),
                t == start,
                self@.pending == cut_back(first.pending, t),
                self@.generation == first.generation,
                self@.active.take(k as int) == cut_all(first.active, t).take(k as int),
                self@.active.skip(k as int) == first.active.skip(k as int),
                visible_changed == any_past(first.active.take(k as int), t),
            decreases self.active@.len() - k,
        {
            let ghost before = self@;
            let ghost head = first.active.take(k as int);
            let ghost longer = first.active.take(k + 1);
            assert(self@.active[k as int] == self@.active.skip(k as int)[0]);
            assert(first.active[k as int] == first.active.skip(k as int)[0]);
            assert(longer =~= head.push(first.active[k as int]));
            if self.active[k].end > start {
                self.active[k].end = start;
                visible_changed = true;
                assert(longer[k as int].end > t);
            } else {
                assert(any_past(longer, t) ==> any_past(head, t)) by {
                    if any_past(longer, t) {
                        let w = choose|w: int|
                            0 <= w < longer.len() && (#[trigger] longer[w]).end > t;
                        assert(head[w] == longer[w]);
                    }
                }
            }
            assert(any_past(head, t) ==> any_past(longer, t)) by {
                if any_past(head, t) {
                    let w = choose|w: int| 0 <= w < head.len() && (#[trigger] head[w]).end > t;
                    assert(longer[w] == head[w]);
                }
            }
            assert(self@.pending == before.pending);
            assert(self@.active =~= before.active.update(
                k as int,
                ended_by(first.active[k as int], t),
            ));
            assert(self@.active.skip(k + 1) =~= first.active.skip(k + 1)) by {
                assert forall|m: int|
                    0 <= m < first.active.len() - k - 1 implies #[trigger] self@.active.skip(
                    k + 1,
                )[m] == first.active.skip(k + 1)[m] by {
                    assert(before.active.skip(k as int)[m + 1] == first.active.skip(k as int)[m
                        + 1]);
                }
            }
            assert(self@.active.take(k + 1) =~= cut_all(first.active, t).take(k + 1)) by {
                assert forall|m: int|
                    0 <= m < k implies #[trigger] self@.active.take(k + 1)[m] == cut_all(
                    first.active,
                    t,
                ).take(k + 1)[m] by {
                    assert(before.active.take(k as int)[m] == cut_all(first.active, t).take(
                        k as int,
                    )[m]);
                }
            }
            k = k + 1;
        }
        assert(first.active.take(k as int) =~= first.active);
        assert(self@.active =~= self@.active.take(k as int));
        assert(cut_all(first.active, t).take(k as int) =~= cut_all(first.active, t));

        let ghost rest = self@.pending;
        if !cue.is_empty() {
            self.pending.push_back(cue);
            assert(self@.pending =~= rest.push(cue@));
        }
        if visible_changed {
            self.generation = self.generation.wrapping_add(1);
        }
    }

    /// The cues visible at `t`, but only when they differ from what the
    /// caller last saw. `None` means "carry on showing what you have".
    pub fn subtitles_if_changed(&mut self, t: i64, last_seen: u64) -> (r: Option<
        (u64, Vec<SubtitleCue>),
    >)
        ensures
            final(self)@ == old(self)@.at(t as int),
            r is None <==> old(self)@.at(t as int).generation == last_seen,
            r matches Some((generation, cues)) ==> {
                &&& generation == old(self)@.at(t as int).generation
                &&& subtitle::cue_views(cues@) == old(self)@.shown_at(t as int)
            },
    {
        let ghost first = self@;
        let ghost now = t as int;
        let before: usize = self.active.len();

        let mut i: usize = 0;
        let ghost mut looked: int = 0;
        assert(first.active.take(0) =~= Seq::<CueView>::empty());
        assert(first.active.skip(0) =~= first.active);
        while i < self.active.len()
            invariant
                0 <= looked <= first.active.len(),
                i <= self.active@.len(),
                self.active@.len() - i == first.active.len() - looked,
                now == t,
                self@.pending == first.pending,
                self@.generation == first.generation,
                self@.active.take(i as int) == not_over(first.active.take(looked), now),
                self@.active.skip(i as int) == first.active.skip(looked),
            decreases self.active@.len() - i,
        {
            let ghost was = self@;
            let ghost head = first.active.take(looked + 1);
            assert(was.active[i as int] == was.active.skip(i as int)[0]);
            assert(first.active[looked] == first.active.skip(looked)[0]);
            assert(head.drop_last() =~= first.active.take(looked));
            assert(head.last() == first.active[looked]);
            assert(first.active.skip(looked + 1) =~= first.active.skip(looked).drop_first());
            if self.active[i].end > t {
                i = i + 1;
                assert(self@.active.take(i as int) =~= was.active.take(i - 1).push(
                    was.active[i - 1],
                ));
                assert(self@.active.skip(i as int) =~= was.active.skip(i - 1).drop_first());
            } else {
                self.active.remove(i);
                assert(self@.active =~= was.active.remove(i as int));
                assert(self@.active.take(i as int) =~= was.active.take(i as int));
                assert(self@.active.skip(i as int) =~= was.active.skip(i as int).drop_first());
            }
            proof {
                looked = looked + 1;
            }
        }
        assert(first.active.take(looked) =~= first.active);
        assert(self@.active.take(i as int) =~= self@.active);
        let ghost kept = self@.active;
        let mut changed: bool = self.active.len() != before;

        let ghost mut gone: int = 0;
        assert(first.pending.take(0) =~= Seq::<CueView>::empty());
        assert(first.pending.skip(0) =~= first.pending);
        assert(kept + Seq::<CueView>::empty() =~= kept);
        assert(self.pending@.len() == self@.pending.len());
        while self.pending.len() > 0 && self.pending[0].start <= t
            invariant
                0 <= gone <= first.pending.len(),
                self.pending@.len() == first.pending.len() - gone,
                now == t,
                kept == not_over(first.active, now),
                self@.generation == first.generation,
                self@.pending == first.pending.skip(gone),
                self@.active == kept + not_over(first.pending.take(gone), now),
                started(first.pending, now) == gone + started(first.pending.skip(gone), now),
                changed == (kept.len() != first.active.len() || not_over(
                    first.pending.take(gone),
                    now,
                ).len() > 0),
            decreases self.pending@.len(),
        {
            let ghost was = self@;
            let ghost head = first.pending.take(gone + 1);
            assert(was.pending[0] == self.pending@[0]@);
            assert(was.pending[0] == first.pending[gone]);
            assert(head.drop_last() =~= first.pending.take(gone));
            assert(head.last() == first.pending[gone]);
            assert(first.pending.skip(gone + 1) =~= first.pending.skip(gone).drop_first());
            if let Some(cue) = self.pending.pop_front() {
                assert(cue@ == first.pending[gone]);
                assert(self@.pending =~= was.pending.drop_first());
                // Already over by the time the clock got here: a seek landed
                // past it.
                if cue.end > t {
                    self.active.push(cue);
                    changed = true;
                    assert(self@.active =~= was.active.push(cue@));
                    assert(self@.active =~= kept + not_over(head, now));
                }
            }
            proof {
                gone = gone + 1;
            }
        }
        proof {
            let left = first.pending.skip(gone);
            if left.len() > 0 {
                assert(left[0] == self.pending@[0]@);
            }
            assert(started(left, now) == 0);
        }
        if changed {
            self.generation = self.generation.wrapping_add(1);
        }
        assert(self@.active == first.shown_at(now));
        if self.generation == last_seen {
            return None;
        }
        Some((self.generation, copy_cues(&self.active)))
    }

    /// Drops everything, filed or shown.
    pub fn clear_subtitles(&mut self)
        ensures
            final(self)@ == old(self)@.cleared(),
    {
        self.pending.clear();
        self.active.clear();
        self.generation = self.generation.wrapping_add(1);
        assert(self@.pending =~= Seq::<CueView>::empty());
        assert(self@.active =~= Seq::<CueView>::empty());
    }
}

// ── Laws ────────────────────────────────────────────────────────────────

proof fn cut_back_of_orderly(cues: Seq<CueView>, t: int)
    requires
        forall|i: int, j: int|
            #![trigger cues[i], cues[j]]
            0 <= i <= j < cues.len() ==> cues[i].end <= cues[j].end,
    ensures
        cut_back(cues, t) =~= cut_all(cues, t),
    decreases cues.len(),
{
    if cues.len() > 0 && cues.last().end > t {
        let head = cues.drop_last();
        assert forall|i: int, j: int|
            #![trigger head[i], head[j]]
            0 <= i <= j < head.len() implies head[i].end <= head[j].end by {
            assert(head[i] == cues[i] && head[j] == cues[j]);
        }
        cut_back_of_orderly(head, t);
    } else {
        assert forall|i: int| 0 <= i < cues.len() implies cues[i] == ended_by(cues[i], t) by {
            assert(cues[i].end <= cues[cues.len() - 1].end);
        }
    }
}

/// Filing a cue keeps the board orderly, as long as the cue does not end
/// before it starts.
pub proof fn filing_keeps_order(board: CueBoard, cue: CueView)
    requires
        board.orderly(),
        cue.start <= cue.end,
    ensures
        board.filed(cue).orderly(),
{
    cut_back_of_orderly(board.pending, cue.start);
    let rest = cut_all(board.pending, cue.start);
    assert forall|i: int, j: int|
        #![trigger rest[i], rest[j]]
        0 <= i <= j < rest.len() implies rest[i].end <= rest[j].end by {
        assert(board.pending[i].end <= board.pending[j].end);
    }
}

/// The clock and clearing keep the board orderly too.
pub proof fn the_clock_keeps_order(board: CueBoard, t: int)
    requires
        board.orderly(),
    ensures
        board.at(t).orderly(),
        board.cleared().orderly(),
        CueBoard::blank().orderly(),
{
    started_is_bounded(board.pending, t);
    let k = started(board.pending, t);
    let left = board.pending.skip(k);
    assert forall|i: int, j: int|
        #![trigger left[i], left[j]]
        0 <= i <= j < left.len() implies left[i].end <= left[j].end by {
        assert(left[i] == board.pending[i + k] && left[j] == board.pending[j + k]);
    }
}

proof fn started_is_bounded(cues: Seq<CueView>, t: int)
    ensures
        0 <= started(cues, t) <= cues.len(),
    decreases cues.len(),
{
    if cues.len() > 0 && cues[0].start <= t {
        started_is_bounded(cues.drop_first(), t);
    }
}

/// Filing a cue ends everything that came before it: from its start on, no
/// earlier cue is on screen.
pub proof fn filing_ends_what_came_before(board: CueBoard, cue: CueView, t: int)
    requires
        board.orderly(),
        t >= cue.start,
    ensures
        forall|i: int|
            0 <= i < board.filed(cue).active.len() ==> !(#[trigger] board.filed(
                cue,
            ).active[i]).covers(t),
        forall|i: int|
            0 <= i < board.pending.len() ==> !(#[trigger] board.filed(cue).pending[i]).covers(t),
{
    cut_back_of_orderly(board.pending, cue.start);
    let after = board.filed(cue);
    assert forall|i: int| 0 <= i < after.active.len() implies !(#[trigger] after.active[i]).covers(
        t,
    ) by {
        assert(after.active[i] == ended_by(board.active[i], cue.start));
    }
    assert forall|i: int| 0 <= i < board.pending.len() implies !(
    #[trigger] after.pending[i]).covers(t) by {
        assert(after.pending[i] == ended_by(board.pending[i], cue.start));
    }
}

proof fn not_over_holds(cues: Seq<CueView>, t: int)
    ensures
        not_over(cues, t).len() <= cues.len(),
        forall|i: int|
            0 <= i < not_over(cues, t).len() ==> (#[trigger] not_over(cues, t)[i]).end > t
                && cues.contains(not_over(cues, t)[i]),
        forall|i: int|
            0 <= i < cues.len() && (#[trigger] cues[i]).end > t ==> not_over(cues, t).contains(
                cues[i],
            ),
    decreases cues.len(),
{
    if cues.len() > 0 {
        let head = cues.drop_last();
        let kept = not_over(head, t);
        not_over_holds(head, t);
        let all = not_over(cues, t);
        assert forall|i: int| 0 <= i < all.len() implies (#[trigger] all[i]).end > t
            && cues.contains(all[i]) by {
            if i < kept.len() {
                assert(all[i] == kept[i]);
                let w = choose|w: int| 0 <= w < head.len() && head[w] == kept[i];
                assert(cues[w] == all[i]);
            } else {
                assert(all[i] == cues[cues.len() - 1]);
            }
        }
        assert forall|i: int| 0 <= i < cues.len() && (#[trigger] cues[i]).end
            > t implies all.contains(cues[i]) by {
            if i < head.len() {
                assert(head[i] == cues[i]);
                let w = choose|w: int| 0 <= w < kept.len() && kept[w] == head[i];
                assert(all[w] == cues[i]);
            } else {
                assert(all[all.len() - 1] == cues[i]);
            }
        }
    }
}

proof fn started_starts(cues: Seq<CueView>, t: int)
    ensures
        0 <= started(cues, t) <= cues.len(),
        forall|i: int| 0 <= i < started(cues, t) ==> (#[trigger] cues[i]).start <= t,
        started(cues, t) < cues.len() ==> cues[started(cues, t)].start > t,
    decreases cues.len(),
{
    if cues.len() > 0 && cues[0].start <= t {
        let rest = cues.drop_first();
        started_starts(rest, t);
        assert forall|i: int| 0 <= i < started(cues, t) implies (#[trigger] cues[i]).start <= t by {
            if i > 0 {
                assert(cues[i] == rest[i - 1]);
            }
        }
        if started(cues, t) < cues.len() {
            assert(cues[started(cues, t)] == rest[started(rest, t)]);
        }
    }
}

/// While the clock moves forward, what is shown at `t` is on screen at `t`:
/// it has started and is not over.
pub proof fn what_is_shown_is_on_screen(board: CueBoard, t: int)
    requires
        forall|i: int| 0 <= i < board.active.len() ==> (#[trigger] board.active[i]).start <= t,
    ensures
        forall|i: int|
            0 <= i < board.shown_at(t).len() ==> (#[trigger] board.shown_at(t)[i]).covers(t),
{
    let k = started(board.pending, t);
    started_starts(board.pending, t);
    let due = board.pending.take(k);
    not_over_holds(board.active, t);
    not_over_holds(due, t);
    let kept = not_over(board.active, t);
    let put_up = not_over(due, t);
    let shown = board.shown_at(t);
    assert forall|i: int| 0 <= i < shown.len() implies (#[trigger] shown[i]).covers(t) by {
        if i < kept.len() {
            assert(shown[i] == kept[i]);
            let w = choose|w: int| 0 <= w < board.active.len() && board.active[w] == kept[i];
            assert(board.active[w].start <= t);
        } else {
            assert(shown[i] == put_up[i - kept.len()]);
            let w = choose|w: int| 0 <= w < due.len() && due[w] == put_up[i - kept.len()];
            assert(board.pending[w].start <= t);
        }
    }
}

/// Nothing that should be on screen is left out: of the cues filed in order
/// of their start, those that cover `t` are shown at `t`.
pub proof fn what_covers_is_shown(board: CueBoard, t: int, cue: CueView)
    requires
        cue.covers(t),
        board.active.contains(cue) || board.pending.contains(cue),
        forall|i: int, j: int|
            #![trigger board.pending[i], board.pending[j]]
            0 <= i <= j < board.pending.len() ==> board.pending[i].start <= board.pending[j].start,
    ensures
        board.shown_at(t).contains(cue),
{
    let k = started(board.pending, t);
    started_starts(board.pending, t);
    let due = board.pending.take(k);
    not_over_holds(board.active, t);
    not_over_holds(due, t);
    let kept = not_over(board.active, t);
    let put_up = not_over(due, t);
    if board.active.contains(cue) {
        let a = choose|a: int| 0 <= a < board.active.len() && board.active[a] == cue;
        assert(kept.contains(board.active[a]));
        let w = choose|w: int| 0 <= w < kept.len() && kept[w] == cue;
        assert(board.shown_at(t)[w] == cue);
    } else {
        let p = choose|p: int| 0 <= p < board.pending.len() && board.pending[p] == cue;
        if p >= k {
            assert(board.pending[k].start <= board.pending[p].start);
        }
        assert(due[p] == cue);
        let w = choose|w: int| 0 <= w < put_up.len() && put_up[w] == cue;
        assert(board.shown_at(t)[kept.len() + w] == cue);
    }
}

proof fn not_over_twice(cues: Seq<CueView>, t: int)
    ensures
        not_over(not_over(cues, t), t) == not_over(cues, t),
    decreases cues.len(),
{
    if cues.len() > 0 {
        not_over_twice(cues.drop_last(), t);
        if cues.last().end > t {
            assert(not_over(cues, t).drop_last() =~= not_over(cues.drop_last(), t));
        }
    }
}

proof fn not_over_of_sum(a: Seq<CueView>, b: Seq<CueView>, t: int)
    ensures
        not_over(a + b, t) == not_over(a, t) + not_over(b, t),
    decreases b.len(),
{
    if b.len() == 0 {
        assert(a + b =~= a);
        assert(not_over(a, t) + b =~= not_over(a, t));
    } else {
        not_over_of_sum(a, b.drop_last(), t);
        assert((a + b).drop_last() =~= a + b.drop_last());
        assert((a + b).last() == b.last());
        assert(not_over(a + b, t) =~= not_over(a, t) + not_over(b, t));
    }
}

/// Asking again at the same time changes nothing, so a caller that passes
/// back the generation it was given is told to carry on.
pub proof fn asking_again_changes_nothing(board: CueBoard, t: int)
    ensures
        board.at(t).at(t) == board.at(t),
{
    let once = board.at(t);
    let k = started(board.pending, t);
    let due = board.pending.take(k);
    started_starts(board.pending, t);
    assert(started(once.pending, t) == 0) by {
        if once.pending.len() > 0 {
            assert(once.pending[0] == board.pending[k]);
        }
    }
    not_over_of_sum(not_over(board.active, t), not_over(due, t), t);
    not_over_twice(board.active, t);
    not_over_twice(due, t);
    assert(not_over(once.active, t) == once.active);
    assert(once.pending.take(0) =~= Seq::<CueView>::empty());
    assert(once.pending.skip(0) =~= once.pending);
    assert(once.shown_at(t) =~= once.active);
}

/// Whenever what is shown changes, so does the generation.
pub proof fn a_change_changes_the_generation(board: CueBoard, t: int)
    ensures
        board.shown_at(t) != board.active ==> board.at(t).generation != board.generation,
        board.cleared().generation != board.generation,
{
    if !board.changes_at(t) {
        not_over_keeps_all(board.active, t);
        assert(board.shown_at(t) =~= board.active);
    }
}

proof fn not_over_keeps_all(cues: Seq<CueView>, t: int)
    ensures
        not_over(cues, t).len() <= cues.len(),
        not_over(cues, t).len() == cues.len() ==> not_over(cues, t) == cues,
    decreases cues.len(),
{
    if cues.len() > 0 {
        not_over_keeps_all(cues.drop_last(), t);
        if not_over(cues, t).len() == cues.len() {
            assert(cues.drop_last().push(cues.last()) =~= cues);
        }
    }
}

/// A cue that is filed waits behind those filed before it, unless it shows
/// nothing; of those only the ends change, and those only to make room: each
/// is over by the start of the new cue, and one that was over before keeps its
/// own end.
pub proof fn filing_adds_the_cue(board: CueBoard, cue: CueView, i: int)
    requires
        board.orderly(),
    ensures
        ({
            let after = board.filed(cue);
            let n = board.pending.len() as int;
            &&& !cue.is_empty() ==> after.pending.len() == n + 1 && after.pending[n] == cue
            &&& cue.is_empty() ==> after.pending.len() == n
            &&& after.active.len() == board.active.len()
            &&& 0 <= i < n ==> {
                let was = board.pending[i];
                let is = after.pending[i];
                &&& is.start == was.start && is.content == was.content
                &&& was.end <= cue.start ==> is.end == was.end
                &&& was.end > cue.start ==> is.end == cue.start
            }
            &&& 0 <= i < board.active.len() ==> {
                let was = board.active[i];
                let is = after.active[i];
                &&& is.start == was.start && is.content == was.content
                &&& was.end <= cue.start ==> is.end == was.end
                &&& was.end > cue.start ==> is.end == cue.start
            }
        }),
{
    cut_back_of_orderly(board.pending, cue.start);
}

/// A cue that is filed is on screen whenever the clock is between its start
/// and its end.
pub proof fn a_filed_cue_comes_up(board: CueBoard, cue: CueView, t: int)
    requires
        board.orderly(),
        !cue.is_empty(),
        cue.covers(t),
        forall|i: int| 0 <= i < board.pending.len() ==> (#[trigger] board.pending[i]).start
            <= cue.start,
        forall|i: int, j: int|
            #![trigger board.pending[i], board.pending[j]]
            0 <= i <= j < board.pending.len() ==> board.pending[i].start <= board.pending[j].start,
    ensures
        board.filed(cue).shown_at(t).contains(cue),
{
    let after = board.filed(cue);
    let n = board.pending.len() as int;
    cut_back_of_orderly(board.pending, cue.start);
    assert(after.pending[n] == cue);
    assert forall|i: int, j: int|
        #![trigger after.pending[i], after.pending[j]]
        0 <= i <= j < after.pending.len() implies after.pending[i].start
        <= after.pending[j].start by {
        if i < n {
            assert(after.pending[i].start == board.pending[i].start);
        }
        if j < n {
            assert(after.pending[j].start == board.pending[j].start);
        }
    }
    what_covers_is_shown(after, t, cue);
}

/// What waits and has not started goes on waiting, in order; and dropping
/// everything leaves nothing.
pub proof fn what_has_not_started_waits(board: CueBoard, t: int, i: int)
    requires
        0 <= i < board.pending.len(),
        board.pending[i].start > t,
        forall|a: int, b: int|
            #![trigger board.pending[a], board.pending[b]]
            0 <= a <= b < board.pending.len() ==> board.pending[a].start <= board.pending[b].start,
    ensures
        board.at(t).pending.contains(board.pending[i]),
        forall|k: int|
            0 <= k < board.at(t).pending.len() ==> (#[trigger] board.at(t).pending[k]).start > t,
        board.cleared().pending.len() == 0,
        board.cleared().active.len() == 0,
{
    started_starts(board.pending, t);
    let n = started(board.pending, t);
    if i < n {
        assert(board.pending[i].start <= t);
    }
    let after = board.at(t).pending;
    assert(after[i - n] == board.pending[i]);
    assert forall|k: int| 0 <= k < after.len() implies (#[trigger] after[k]).start > t by {
        assert(after[k] == board.pending[n + k]);
        assert(board.pending[n].start <= board.pending[n + k].start);
    }
}

} // verus!

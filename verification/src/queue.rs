//! The play queue: files that the viewer has lined up, with enough said of
//! each to draw a row without opening it.

use vstd::prelude::*;

use crate::media::MediaInfo;
use crate::path;
use crate::text;
use crate::time::SECOND;

verus! {

#[derive(Debug)]
pub struct QueueItem {
    pub path: String,
    pub title: String,
    pub duration: i64,
}

#[derive(Debug)]
pub struct Queue {
    pub items: Vec<QueueItem>,
    pub current: Option<usize>,
}

pub struct ItemView {
    pub path: Seq<char>,
    pub title: Seq<char>,
    pub duration: int,
}

impl View for QueueItem {
    type V = ItemView;

    open spec fn view(&self) -> ItemView {
        ItemView { path: self.path@, title: self.title@, duration: self.duration as int }
    }
}

pub open spec fn item_views(items: Seq<QueueItem>) -> Seq<ItemView> {
    items.map_values(|i: QueueItem| i@)
}

/// Where a path first is in the queue.
pub open spec fn position_of(items: Seq<ItemView>, p: Seq<char>) -> Option<int>
    decreases items.len(),
{
    if items.len() == 0 {
        None
    } else {
        match position_of(items.drop_last(), p) {
            Some(i) => Some(i),
            None => if path::same_path(items.last().path, p) {
                Some(items.len() - 1)
            } else {
                None
            },
        }
    }
}

/// The row of a file: what its container says, or just its name when it
/// cannot be read.
pub open spec fn row_for(p: Seq<char>, info: Option<&MediaInfo>) -> ItemView {
    match info {
        Some(info) => ItemView {
            path: p,
            title: info@.display_title(),
            duration: info@.duration,
        },
        None => ItemView {
            path: p,
            title: match path::file_stem(p) {
                Some(stem) => stem,
                None => "Unknown"@,
            },
            duration: 0,
        },
    }
}

/// How long everything in the queue lasts.
pub open spec fn total_of(items: Seq<ItemView>) -> int
    decreases items.len(),
{
    if items.len() == 0 {
        0
    } else {
        total_of(items.drop_last()) + items.last().duration
    }
}

/// A time in whole minutes, the nearest, none if there is none.
pub open spec fn minutes_of(total: int) -> int {
    let m = (2 * total + 60 * SECOND) / (120 * SECOND);
    if total <= 0 {
        0
    } else if m > u64::MAX {
        u64::MAX as int
    } else {
        m
    }
}

/// The line below the queue.
pub open spec fn summary_of(items: Seq<ItemView>) -> Seq<char> {
    let minutes = minutes_of(total_of(items));
    let count = text::decimal(items.len()) + (if items.len() == 1 {
        " item"@
    } else {
        " items"@
    });
    if items.len() == 0 {
        "Nothing queued"@
    } else if minutes > 0 {
        count + " · "@ + text::decimal(minutes as nat) + " min"@
    } else {
        count
    }
}

/// The place after the current one, if there is one.
pub open spec fn next_of(current: Option<usize>, len: nat) -> Option<usize> {
    match current {
        Some(i) if i + 1 < len => Some((i + 1) as usize),
        _ => None,
    }
}

/// The place before the current one, if there is one.
pub open spec fn previous_of(current: Option<usize>) -> Option<usize> {
    match current {
        Some(i) if i > 0 => Some((i - 1) as usize),
        _ => None,
    }
}

impl Default for Queue {
    fn default() -> (r: Queue)
        ensures
            r.items@.len() == 0,
            r.current is None,
    {
        Queue { items: Vec::new(), current: None }
    }
}

impl Queue {
    pub open spec fn rows(self) -> Seq<ItemView> {
        item_views(self.items@)
    }

    /// No file is in the queue twice, and what is current is in it.
    pub open spec fn wf(self) -> bool {
        &&& forall|i: int, j: int|
            #![trigger self.rows()[i], self.rows()[j]]
            0 <= i < j < self.rows().len() ==> !path::same_path(
                self.rows()[i].path,
                self.rows()[j].path,
            )
        &&& self.current matches Some(i) ==> i < self.items@.len()
    }

    /// Where a file is in the queue.
    pub fn position(&self, file: &str) -> (r: Option<usize>)
        ensures
            r is Some <==> position_of(self.rows(), file@) is Some,
            r matches Some(i) ==> position_of(self.rows(), file@) == Some(i as int),
    {
        let wanted = text::chars_of(file);
        let ghost rows = self.rows();
        let mut i: usize = 0;
        assert(rows.take(0) =~= Seq::<ItemView>::empty());
        while i < self.items.len()
            invariant
                i <= self.items@.len(),
                rows == self.rows(),
                wanted@ == file@,
                position_of(rows.take(i as int), file@) is None,
            decreases self.items@.len() - i,
        {
            let have = text::chars_of(self.items[i].path.as_str());
            assert(rows.take(i + 1).drop_last() =~= rows.take(i as int));
            assert(rows.take(i + 1).last() == self.items@[i as int]@);
            if path::is_same_path(&have, &wanted) {
                proof {
                    first_stays_first(rows, i + 1, file@);
                }
                return Some(i);
            }
            i = i + 1;
        }
        assert(rows.take(i as int) =~= rows);
        None
    }

    /// Adds a file, with what was read of it, if it could be. A file that is
    /// there already stays where it is. Returns where the file is.
    pub fn add(&mut self, file: &str, info: Option<&MediaInfo>) -> (r: usize)
        requires
            old(self).wf(),
        ensures
            final(self).wf(),
            final(self).current == old(self).current,
            r < final(self).items@.len(),
            match position_of(old(self).rows(), file@) {
                Some(i) => r == i && *final(self) == *old(self),
                None => r == old(self).items@.len() && final(self).rows() == old(self).rows().push(row_for(file@, info)),
            },
    {
        if let Some(i) = self.position(file) {
            proof {
                positions_match(self.rows(), file@);
            }
            return i;
        }
        let (title, duration): (String, i64) = match info {
            Some(info) => (info.display_title(), info.duration),
            None => {
                let chars = text::chars_of(file);
                let title: String = match path::stem_of(&chars) {
                    Some(stem) => text::string_of(&stem),
                    None => "Unknown".to_string(),
                };
                (title, 0)
            },
        };
        let ghost before = self.rows();
        let row = QueueItem { path: file.to_string(), title: title, duration: duration };
        self.items.push(row);
        proof {
            assert(row@ == row_for(file@, info));
            assert(self.rows() =~= before.push(row@));
            positions_match(before, file@);
        }
        self.items.len() - 1
    }

    /// Empties the queue.
    pub fn clear(&mut self)
        ensures
            final(self).wf(),
            final(self).rows() == Seq::<ItemView>::empty(),
            final(self).current is None,
    {
        self.items.clear();
        self.current = None;
        assert(self.rows() =~= Seq::<ItemView>::empty());
    }

    pub fn total_duration(&self) -> (r: i128)
        ensures
            r == total_of(self.rows()),
    {
        let ghost rows = self.rows();
        let mut sum: i128 = 0;
        let mut i: usize = 0;
        assert(rows.take(0) =~= Seq::<ItemView>::empty());
        while i < self.items.len()
            invariant
                i <= self.items@.len(),
                rows == self.rows(),
                sum == total_of(rows.take(i as int)),
                -0x8000_0000_0000_0000 * i <= sum <= 0x7fff_ffff_ffff_ffff * i,
            decreases self.items@.len() - i,
        {
            assert(rows.take(i + 1).drop_last() =~= rows.take(i as int));
            assert(rows.take(i + 1).last() == self.items@[i as int]@);
            sum = sum + self.items[i].duration as i128;
            i = i + 1;
        }
        assert(rows.take(i as int) =~= rows);
        sum
    }

    /// The place after the current one, if there is one: the end of the last
    /// file is a stop, not a wrap-around.
    pub fn next_index(&self) -> (r: Option<usize>)
        ensures
            r == next_of(self.current, self.items@.len()),
    {
        match self.current {
            Some(i) => if i < self.items.len() && i + 1 < self.items.len() {
                Some(i + 1)
            } else {
                None
            },
            None => None,
        }
    }

    /// The place before the current one, if there is one.
    pub fn previous_index(&self) -> (r: Option<usize>)
        ensures
            r == previous_of(self.current),
    {
        match self.current {
            Some(i) => if i > 0 {
                Some(i - 1)
            } else {
                None
            },
            None => None,
        }
    }

    /// The line below the queue.
    pub fn summary(&self) -> (r: String)
        ensures
            r@ == summary_of(self.rows()),
    {
        if self.items.len() == 0 {
            return "Nothing queued".to_string();
        }
        let total: i128 = self.total_duration();
        let minutes: u64 = whole_minutes(total);
        let items: usize = self.items.len();
        let mut out: Vec<char> = Vec::new();
        text::append_decimal(&mut out, items as u64);
        if items == 1 {
            text::append_str(&mut out, " item");
        } else {
            text::append_str(&mut out, " items");
        }
        if minutes > 0 {
            text::append_str(&mut out, " · ");
            text::append_decimal(&mut out, minutes);
            text::append_str(&mut out, " min");
        }
        assert(out@ =~= summary_of(self.rows()));
        text::string_of(&out)
    }
}

fn whole_minutes(total: i128) -> (r: u64)
    ensures
        r == minutes_of(total as int),
{
    if total <= 0 {
        return 0;
    }
    // The nearest minute, without doubling the total.
    let q: i128 = total / 120_000_000_000;
    let rest: i128 = total % 120_000_000_000;
    let low: i128 = (2 * rest + 60_000_000_000) / 120_000_000_000;
    assert((2 * total + 60_000_000_000) / 120_000_000_000 == 2 * q + low) by {
        assert(total == 120_000_000_000 * q + rest);
    }
    let m: i128 = 2 * q + low;
    if m > u64::MAX as i128 {
        u64::MAX
    } else {
        m as u64
    }
}

proof fn first_stays_first(items: Seq<ItemView>, n: int, p: Seq<char>)
    requires
        0 <= n <= items.len(),
        position_of(items.take(n), p) is Some,
    ensures
        position_of(items, p) == position_of(items.take(n), p),
    decreases items.len(),
{
    if n < items.len() {
        assert(items.drop_last().take(n) =~= items.take(n));
        first_stays_first(items.drop_last(), n, p);
    } else {
        assert(items.take(n) =~= items);
    }
}

proof fn positions_match(items: Seq<ItemView>, p: Seq<char>)
    ensures
        position_of(items, p) matches Some(i) ==> 0 <= i < items.len() && path::same_path(
            items[i].path,
            p,
        ),
        position_of(items, p) is None ==> forall|i: int|
            0 <= i < items.len() ==> !path::same_path((#[trigger] items[i]).path, p),
    decreases items.len(),
{
    if items.len() > 0 {
        let head = items.drop_last();
        positions_match(head, p);
        if position_of(items, p) is None {
            assert forall|i: int| 0 <= i < items.len() implies !path::same_path(
                (#[trigger] items[i]).path,
                p,
            ) by {
                if i < head.len() {
                    assert(head[i] == items[i]);
                }
            }
        }
    }
}

// ── Laws ────────────────────────────────────────────────────────────────

/// Once a file is in the queue, it is found where it is, and adding it again
/// changes nothing.
pub proof fn a_queued_file_is_found(items: Seq<ItemView>, row: ItemView)
    requires
        position_of(items, row.path) is None,
    ensures
        position_of(items.push(row), row.path) == Some(items.len() as int),
{
    assert(items.push(row).drop_last() =~= items);
}

/// Adding one file does not move another.
pub proof fn adding_moves_nothing(items: Seq<ItemView>, row: ItemView, p: Seq<char>)
    requires
        position_of(items, p) is Some,
    ensures
        position_of(items.push(row), p) == position_of(items, p),
{
    assert(items.push(row).take(items.len() as int) =~= items);
    first_stays_first(items.push(row), items.len() as int, p);
}

/// Going on and coming back ends where it began, and so does the other way
/// round.
pub proof fn next_and_previous_are_opposites(i: usize, j: usize, len: nat)
    requires
        i < len <= usize::MAX,
        j < len,
    ensures
        next_of(Some(i), len) == Some(j) <==> previous_of(Some(j)) == Some(i),
{
}

/// The minutes shown are the nearest to the whole length, and none when there
/// is none.
pub proof fn the_minutes_are_the_nearest(total: int)
    requires
        total <= 1_000_000_000_000_000_000_000,
    ensures
        total > 0 ==> 60_000_000_000 * minutes_of(total) - 30_000_000_000 <= total < 60_000_000_000
            * minutes_of(total) + 30_000_000_000,
        total <= 0 ==> minutes_of(total) == 0,
{
    let a = 2 * total + 60_000_000_000;
    let d = 120_000_000_000int;
    assert(a == 2 * total + 60 * SECOND && d == 120 * SECOND);
    let q = a / d;
    assert(q == (2 * total + 60 * SECOND) / (120 * SECOND));
    vstd::arithmetic::div_mod::lemma_fundamental_div_mod(a, d);
    vstd::arithmetic::div_mod::lemma_mod_bound(a, d);
}

/// A file added to the queue makes it longer by its own length, and the length
/// of nothing is none.
pub proof fn lengths_add_up(items: Seq<ItemView>, row: ItemView)
    ensures
        total_of(Seq::<ItemView>::empty()) == 0,
        total_of(items.push(row)) == total_of(items) + row.duration,
{
    assert(items.push(row).drop_last() =~= items);
}

/// A file is found at the first place that names it.
pub proof fn the_first_place_is_found(items: Seq<ItemView>, p: Seq<char>)
    ensures
        match position_of(items, p) {
            Some(i) => 0 <= i < items.len() && path::same_path(items[i].path, p) && forall|j: int|
                0 <= j < i ==> !path::same_path((#[trigger] items[j]).path, p),
            None => forall|j: int|
                0 <= j < items.len() ==> !path::same_path((#[trigger] items[j]).path, p),
        },
    decreases items.len(),
{
    if items.len() > 0 {
        let init = items.drop_last();
        the_first_place_is_found(init, p);
        if position_of(init, p) is None {
            assert forall|j: int| 0 <= j < items.len() - 1 implies !path::same_path(
                (#[trigger] items[j]).path,
                p,
            ) by {
                assert(init[j] == items[j]);
            }
        } else {
            let i = position_of(init, p)->0;
            assert(init[i] == items[i]);
            assert forall|j: int| 0 <= j < i implies !path::same_path(
                (#[trigger] items[j]).path,
                p,
            ) by {
                assert(init[j] == items[j]);
            }
        }
    }
}

/// The queue is gone through one by one, from the first to the last, and stops
/// at its ends.
pub proof fn the_queue_goes_one_by_one(i: usize, len: nat)
    requires
        i < len <= usize::MAX,
    ensures
        i + 1 < len ==> next_of(Some(i), len) == Some((i + 1) as usize),
        i + 1 == len ==> next_of(Some(i), len) is None,
        i > 0 ==> previous_of(Some(i)) == Some((i - 1) as usize),
        i == 0 ==> previous_of(Some(i)) is None,
        next_of(None, len) is None,
        previous_of(None) is None,
{
}

/// A row shows the file that it stands for, and a file that cannot be read
/// still has one.
pub proof fn a_row_is_its_files(p: Seq<char>, info: Option<&MediaInfo>)
    ensures
        row_for(p, info).path == p,
        info is None ==> row_for(p, info).duration == 0,
        info matches Some(m) ==> row_for(p, info).duration == m.duration && row_for(p, info).title
            == m@.display_title(),
        info is None && path::file_stem(p) is Some ==> row_for(p, info).title == path::file_stem(
            p,
        )->0,
{
}

/// The line below the queue counts the files, and tells their length when that
/// comes to a minute.
pub proof fn the_summary_counts(items: Seq<ItemView>)
    ensures
        items.len() == 0 ==> summary_of(items) == "Nothing queued"@,
        items.len() == 1 && minutes_of(total_of(items)) == 0 ==> summary_of(items) == text::decimal(
            1,
        ) + " item"@,
        items.len() > 1 && minutes_of(total_of(items)) == 0 ==> summary_of(items) == text::decimal(
            items.len(),
        ) + " items"@,
        items.len() > 1 && minutes_of(total_of(items)) > 0 ==> summary_of(items) == text::decimal(
            items.len(),
        ) + " items"@ + " · "@ + text::decimal(minutes_of(total_of(items)) as nat) + " min"@,
{
}

} // verus!

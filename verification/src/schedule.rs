//! The schedule data model: labeled tasks on a day, days keyed by
//! calendar date, and the retention policy that bounds the store to
//! current and future days.

use crate::time::{Time, TimeSlot};
use vstd::prelude::*;

verus! {

/// A calendar date as plain values. Ordering is lexicographic on
/// (year, month, day), which the integer key below mirrors.
#[derive(Clone, Copy, PartialEq, Eq, Structural, Debug)]
pub struct Date {
    pub year: i32,
    pub month: u8,
    pub day: u8,
}

impl Date {
    pub open spec fn wf(self) -> bool {
        1 <= self.month <= 12 && 1 <= self.day <= 31
    }

    /// An order-preserving integer key for a date.
    pub open spec fn spec_key(self) -> int {
        self.year * 10000 + self.month * 100 + self.day
    }

    pub open spec fn spec_le(self, other: Date) -> bool {
        self.spec_key() <= other.spec_key()
    }

    pub fn new(year: i32, month: u8, day: u8) -> (r: Date)
        requires
            1 <= month <= 12,
            1 <= day <= 31,
        ensures
            r == (Date { year, month, day }),
            r.wf(),
    {
        Date { year, month, day }
    }

    /// Whether `self` is on or before `other` in calendar order.
    pub fn le(&self, other: &Date) -> (r: bool)
        requires
            self.wf(),
            other.wf(),
        ensures
            r == self.spec_le(*other),
    {
        if self.year != other.year {
            self.year < other.year
        } else if self.month != other.month {
            self.month < other.month
        } else {
            self.day <= other.day
        }
    }
}

/// A labeled slot on the day's timeline. The label is free text and may
/// be empty while it is being composed.
#[derive(Clone, PartialEq, Eq, Debug)]
pub struct Task {
    pub slot: TimeSlot,
    pub label: Vec<char>,
}

/// The mathematical view of a task: its slot and the label's characters.
pub struct TaskView {
    pub slot: TimeSlot,
    pub label: Seq<char>,
}

impl View for Task {
    type V = TaskView;

    open spec fn view(&self) -> TaskView {
        TaskView { slot: self.slot, label: self.label@ }
    }
}

impl Task {
    pub open spec fn wf(self) -> bool {
        self.slot.wf()
    }
}

/// The views of a sequence of tasks.
pub open spec fn tasks_view(s: Seq<Task>) -> Seq<TaskView> {
    s.map_values(|t: Task| t@)
}

pub open spec fn tasks_wf(s: Seq<Task>) -> bool {
    forall|i: int| 0 <= i < s.len() ==> (#[trigger] s[i]).wf()
}

/// The first task of `tasks` whose slot contains `t`, if any: the
/// tie-break rule for overlapping tasks is that the earliest-listed
/// task wins.
pub open spec fn first_containing(tasks: Seq<TaskView>, t: Time) -> Option<int>
    decreases tasks.len(),
{
    if tasks.len() == 0 {
        None
    } else if tasks[0].slot.spec_contains(t) {
        Some(0int)
    } else {
        match first_containing(tasks.drop_first(), t) {
            Some(i) => Some(i + 1),
            None => None,
        }
    }
}

/// What `first_containing` returns: the least index whose slot contains
/// `t`, or `None` when no slot does.
pub proof fn lemma_first_containing_props(tasks: Seq<TaskView>, t: Time)
    ensures
        match first_containing(tasks, t) {
            Some(i) => 0 <= i < tasks.len() && tasks[i].slot.spec_contains(t) && (forall|j: int|
                0 <= j < i ==> !(#[trigger] tasks[j]).slot.spec_contains(t)),
            None => forall|j: int|
                0 <= j < tasks.len() ==> !(#[trigger] tasks[j]).slot.spec_contains(t),
        },
    decreases tasks.len(),
{
    if tasks.len() == 0 {
    } else if tasks[0].slot.spec_contains(t) {
    } else {
        let rest = tasks.drop_first();
        lemma_first_containing_props(rest, t);
        match first_containing(rest, t) {
            Some(i) => {
                assert(tasks[i + 1] == rest[i]);
                assert forall|j: int| 0 <= j < i + 1 implies !(
                #[trigger] tasks[j]).slot.spec_contains(t) by {
                    if j > 0 {
                        assert(tasks[j] == rest[j - 1]);
                    }
                }
            },
            None => {
                assert forall|j: int| 0 <= j < tasks.len() implies !(
                #[trigger] tasks[j]).slot.spec_contains(t) by {
                    if j > 0 {
                        assert(tasks[j] == rest[j - 1]);
                    }
                }
            },
        }
    }
}

/// Every element of a filtered sequence is an element of the original.
proof fn lemma_filter_subset<A>(s: Seq<A>, pred: spec_fn(A) -> bool, i: int)
    requires
        0 <= i < s.filter(pred).len(),
    ensures
        s.contains(s.filter(pred)[i]),
    decreases s.len(),
{
    reveal(Seq::filter);
    if s.len() > 0 {
        let prefix = s.drop_last();
        let pfs = prefix.filter(pred);
        if pred(s.last()) && i == pfs.len() {
            assert(s.filter(pred)[i] == s.last());
            assert(s[s.len() - 1] == s.last());
        } else {
            lemma_filter_subset(prefix, pred, i);
            let a = choose|a: int| 0 <= a < prefix.len() && prefix[a] == pfs[i];
            assert(s[a] == pfs[i]);
        }
    }
}

/// The characterization above pins `first_containing` down: a least
/// containing index is it, and no containing index at all means `None`.
proof fn lemma_first_containing_unique(tasks: Seq<TaskView>, t: Time, i: int)
    requires
        0 <= i < tasks.len(),
        tasks[i].slot.spec_contains(t),
        forall|j: int| 0 <= j < i ==> !(#[trigger] tasks[j]).slot.spec_contains(t),
    ensures
        first_containing(tasks, t) == Some(i),
    decreases tasks.len(),
{
    if i == 0 {
    } else {
        assert(forall|j: int|
            0 <= j < i - 1 ==> tasks.drop_first()[j] == #[trigger] tasks[j + 1]);
        lemma_first_containing_unique(tasks.drop_first(), t, i - 1);
    }
}

proof fn lemma_first_containing_none(tasks: Seq<TaskView>, t: Time)
    requires
        forall|j: int| 0 <= j < tasks.len() ==> !(#[trigger] tasks[j]).slot.spec_contains(t),
    ensures
        first_containing(tasks, t) is None,
    decreases tasks.len(),
{
    if tasks.len() > 0 {
        assert(forall|j: int|
            0 <= j < tasks.len() - 1 ==> tasks.drop_first()[j] == #[trigger] tasks[j + 1]);
        lemma_first_containing_none(tasks.drop_first(), t);
    }
}

/// One calendar day's full set of tasks.
#[derive(Clone, Debug)]
pub struct DayState {
    pub date: Date,
    pub tasks: Vec<Task>,
}

impl DayState {
    pub open spec fn wf(self) -> bool {
        self.date.wf() && tasks_wf(self.tasks@)
    }

    /// An empty day for `date`.
    pub fn new(date: Date) -> (r: DayState)
        requires
            date.wf(),
        ensures
            r.date == date,
            r.tasks@.len() == 0,
            r.wf(),
    {
        DayState { date, tasks: Vec::new() }
    }

    /// The first task whose slot contains `t`, by index, if any.
    pub fn find_containing(&self, t: Time) -> (r: Option<usize>)
        requires
            self.wf(),
            t.wf(),
        ensures
            match r {
                Some(i) => first_containing(tasks_view(self.tasks@), t) == Some(i as int),
                None => first_containing(tasks_view(self.tasks@), t) is None,
            },
    {
        let ghost tv = tasks_view(self.tasks@);
        let mut i: usize = 0;
        while i < self.tasks.len()
            invariant
                self.wf(),
                t.wf(),
                i <= self.tasks@.len(),
                tv == tasks_view(self.tasks@),
                forall|j: int| 0 <= j < i ==> !(#[trigger] tv[j]).slot.spec_contains(t),
            decreases self.tasks@.len() - i,
        {
            if self.tasks[i].slot.contains(t) {
                proof {
                    lemma_first_containing_unique(tv, t, i as int);
                }
                return Some(i);
            }
            i += 1;
        }
        proof {
            lemma_first_containing_none(tv, t);
        }
        None
    }
}

/// All days kept by the program, keyed by date; dates are unique.
#[derive(Clone, Debug)]
pub struct Schedule {
    pub dates: Vec<DayState>,
}

/// The retention predicate of `upsert_and_prune`: an old entry survives
/// iff its date is on or after the cutoff and it is not being replaced.
pub open spec fn retained(ds: DayState, date: Date, cutoff: Date) -> bool {
    cutoff.spec_le(ds.date) && ds.date != date
}

/// `retained` as a predicate value, for use with `Seq::filter`.
pub open spec fn retained_pred(date: Date, cutoff: Date) -> spec_fn(DayState) -> bool {
    |ds: DayState| retained(ds, date, cutoff)
}

impl Schedule {
    pub open spec fn wf(self) -> bool {
        (forall|i: int| 0 <= i < self.dates@.len() ==> (#[trigger] self.dates@[i]).wf())
            && (forall|i: int, j: int|
            0 <= i < j < self.dates@.len() ==> (#[trigger] self.dates@[i]).date != (
            #[trigger] self.dates@[j]).date)
    }

    pub fn new() -> (r: Schedule)
        ensures
            r.dates@.len() == 0,
            r.wf(),
    {
        Schedule { dates: Vec::new() }
    }

    /// The day stored for `date`, if one is.
    pub fn get_day(&self, date: &Date) -> (r: Option<&DayState>)
        requires
            self.wf(),
        ensures
            match r {
                Some(ds) => ds.date == *date && self.dates@.contains(*ds),
                None => forall|i: int|
                    0 <= i < self.dates@.len() ==> (#[trigger] self.dates@[i]).date != *date,
            },
    {
        let mut i: usize = 0;
        while i < self.dates.len()
            invariant
                i <= self.dates@.len(),
                forall|j: int| 0 <= j < i ==> (#[trigger] self.dates@[j]).date != *date,
            decreases self.dates@.len() - i,
        {
            if self.dates[i].date == *date {
                return Some(&self.dates[i]);
            }
            i += 1;
        }
        None
    }

    /// Remove every entry whose date is strictly before `cutoff`, then
    /// insert `day` as the one entry for `date`, overwriting any entry
    /// that was there. This is the store's sole garbage collection.
    pub fn upsert_and_prune(&mut self, date: Date, day: DayState, cutoff: Date)
        requires
            old(self).wf(),
            date.wf(),
            cutoff.wf(),
            day.wf(),
            day.date == date,
        ensures
            final(self).dates@ == old(self).dates@.filter(retained_pred(date, cutoff)).push(day),
            final(self).wf(),
    {
        let ghost orig = self.dates@;
        let ghost pred = retained_pred(date, cutoff);
        let mut kept: Vec<DayState> = Vec::new();
        let ghost mut k: int = 0;
        proof {
            assert(orig.take(0) =~= Seq::<DayState>::empty());
            reveal(Seq::filter);
            assert(orig.skip(0) =~= orig);
        }
        while self.dates.len() > 0
            invariant
                0 <= k <= orig.len(),
                self.dates@ == orig.skip(k),
                date.wf(),
                cutoff.wf(),
                forall|i: int| 0 <= i < orig.len() ==> (#[trigger] orig[i]).wf(),
                kept@ == orig.take(k).filter(retained_pred(date, cutoff)),
            decreases self.dates@.len(),
        {
            let ds = self.dates.remove(0);
            proof {
                assert(ds == orig[k]);
                assert(orig.skip(k).remove(0) =~= orig.skip(k + 1));
                reveal(Seq::filter);
                assert(orig.take(k + 1).drop_last() =~= orig.take(k));
                assert(orig.take(k + 1).last() == orig[k]);
            }
            let keep = cutoff.le(&ds.date) && !(ds.date == date);
            if keep {
                kept.push(ds);
            }
            proof {
                k = k + 1;
            }
        }
        proof {
            assert(orig.take(orig.len() as int) =~= orig);
        }
        kept.push(day);
        self.dates = kept;
        proof {
            let fs = orig.filter(retained_pred(date, cutoff));
            broadcast use vstd::seq_lib::group_filter_ensures;

            assert forall|m: int| 0 <= m < self.dates@.len() implies (
            #[trigger] self.dates@[m]).wf() by {
                if m < fs.len() {
                    lemma_filter_subset(orig, retained_pred(date, cutoff), m);
                    let a = choose|a: int| 0 <= a < orig.len() && orig[a] == fs[m];
                    assert(orig[a].wf());
                } else {
                    assert(self.dates@[m] == day);
                }
            }
            assert forall|i: int, j: int|
                0 <= i < j
                    < self.dates@.len() implies (#[trigger] self.dates@[i]).date != (
            #[trigger] self.dates@[j]).date by {
                if j < fs.len() {
                    lemma_filter_distinct_dates(orig, retained_pred(date, cutoff), i, j);
                } else {
                    assert(self.dates@[j] == day);
                    assert(retained_pred(date, cutoff)(fs[i]));
                }
            }
        }
    }
}

impl Default for Schedule {
    /// The empty schedule, as loaded when no stored file can be read.
    fn default() -> (r: Schedule)
        ensures
            r.dates@.len() == 0,
            r.wf(),
    {
        Schedule { dates: Vec::new() }
    }
}

/// How many days past today the session targets: one for tomorrow,
/// otherwise zero, rolling over to tomorrow after the fixed local
/// eighteen-o'clock threshold.
pub fn day_offset(hour_now: usize, tomorrow: bool) -> (r: usize)
    ensures
        r == (if tomorrow || hour_now > 18 {
            1int
        } else {
            0int
        }),
{
    if tomorrow || hour_now > 18 {
        1
    } else {
        0
    }
}

/// Law: pruning at a cutoff equal to the upserted date leaves no entry
/// dated before the cutoff, keeps every other entry dated on or after
/// it, and leaves exactly one entry for the date itself: the upserted
/// day, at the end.
pub proof fn lemma_upsert_prune_today(before: Seq<DayState>, day: DayState, today: Date)
    requires
        day.date == today,
    ensures
        ({
            let after = before.filter(retained_pred(today, today)).push(day);
            &&& after.last() == day
            &&& forall|i: int| 0 <= i < after.len() ==> today.spec_le((#[trigger] after[i]).date)
            &&& forall|i: int| 0 <= i < after.len() - 1 ==> (#[trigger] after[i]).date != today
            &&& forall|j: int|
                0 <= j < before.len() && retained(#[trigger] before[j], today, today)
                    ==> after.contains(before[j])
        }),
{
    broadcast use vstd::seq_lib::group_filter_ensures;

    let fs = before.filter(retained_pred(today, today));
    let after = fs.push(day);
    assert(forall|i: int|
        0 <= i < fs.len() ==> retained_pred(today, today)(#[trigger] fs[i]));
    assert forall|j: int|
        0 <= j < before.len() && retained(
            #[trigger] before[j],
            today,
            today,
        ) implies after.contains(before[j]) by {
        assert(retained_pred(today, today)(before[j]));
        assert(fs.contains(before[j]));
        let a = choose|a: int| 0 <= a < fs.len() && fs[a] == before[j];
        assert(after[a] == before[j]);
    }
}

/// Two distinct positions of a filtered sequence of unique-dated days
/// still carry distinct dates.
proof fn lemma_filter_distinct_dates(
    orig: Seq<DayState>,
    pred: spec_fn(DayState) -> bool,
    i: int,
    j: int,
)
    requires
        forall|a: int, b: int|
            0 <= a < b < orig.len() ==> (#[trigger] orig[a]).date != (#[trigger] orig[b]).date,
        0 <= i < j < orig.filter(pred).len(),
    ensures
        orig.filter(pred)[i].date != orig.filter(pred)[j].date,
    decreases orig.len(),
{
    reveal(Seq::filter);
    if orig.len() > 0 {
        let prefix = orig.drop_last();
        let fs = orig.filter(pred);
        let pfs = prefix.filter(pred);
        assert(forall|a: int, b: int|
            0 <= a < b < prefix.len() ==> (#[trigger] prefix[a]).date != (
            #[trigger] prefix[b]).date);
        if pred(orig.last()) {
            if j < pfs.len() {
                lemma_filter_distinct_dates(prefix, pred, i, j);
            } else {
                assert(fs[j] == orig.last());
                lemma_filter_subset(prefix, pred, i);
                let a = choose|a: int| 0 <= a < prefix.len() && prefix[a] == pfs[i];
                assert(orig[a] == pfs[i]);
                assert(orig[a].date != orig.last().date);
            }
        } else {
            lemma_filter_distinct_dates(prefix, pred, i, j);
        }
    }
}

} // verus!

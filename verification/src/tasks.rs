//! A single to-do item and the pure recurrence calculator that advances a
//! recurring task's due date along its set of weekdays.

use vstd::prelude::*;

use crate::stamp::{Timestamp, Weekday};
use crate::{sat32, CompletionStatus, EstTime, Priority, TodoError};

verus! {

/// Day-number ceiling for due dates; a recurring task whose due date lies
/// within a week of this ceiling no longer advances, so stored dates stay
/// representable.
pub const MAX_DUE_DAY: i32 = 100_000_000;

/// Mathematical value of a task: every field as a plain value.
pub struct TaskV {
    pub name: Seq<char>,
    pub desc: Seq<char>,
    pub finished: bool,
    pub due_date: Option<Timestamp>,
    pub initial_date: Timestamp,
    pub est_minutes: u32,
    pub priority: Option<Priority>,
    pub repeat: Option<Seq<Weekday>>,
    pub category: Option<Seq<char>>,
    pub id: u128,
}

impl TaskV {
    /// A well-formed task: timestamps lie in range, and a recurrence, when
    /// present, names at least one weekday and comes with a due date.
    pub open spec fn wf(self) -> bool {
        &&& (self.due_date matches Some(d) ==> d.wf() && d.days <= MAX_DUE_DAY)
        &&& self.initial_date.wf()
        &&& (self.repeat matches Some(ws) ==> ws.len() > 0 && self.due_date is Some)
    }
}

/// The view of an optional label as an optional character sequence.
pub open spec fn opt_str_view(o: Option<String>) -> Option<Seq<char>> {
    match o {
        Some(s) => Some(s@),
        None => None,
    }
}

/// The view of an optional weekday list as an optional sequence.
pub open spec fn opt_days_view(o: Option<Vec<Weekday>>) -> Option<Seq<Weekday>> {
    match o {
        Some(v) => Some(v@),
        None => None,
    }
}

/// A single to-do item: identity, free text, schedule fields, and a
/// completion flag.
#[derive(Debug)]
pub struct Task {
    name: String,
    desc: String,
    finished: bool,
    due_date: Option<Timestamp>,
    initial_date: Timestamp,
    est_minutes: u32,
    priority: Option<Priority>,
    repeat: Option<Vec<Weekday>>,
    category: Option<String>,
    id: u128,
}

impl View for Task {
    type V = TaskV;

    closed spec fn view(&self) -> TaskV {
        TaskV {
            name: self.name@,
            desc: self.desc@,
            finished: self.finished,
            due_date: self.due_date,
            initial_date: self.initial_date,
            est_minutes: self.est_minutes,
            priority: self.priority,
            repeat: opt_days_view(self.repeat),
            category: opt_str_view(self.category),
            id: self.id,
        }
    }
}

/// Copy a weekday list.
fn clone_weekdays(v: &Vec<Weekday>) -> (r: Vec<Weekday>)
    ensures
        r@ == v@,
{
    let mut out: Vec<Weekday> = Vec::new();
    let mut i: usize = 0;
    while i < v.len()
        invariant
            i <= v.len(),
            out@ == v@.take(i as int),
        decreases v.len() - i,
    {
        out.push(v[i]);
        proof {
            assert(v@.take(i + 1 as int) =~= v@.take(i as int).push(v@[i as int]));
        }
        i = i + 1;
    }
    proof {
        assert(v@.take(v@.len() as int) =~= v@);
    }
    out
}

impl Clone for Task {
    fn clone(&self) -> (r: Self)
        ensures
            r@ == self@,
    {
        Task {
            name: self.name.clone(),
            desc: self.desc.clone(),
            finished: self.finished,
            due_date: self.due_date,
            initial_date: self.initial_date,
            est_minutes: self.est_minutes,
            priority: self.priority,
            repeat: match &self.repeat {
                Some(v) => Some(clone_weekdays(v)),
                None => None,
            },
            category: match &self.category {
                Some(c) => Some(c.clone()),
                None => None,
            },
            id: self.id,
        }
    }
}

/// A fresh, effectively unique task id.
///
/// Relies on `uuid::Uuid::new_v4` (a random version-4 UUID) read out through
/// `Uuid::as_u128`. The result is random, so nothing is promised about it.
#[verifier::external_body]
fn fresh_id() -> u128 {
    uuid::Uuid::new_v4().as_u128()
}

/// Whether a recurrence request is consistent: weekdays were given together
/// with a due date, and at least one of them.
pub open spec fn recurrence_ok(due_date: Option<Timestamp>, repeat: Option<Seq<Weekday>>) -> bool {
    repeat matches Some(ws) ==> ws.len() > 0 && due_date is Some
}

impl Task {
    /// Build a task from every part, including identity and creation time.
    /// Rejects a recurrence without a due date, or with no weekdays, as
    /// `InvalidRecurrence`.
    pub fn build(
        name: &str,
        desc: &str,
        due_date: Option<Timestamp>,
        est_minutes: u32,
        priority: Option<Priority>,
        repeat: Option<Vec<Weekday>>,
        category: Option<String>,
        initial_date: Timestamp,
        id: u128,
    ) -> (r: Result<Task, TodoError>)
        requires
            (due_date matches Some(d) ==> d.wf() && d.days <= MAX_DUE_DAY),
            initial_date.wf(),
        ensures
            match r {
                Ok(t) => recurrence_ok(due_date, opt_days_view(repeat)) && t@ == (TaskV {
                    name: name@,
                    desc: desc@,
                    finished: false,
                    due_date,
                    initial_date,
                    est_minutes,
                    priority,
                    repeat: opt_days_view(repeat),
                    category: opt_str_view(category),
                    id,
                }) && t@.wf(),
                Err(e) => e == TodoError::InvalidRecurrence && !recurrence_ok(
                    due_date,
                    opt_days_view(repeat),
                ),
            },
    {
        match &repeat {
            Some(ws) => {
                if ws.len() == 0 || due_date.is_none() {
                    return Err(TodoError::InvalidRecurrence);
                }
            },
            None => {},
        }
        Ok(
            Task {
                name: name.to_owned(),
                desc: desc.to_owned(),
                finished: false,
                due_date,
                initial_date,
                est_minutes,
                priority,
                repeat,
                category,
                id,
            },
        )
    }

    /// Create a task: assigns a fresh id and stamps the creation time from
    /// the wall clock. Rejects an inconsistent recurrence request as
    /// `InvalidRecurrence`.
    pub fn new(
        name: &str,
        desc: &str,
        due_date: Option<Timestamp>,
        est_minutes: u32,
        priority: Option<Priority>,
        repeat: Option<Vec<Weekday>>,
        category: Option<String>,
    ) -> (r: Result<Task, TodoError>)
        requires
            (due_date matches Some(d) ==> d.wf() && d.days <= MAX_DUE_DAY),
        ensures
            match r {
                Ok(t) => recurrence_ok(due_date, opt_days_view(repeat)) && t@.wf() && t@
                    == (TaskV {
                    initial_date: t@.initial_date,
                    id: t@.id,
                    name: name@,
                    desc: desc@,
                    finished: false,
                    due_date,
                    est_minutes,
                    priority,
                    repeat: opt_days_view(repeat),
                    category: opt_str_view(category),
                }),
                Err(e) => e == TodoError::InvalidRecurrence && !recurrence_ok(
                    due_date,
                    opt_days_view(repeat),
                ),
            },
    {
        let initial_date = crate::stamp::now_stamp();
        let id = fresh_id();
        Task::build(name, desc, due_date, est_minutes, priority, repeat, category, initial_date, id)
    }

    pub fn get_name(&self) -> (r: String)
        ensures
            r@ == self@.name,
    {
        self.name.clone()
    }

    pub fn get_desc(&self) -> (r: String)
        ensures
            r@ == self@.desc,
    {
        self.desc.clone()
    }

    pub fn get_id(&self) -> (r: u128)
        ensures
            r == self@.id,
    {
        self.id
    }

    pub fn get_due_date(&self) -> (r: Option<Timestamp>)
        ensures
            r == self@.due_date,
    {
        self.due_date
    }

    pub fn get_priority(&self) -> (r: Option<Priority>)
        ensures
            r == self@.priority,
    {
        self.priority
    }

    pub fn get_category(&self) -> (r: Option<String>)
        ensures
            opt_str_view(r) == self@.category,
    {
        match &self.category {
            Some(c) => Some(c.clone()),
            None => None,
        }
    }

    pub fn get_repeats(&self) -> (r: Option<Vec<Weekday>>)
        ensures
            opt_days_view(r) == self@.repeat,
    {
        match &self.repeat {
            Some(v) => Some(clone_weekdays(v)),
            None => None,
        }
    }

    /// Set the completion flag.
    pub fn set_done(&mut self, finished: bool)
        ensures
            final(self)@ == (TaskV { finished, ..old(self)@ }),
    {
        self.finished = finished
    }

    /// Whether the due date has passed as of `now`: a due date exists and
    /// lies strictly before `now`.
    pub fn overdue_at(&self, now: Timestamp) -> (r: bool)
        requires
            self@.wf(),
            now.wf(),
        ensures
            r == (self@.due_date matches Some(d) && d.as_secs() < now.as_secs()),
    {
        match self.due_date {
            Some(d) => d.lt(now),
            None => false,
        }
    }

    /// Whether the due date has passed as of the wall clock now. The clock
    /// is outside the model: all that is promised is that a task without a
    /// due date is never overdue; `overdue_at` carries the exact meaning.
    pub fn overdue(&self) -> (r: bool)
        requires
            self@.wf(),
        ensures
            self@.due_date is None ==> !r,
    {
        self.overdue_at(crate::stamp::now_stamp())
    }
}

/// Day offset from the reference weekday to the next occurrence of the
/// target weekday, by the calculator's policy: wrap past the end of the
/// week when the target lies behind the reference, advance within the week
/// when it lies ahead, and advance a full week when the two are equal
/// (today never counts as the next occurrence).
pub open spec fn offset_for(reference: int, target: int) -> int {
    if reference > target {
        7 - reference + target
    } else if target > reference {
        target - reference
    } else {
        7
    }
}

/// The least day offset over a list of recurrence weekdays.
pub open spec fn min_offset(ws: Seq<Weekday>, reference: int) -> int
    decreases ws.len(),
{
    if ws.len() <= 1 {
        offset_for(reference, ws[0].idx())
    } else {
        let prev = min_offset(ws.drop_last(), reference);
        let last = offset_for(reference, ws.last().idx());
        if last < prev {
            last
        } else {
            prev
        }
    }
}

/// The due date a recurring task advances to: the same time of day,
/// `min_offset` days later than the current due date.
pub open spec fn advanced_due(d: Timestamp, ws: Seq<Weekday>, reference: int) -> Timestamp {
    Timestamp { days: (d.days + min_offset(ws, reference)) as i32, secs: d.secs }
}

/// The least offset is itself one of the offsets, no offset is smaller,
/// and every offset lies between one day and one week.
pub proof fn lemma_min_offset(ws: Seq<Weekday>, reference: int)
    requires
        ws.len() > 0,
        0 <= reference <= 6,
    ensures
        1 <= min_offset(ws, reference) <= 7,
        exists|k: int| 0 <= k < ws.len() && min_offset(ws, reference) == offset_for(reference, ws[k].idx()),
        forall|k: int|
            0 <= k < ws.len() ==> min_offset(ws, reference) <= offset_for(reference, ws[k].idx()),
    decreases ws.len(),
{
    if ws.len() <= 1 {
        assert(min_offset(ws, reference) == offset_for(reference, ws[0].idx()));
    } else {
        lemma_min_offset(ws.drop_last(), reference);
        assert forall|k: int| 0 <= k < ws.len() implies min_offset(ws, reference) <= offset_for(
            reference,
            ws[k].idx(),
        ) by {
            if k < ws.len() - 1 {
                assert(ws.drop_last()[k] == ws[k]);
            }
        }
        let prev = min_offset(ws.drop_last(), reference);
        if prev <= offset_for(reference, ws.last().idx()) {
            let k0 = choose|k: int|
                0 <= k < ws.drop_last().len() && prev == offset_for(
                    reference,
                    ws.drop_last()[k].idx(),
                );
            assert(ws[k0] == ws.drop_last()[k0]);
            assert(min_offset(ws, reference) == offset_for(reference, ws[k0].idx()));
        } else {
            assert(min_offset(ws, reference) == offset_for(reference, ws[ws.len() - 1].idx()));
        }
    }
}

/// The recurrence calculator: the next due date for a task currently due at
/// `current`, recurring on `weekdays`, evaluated on a day whose weekday is
/// `reference`. The offset is computed from the reference day but applied
/// to the stored due date, and the time of day is preserved unchanged.
pub fn next_due(current: Timestamp, weekdays: &Vec<Weekday>, reference: Weekday) -> (r: Timestamp)
    requires
        current.wf(),
        current.days + 7 <= MAX_DUE_DAY,
        weekdays@.len() > 0,
    ensures
        r == advanced_due(current, weekdays@, reference.idx()),
        r.wf(),
        r.days <= MAX_DUE_DAY,
{
    proof {
        lemma_min_offset(weekdays@, reference.idx());
    }
    let ref_num = reference.num_from_monday();
    let mut best: u32 = offset_of(ref_num, weekdays[0].num_from_monday());
    let mut i: usize = 1;
    while i < weekdays.len()
        invariant
            1 <= i <= weekdays@.len(),
            0 <= ref_num <= 6,
            ref_num == reference.idx(),
            best == min_offset(weekdays@.take(i as int), ref_num as int),
            1 <= best <= 7,
        decreases weekdays@.len() - i,
    {
        let off = offset_of(ref_num, weekdays[i].num_from_monday());
        proof {
            assert(weekdays@.take(i + 1 as int).drop_last() =~= weekdays@.take(i as int));
            assert(weekdays@.take(i + 1 as int).last() == weekdays@[i as int]);
        }
        if off < best {
            best = off;
        }
        i = i + 1;
    }
    proof {
        assert(weekdays@.take(weekdays@.len() as int) =~= weekdays@);
    }
    current.plus_days(best)
}

/// One day offset by the calculator's policy, on weekday indices.
fn offset_of(reference: u32, target: u32) -> (r: u32)
    requires
        reference <= 6,
        target <= 6,
    ensures
        r == offset_for(reference as int, target as int),
        1 <= r <= 7,
{
    if reference > target {
        7 - reference + target
    } else if target > reference {
        target - reference
    } else {
        7
    }
}

/// Whether one recurrence cycle applies to a task: it recurs, has a due
/// date, and that due date lies at least a week under the calendar ceiling.
pub open spec fn can_advance(t: TaskV) -> bool {
    &&& t.repeat is Some
    &&& (t.due_date matches Some(d) && d.days + 7 <= MAX_DUE_DAY)
}

impl Task {
    /// Advance a recurring task one cycle, with `reference` as the weekday
    /// of the day of evaluation: the due date moves `min_offset` days
    /// forward and the completion flag is cleared. Returns false, changing
    /// nothing, when the task does not recur, has no due date, or its due
    /// date lies within a week of the admitted calendar ceiling.
    pub fn repeat_on(&mut self, reference: Weekday) -> (r: bool)
        requires
            old(self)@.wf(),
        ensures
            final(self)@.wf(),
            r == can_advance(old(self)@),
            r ==> final(self)@ == (TaskV {
                due_date: Some(
                    advanced_due(
                        old(self)@.due_date->Some_0,
                        old(self)@.repeat->Some_0,
                        reference.idx(),
                    ),
                ),
                finished: false,
                ..old(self)@
            }),
            !r ==> final(self)@ == old(self)@,
    {
        if self.repeat.is_some() && self.due_date.is_some() {
            let due = self.due_date.unwrap();
            if due.days + 7 <= MAX_DUE_DAY {
                let new_due = match &self.repeat {
                    Some(ws) => next_due(due, ws, reference),
                    None => due,
                };
                self.due_date = Some(new_due);
                self.set_done(false);
                return true;
            }
        }
        false
    }

    /// Advance a recurring task one cycle, reading the reference weekday
    /// from the wall clock. Whatever weekday the clock gave, the result is
    /// one cycle of the calculator for some reference day; `repeat_on`
    /// carries the exact arithmetic.
    pub fn repeat(&mut self) -> (r: bool)
        requires
            old(self)@.wf(),
        ensures
            final(self)@.wf(),
            r == can_advance(old(self)@),
            r ==> exists|wd: Weekday|
                final(self)@ == (TaskV {
                    due_date: Some(
                        #[trigger] advanced_due(
                            old(self)@.due_date->Some_0,
                            old(self)@.repeat->Some_0,
                            wd.idx(),
                        ),
                    ),
                    finished: false,
                    ..old(self)@
                }),
            !r ==> final(self)@ == old(self)@,
    {
        let reference = crate::stamp::today_weekday();
        let r = self.repeat_on(reference);
        proof {
            if r {
                let wd = reference;
                assert(final(self)@ == (TaskV {
                    due_date: Some(
                        advanced_due(
                            old(self)@.due_date->Some_0,
                            old(self)@.repeat->Some_0,
                            wd.idx(),
                        ),
                    ),
                    finished: false,
                    ..old(self)@
                }));
            }
        }
        r
    }
}

impl CompletionStatus for Task {
    open spec fn complete_spec(&self) -> bool {
        self@.finished
    }

    open spec fn finished_count_spec(&self) -> int {
        if self@.finished {
            1
        } else {
            0
        }
    }

    open spec fn item_count_spec(&self) -> int {
        1
    }

    fn complete(&self) -> (r: bool)
        ensures
            r == self.complete_spec(),
    {
        self.finished
    }

    fn completion_status(&self) -> (r: (u32, u32))
        ensures
            r.0 == sat32(self.finished_count_spec()),
            r.1 == sat32(self.item_count_spec()),
    {
        (if self.finished { 1 } else { 0 }, 1)
    }
}

impl EstTime for Task {
    open spec fn est_time_spec(&self) -> int {
        self@.est_minutes as int
    }

    fn est_time(&self) -> (r: u32)
        ensures
            r == sat32(self.est_time_spec()),
    {
        self.est_minutes
    }
}

} // verus!

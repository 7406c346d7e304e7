//! Decision logic of the background scheduler. The timers themselves —
//! sleeping until a due date and waking up — live outside the library; what
//! they do when they fire is decided here, against the store, and is exact:
//! an overdue timer marks an unfinished task overdue and leaves everything
//! else alone, and a recurrence timer advances a recurring task one cycle
//! or reports why it could not.

use vstd::prelude::*;

use crate::stamp::{Timestamp, Weekday};
use crate::CompletionStatus;
use crate::tasks::can_advance;
use crate::todo::{spec_mark_overdue, spec_advance, ToDo};

verus! {

/// What one firing of a recurrence timer did.
#[derive(Clone, Copy, Debug, PartialEq, Eq, Structural)]
pub enum RepeatFire {
    /// The task is gone from the store: the loop ends; an expected race,
    /// not an error.
    Gone,
    /// The task no longer recurs (or its due date cannot advance): the
    /// loop ends, the store is unchanged.
    NoRepeat,
    /// The task's due date advanced to the carried time and its completion
    /// flag cleared; the loop sleeps until then and goes again.
    Advanced(Timestamp),
}

/// One firing of an overdue timer: if the task still exists and is not
/// finished, it is marked overdue; a finished task is left untouched (a
/// timer is never cancelled, it finds the flag at wake-up), and a missing
/// task is an expected race and a no-op.
pub fn overdue_fire(todo: &mut ToDo, id: u128)
    requires
        old(todo).wf(),
    ensures
        final(todo).wf(),
        old(todo)@.tasks.contains_key(id) && !old(todo)@.tasks[id].finished ==> final(todo)@
            == spec_mark_overdue(old(todo)@, id),
        !(old(todo)@.tasks.contains_key(id) && !old(todo)@.tasks[id].finished) ==> final(todo)@
            == old(todo)@,
{
    let unfinished = match todo.get_task(id) {
        Some(t) => !t.complete(),
        None => false,
    };
    if unfinished {
        let marked = todo.set_overdue(id);
        proof {
            assert(marked is Ok);
        }
    }
}

/// One firing of a recurrence timer, with `reference` as the weekday of
/// the day of evaluation: a missing task ends the loop, a task that cannot
/// advance ends it with the store unchanged, and otherwise the task's due
/// date advances by the calculator and its completion flag clears.
pub fn repeat_fire(todo: &mut ToDo, id: u128, reference: Weekday) -> (r: RepeatFire)
    requires
        old(todo).wf(),
    ensures
        final(todo).wf(),
        match r {
            RepeatFire::Gone => !old(todo)@.tasks.contains_key(id) && final(todo)@ == old(todo)@,
            RepeatFire::NoRepeat => old(todo)@.tasks.contains_key(id) && !can_advance(
                old(todo)@.tasks[id],
            ) && final(todo)@ == old(todo)@,
            RepeatFire::Advanced(next) => old(todo)@.tasks.contains_key(id) && can_advance(
                old(todo)@.tasks[id],
            ) && final(todo)@ == spec_advance(old(todo)@, id, reference.idx()) && Some(next)
                == final(todo)@.tasks[id].due_date,
        },
{
    match todo.repeat_task(id, reference) {
        None => RepeatFire::Gone,
        Some(None) => RepeatFire::NoRepeat,
        Some(Some(d)) => RepeatFire::Advanced(d),
    }
}

} // verus!

use desktopper::stamp::{Timestamp, Weekday};
use desktopper::tasks::{next_due, Task};
use desktopper::{CompletionStatus, TodoError};

// A Wednesday in the proleptic Gregorian day count: day 1 (January 1 of
// year 1) is a Monday, so day 3 is a Wednesday, and so is 3 + 7k.
const A_WEDNESDAY: i32 = 700_003;
// Two days later is a Friday.
const A_FRIDAY: i32 = 700_005;

#[test]
fn wednesday_with_monday_and_wednesday_advances_to_monday() {
    // due Wednesday 09:00, recurring {Monday, Wednesday}, evaluated on a
    // Wednesday: Monday wraps past the weekend at offset 7-2+0 = 5, the
    // same weekday counts a full week, so the minimum is 5.
    let due = Timestamp::new(A_WEDNESDAY, 9 * 3600);
    let next = next_due(due, &vec![Weekday::Mon, Weekday::Wed], Weekday::Wed);
    assert_eq!(next.days, A_WEDNESDAY + 5);
    assert_eq!(next.secs, 9 * 3600);
}

#[test]
fn friday_with_monday_evaluated_tuesday_advances_six_days() {
    // due Friday 09:00, recurring {Monday}, evaluated on a Tuesday: the
    // target lies behind the reference, offset 7-1+0 = 6, applied to the
    // stored due date.
    let due = Timestamp::new(A_FRIDAY, 9 * 3600);
    let next = next_due(due, &vec![Weekday::Mon], Weekday::Tue);
    assert_eq!(next.days, A_FRIDAY + 6);
    assert_eq!(next.secs, 9 * 3600);
}

#[test]
fn same_weekday_advances_a_full_week() {
    let due = Timestamp::new(A_WEDNESDAY, 10 * 3600 + 30 * 60);
    let next = next_due(due, &vec![Weekday::Wed], Weekday::Wed);
    assert_eq!(next.days, A_WEDNESDAY + 7);
    assert_eq!(next.secs, 10 * 3600 + 30 * 60);
}

#[test]
fn minimum_offset_wins_over_several_weekdays() {
    // evaluated on Wednesday (index 2): Thursday is 1 day away, Sunday 4,
    // Monday 5 — Thursday wins.
    let due = Timestamp::new(A_WEDNESDAY, 0);
    let next = next_due(due, &vec![Weekday::Mon, Weekday::Sun, Weekday::Thu], Weekday::Wed);
    assert_eq!(next.days, A_WEDNESDAY + 1);
}

#[test]
fn repeat_on_advances_and_clears_completion() {
    let due = Timestamp::new(A_WEDNESDAY, 9 * 3600);
    let mut t = Task::new(
        "standup",
        "weekly",
        Some(due),
        15,
        None,
        Some(vec![Weekday::Mon, Weekday::Wed]),
        None,
    )
    .unwrap();
    t.set_done(true);
    assert!(t.repeat_on(Weekday::Wed));
    assert!(!t.complete());
    let new_due = t.get_due_date().unwrap();
    assert_eq!(new_due.days, A_WEDNESDAY + 5);
    assert_eq!(new_due.secs, 9 * 3600);
}

#[test]
fn task_without_recurrence_does_not_repeat() {
    let due = Timestamp::new(A_WEDNESDAY, 0);
    let mut t = Task::new("once", "", Some(due), 0, None, None, None).unwrap();
    assert!(!t.repeat_on(Weekday::Mon));
    assert_eq!(t.get_due_date().unwrap().days, A_WEDNESDAY);
}

#[test]
fn recurrence_without_due_date_is_rejected() {
    let r = Task::new("bad", "", None, 0, None, Some(vec![Weekday::Mon]), None);
    assert_eq!(r.err(), Some(TodoError::InvalidRecurrence));
}

#[test]
fn recurrence_with_no_weekdays_is_rejected() {
    let due = Timestamp::new(A_WEDNESDAY, 0);
    let r = Task::new("bad", "", Some(due), 0, None, Some(vec![]), None);
    assert_eq!(r.err(), Some(TodoError::InvalidRecurrence));
}

#[test]
fn timestamp_order_is_day_major() {
    let a = Timestamp::new(10, 86_399);
    let b = Timestamp::new(11, 0);
    assert!(a.lt(b));
    assert!(a.le(b));
    assert!(!b.le(a));
    assert!(a.le(a));
    assert!(!a.lt(a));
}

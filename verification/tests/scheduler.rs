use desktopper::scheduler::{overdue_fire, repeat_fire, RepeatFire};
use desktopper::stamp::{Timestamp, Weekday};
use desktopper::tasks::Task;
use desktopper::todo::ToDo;
use desktopper::CompletionStatus;

// Day 700_003 of the proleptic Gregorian count is a Wednesday.
const A_WEDNESDAY: i32 = 700_003;

#[test]
fn fired_timer_marks_unfinished_task_overdue_exactly_once() {
    // the task is added due in the near future, so insertion does not mark
    // it; when the timer fires after the due date, it lands in the overdue
    // list exactly once even if a second timer fires too.
    let now = Timestamp::new(700_000, 1000);
    let due = Timestamp::new(700_000, 1001);
    let mut todo = ToDo::new();
    let t = Task::new("soon", "", Some(due), 0, None, None, None).unwrap();
    let id = t.get_id();
    todo.add_task_at(t, now);
    assert!(todo.get_overdue().is_empty());
    overdue_fire(&mut todo, id);
    overdue_fire(&mut todo, id);
    let overdue = todo.get_overdue();
    assert_eq!(overdue.len(), 1);
    assert_eq!(overdue[0].get_id(), id);
}

#[test]
fn removing_the_task_before_the_timer_fires_keeps_it_out_of_overdue() {
    let now = Timestamp::new(700_000, 1000);
    let due = Timestamp::new(700_000, 1001);
    let mut todo = ToDo::new();
    let t = Task::new("soon", "", Some(due), 0, None, None, None).unwrap();
    let id = t.get_id();
    todo.add_task_at(t, now);
    todo.remove_task(id).unwrap();
    // the dangling timer fires against the missing task and does nothing
    overdue_fire(&mut todo, id);
    assert!(todo.get_overdue().is_empty());
    assert_eq!(todo.num_tasks(), 0);
}

#[test]
fn fired_timer_leaves_a_finished_task_alone() {
    let now = Timestamp::new(700_000, 1000);
    let due = Timestamp::new(700_000, 1001);
    let mut todo = ToDo::new();
    let t = Task::new("done in time", "", Some(due), 0, None, None, None).unwrap();
    let id = t.get_id();
    todo.add_task_at(t, now);
    todo.mark_finished(id, Some(true)).unwrap();
    overdue_fire(&mut todo, id);
    assert!(todo.get_overdue().is_empty());
}

#[test]
fn regeneration_cycle_advances_a_week_and_clears_completion() {
    // a task due now, recurring on its own weekday: one cycle moves the
    // due date exactly seven days and clears the flag even though the task
    // had been marked finished before the cycle fired.
    let due = Timestamp::new(A_WEDNESDAY, 9 * 3600);
    let mut todo = ToDo::new();
    let t = Task::new("weekly", "", Some(due), 0, None, Some(vec![Weekday::Wed]), None).unwrap();
    let id = t.get_id();
    todo.add_task_at(t, due);
    todo.mark_finished(id, Some(true)).unwrap();
    let fired = repeat_fire(&mut todo, id, Weekday::Wed);
    let expected = Timestamp::new(A_WEDNESDAY + 7, 9 * 3600);
    assert_eq!(fired, RepeatFire::Advanced(expected));
    let back = todo.get_task(id).unwrap();
    assert_eq!(back.get_due_date(), Some(expected));
    assert!(!back.complete());
}

#[test]
fn regeneration_loop_ends_when_the_task_is_gone() {
    let mut todo = ToDo::new();
    assert_eq!(repeat_fire(&mut todo, 5, Weekday::Mon), RepeatFire::Gone);
}

#[test]
fn regeneration_reports_a_task_that_does_not_recur() {
    let mut todo = ToDo::new();
    let t = Task::new("plain", "", None, 0, None, None, None).unwrap();
    let id = t.get_id();
    todo.add_task(t);
    assert_eq!(repeat_fire(&mut todo, id, Weekday::Mon), RepeatFire::NoRepeat);
}

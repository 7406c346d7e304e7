use desktopper::screen::{select_next, select_prev, split_duration_ms, task_screen_step, NavLens, TaskNav, TaskScreenAction, TaskScreenState};
use desktopper::Priority;
use std::str::FromStr;

#[test]
fn view_codes_round_trip() {
    for code in 0..6usize {
        assert_eq!(TaskScreenState::get(code).val(), code);
    }
    // the flag is read modulo the number of views
    assert_eq!(TaskScreenState::get(6).val(), 0);
    assert_eq!(TaskScreenState::get(11).val(), 5);
}

#[test]
fn selection_wraps_in_both_directions() {
    assert_eq!(select_prev(0, 4), 3);
    assert_eq!(select_prev(2, 4), 1);
    assert_eq!(select_next(3, 4), 0);
    assert_eq!(select_next(1, 4), 2);
}

#[test]
fn durations_split_into_clock_fields() {
    assert_eq!(split_duration_ms(0), (0, 0, 0));
    assert_eq!(split_duration_ms(59_000), (0, 0, 59));
    assert_eq!(split_duration_ms(3_725_000), (1, 2, 5));
    assert_eq!(split_duration_ms(86_399_999), (23, 59, 59));
}

#[test]
fn priority_ranks_order_low_to_extreme() {
    assert_eq!(Priority::Low.val(), 1);
    assert_eq!(Priority::Medium.val(), 2);
    assert_eq!(Priority::High.val(), 3);
    assert_eq!(Priority::Extreme.val(), 4);
    assert!(Priority::Low.val() < Priority::Medium.val());
    assert!(Priority::High.val() < Priority::Extreme.val());
}

#[test]
fn priority_names_parse_without_regard_to_case() {
    assert_eq!(Priority::from_str("low"), Ok(Priority::Low));
    assert_eq!(Priority::from_str("HIGH"), Ok(Priority::High));
    assert_eq!(Priority::from_str("Medium"), Ok(Priority::Medium));
    assert_eq!(Priority::from_str("mid"), Ok(Priority::Medium));
    assert_eq!(Priority::from_str("Extreme"), Ok(Priority::Extreme));
    assert_eq!(Priority::from_str("urgent"), Err("Invalid Priority"));
}

#[test]
fn cycle_button_always_reloads_the_root_view() {
    let lens = NavLens { categories: 2, category_tasks: 3, all: 4, overdue: 1 };
    let nav = TaskNav { flag: 3, idx: 2 };
    let (after, action) = task_screen_step(nav, true, false, true, false, lens);
    assert_eq!(action, TaskScreenAction::ReloadRoot);
    assert_eq!(after, TaskNav { flag: 0, idx: 0 });
}

#[test]
fn root_view_enters_the_chosen_list() {
    let lens = NavLens { categories: 2, category_tasks: 3, all: 4, overdue: 1 };
    let root = TaskNav { flag: 0, idx: 1 };
    let (after, action) = task_screen_step(root, false, false, true, false, lens);
    assert_eq!(action, TaskScreenAction::Browse);
    assert_eq!(after, TaskNav { flag: 1, idx: 0 });
    let (after, _) = task_screen_step(TaskNav { flag: 0, idx: 2 }, false, false, true, false, lens);
    assert_eq!(after.flag, 4);
    let (after, _) = task_screen_step(TaskNav { flag: 0, idx: 0 }, false, false, true, false, lens);
    assert_eq!(after.flag, 3);
}

#[test]
fn list_views_pick_the_entry_under_the_cursor() {
    let lens = NavLens { categories: 2, category_tasks: 3, all: 4, overdue: 1 };
    let (after, action) =
        task_screen_step(TaskNav { flag: 1, idx: 1 }, false, false, true, false, lens);
    assert_eq!(action, TaskScreenAction::PickCategory(1));
    assert_eq!(after, TaskNav { flag: 2, idx: 0 });
    let (after, action) =
        task_screen_step(TaskNav { flag: 3, idx: 2 }, false, false, true, false, lens);
    assert_eq!(action, TaskScreenAction::PickTask(2));
    assert_eq!(after, TaskNav { flag: 5, idx: 0 });
}

#[test]
fn list_views_wrap_the_cursor() {
    let lens = NavLens { categories: 2, category_tasks: 3, all: 4, overdue: 1 };
    // back from the first entry lands on the last
    let (after, action) =
        task_screen_step(TaskNav { flag: 3, idx: 0 }, false, true, false, false, lens);
    assert_eq!(action, TaskScreenAction::Browse);
    assert_eq!(after, TaskNav { flag: 3, idx: 3 });
    // forward from the last wraps to the first
    let (after, _) = task_screen_step(TaskNav { flag: 3, idx: 3 }, false, false, false, true, lens);
    assert_eq!(after, TaskNav { flag: 3, idx: 0 });
}

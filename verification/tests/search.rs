use desktopper::search::{contains_sub, search, SearchQuery};
use desktopper::stamp::Timestamp;
use desktopper::tasks::Task;
use desktopper::todo::ToDo;
use desktopper::Priority;

#[test]
fn substring_search_finds_needles() {
    assert!(contains_sub("write the report", "the"));
    assert!(contains_sub("write the report", ""));
    assert!(contains_sub("abc", "abc"));
    assert!(!contains_sub("abc", "abcd"));
    assert!(!contains_sub("write the report", "thee"));
    assert!(contains_sub("aaab", "aab"));
}

fn store_with_three() -> (ToDo, u128, u128, u128) {
    let now = Timestamp::new(700_000, 0);
    let a = Task::build(
        "buy milk",
        "from the shop",
        Some(Timestamp::new(700_001, 0)),
        10,
        Some(Priority::High),
        None,
        Some("errands".to_string()),
        now,
        1,
    )
    .unwrap();
    let b = Task::build(
        "file taxes",
        "yearly pain",
        Some(Timestamp::new(700_010, 0)),
        120,
        Some(Priority::Low),
        None,
        None,
        now,
        2,
    )
    .unwrap();
    let c = Task::build("idle", "no schedule", None, 0, None, None, None, now, 3).unwrap();
    let mut todo = ToDo::new();
    todo.add_task_at(a, now);
    todo.add_task_at(b, now);
    todo.add_task_at(c, now);
    (todo, 1, 2, 3)
}

fn ids_of(found: &[Task]) -> Vec<u128> {
    found.iter().map(|t| t.get_id()).collect()
}

#[test]
fn search_by_id_returns_just_that_task() {
    let (todo, a, _, _) = store_with_three();
    let q = SearchQuery::empty();
    let found = search(&todo, Some(a), &q);
    assert_eq!(ids_of(&found), vec![a]);
    assert!(search(&todo, Some(999), &q).is_empty());
}

#[test]
fn empty_query_returns_everything() {
    let (todo, a, b, c) = store_with_three();
    let found = search(&todo, None, &SearchQuery::empty());
    assert_eq!(ids_of(&found), vec![a, b, c]);
}

#[test]
fn name_filter_matches_substrings() {
    let (todo, a, _, _) = store_with_three();
    let mut q = SearchQuery::empty();
    q.name = Some("milk".to_string());
    assert_eq!(ids_of(&search(&todo, None, &q)), vec![a]);
}

#[test]
fn due_date_lower_bound_excludes_tasks_without_a_due_date() {
    let (todo, _, b, _) = store_with_three();
    let mut q = SearchQuery::empty();
    q.due_date_start = Some(Timestamp::new(700_002, 0));
    assert_eq!(ids_of(&search(&todo, None, &q)), vec![b]);
}

#[test]
fn due_date_upper_bound_lets_undated_tasks_pass() {
    let (todo, a, _, c) = store_with_three();
    let mut q = SearchQuery::empty();
    q.due_date_end = Some(Timestamp::new(700_005, 0));
    assert_eq!(ids_of(&search(&todo, None, &q)), vec![a, c]);
}

#[test]
fn priority_lower_bound_excludes_unset_priorities() {
    let (todo, a, _, _) = store_with_three();
    let mut q = SearchQuery::empty();
    q.priority_low = Some(Priority::Medium);
    assert_eq!(ids_of(&search(&todo, None, &q)), vec![a]);
}

#[test]
fn priority_upper_bound_lets_unset_priorities_pass() {
    let (todo, _, b, c) = store_with_three();
    let mut q = SearchQuery::empty();
    q.priority_high = Some(Priority::Medium);
    assert_eq!(ids_of(&search(&todo, None, &q)), vec![b, c]);
}

#[test]
fn complete_false_filter_keeps_everything() {
    let (mut todo, a, b, c) = store_with_three();
    todo.mark_finished(a, Some(true)).unwrap();
    let mut q = SearchQuery::empty();
    q.complete = Some(false);
    assert_eq!(ids_of(&search(&todo, None, &q)), vec![a, b, c]);
    q.complete = Some(true);
    assert_eq!(ids_of(&search(&todo, None, &q)), vec![a]);
}

#[test]
fn empty_category_string_means_the_uncategorized_bucket() {
    let (todo, a, b, c) = store_with_three();
    let mut q = SearchQuery::empty();
    q.category = Some(String::new());
    assert_eq!(ids_of(&search(&todo, None, &q)), vec![b, c]);
    q.category = Some("errands".to_string());
    assert_eq!(ids_of(&search(&todo, None, &q)), vec![a]);
}

#[test]
fn est_time_range_filters() {
    let (todo, a, b, _) = store_with_three();
    let mut q = SearchQuery::empty();
    q.est_time_low = Some(5);
    q.est_time_high = Some(200);
    assert_eq!(ids_of(&search(&todo, None, &q)), vec![a, b]);
    q.est_time_high = Some(20);
    assert_eq!(ids_of(&search(&todo, None, &q)), vec![a]);
}

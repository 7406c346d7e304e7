use desktopper::tasks::Task;
use desktopper::todo::ToDo;
use desktopper::stamp::Timestamp;
use desktopper::{CompletionStatus, EstTime, TodoError};

fn plain(name: &str, category: Option<String>) -> Task {
    Task::new(name, name, None, 0, None, None, category).unwrap()
}

#[test]
fn test_from_vec() {
    let task_a = Task::new(
        "Test1",
        "Test1",
        None,
        0,
        None,
        None,
        Some("testing".to_string()),
    )
    .unwrap();
    let task_b = Task::new(
        "Test2",
        "Test2",
        None,
        0,
        None,
        None,
        Some("testing".to_string()),
    )
    .unwrap();
    let task_c = Task::new(
        "Test3",
        "Test3",
        None,
        0,
        None,
        None,
        Some("testing_cat_2".to_string()),
    )
    .unwrap();
    let task_d = Task::new(
        "Test4",
        "Test4",
        None,
        0,
        None,
        None,
        Some("testing_cat_2".to_string()),
    )
    .unwrap();
    let test_vec = vec![
        task_a.clone(),
        task_b.clone(),
        task_c.clone(),
        task_d.clone(),
    ];
    let test_todo = ToDo::from_vec(test_vec);
    let mut ref_todo = ToDo::new();
    ref_todo.add_task(task_a);
    ref_todo.add_task(task_b);
    ref_todo.add_task(task_c);
    ref_todo.add_task(task_d);
    assert_eq!(test_todo, ref_todo);
}

#[test]
fn add_then_get() {
    let mut todo = ToDo::new();
    let t = plain("write report", Some("work".to_string()));
    let id = t.get_id();
    todo.add_task(t);
    assert_eq!(todo.num_tasks(), 1);
    let back = todo.get_task(id).expect("task should be stored");
    assert_eq!(back.get_name(), "write report".to_string());
    assert_eq!(back.get_id(), id);
    assert!(todo.get_task(12345).is_none());
}

#[test]
fn remove_unknown_id_yields_not_found_and_leaves_store_unchanged() {
    let mut todo = ToDo::new();
    let t = plain("a", None);
    let id = t.get_id();
    todo.add_task(t);
    let before_ids = todo.get_ids();
    let r = todo.remove_task(id.wrapping_add(1));
    assert_eq!(r.err(), Some(TodoError::NotFound));
    assert_eq!(todo.get_ids(), before_ids);
    assert_eq!(todo.num_tasks(), 1);
}

#[test]
fn remove_scrubs_category_and_overdue() {
    let mut todo = ToDo::new();
    let due = Timestamp::new(700_000, 9 * 3600);
    let t = Task::new("old", "past due", Some(due), 5, None, None, Some("x".to_string())).unwrap();
    let id = t.get_id();
    todo.add_task_at(t, Timestamp::new(700_001, 0));
    assert_eq!(todo.get_overdue().len(), 1);
    assert_eq!(todo.get_category_completion(Some("x".to_string())), (0, 1));
    let removed = todo.remove_task(id).unwrap();
    assert_eq!(removed.get_id(), id);
    assert_eq!(todo.get_overdue().len(), 0);
    // the bucket survives, empty
    assert_eq!(todo.get_category_completion(Some("x".to_string())), (0, 0));
    assert_eq!(todo.get_category(Some("x".to_string())).unwrap().len(), 0);
    assert_eq!(todo.num_tasks(), 0);
}

#[test]
fn category_completion_counts_finished_and_total() {
    let mut todo = ToDo::new();
    let a = plain("a", Some("home".to_string()));
    let b = plain("b", Some("home".to_string()));
    let c = plain("c", Some("home".to_string()));
    let other = plain("d", None);
    let id_a = a.get_id();
    todo.add_task(a);
    todo.add_task(b);
    todo.add_task(c);
    todo.add_task(other);
    todo.mark_finished(id_a, Some(true)).unwrap();
    assert_eq!(todo.get_category_completion(Some("home".to_string())), (1, 3));
    assert_eq!(todo.get_category_completion(None), (0, 1));
    // a label with no bucket
    assert_eq!(todo.get_category_completion(Some("nothing".to_string())), (0, 0));
}

#[test]
fn unknown_category_is_distinct_from_empty_bucket() {
    let mut todo = ToDo::new();
    assert!(todo.get_category(Some("ghost-town".to_string())).is_none());
    let t = plain("a", Some("seen".to_string()));
    let id = t.get_id();
    todo.add_task(t);
    todo.remove_task(id).unwrap();
    let left = todo.get_category(Some("seen".to_string()));
    assert!(left.is_some());
    assert!(left.unwrap().is_empty());
}

#[test]
fn mark_overdue_twice_leaves_one_entry() {
    let mut todo = ToDo::new();
    let t = plain("a", None);
    let id = t.get_id();
    todo.add_task(t);
    todo.set_overdue(id).unwrap();
    todo.set_overdue(id).unwrap();
    let overdue = todo.get_overdue();
    assert_eq!(overdue.len(), 1);
    assert_eq!(overdue[0].get_id(), id);
    assert_eq!(todo.set_overdue(999), Err(TodoError::NotFound));
}

#[test]
fn mark_finished_flips_flag_and_none_clears_it() {
    let mut todo = ToDo::new();
    let t = plain("a", None);
    let id = t.get_id();
    todo.add_task(t);
    assert!(!todo.complete());
    todo.mark_finished(id, Some(true)).unwrap();
    assert!(todo.complete());
    assert_eq!(todo.completion_status(), (1, 1));
    todo.mark_finished(id, None).unwrap();
    assert!(!todo.get_task(id).unwrap().complete());
    assert_eq!(todo.completion_status(), (0, 1));
    assert_eq!(todo.mark_finished(424242, Some(true)), Err(TodoError::NotFound));
}

#[test]
fn est_time_sums_estimates() {
    let mut todo = ToDo::new();
    assert_eq!(todo.est_time(), 0);
    todo.add_task(Task::new("a", "", None, 30, None, None, None).unwrap());
    todo.add_task(Task::new("b", "", None, 12, None, None, None).unwrap());
    assert_eq!(todo.est_time(), 42);
}

#[test]
fn est_time_saturates_instead_of_overflowing() {
    let mut todo = ToDo::new();
    todo.add_task(Task::new("a", "", None, u32::MAX, None, None, None).unwrap());
    todo.add_task(Task::new("b", "", None, 10, None, None, None).unwrap());
    assert_eq!(todo.est_time(), u32::MAX);
}

#[test]
fn get_categories_lists_each_label_once() {
    let mut todo = ToDo::new();
    todo.add_task(plain("a", Some("one".to_string())));
    todo.add_task(plain("b", Some("one".to_string())));
    todo.add_task(plain("c", Some("two".to_string())));
    todo.add_task(plain("d", None));
    let mut cats = todo.get_categories();
    cats.sort();
    assert_eq!(cats, vec!["one".to_string(), "two".to_string()]);
}

#[test]
fn adding_same_id_again_replaces_the_task() {
    let mut todo = ToDo::new();
    let now = Timestamp::new(700_000, 0);
    let first = Task::build("a", "", None, 1, None, None, None, now, 7).unwrap();
    let second = Task::build("b", "", None, 2, None, None, Some("c".to_string()), now, 7).unwrap();
    todo.add_task_at(first, now);
    todo.add_task_at(second, now);
    assert_eq!(todo.num_tasks(), 1);
    assert_eq!(todo.get_task(7).unwrap().get_name(), "b".to_string());
    assert_eq!(todo.get_category_completion(Some("c".to_string())), (0, 1));
}

#[test]
fn from_map_rejects_mismatched_pairs() {
    let now = Timestamp::new(700_000, 0);
    let t1 = Task::build("a", "", None, 0, None, None, None, now, 1).unwrap();
    let t2 = Task::build("b", "", None, 0, None, None, None, now, 2).unwrap();
    let ok = ToDo::from_map(vec![(1, t1.clone()), (2, t2.clone())]);
    assert_eq!(ok.unwrap().num_tasks(), 2);
    let bad = ToDo::from_map(vec![(1, t1), (9, t2)]);
    assert_eq!(bad.err(), Some(TodoError::IdMismatch));
}

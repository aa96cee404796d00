use tasklist::ops::{add_task, close_task, edit_task, list_tasks, remove_task};
use tasklist::{Task, TaskFile};

fn store_with(descriptions: &[(&str, Option<Vec<u32>>)]) -> TaskFile {
    let mut tf = TaskFile::new();
    for (d, deps) in descriptions {
        add_task(&mut tf, &d.to_string(), deps);
    }
    tf
}

fn ids(tf: &TaskFile) -> Vec<u32> {
    tf.tasks.iter().map(|t| t.id).collect()
}

#[test]
fn fresh_store_is_empty() {
    let tf = TaskFile::new();
    assert_eq!(tf.version, 1);
    assert_eq!(tf.counter, 0);
    assert!(tf.tasks.is_empty());
}

#[test]
fn add_assigns_counter_and_copies_fields() {
    let mut tf = TaskFile::new();
    add_task(&mut tf, &"write report".to_string(), &Some(vec![7, 9]));
    assert_eq!(tf.counter, 1);
    assert_eq!(tf.tasks.len(), 1);
    assert_eq!(tf.tasks[0].id, 0);
    assert_eq!(tf.tasks[0].description, "write report");
    assert_eq!(tf.tasks[0].depends, Some(vec![7, 9]));
    add_task(&mut tf, &"second".to_string(), &None);
    assert_eq!(tf.tasks[1].depends, None);
}

#[test]
fn ids_count_up_across_removals() {
    let mut tf = store_with(&[("a", None), ("b", None), ("c", None)]);
    assert_eq!(ids(&tf), vec![0, 1, 2]);
    assert!(remove_task(&mut tf, &2));
    assert!(remove_task(&mut tf, &0));
    add_task(&mut tf, &"d".to_string(), &None);
    assert_eq!(ids(&tf), vec![1, 3]);
    assert_eq!(tf.counter, 4);
}

#[test]
fn add_at_largest_counter_below_limit() {
    let mut tf = TaskFile::new();
    tf.counter = u32::MAX - 1;
    add_task(&mut tf, &"last".to_string(), &None);
    assert_eq!(tf.tasks[0].id, u32::MAX - 1);
    assert_eq!(tf.counter, u32::MAX);
}

#[test]
fn task_for_id_finds_first_match() {
    let mut tf = store_with(&[("a", None), ("b", None)]);
    tf.tasks.push(Task { id: 1, description: "dup".to_string(), depends: None });
    assert_eq!(tf.position_of(1), Some(1));
    assert_eq!(tf.position_of(0), Some(0));
    assert_eq!(tf.position_of(5), None);
    assert_eq!(tf.task_for_id(&1).map(|t| t.description.clone()), Some("b".to_string()));
    assert!(tf.task_for_id(&5).is_none());
}

#[test]
fn task_for_id_changes_in_place() {
    let mut tf = store_with(&[("a", None), ("b", None)]);
    if let Some(t) = tf.task_for_id(&1) {
        t.description = "changed".to_string();
    }
    assert_eq!(tf.tasks[1].description, "changed");
    assert_eq!(tf.tasks[0].description, "a");
}

#[test]
fn edit_replaces_description_and_depends() {
    let mut tf = store_with(&[("a", Some(vec![1, 2])), ("b", None)]);
    assert!(edit_task(&mut tf, &0, &Some("new a".to_string()), &None));
    assert_eq!(tf.tasks[0].description, "new a");
    assert_eq!(tf.tasks[0].depends, Some(vec![1, 2]));
    assert!(edit_task(&mut tf, &0, &None, &Some(vec![5])));
    assert_eq!(tf.tasks[0].description, "new a");
    assert_eq!(tf.tasks[0].depends, Some(vec![5]));
    assert_eq!(tf.tasks[1].description, "b");
    assert_eq!(tf.counter, 2);
}

#[test]
fn edit_without_fields_changes_nothing() {
    let mut tf = store_with(&[("a", Some(vec![1])), ("b", None)]);
    assert!(edit_task(&mut tf, &0, &None, &None));
    assert_eq!(tf.tasks[0].description, "a");
    assert_eq!(tf.tasks[0].depends, Some(vec![1]));
    assert_eq!(tf.counter, 2);
    assert_eq!(ids(&tf), vec![0, 1]);
}

#[test]
fn edit_remove_close_of_unknown_id_report_not_found() {
    let mut tf = store_with(&[("a", Some(vec![1])), ("b", None)]);
    assert!(!edit_task(&mut tf, &9, &Some("x".to_string()), &Some(vec![])));
    assert!(!remove_task(&mut tf, &9));
    assert!(!close_task(&mut tf, &9));
    assert_eq!(ids(&tf), vec![0, 1]);
    assert_eq!(tf.tasks[0].description, "a");
    assert_eq!(tf.tasks[0].depends, Some(vec![1]));
    assert_eq!(tf.counter, 2);
}

#[test]
fn remove_cascades_into_depends() {
    // task 0 depends on task 1
    let mut tf = store_with(&[("a", Some(vec![1])), ("b", None), ("c", Some(vec![3, 1, 4, 1]))]);
    assert!(remove_task(&mut tf, &1));
    assert_eq!(ids(&tf), vec![0, 2]);
    assert_eq!(tf.tasks[0].depends, Some(vec![]));
    assert_eq!(tf.tasks[1].depends, Some(vec![3, 4]));
    assert_eq!(tf.counter, 3);
}

#[test]
fn close_is_remove() {
    let mut tf = store_with(&[("a", Some(vec![1])), ("b", None)]);
    assert!(close_task(&mut tf, &1));
    assert_eq!(ids(&tf), vec![0]);
    assert_eq!(tf.tasks[0].depends, Some(vec![]));
}

#[test]
fn blocked_only_by_existing_tasks() {
    let tf = store_with(&[("a", Some(vec![1])), ("b", None), ("c", Some(vec![42])), ("d", Some(vec![]))]);
    assert!(tf.tasks[0].has_dependencies(&tf));
    assert!(!tf.tasks[1].has_dependencies(&tf));
    assert!(!tf.tasks[2].has_dependencies(&tf));
    assert!(!tf.tasks[3].has_dependencies(&tf));
}

#[test]
fn blocked_until_dependency_removed() {
    let mut tf = store_with(&[("a", Some(vec![1])), ("b", None)]);
    let listed = list_tasks(&tf);
    assert_eq!(listed[1].task.id, 0);
    assert!(listed[1].blocked);
    assert!(remove_task(&mut tf, &1));
    let listed = list_tasks(&tf);
    assert_eq!(listed.len(), 1);
    assert_eq!(listed[0].task.id, 0);
    assert!(!listed[0].blocked);
}

#[test]
fn list_puts_unblocked_first_in_order() {
    // task 0 is blocked by task 2; tasks 1 and 2 are not blocked
    let tf = store_with(&[("bk", Some(vec![2])), ("u1", None), ("u2", Some(vec![99]))]);
    let listed = list_tasks(&tf);
    let order: Vec<(bool, u32, String)> =
        listed.iter().map(|e| (e.blocked, e.task.id, e.task.description.clone())).collect();
    assert_eq!(
        order,
        vec![
            (false, 1, "u1".to_string()),
            (false, 2, "u2".to_string()),
            (true, 0, "bk".to_string()),
        ]
    );
    assert_eq!(listed[1].task.depends, Some(vec![99]));
}

#[test]
fn list_of_empty_store_is_empty() {
    let tf = TaskFile::new();
    assert!(list_tasks(&tf).is_empty());
}

#[test]
fn list_keeps_store_unchanged() {
    let tf = store_with(&[("a", Some(vec![1])), ("b", None)]);
    let _ = list_tasks(&tf);
    assert_eq!(ids(&tf), vec![0, 1]);
    assert_eq!(tf.tasks[0].depends, Some(vec![1]));
}

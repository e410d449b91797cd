use todo_list::{Tasks, TodoError, TodoList};

const PREDECESSOR: &str = "vinh.test";

fn init_contract() -> TodoList {
    TodoList::default()
}

fn account() -> String {
    PREDECESSOR.to_string()
}

fn add_three(todo_list: &mut TodoList) {
    todo_list.add_task(account(), "task 0".to_string());
    todo_list.add_task(account(), "task 1".to_string());
    todo_list.add_task(account(), "task 2".to_string());
}

#[test]
fn get_empty_todo_list() {
    let todo_list = init_contract();
    let get_task = todo_list.get_todo_list(account());
    println!("{:?}", get_task);
    assert!(get_task.completed.is_empty());
    assert!(get_task.in_progress.is_empty());
}

#[test]
fn add_task() {
    let mut todo_list = init_contract();
    let task = "pass add task".to_string();
    todo_list.add_task(account(), task.clone());
    let tasks = todo_list.get_todo_list(account());
    let progress_task = tasks
        .in_progress
        .get(0)
        .cloned()
        .unwrap_or_else(|| "hello".to_string());

    assert_eq!(progress_task, task);
}

#[test]
fn update_task() {
    let mut todo_list = init_contract();
    add_three(&mut todo_list);

    let updated_task = "updated task 1".to_string();
    todo_list
        .update_task(account(), 1, updated_task.clone())
        .unwrap();

    let tasks = todo_list.get_todo_list(account());
    let updated_second_task = tasks.in_progress.get(1).cloned().unwrap();

    assert_eq!(updated_second_task, updated_task);
}

#[test]
fn delete_task() {
    let mut todo_list = init_contract();
    add_three(&mut todo_list);

    todo_list.delete_task(account(), 1).unwrap();

    let tasks = todo_list.get_todo_list(account());
    let progress_task = tasks.in_progress.get(1).cloned().unwrap();

    assert_eq!(progress_task, "task 2".to_string());
    assert_eq!(tasks.in_progress.len(), 2);
}

#[test]
fn check_completed_task() {
    let mut todo_list = init_contract();
    add_three(&mut todo_list);

    todo_list.check_completed_task(account(), 1).unwrap();

    let tasks = todo_list.get_todo_list(account());
    let completed_task = tasks.completed.get(0).cloned().unwrap();
    assert_eq!(tasks.in_progress.len(), 2);
    assert_eq!(completed_task, "task 1".to_string());
    assert_eq!(tasks.completed.len(), 1);
}

#[test]
fn clear_completed_tasks() {
    let mut todo_list = init_contract();
    add_three(&mut todo_list);

    todo_list.clear_all_completed_tasks(account()).unwrap();

    let tasks = todo_list.get_todo_list(account());
    assert_eq!(tasks.completed.len(), 0);
}

#[test]
fn add_then_read_shows_last() {
    let mut todo_list = init_contract();
    todo_list.add_task(account(), "first".to_string());
    todo_list.add_task(account(), "second".to_string());
    let tasks = todo_list.get_todo_list(account());
    assert_eq!(tasks.in_progress.last().cloned().unwrap(), "second".to_string());
    assert_eq!(tasks.in_progress.len(), 2);
    assert!(tasks.completed.is_empty());
}

#[test]
fn update_task_full_list() {
    let mut todo_list = init_contract();
    add_three(&mut todo_list);
    let prior = todo_list
        .update_task(account(), 1, "updated task 1".to_string())
        .unwrap();
    assert_eq!(prior, "task 1".to_string());
    let tasks = todo_list.get_todo_list(account());
    assert_eq!(
        tasks.in_progress,
        vec![
            "task 0".to_string(),
            "updated task 1".to_string(),
            "task 2".to_string()
        ]
    );
}

#[test]
fn delete_task_swap_removes() {
    let mut todo_list = init_contract();
    add_three(&mut todo_list);
    let removed = todo_list.delete_task(account(), 1).unwrap();
    assert_eq!(removed, "task 1".to_string());
    let tasks = todo_list.get_todo_list(account());
    assert_eq!(
        tasks.in_progress,
        vec!["task 0".to_string(), "task 2".to_string()]
    );
}

#[test]
fn delete_last_task_keeps_prefix() {
    let mut todo_list = init_contract();
    add_three(&mut todo_list);
    let removed = todo_list.delete_task(account(), 2).unwrap();
    assert_eq!(removed, "task 2".to_string());
    let tasks = todo_list.get_todo_list(account());
    assert_eq!(
        tasks.in_progress,
        vec!["task 0".to_string(), "task 1".to_string()]
    );
}

#[test]
fn check_completed_task_moves_text() {
    let mut todo_list = init_contract();
    add_three(&mut todo_list);
    let moved = todo_list.check_completed_task(account(), 1).unwrap();
    assert_eq!(moved, "task 1".to_string());
    let tasks = todo_list.get_todo_list(account());
    assert_eq!(
        tasks.in_progress,
        vec!["task 0".to_string(), "task 2".to_string()]
    );
    assert_eq!(tasks.completed, vec!["task 1".to_string()]);
}

#[test]
fn clear_completed_is_idempotent() {
    let mut todo_list = init_contract();
    add_three(&mut todo_list);
    todo_list.check_completed_task(account(), 0).unwrap();
    todo_list.clear_all_completed_tasks(account()).unwrap();
    let once = todo_list.get_todo_list(account());
    todo_list.clear_all_completed_tasks(account()).unwrap();
    let twice = todo_list.get_todo_list(account());
    assert!(once.completed.is_empty());
    assert!(twice.completed.is_empty());
    assert_eq!(once.in_progress, twice.in_progress);
    assert_eq!(once.in_progress.len(), 2);
}

#[test]
fn update_task_index_out_of_range() {
    let mut todo_list = init_contract();
    todo_list.add_task(account(), "only".to_string());
    let err = todo_list
        .update_task(account(), 5, "x".to_string())
        .unwrap_err();
    assert_eq!(err, TodoError::IndexOutOfRange);
    let tasks = todo_list.get_todo_list(account());
    assert_eq!(tasks.in_progress, vec!["only".to_string()]);
}

#[test]
fn delete_task_index_out_of_range() {
    let mut todo_list = init_contract();
    todo_list.add_task(account(), "only".to_string());
    let err = todo_list.delete_task(account(), 1).unwrap_err();
    assert_eq!(err, TodoError::IndexOutOfRange);
}

#[test]
fn check_completed_task_index_out_of_range() {
    let mut todo_list = init_contract();
    todo_list.add_task(account(), "only".to_string());
    let err = todo_list.check_completed_task(account(), 1).unwrap_err();
    assert_eq!(err, TodoError::IndexOutOfRange);
}

#[test]
fn update_task_account_not_found() {
    let mut todo_list = init_contract();
    let err = todo_list
        .update_task("nobody.test".to_string(), 0, "x".to_string())
        .unwrap_err();
    assert_eq!(err, TodoError::AccountNotFound);
}

#[test]
fn delete_task_account_not_found() {
    let mut todo_list = init_contract();
    let err = todo_list.delete_task("nobody.test".to_string(), 0).unwrap_err();
    assert_eq!(err, TodoError::AccountNotFound);
}

#[test]
fn check_completed_task_account_not_found() {
    let mut todo_list = init_contract();
    let err = todo_list
        .check_completed_task("nobody.test".to_string(), 0)
        .unwrap_err();
    assert_eq!(err, TodoError::AccountNotFound);
}

#[test]
fn clear_completed_account_not_found() {
    let mut todo_list = init_contract();
    let err = todo_list
        .clear_all_completed_tasks("nobody.test".to_string())
        .unwrap_err();
    assert_eq!(err, TodoError::AccountNotFound);
}

#[test]
fn add_task_creates_record_lazily() {
    let mut todo_list = init_contract();
    todo_list.add_task("fresh.test".to_string(), "hello".to_string());
    let tasks = todo_list.get_todo_list("fresh.test".to_string());
    assert_eq!(tasks.in_progress, vec!["hello".to_string()]);
    assert!(tasks.completed.is_empty());
}

#[test]
fn accounts_are_independent() {
    let mut todo_list = init_contract();
    todo_list.add_task("alice.test".to_string(), "for alice".to_string());
    todo_list.add_task("bob.test".to_string(), "for bob".to_string());
    todo_list.delete_task("alice.test".to_string(), 0).unwrap();
    let alice = todo_list.get_todo_list("alice.test".to_string());
    let bob = todo_list.get_todo_list("bob.test".to_string());
    assert!(alice.in_progress.is_empty());
    assert_eq!(bob.in_progress, vec!["for bob".to_string()]);
}

#[test]
fn tasks_record_operations() {
    let mut tasks = Tasks::new();
    tasks.add("a".to_string());
    tasks.add("b".to_string());
    tasks.add("c".to_string());
    let prior = tasks.update(0, "a2".to_string()).unwrap();
    assert_eq!(prior, "a".to_string());
    let moved = tasks.complete(0).unwrap();
    assert_eq!(moved, "a2".to_string());
    let removed = tasks.delete(0).unwrap();
    assert_eq!(removed, "c".to_string());
    let view = tasks.to_view();
    assert_eq!(view.in_progress, vec!["b".to_string()]);
    assert_eq!(view.completed, vec!["a2".to_string()]);
    tasks.clear_completed();
    let view = tasks.to_view();
    assert_eq!(view.in_progress, vec!["b".to_string()]);
    assert!(view.completed.is_empty());
}

#[test]
fn tasks_record_index_errors() {
    let mut tasks = Tasks::new();
    assert_eq!(tasks.update(0, "x".to_string()), Err(TodoError::IndexOutOfRange));
    assert_eq!(tasks.delete(0), Err(TodoError::IndexOutOfRange));
    assert_eq!(tasks.complete(0), Err(TodoError::IndexOutOfRange));
}

#[test]
fn read_never_creates_record() {
    let mut todo_list = init_contract();
    let _ = todo_list.get_todo_list("ghost.test".to_string());
    let err = todo_list
        .clear_all_completed_tasks("ghost.test".to_string())
        .unwrap_err();
    assert_eq!(err, TodoError::AccountNotFound);
}

use tasklist::handler::{apply_command, Command};
use tasklist::render::{render_line, render_list};
use tasklist::store::{add_task, complete_task, delete_task};
use tasklist::task::Task;
use tasklist::writer::serialize_tasks;

fn task(id: u32, title: &str, completed: bool) -> Task {
    Task { id, title: String::from(title), completed }
}

fn same_task(t: &Task, id: u32, title: &str, completed: bool) -> bool {
    t.id == id && t.title == title && t.completed == completed
}

#[test]
fn nth_add_assigns_sequential_ids() {
    let mut tasks: Vec<Task> = Vec::new();
    add_task(&mut tasks, String::from("first"));
    add_task(&mut tasks, String::from("second"));
    add_task(&mut tasks, String::from("third"));
    assert_eq!(tasks.len(), 3);
    assert!(same_task(&tasks[0], 1, "first", false));
    assert!(same_task(&tasks[1], 2, "second", false));
    assert!(same_task(&tasks[2], 3, "third", false));
}

#[test]
fn complete_marks_only_first_match() {
    let mut tasks = vec![task(1, "a", false), task(2, "b", false), task(1, "c", false)];
    let found = complete_task(&mut tasks, 1);
    assert!(found);
    assert!(same_task(&tasks[0], 1, "a", true));
    assert!(same_task(&tasks[1], 2, "b", false));
    assert!(same_task(&tasks[2], 1, "c", false));
}

#[test]
fn complete_missing_id_changes_nothing() {
    let mut tasks = vec![task(1, "a", false), task(2, "b", true)];
    let before = serialize_tasks(&tasks);
    let found = complete_task(&mut tasks, 7);
    let after = serialize_tasks(&tasks);
    assert!(!found);
    assert_eq!(before, after);
}

#[test]
fn delete_removes_every_match_and_keeps_order() {
    let mut tasks = vec![
        task(1, "a", false),
        task(2, "b", false),
        task(1, "c", true),
        task(3, "d", false),
    ];
    let removed = delete_task(&mut tasks, 1);
    assert!(removed);
    assert_eq!(tasks.len(), 2);
    assert!(same_task(&tasks[0], 2, "b", false));
    assert!(same_task(&tasks[1], 3, "d", false));
}

#[test]
fn delete_missing_id_changes_nothing() {
    let mut tasks = vec![task(1, "a", false), task(2, "b", false)];
    let before = serialize_tasks(&tasks);
    let removed = delete_task(&mut tasks, 9);
    let after = serialize_tasks(&tasks);
    assert!(!removed);
    assert_eq!(tasks.len(), 2);
    assert_eq!(before, after);
}

#[test]
fn render_line_exact_text() {
    let open = render_line(&task(1, "Buy milk", false));
    assert_eq!(open, "[1] Buy milk - ✘");
    let done = render_line(&task(12, "Pay bills", true));
    assert_eq!(done, "[12] Pay bills - ✔");
}

#[test]
fn list_of_empty_store_is_the_empty_message() {
    let tasks: Vec<Task> = Vec::new();
    let lines = render_list(&tasks);
    assert_eq!(lines.len(), 1);
    assert_eq!(lines[0], "📭 No tasks available.");
}

#[test]
fn list_shows_one_line_per_task_in_order() {
    let tasks = vec![task(1, "a", true), task(2, "b", false)];
    let lines = render_list(&tasks);
    assert_eq!(lines, vec![String::from("[1] a - ✔"), String::from("[2] b - ✘")]);
}

#[test]
fn add_command_saves_and_reports() {
    let mut tasks: Vec<Task> = Vec::new();
    let (save, lines) = apply_command(&mut tasks, Command::Add { title: String::from("x") });
    assert!(save);
    assert_eq!(lines, vec![String::from("✅ Task added successfully!")]);
    assert!(same_task(&tasks[0], 1, "x", false));
}

#[test]
fn list_command_never_saves() {
    let mut tasks: Vec<Task> = Vec::new();
    let (save, lines) = apply_command(&mut tasks, Command::List);
    assert!(!save);
    assert_eq!(lines, vec![String::from("📭 No tasks available.")]);
}

#[test]
fn missing_id_commands_report_not_found_without_save() {
    let mut tasks = vec![task(1, "a", false)];
    let (save1, lines1) = apply_command(&mut tasks, Command::Complete { id: 5 });
    assert!(!save1);
    assert_eq!(lines1, vec![String::from("❌ Task not found.")]);
    let (save2, lines2) = apply_command(&mut tasks, Command::Delete { id: 5 });
    assert!(!save2);
    assert_eq!(lines2, vec![String::from("❌ Task not found.")]);
}

#[test]
fn scenario_add_add_complete_delete() {
    let mut tasks: Vec<Task> = Vec::new();
    add_task(&mut tasks, String::from("Buy milk"));
    assert_eq!(tasks.len(), 1);
    assert!(same_task(&tasks[0], 1, "Buy milk", false));
    add_task(&mut tasks, String::from("Pay bills"));
    assert_eq!(tasks.len(), 2);
    assert_eq!(tasks[0].id, 1);
    assert_eq!(tasks[1].id, 2);
    let found = complete_task(&mut tasks, 1);
    assert!(found);
    assert!(same_task(&tasks[0], 1, "Buy milk", true));
    assert!(same_task(&tasks[1], 2, "Pay bills", false));
    let removed = delete_task(&mut tasks, 2);
    assert!(removed);
    assert_eq!(tasks.len(), 1);
    assert!(same_task(&tasks[0], 1, "Buy milk", true));
}

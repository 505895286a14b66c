use flowstate::cli::task::TaskAction;
use flowstate::cli::{command_fits_exec, dispatch, Commands, Env, FileInfo, Output, Run};
use flowstate::db::Database;
use flowstate::models::{ScheduleType, Status, Task};
use flowstate::output::{task_line, task_lines};
use flowstate::time::Instant;
use flowstate::row::task_to_row;

fn run(db: &mut Database, cmd: Commands) -> Run {
    let env = Env::capture().unwrap();
    let file = FileInfo { file_name: None, size_bytes: None };
    assert!(command_fits_exec(&cmd, db, &env));
    dispatch(cmd, db, &env, &file)
}

fn task_cmd(action: TaskAction) -> Commands {
    Commands::Task { action }
}

fn add(title: &str, schedule_type: Option<&str>, due: Option<&str>, recur: Option<&str>, parent: Option<&str>, tags: &[&str]) -> Commands {
    task_cmd(TaskAction::Add {
        title: title.to_string(),
        schedule_type: schedule_type.map(|s| s.to_string()),
        due: due.map(|s| s.to_string()),
        recur: recur.map(|s| s.to_string()),
        parent: parent.map(|s| s.to_string()),
        tag: tags.iter().map(|s| s.to_string()).collect(),
        metadata: None,
        json: true,
    })
}

fn done(id: &str, no_auto_complete: bool) -> Commands {
    task_cmd(TaskAction::Done { id: id.to_string(), no_auto_complete, json: true })
}

fn get(id: &str) -> Commands {
    task_cmd(TaskAction::Get { id: id.to_string(), json: true })
}

fn list(status: Option<&str>, schedule_type: Option<&str>, tag: Option<&str>) -> Commands {
    task_cmd(TaskAction::List {
        status: status.map(|s| s.to_string()),
        schedule_type: schedule_type.map(|s| s.to_string()),
        tag: tag.map(|s| s.to_string()),
        due_before: None,
        json: true,
    })
}

fn the_task(r: &Run) -> &Task {
    assert!(r.result.is_ok(), "{:?}", r.result);
    match &r.outputs[0] {
        Output::Task(t) => t,
        other => panic!("expected a task, got {other:?}"),
    }
}

fn the_tasks(r: &Run) -> &Vec<Task> {
    assert!(r.result.is_ok(), "{:?}", r.result);
    match &r.outputs[0] {
        Output::Tasks(v) => v,
        other => panic!("expected tasks, got {other:?}"),
    }
}

fn messages(r: &Run) -> Vec<String> {
    r.outputs
        .iter()
        .filter_map(|o| match o {
            Output::Message(m) => Some(m.clone()),
            _ => None,
        })
        .collect()
}

fn error_text(r: &Run) -> String {
    match &r.result {
        Err(e) => e.message(),
        Ok(()) => panic!("expected a failure"),
    }
}

fn add_id(db: &mut Database, cmd: Commands) -> String {
    the_task(&run(db, cmd)).id.clone()
}

#[test]
fn test_add_and_get_task() {
    let mut db = Database::new();
    let r = run(&mut db, add("Write API docs", None, None, None, None, &[]));
    let task = the_task(&r);
    assert_eq!(task.title, "Write API docs");
    assert_eq!(task.status.as_str(), "pending");
    assert_eq!(task.schedule_type.as_str(), "once");
    let id = task.id.clone();
    assert!(id.starts_with("tk_"));
    assert_eq!(id.len(), 11); // "tk_" + 8 chars

    let r = run(&mut db, get(&id));
    assert!(the_task(&r).id.contains(&id));
}

#[test]
fn test_add_with_options() {
    let mut db = Database::new();
    let r = run(
        &mut db,
        add("Deploy v2", Some("deadline"), Some("2026-03-10T17:00:00Z"), None, None, &["project:flowstate", "agent:ci"]),
    );
    let task = the_task(&r);
    assert_eq!(task.schedule_type.as_str(), "deadline");
    assert_eq!(task.due_at, Some(Instant { secs: 1773162000, nanos: 0 }) /* 2026-03-10T17:00:00Z */);
    assert_eq!(task.tags, vec!["project:flowstate".to_string(), "agent:ci".to_string()]);
}

#[test]
fn test_deadline_requires_due() {
    let mut db = Database::new();
    let r = run(&mut db, add("No due date", Some("deadline"), None, None, None, &[]));
    assert!(error_text(&r).contains("deadline tasks require --due"));
}

#[test]
fn test_json_output_format() {
    let mut db = Database::new();
    let r = run(&mut db, add("Test task", None, None, None, None, &[]));
    let task = the_task(&r);
    // Every field that the JSON form shows is there.
    assert!(!task.id.is_empty());
    assert!(!task.title.is_empty());
    assert!(!task.status.as_str().is_empty());
    assert!(!task.schedule_type.as_str().is_empty());
    assert!(task.tags.is_empty());
    let row = task_to_row(task).unwrap();
    assert!(!row.created_at.is_empty());
    assert!(!row.updated_at.is_empty());
    assert_eq!(row.tags, "[]");
}

#[test]
fn test_list_with_filters() {
    let mut db = Database::new();
    let id_a = add_id(&mut db, add("Task A", None, None, None, None, &["alpha"]));
    add_id(&mut db, add("Task B", None, None, None, None, &["beta"]));

    assert!(run(&mut db, done(&id_a, false)).result.is_ok());

    let r = run(&mut db, list(Some("pending"), None, None));
    let tasks = the_tasks(&r);
    assert_eq!(tasks.len(), 1);
    assert_eq!(tasks[0].title, "Task B");

    let r = run(&mut db, list(None, None, Some("alpha")));
    let tasks = the_tasks(&r);
    assert_eq!(tasks.len(), 1);
    assert_eq!(tasks[0].title, "Task A");
}

#[test]
fn test_done_and_cancel() {
    let mut db = Database::new();
    let id = add_id(&mut db, add("To complete", None, None, None, None, &[]));

    let r = run(&mut db, done(&id, false));
    assert_eq!(the_task(&r).status.as_str(), "done");

    // Already done: a conflict, exit code 3
    let r = run(&mut db, done(&id, false));
    assert!(error_text(&r).contains("already done"));
    assert_eq!(r.result.as_ref().unwrap_err().exit_code(), 3);
}

#[test]
fn test_cancel() {
    let mut db = Database::new();
    let id = add_id(&mut db, add("To cancel", None, None, None, None, &[]));
    let r = run(&mut db, task_cmd(TaskAction::Cancel { id: id.clone(), json: true }));
    assert_eq!(the_task(&r).status.as_str(), "cancelled");
}

#[test]
fn test_auto_complete_parent() {
    let mut db = Database::new();
    let parent_id = add_id(&mut db, add("Parent task", None, None, None, None, &[]));
    let child1_id = add_id(&mut db, add("Child 1", None, None, None, Some(&parent_id), &[]));
    let child2_id = add_id(&mut db, add("Child 2", None, None, None, Some(&parent_id), &[]));

    assert!(run(&mut db, done(&child1_id, false)).result.is_ok());
    let r = run(&mut db, get(&parent_id));
    assert_eq!(the_task(&r).status.as_str(), "pending");

    let r = run(&mut db, done(&child2_id, false));
    assert!(r.result.is_ok());
    assert!(messages(&r).iter().any(|m| m.contains("auto-completed")));

    let r = run(&mut db, get(&parent_id));
    assert_eq!(the_task(&r).status.as_str(), "done");
}

#[test]
fn test_no_auto_complete_flag() {
    let mut db = Database::new();
    let parent_id = add_id(&mut db, add("Parent", None, None, None, None, &[]));
    let child_id = add_id(&mut db, add("Only child", None, None, None, Some(&parent_id), &[]));

    assert!(run(&mut db, done(&child_id, true)).result.is_ok());

    let r = run(&mut db, get(&parent_id));
    assert_eq!(the_task(&r).status.as_str(), "pending");
}

#[test]
fn test_meta_tag_bypasses_auto_complete() {
    let mut db = Database::new();
    let parent_id = add_id(&mut db, add("Meta parent", None, None, None, None, &["meta"]));
    let child_id = add_id(&mut db, add("Child", None, None, None, Some(&parent_id), &[]));

    assert!(run(&mut db, done(&child_id, false)).result.is_ok());

    let r = run(&mut db, get(&parent_id));
    assert_eq!(the_task(&r).status.as_str(), "pending");
}

#[test]
fn test_breakdown() {
    let mut db = Database::new();
    let parent_id = add_id(&mut db, add("Parent", None, None, None, None, &[]));
    assert!(run(&mut db, add("Sub 1", None, None, None, Some(&parent_id), &[])).result.is_ok());
    assert!(run(&mut db, add("Sub 2", None, None, None, Some(&parent_id), &[])).result.is_ok());

    let r = run(&mut db, task_cmd(TaskAction::Breakdown { id: parent_id.clone(), json: true }));
    assert_eq!(the_tasks(&r).len(), 2);
}

#[test]
fn test_agenda() {
    let mut db = Database::new();
    assert!(run(&mut db, add("Daily standup", Some("daily"), None, None, None, &[])).result.is_ok());
    let today = chrono::Utc::now().format("%Y-%m-%d").to_string();
    assert!(run(&mut db, add("Due today", Some("deadline"), Some(&today), None, None, &[])).result.is_ok());

    let r = run(&mut db, Commands::Agenda { date: None, json: true });
    assert!(r.result.is_ok());
    assert!(the_tasks(&r).len() >= 2);
}

#[test]
fn test_overdue() {
    let mut db = Database::new();
    assert!(run(&mut db, add("Overdue task", Some("deadline"), Some("2020-01-01"), None, None, &[])).result.is_ok());
    assert!(run(&mut db, add("Future task", Some("deadline"), Some("2030-01-01"), None, None, &[])).result.is_ok());

    let r = run(&mut db, Commands::Overdue { json: true });
    let tasks = the_tasks(&r);
    assert_eq!(tasks.len(), 1);
    assert_eq!(tasks[0].title, "Overdue task");
}

#[test]
fn test_recurring_daily() {
    let mut db = Database::new();
    let id = add_id(&mut db, add("Daily standup", Some("daily"), Some("2026-03-03T09:00:00Z"), None, None, &[]));

    let r = run(&mut db, done(&id, false));
    assert!(r.result.is_ok());
    assert!(messages(&r).iter().any(|m| m.contains("Next recurrence created")));

    let r = run(&mut db, list(Some("pending"), None, None));
    let tasks = the_tasks(&r);
    assert_eq!(tasks.len(), 1);
    assert_eq!(tasks[0].title, "Daily standup");
    assert_eq!(tasks[0].due_at, Some(Instant { secs: 1772614800, nanos: 0 }) /* 2026-03-04T09:00:00Z */);
}

#[test]
fn test_nonexistent_task() {
    let mut db = Database::new();
    let r = run(&mut db, get("tk_nonexist"));
    assert!(error_text(&r).contains("not found"));
}

#[test]
fn test_invalid_status() {
    let mut db = Database::new();
    let r = run(&mut db, list(Some("bogus"), None, None));
    assert!(error_text(&r).contains("invalid status"));
}

#[test]
fn test_update_task() {
    let mut db = Database::new();
    let id = add_id(&mut db, add("Original title", None, None, None, None, &[]));
    let r = run(
        &mut db,
        task_cmd(TaskAction::Update {
            id: id.clone(),
            title: Some("Updated title".to_string()),
            status: Some("in_progress".to_string()),
            due: None,
            tag: vec![],
            metadata: None,
            json: true,
        }),
    );
    let updated = the_task(&r);
    assert_eq!(updated.title, "Updated title");
    assert_eq!(updated.status.as_str(), "in_progress");
}

#[test]
fn test_plaintext_output() {
    let mut db = Database::new();
    let r = run(&mut db, add("Plain task", None, None, None, None, &[]));
    let line = task_line(the_task(&r));
    assert!(line.contains("[tk_"));
    assert!(line.contains("Plain task"));
    assert!(line.contains("(pending)"));
}

#[test]
fn test_list_empty() {
    let mut db = Database::new();
    let r = run(&mut db, list(None, None, None));
    let lines = task_lines(the_tasks(&r));
    assert!(lines.iter().any(|l| l.contains("No tasks found")));
}

#[test]
fn test_list_by_schedule_type() {
    let mut db = Database::new();
    assert!(run(&mut db, add("Once task", Some("once"), None, None, None, &[])).result.is_ok());
    assert!(run(&mut db, add("Daily task", Some("daily"), None, None, None, &[])).result.is_ok());

    let r = run(&mut db, list(None, Some("daily"), None));
    let tasks = the_tasks(&r);
    assert_eq!(tasks.len(), 1);
    assert_eq!(tasks[0].title, "Daily task");
}

#[test]
fn test_invalid_parent() {
    let mut db = Database::new();
    let r = run(&mut db, add("Orphan", None, None, None, Some("tk_nonexist"), &[]));
    assert!(error_text(&r).contains("not found"));
}

#[test]
fn test_recurring_with_recur_rule() {
    let mut db = Database::new();
    let id = add_id(
        &mut db,
        add("Biweekly review", Some("recurring"), Some("2026-03-03T10:00:00Z"), Some("every:2w"), None, &[]),
    );

    let r = run(&mut db, done(&id, false));
    assert!(messages(&r).iter().any(|m| m.contains("Next recurrence created")));

    let r = run(&mut db, list(Some("pending"), None, None));
    let tasks = the_tasks(&r);
    assert_eq!(tasks.len(), 1);
    assert_eq!(tasks[0].due_at, Some(Instant { secs: 1773741600, nanos: 0 }) /* 2026-03-17T10:00:00Z */);
}

#[test]
fn test_cancel_auto_completes_parent() {
    let mut db = Database::new();
    let parent_id = add_id(&mut db, add("Parent", None, None, None, None, &[]));
    let child_id = add_id(&mut db, add("Child", None, None, None, Some(&parent_id), &[]));

    let r = run(&mut db, task_cmd(TaskAction::Cancel { id: child_id.clone(), json: true }));
    assert!(messages(&r).iter().any(|m| m.contains("auto-completed")));

    let r = run(&mut db, get(&parent_id));
    assert_eq!(the_task(&r).status, Status::Done);
    let _ = ScheduleType::Once;
}

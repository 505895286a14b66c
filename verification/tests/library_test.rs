use flowstate::cli::agenda::{handle_agenda, handle_overdue};
use flowstate::cli::state::{
    export_message, import_message, import_tasks, stale_exports, ImportCounts, MergeStrategy,
};
use flowstate::cli::task::{
    cmd_add, cmd_attach, cmd_attachments, cmd_cancel, cmd_detach, cmd_done, cmd_update,
    parse_metadata_arg,
};
use flowstate::cli::{Env, FileInfo, Output, Run};
use flowstate::db::{contains_ignore_case, parse_datetime, Database, TaskFilters, TaskUpdates};
use flowstate::errors::FlowstateError;
use flowstate::models::{generate_attachment_id, generate_task_id, ScheduleType, Status, Task};
use flowstate::output::{attachment_line, attachment_lines, task_line, task_lines};
use flowstate::recur::{make_next_instance, parse_recur_rule, RecurInterval};
use flowstate::row::{task_from_row, task_to_row, TaskRow};
use flowstate::text::{decimal, parse_i64};
use flowstate::time::{date_of, day_end, day_start, weekday_of, Date, Instant};

const T0: i64 = 1_772_528_400; // 2026-03-03T09:00:00Z, a Tuesday

fn at(secs: i64) -> Instant {
    Instant { secs, nanos: 0 }
}

fn env_at(secs: i64, n: u32) -> Env {
    Env {
        now: at(secs),
        task_id: format!("tk_{:08}", n),
        attachment_id: format!("at_{:08}", n),
    }
}

fn task(id: &str, created: i64) -> Task {
    Task {
        id: id.to_string(),
        title: format!("title {id}"),
        status: Status::Pending,
        schedule_type: ScheduleType::Once,
        due_at: None,
        recur_rule: None,
        parent_id: None,
        tags: vec![],
        metadata: "{}".to_string(),
        created_at: at(created),
        updated_at: at(created),
    }
}

fn ids(v: &[Task]) -> Vec<String> {
    v.iter().map(|t| t.id.clone()).collect()
}

fn tasks_of(r: &Run) -> Vec<Task> {
    match &r.outputs[0] {
        Output::Tasks(v) => v.iter().map(|t| t.duplicate()).collect(),
        o => panic!("expected tasks, got {o:?}"),
    }
}

fn msg(r: &Run) -> String {
    r.result.as_ref().unwrap_err().message()
}

#[test]
fn db_path_is_local_file() {
    assert_eq!(flowstate::db_path(), ".flowstate.db");
}

#[test]
fn status_and_schedule_names_round_trip() {
    for st in [Status::Pending, Status::InProgress, Status::Done, Status::Cancelled, Status::Blocked] {
        assert_eq!(Status::from_str(st.as_str()), Ok(st));
    }
    for st in [
        ScheduleType::Once,
        ScheduleType::Daily,
        ScheduleType::Weekly,
        ScheduleType::Recurring,
        ScheduleType::Deadline,
    ] {
        assert_eq!(ScheduleType::from_str(st.as_str()), Ok(st));
    }
    assert_eq!(Status::InProgress.as_str(), "in_progress");
    assert_eq!(Status::from_str("bogus"), Err("invalid status: bogus".to_string()));
    assert_eq!(Status::from_str("Pending"), Err("invalid status: Pending".to_string()));
    assert_eq!(ScheduleType::from_str("hourly"), Err("invalid schedule type: hourly".to_string()));
}

#[test]
fn exit_codes_and_messages() {
    let cases = [
        (FlowstateError::NotFound("x".into()), 1, "not found: x"),
        (FlowstateError::Validation("x".into()), 2, "validation error: x"),
        (FlowstateError::Conflict("x".into()), 3, "conflict: x"),
        (FlowstateError::Database("x".into()), 1, "x"),
        (FlowstateError::Other("x".into()), 1, "x"),
    ];
    for (e, code, text) in cases {
        assert_eq!(e.exit_code(), code);
        assert_eq!(e.message(), text);
    }
}

#[test]
fn datetimes_are_read_as_rfc3339_or_end_of_day() {
    assert_eq!(parse_datetime("2026-03-10T17:00:00Z").unwrap(), at(1_773_162_000));
    assert_eq!(parse_datetime("2026-03-10T12:00:00-05:00").unwrap(), at(1_773_162_000));
    assert_eq!(parse_datetime("2026-03-10T17:00:00.5Z").unwrap(), Instant { secs: 1_773_162_000, nanos: 500_000_000 });
    // date only: 23:59:59 UTC that day
    assert_eq!(parse_datetime("2026-03-10").unwrap(), at(1_773_187_199));
    match parse_datetime("next tuesday") {
        Err(FlowstateError::Validation(m)) => {
            assert_eq!(m, "invalid datetime: next tuesday (expected RFC 3339 or YYYY-MM-DD)")
        }
        other => panic!("{other:?}"),
    }
    assert!(parse_datetime("2026-02-30").is_err());
}

#[test]
fn recurrence_rules() {
    assert_eq!(parse_recur_rule("daily"), Some(RecurInterval::Days(1)));
    assert_eq!(parse_recur_rule("weekly:mon"), Some(RecurInterval::Weeks(1)));
    assert_eq!(parse_recur_rule("weekly"), Some(RecurInterval::Weeks(1)));
    assert_eq!(parse_recur_rule("every:3d"), Some(RecurInterval::Days(3)));
    assert_eq!(parse_recur_rule("every:2w"), Some(RecurInterval::Weeks(2)));
    assert_eq!(parse_recur_rule("every:+5d"), Some(RecurInterval::Days(5)));
    assert_eq!(parse_recur_rule("every:-1d"), Some(RecurInterval::Days(-1)));
    assert_eq!(parse_recur_rule("every:d"), None);
    assert_eq!(parse_recur_rule("every:3x"), None);
    assert_eq!(parse_recur_rule("every:"), None);
    assert_eq!(parse_recur_rule("Daily"), None);
    assert_eq!(parse_recur_rule("monthly"), None);
    assert_eq!(parse_recur_rule("every:99999999999999999999d"), None);
}

#[test]
fn integers_read_as_i64_does() {
    let v: Vec<char> = "x-9223372036854775808y".chars().collect();
    assert_eq!(parse_i64(&v, 1, 21), Some(i64::MIN));
    let v: Vec<char> = "9223372036854775808".chars().collect();
    assert_eq!(parse_i64(&v, 0, v.len()), None);
    let v: Vec<char> = "9223372036854775807".chars().collect();
    assert_eq!(parse_i64(&v, 0, v.len()), Some(i64::MAX));
    let v: Vec<char> = "+007".chars().collect();
    assert_eq!(parse_i64(&v, 0, v.len()), Some(7));
    for bad in ["", "-", "+", "1 ", " 1", "1e3", "--1"] {
        let v: Vec<char> = bad.chars().collect();
        assert_eq!(parse_i64(&v, 0, v.len()), None, "{bad}");
    }
}

#[test]
fn decimal_writing() {
    assert_eq!(decimal(0), "0");
    assert_eq!(decimal(7), "7");
    assert_eq!(decimal(1234), "1234");
    assert_eq!(decimal(u64::MAX), u64::MAX.to_string());
}

#[test]
fn calendar_days() {
    let d = date_of(at(T0));
    assert_eq!(d, Date { ce_day: 739_678 });
    assert_eq!(day_start(d), at(1_772_496_000));
    assert_eq!(day_end(d), at(1_772_582_399));
    assert_eq!(weekday_of(d), vec!['t', 'u', 'e']);
    assert_eq!(weekday_of(date_of(at(0))), vec!['t', 'h', 'u']);
    // before the epoch, days round down
    assert_eq!(date_of(at(-1)), Date { ce_day: 719_162 });
    assert_eq!(weekday_of(date_of(at(-1))), vec!['w', 'e', 'd']);
}

#[test]
fn adding_days() {
    fn next_due(due: Instant, rule: &str) -> Instant {
        let mut t = task("tk_r", 1);
        t.schedule_type = ScheduleType::Recurring;
        t.recur_rule = Some(rule.to_string());
        t.due_at = Some(due);
        make_next_instance(&t, at(T0), "tk_n".to_string()).unwrap().due_at.unwrap()
    }
    assert_eq!(next_due(at(T0), "every:1d"), at(T0 + 86_400));
    assert_eq!(next_due(at(T0), "every:-2d"), at(T0 - 2 * 86_400));
    assert_eq!(next_due(at(T0), "every:0d"), at(T0));
    // a leap second loses its extra second
    let leap = Instant { secs: 1_483_228_799, nanos: 1_500_000_000 };
    assert_eq!(next_due(leap, "every:1d"), Instant { secs: 1_483_228_799 + 86_400, nanos: 500_000_000 });
    assert_eq!(next_due(leap, "every:-1d"), Instant { secs: 1_483_228_800 - 86_400, nanos: 500_000_000 });
}

#[test]
fn generated_ids_have_their_shape() {
    for _ in 0..20 {
        let id = generate_task_id();
        assert_eq!(id.len(), 11);
        assert!(id.starts_with("tk_"));
        assert!(id[3..].chars().all(|c| c.is_ascii_lowercase() || c.is_ascii_digit()));
        let aid = generate_attachment_id();
        assert!(aid.starts_with("at_"));
        assert_eq!(aid.len(), 11);
    }
    assert_ne!(generate_task_id(), generate_task_id());
}

fn chars(s: &str) -> Vec<char> {
    s.chars().collect()
}

#[test]
fn weekday_matching_ignores_case() {
    assert!(contains_ignore_case(&chars("WEEKLY:Mon"), &chars("mon")));
    assert!(!contains_ignore_case(&chars("weekly:tue"), &chars("mon")));
    assert!(!contains_ignore_case(&chars("mo"), &chars("mon")));
}

#[test]
fn get_after_insert_and_refusals() {
    let mut db = Database::new();
    let t = task("tk_a", 10);
    db.insert_task(&t).unwrap();
    assert_eq!(db.get_task("tk_a").unwrap().title, "title tk_a");
    match db.insert_task(&task("tk_a", 11)) {
        Err(FlowstateError::Database(m)) => assert_eq!(m, "UNIQUE constraint failed: tasks.id"),
        other => panic!("{other:?}"),
    }
    let mut child = task("tk_b", 12);
    child.parent_id = Some("tk_zz".into());
    match db.insert_task(&child) {
        Err(FlowstateError::NotFound(m)) => assert_eq!(m, "parent task tk_zz not found"),
        other => panic!("{other:?}"),
    }
    match db.get_task("tk_zz") {
        Err(e) => assert_eq!(e.message(), "not found: task tk_zz not found"),
        Ok(_) => panic!(),
    }
    assert_eq!(db.tasks().len(), 1);
}

#[test]
fn listing_follows_creation_order() {
    let mut db = Database::new();
    db.insert_task(&task("tk_late", 300)).unwrap();
    db.insert_task(&task("tk_early", 100)).unwrap();
    db.insert_task(&task("tk_mid", 200)).unwrap();
    db.insert_task(&task("tk_mid2", 200)).unwrap();
    let all = db.list_tasks(&TaskFilters::default()).unwrap();
    assert_eq!(ids(&all), vec!["tk_early", "tk_mid", "tk_mid2", "tk_late"]);
}

#[test]
fn filters_combine() {
    let mut db = Database::new();
    let mut a = task("tk_a", 1);
    a.tags = vec!["x".into(), "y".into()];
    a.due_at = Some(at(50));
    let mut b = task("tk_b", 2);
    b.tags = vec!["x".into()];
    b.status = Status::Blocked;
    let mut c = task("tk_c", 3);
    c.due_at = Some(at(500));
    c.parent_id = Some("tk_a".into());
    for t in [&a, &b, &c] {
        db.insert_task(t).unwrap();
    }
    let f = TaskFilters { tag: Some("x".into()), ..TaskFilters::default() };
    assert_eq!(ids(&db.list_tasks(&f).unwrap()), vec!["tk_a", "tk_b"]);
    let f = TaskFilters { status: Some(Status::Blocked), ..TaskFilters::default() };
    assert_eq!(ids(&db.list_tasks(&f).unwrap()), vec!["tk_b"]);
    let f = TaskFilters { due_before: Some(at(100)), ..TaskFilters::default() };
    assert_eq!(ids(&db.list_tasks(&f).unwrap()), vec!["tk_a"]);
    let f = TaskFilters { due_before: Some(at(500)), ..TaskFilters::default() };
    assert_eq!(ids(&db.list_tasks(&f).unwrap()), vec!["tk_a", "tk_c"]);
    assert_eq!(ids(&db.get_children("tk_a").unwrap()), vec!["tk_c"]);
}

#[test]
fn updates_replace_fields_and_stamp() {
    let mut db = Database::new();
    let mut t = task("tk_a", 1);
    t.tags = vec!["old".into()];
    db.insert_task(&t).unwrap();
    let none = TaskUpdates { title: None, status: None, due_at: None, tags: None, recur_rule: None, metadata: None };
    let same = db.update_task_at("tk_a", &none, at(99)).unwrap();
    assert_eq!(same.updated_at, at(1));
    let u = TaskUpdates { tags: Some(vec!["new".into()]), ..none };
    let changed = db.update_task_at("tk_a", &u, at(99)).unwrap();
    assert_eq!(changed.tags, vec!["new".to_string()]);
    assert_eq!(changed.updated_at, at(99));
    assert_eq!(changed.created_at, at(1));
    assert_eq!(db.get_task("tk_a").unwrap().tags, vec!["new".to_string()]);
    let u = TaskUpdates::status_only(Status::Done);
    assert!(db.update_task_at("tk_zz", &u, at(99)).is_err());
}

#[test]
fn auto_completion_cases() {
    let mut db = Database::new();
    db.insert_task(&task("tk_p", 1)).unwrap();
    // no children: nothing
    assert!(db.check_auto_complete_at("tk_p", at(5)).unwrap().is_none());
    let mut c1 = task("tk_c1", 2);
    c1.parent_id = Some("tk_p".into());
    let mut c2 = task("tk_c2", 3);
    c2.parent_id = Some("tk_p".into());
    c2.status = Status::Cancelled;
    db.insert_task(&c1).unwrap();
    db.insert_task(&c2).unwrap();
    // one child still open
    assert!(db.check_auto_complete_at("tk_p", at(5)).unwrap().is_none());
    db.update_task_at("tk_c1", &TaskUpdates::status_only(Status::Done), at(6)).unwrap();
    let p = db.check_auto_complete_at("tk_p", at(7)).unwrap().unwrap();
    assert_eq!(p.status, Status::Done);
    assert_eq!(p.updated_at, at(7));
    // already done: nothing
    assert!(db.check_auto_complete_at("tk_p", at(8)).unwrap().is_none());
    assert!(db.check_auto_complete_at("tk_none", at(8)).is_err());
}

#[test]
fn agenda_selects_and_orders() {
    let mut db = Database::new();
    let day = date_of(at(T0)); // a Tuesday
    let mut due_today = task("tk_today", 1);
    due_today.due_at = Some(at(T0 + 3600));
    let mut due_early_today = task("tk_today_early", 2);
    due_early_today.due_at = Some(at(T0 - 3600));
    let mut overdue = task("tk_overdue", 3);
    overdue.due_at = Some(at(T0 - 10 * 86_400));
    let mut overdue_done = task("tk_overdue_done", 4);
    overdue_done.due_at = Some(at(T0 - 10 * 86_400));
    overdue_done.status = Status::Done;
    let mut daily = task("tk_daily", 5);
    daily.schedule_type = ScheduleType::Daily;
    let mut daily_blocked = task("tk_daily_blocked", 6);
    daily_blocked.schedule_type = ScheduleType::Daily;
    daily_blocked.status = Status::Blocked;
    let mut weekly_tue = task("tk_weekly_tue", 7);
    weekly_tue.schedule_type = ScheduleType::Weekly;
    weekly_tue.recur_rule = Some("weekly:TUE".into());
    let mut weekly_wed = task("tk_weekly_wed", 8);
    weekly_wed.schedule_type = ScheduleType::Weekly;
    weekly_wed.recur_rule = Some("weekly:wed".into());
    let mut in_progress = task("tk_busy", 9);
    in_progress.status = Status::InProgress;
    in_progress.due_at = Some(at(T0 + 30 * 86_400));
    let mut future = task("tk_future", 10);
    future.due_at = Some(at(T0 + 30 * 86_400));
    for t in [
        &due_today, &due_early_today, &overdue, &overdue_done, &daily, &daily_blocked, &weekly_tue,
        &weekly_wed, &in_progress, &future,
    ] {
        db.insert_task(t).unwrap();
    }
    let agenda = db.get_agenda_tasks(day).unwrap();
    assert_eq!(
        ids(&agenda),
        vec!["tk_overdue", "tk_today_early", "tk_today", "tk_busy", "tk_daily", "tk_weekly_tue"]
    );
    let wednesday = Date { ce_day: day.ce_day + 1 };
    let agenda = db.get_agenda_tasks(wednesday).unwrap();
    assert!(ids(&agenda).contains(&"tk_weekly_wed".to_string()));
    assert!(!ids(&agenda).contains(&"tk_weekly_tue".to_string()));
    // the tasks due on Tuesday are overdue by Wednesday, and still listed once
    assert_eq!(ids(&agenda).iter().filter(|i| *i == "tk_today").count(), 1);

    let overdue_now = db.get_overdue_tasks_at(at(T0)).unwrap();
    assert_eq!(ids(&overdue_now), vec!["tk_overdue", "tk_today_early"]);
}

#[test]
fn agenda_and_overdue_commands() {
    let mut db = Database::new();
    let mut t = task("tk_a", 1);
    t.due_at = Some(at(T0));
    db.insert_task(&t).unwrap();
    let env = env_at(T0 + 86_400, 1);
    let r = handle_agenda(&db, Some("2026-03-03".into()), &env);
    assert_eq!(ids(&tasks_of(&r)), vec!["tk_a"]);
    let r = handle_agenda(&db, None, &env);
    assert_eq!(ids(&tasks_of(&r)), vec!["tk_a"]);
    let r = handle_agenda(&db, Some("03/03/2026".into()), &env);
    assert_eq!(msg(&r), "validation error: invalid date: 03/03/2026 (expected YYYY-MM-DD)");
    let r = handle_overdue(&db, &env);
    assert_eq!(ids(&tasks_of(&r)), vec!["tk_a"]);
    let r = handle_overdue(&db, &env_at(T0, 1));
    assert!(tasks_of(&r).is_empty());
}

#[test]
fn next_instances() {
    let mut t = task("tk_a", 1);
    t.due_at = Some(at(T0));
    t.tags = vec!["x".into()];
    t.status = Status::Done;
    // once: no next instance
    assert!(make_next_instance(&t, at(5), "tk_n".into()).is_none());
    t.schedule_type = ScheduleType::Daily;
    let n = make_next_instance(&t, at(5), "tk_n".into()).unwrap();
    assert_eq!(n.due_at, Some(at(T0 + 86_400)));
    assert_eq!(n.status, Status::Pending);
    assert_eq!(n.id, "tk_n");
    assert_eq!(n.tags, vec!["x".to_string()]);
    assert_eq!(n.created_at, at(5));
    t.schedule_type = ScheduleType::Weekly;
    assert_eq!(make_next_instance(&t, at(5), "tk_n".into()).unwrap().due_at, Some(at(T0 + 7 * 86_400)));
    t.schedule_type = ScheduleType::Recurring;
    assert!(make_next_instance(&t, at(5), "tk_n".into()).is_none());
    t.recur_rule = Some("every:3d".into());
    assert_eq!(make_next_instance(&t, at(5), "tk_n".into()).unwrap().due_at, Some(at(T0 + 3 * 86_400)));
    t.recur_rule = Some("bogus".into());
    assert!(make_next_instance(&t, at(5), "tk_n".into()).is_none());
    // no due date: counted from now
    t.recur_rule = Some("daily".into());
    t.due_at = None;
    assert_eq!(make_next_instance(&t, at(T0), "tk_n".into()).unwrap().due_at, Some(at(T0 + 86_400)));
}

fn add(db: &mut Database, title: &str, stype: Option<&str>, due: Option<&str>, recur: Option<&str>, parent: Option<&str>, tags: Vec<&str>, metadata: Option<&str>, env: &Env) -> Run {
    cmd_add(
        db,
        title.into(),
        stype.map(|s| s.into()),
        due.map(|s| s.into()),
        recur.map(|s| s.into()),
        parent.map(|s| s.into()),
        tags.into_iter().map(|s| s.to_string()).collect(),
        metadata.map(|s| s.into()),
        env,
    )
}

#[test]
fn add_command_validation() {
    let mut db = Database::new();
    let e = env_at(T0, 1);
    let r = add(&mut db, "x", Some("hourly"), None, None, None, vec![], None, &e);
    assert_eq!(msg(&r), "validation error: invalid schedule type: hourly");
    let r = add(&mut db, "x", None, Some("soon"), None, None, vec![], None, &e);
    assert_eq!(msg(&r), "validation error: invalid datetime: soon (expected RFC 3339 or YYYY-MM-DD)");
    let r = add(&mut db, "x", Some("deadline"), None, None, None, vec![], None, &e);
    assert_eq!(msg(&r), "validation error: deadline tasks require --due");
    let r = add(&mut db, "x", None, None, None, None, vec![], Some("[1, 2]"), &e);
    assert_eq!(msg(&r), "validation error: metadata must be a JSON object");
    let r = add(&mut db, "x", None, None, None, None, vec![], Some("{oops"), &e);
    assert!(msg(&r).starts_with("validation error: invalid metadata JSON: "));
    assert!(db.tasks().is_empty());
    let r = add(&mut db, "x", None, None, None, None, vec![], Some("{\"k\": 1}"), &e);
    match &r.outputs[0] {
        Output::Task(t) => {
            assert_eq!(t.metadata, "{\"k\": 1}");
            assert_eq!(t.id, "tk_00000001");
            assert_eq!(t.created_at, at(T0));
        }
        o => panic!("{o:?}"),
    }
    // the same id again is refused by the store
    let r = add(&mut db, "y", None, None, None, None, vec![], None, &e);
    assert_eq!(msg(&r), "UNIQUE constraint failed: tasks.id");
    assert_eq!(parse_metadata_arg(None).unwrap(), "{}");
}

#[test]
fn update_command() {
    let mut db = Database::new();
    add(&mut db, "x", None, None, None, None, vec!["a"], None, &env_at(T0, 1));
    let id = "tk_00000001";
    let e = env_at(T0 + 10, 2);
    let r = cmd_update(&mut db, id, None, None, None, vec![], None, &e);
    match &r.outputs[0] {
        Output::Task(t) => {
            assert_eq!(t.tags, vec!["a".to_string()]);
            assert_eq!(t.updated_at, at(T0));
        }
        o => panic!("{o:?}"),
    }
    let r = cmd_update(&mut db, id, None, None, Some("2026-04-01".into()), vec!["b".into(), "c".into()], None, &e);
    match &r.outputs[0] {
        Output::Task(t) => {
            assert_eq!(t.tags, vec!["b".to_string(), "c".to_string()]);
            assert_eq!(t.due_at, Some(parse_datetime("2026-04-01T23:59:59Z").unwrap()));
            assert_eq!(t.updated_at, at(T0 + 10));
        }
        o => panic!("{o:?}"),
    }
    let r = cmd_update(&mut db, id, None, Some("later".into()), None, vec![], None, &e);
    assert_eq!(msg(&r), "validation error: invalid status: later");
    let r = cmd_update(&mut db, id, None, None, None, vec![], Some("7".into()), &e);
    assert_eq!(msg(&r), "validation error: metadata must be a JSON object");
    let r = cmd_update(&mut db, "tk_missing", Some("t".into()), None, None, vec![], None, &e);
    assert_eq!(msg(&r), "not found: task tk_missing not found");
}

#[test]
fn done_and_cancel_commands() {
    let mut db = Database::new();
    add(&mut db, "p", None, None, None, None, vec![], None, &env_at(T0, 1));
    add(&mut db, "c", Some("daily"), Some("2026-03-03T09:00:00Z"), None, Some("tk_00000001"), vec![], None, &env_at(T0, 2));
    let r = cmd_done(&mut db, "tk_00000002", false, &env_at(T0 + 5, 3));
    assert!(r.result.is_ok());
    let texts: Vec<String> = r
        .outputs
        .iter()
        .filter_map(|o| if let Output::Message(m) = o { Some(m.clone()) } else { None })
        .collect();
    assert_eq!(
        texts,
        vec![
            "Parent task tk_00000001 auto-completed".to_string(),
            "Next recurrence created: tk_00000003".to_string()
        ]
    );
    let next = db.get_task("tk_00000003").unwrap();
    assert_eq!(next.due_at, Some(at(T0 + 86_400)));
    assert_eq!(next.parent_id, Some("tk_00000001".to_string()));
    let r = cmd_done(&mut db, "tk_00000002", false, &env_at(T0 + 6, 4));
    assert_eq!(msg(&r), "conflict: task tk_00000002 is already done");
    assert_eq!(r.result.as_ref().unwrap_err().exit_code(), 3);
    let r = cmd_cancel(&mut db, "tk_00000003", &env_at(T0 + 7, 5));
    assert!(r.result.is_ok());
    let r = cmd_cancel(&mut db, "tk_00000003", &env_at(T0 + 8, 6));
    assert_eq!(msg(&r), "conflict: task tk_00000003 is already cancelled");
    let r = cmd_done(&mut db, "tk_nope", false, &env_at(T0, 7));
    assert_eq!(msg(&r), "not found: task tk_nope not found");
    // the next instance's id is taken: the failure follows the reports
    add(&mut db, "d", Some("daily"), None, None, None, vec![], None, &env_at(T0, 8));
    let r = cmd_done(&mut db, "tk_00000008", false, &env_at(T0, 1));
    assert_eq!(r.outputs.len(), 1);
    assert_eq!(msg(&r), "UNIQUE constraint failed: tasks.id");
    assert_eq!(db.get_task("tk_00000008").unwrap().status, Status::Done);
}

#[test]
fn attachments() {
    let mut db = Database::new();
    add(&mut db, "x", None, None, None, None, vec![], None, &env_at(T0, 1));
    let file = FileInfo { file_name: Some("notes.txt".into()), size_bytes: Some(12) };
    let r = cmd_attach(&mut db, "tk_missing", "/tmp/notes.txt", None, None, &file, &env_at(T0, 1));
    assert_eq!(msg(&r), "not found: task tk_missing not found");
    let r = cmd_attach(&mut db, "tk_00000001", "/tmp/notes.txt", None, None, &file, &env_at(T0, 1));
    match &r.outputs[0] {
        Output::Attachment(a) => {
            assert_eq!(a.name, "notes.txt");
            assert_eq!(a.id, "at_00000001");
            assert_eq!(a.size_bytes, Some(12));
            assert_eq!(attachment_line(a), "[at_00000001] notes.txt -> /tmp/notes.txt (unknown)");
        }
        o => panic!("{o:?}"),
    }
    let none = FileInfo { file_name: None, size_bytes: None };
    let r = cmd_attach(&mut db, "tk_00000001", "/", Some("root".into()), Some("text/plain".into()), &none, &env_at(T0, 2));
    assert!(r.result.is_ok());
    let r = cmd_attach(&mut db, "tk_00000001", "/", None, None, &none, &env_at(T0, 3));
    match &r.outputs[0] {
        Output::Attachment(a) => assert_eq!(a.name, "/"),
        o => panic!("{o:?}"),
    }
    let r = cmd_attachments(&db, "tk_00000001");
    match &r.outputs[0] {
        Output::Attachments(v) => {
            assert_eq!(v.len(), 3);
            assert_eq!(attachment_lines(v)[1], "[at_00000002] root -> / (text/plain)");
        }
        o => panic!("{o:?}"),
    }
    let r = cmd_detach(&mut db, "at_00000002");
    match &r.outputs[0] {
        Output::Message(m) => assert_eq!(m, "Attachment at_00000002 removed"),
        o => panic!("{o:?}"),
    }
    let r = cmd_detach(&mut db, "at_00000002");
    assert_eq!(msg(&r), "not found: attachment at_00000002 not found");
    assert_eq!(attachment_lines(&vec![]), vec!["No attachments found.".to_string()]);
}

#[test]
fn plain_lines() {
    let mut t = task("tk_a", 1);
    assert_eq!(task_line(&t), "[tk_a] title tk_a (pending)");
    t.due_at = Some(at(1_773_162_000));
    t.status = Status::InProgress;
    assert_eq!(task_line(&t), "[tk_a] title tk_a (in_progress) due:2026-03-10");
    assert_eq!(task_lines(&vec![]), vec!["No tasks found.".to_string()]);
    assert_eq!(task_lines(&vec![t.duplicate()]), vec![task_line(&t)]);
}

#[test]
fn rows_round_trip() {
    let mut t = task("tk_a", T0);
    t.tags = vec!["a".into(), "b \"q\"".into()];
    t.due_at = Some(Instant { secs: T0 + 1, nanos: 250_000_000 });
    t.recur_rule = Some("every:3d".into());
    let row = task_to_row(&t).unwrap();
    assert_eq!(row.status, "pending");
    assert_eq!(row.schedule_type, "once");
    assert_eq!(row.tags, "[\"a\",\"b \\\"q\\\"\"]");
    assert_eq!(row.created_at, "2026-03-03T09:00:00+00:00");
    assert_eq!(row.due_at, Some("2026-03-03T09:00:01.250+00:00".to_string()));
    let back = task_from_row(&row, at(0)).unwrap();
    assert_eq!(back.tags, t.tags);
    assert_eq!(back.due_at, t.due_at);
    assert_eq!(back.created_at, t.created_at);
    assert_eq!(back.recur_rule, t.recur_rule);
}

#[test]
fn rows_that_do_not_read() {
    let row = TaskRow {
        id: "tk_a".into(),
        title: "t".into(),
        status: "done".into(),
        schedule_type: "weekly".into(),
        due_at: Some("not a date".into()),
        recur_rule: None,
        parent_id: None,
        tags: "not json".into(),
        metadata: "{}".into(),
        created_at: "garbage".into(),
        updated_at: "2026-03-03T09:00:00Z".into(),
    };
    let t = task_from_row(&row, at(42)).unwrap();
    assert_eq!(t.status, Status::Done);
    assert_eq!(t.due_at, None);
    assert!(t.tags.is_empty());
    assert_eq!(t.created_at, at(42));
    assert_eq!(t.updated_at, at(T0));
    let bad = TaskRow { status: "finished".into(), ..row };
    match task_from_row(&bad, at(42)) {
        Err(FlowstateError::Database(m)) => {
            assert_eq!(m, "Conversion error from type Text at index: 0, invalid status: finished")
        }
        other => panic!("{other:?}"),
    }
}

#[test]
fn restoring_checks_stored_data() {
    let mut child = task("tk_c", 5);
    child.parent_id = Some("tk_p".into());
    // the child comes first and was created later: restored in creation order
    let db = Database::restore(vec![child.duplicate(), task("tk_p", 1)], vec![]).unwrap();
    assert_eq!(ids(db.tasks()), vec!["tk_p", "tk_c"]);
    assert!(Database::restore(vec![child.duplicate()], vec![]).is_err());
    assert!(Database::restore(vec![task("tk_p", 1), task("tk_p", 2)], vec![]).is_err());
    let mut bad = task("tk_x", 1);
    bad.created_at = Instant { secs: i64::MAX, nanos: 0 };
    assert!(Database::restore(vec![bad], vec![]).is_err());
}

#[test]
fn merge_strategies_and_import() {
    assert_eq!(MergeStrategy::from_str("overwrite"), Ok(MergeStrategy::Overwrite));
    assert_eq!(MergeStrategy::from_str("skip"), Ok(MergeStrategy::Skip));
    assert_eq!(MergeStrategy::from_str("update-newer"), Ok(MergeStrategy::UpdateNewer));
    assert_eq!(
        MergeStrategy::from_str("merge"),
        Err("invalid strategy: merge (expected overwrite, skip, or update-newer)".to_string())
    );

    let mut db = Database::new();
    db.insert_task(&task("tk_a", 10)).unwrap();
    db.insert_task(&task("tk_b", 10)).unwrap();
    let mut newer_a = task("tk_a", 10);
    newer_a.title = "new a".into();
    newer_a.updated_at = at(20);
    let mut older_b = task("tk_b", 10);
    older_b.title = "old b".into();
    older_b.updated_at = at(5);
    let incoming = vec![newer_a.duplicate(), older_b.duplicate(), task("tk_c", 30)];

    let mut skip_db = Database::restore(vec![task("tk_a", 10), task("tk_b", 10)], vec![]).unwrap();
    let (c, r) = import_tasks(&mut skip_db, &incoming, MergeStrategy::Skip);
    assert!(r.is_ok());
    assert_eq!(c, ImportCounts { created: 1, updated: 0, skipped: 2 });
    assert_eq!(import_message("dir", c), "Imported from dir: 1 created, 0 updated, 2 skipped");

    let (c, r) = import_tasks(&mut db, &incoming, MergeStrategy::UpdateNewer);
    assert!(r.is_ok());
    assert_eq!(c, ImportCounts { created: 1, updated: 1, skipped: 1 });
    assert_eq!(db.get_task("tk_a").unwrap().title, "new a");
    assert_eq!(db.get_task("tk_a").unwrap().updated_at, at(20));
    assert_eq!(db.get_task("tk_b").unwrap().title, "title tk_b");

    let (c, r) = import_tasks(&mut db, &incoming, MergeStrategy::Overwrite);
    assert!(r.is_ok());
    assert_eq!(c, ImportCounts { created: 0, updated: 3, skipped: 0 });
    assert_eq!(db.get_task("tk_b").unwrap().title, "old b");

    // an overwrite stores the file's version, every field included
    let mut file_b = task("tk_b", 40);
    file_b.title = "file b".into();
    file_b.schedule_type = ScheduleType::Daily;
    file_b.parent_id = Some("tk_a".into());
    file_b.metadata = "{\"k\":1}".into();
    file_b.updated_at = at(41);
    let (c, r) = import_tasks(&mut db, &vec![file_b.duplicate()], MergeStrategy::Overwrite);
    assert!(r.is_ok());
    assert_eq!(c, ImportCounts { created: 0, updated: 1, skipped: 0 });
    let stored = db.get_task("tk_b").unwrap();
    assert_eq!(format!("{stored:?}"), format!("{file_b:?}"));
    // it now comes after the tasks created before 40
    assert_eq!(ids(db.tasks()).last().unwrap(), "tk_b");

    // an orphan stops the import; what came before stays
    let mut orphan = task("tk_o", 1);
    orphan.parent_id = Some("tk_none".into());
    let (c, r) = import_tasks(&mut db, &vec![task("tk_d", 1), orphan, task("tk_e", 1)], MergeStrategy::Skip);
    assert_eq!(c, ImportCounts { created: 1, updated: 0, skipped: 0 });
    assert_eq!(r.unwrap_err().message(), "not found: parent task tk_none not found");
    assert!(db.get_task("tk_d").is_ok());
    assert!(db.get_task("tk_e").is_err());
}

#[test]
fn export_helpers() {
    let tasks = vec![task("tk_a", 1), task("tk_b", 2)];
    let stems: Vec<String> = ["tk_a", "tk_gone", "notes", "tk_b", "tk_old"].iter().map(|s| s.to_string()).collect();
    assert_eq!(stale_exports(&stems, &tasks), vec!["tk_gone".to_string(), "tk_old".to_string()]);
    assert_eq!(
        export_message(2, ".flowstate/tasks", 1),
        "Exported 2 tasks to .flowstate/tasks (removed 1 stale files)"
    );
}

#[test]
fn the_clock_is_read() {
    let e = Env::capture().unwrap();
    assert!(e.now.secs > 1_700_000_000);
    assert!(e.task_id.starts_with("tk_"));
    assert!(e.attachment_id.starts_with("at_"));
}

#[test]
fn clock_stamped_store_operations() {
    let mut db = Database::new();
    let mut parent = task("tk_parent", 10);
    parent.due_at = Some(at(T0 - 86400));
    db.insert_task(&parent).unwrap();
    let mut child = task("tk_child", 20);
    child.parent_id = Some("tk_parent".to_string());
    db.insert_task(&child).unwrap();

    let overdue = db.get_overdue_tasks().unwrap();
    assert_eq!(ids(&overdue), vec!["tk_parent".to_string()]);

    let updates = TaskUpdates {
        title: None,
        status: Some(Status::Done),
        due_at: None,
        tags: None,
        recur_rule: None,
        metadata: None,
    };
    let done = db.update_task("tk_child", &updates).unwrap();
    assert_eq!(done.status, Status::Done);
    assert!(done.updated_at.secs > 1_700_000_000);

    let completed = db.check_auto_complete("tk_parent").unwrap().unwrap();
    assert_eq!(completed.id, "tk_parent");
    assert_eq!(completed.status, Status::Done);
    assert!(db.get_overdue_tasks().unwrap().is_empty());

    let mut daily = task("tk_daily", 30);
    daily.schedule_type = ScheduleType::Daily;
    daily.due_at = Some(at(T0));
    let next = flowstate::recur::generate_next_instance(&daily, &mut db).unwrap().unwrap();
    assert!(next.id.starts_with("tk_") && next.id != "tk_daily");
    assert_eq!(next.due_at, Some(at(T0 + 86400)));
    assert_eq!(next.status, Status::Pending);
    assert!(db.get_task(&next.id).is_ok());
}

#[test]
fn rows_round_trip_edges() {
    // leap second, nanoseconds, and the ends of the four-digit years
    let mut t = task("tk_leap", -62_167_219_200);
    t.updated_at = Instant { secs: 253_402_300_799, nanos: 123_456_789 };
    t.due_at = Some(Instant { secs: 1_483_228_799, nanos: 1_000_000_001 });
    t.tags = vec!["ü".into(), "\n".into()];
    t.metadata = "{\"k\":[1,2]}".into();
    let row = task_to_row(&t).unwrap();
    assert_eq!(row.due_at, Some("2016-12-31T23:59:60.000000001+00:00".to_string()));
    let back = task_from_row(&row, at(0)).unwrap();
    assert_eq!(format!("{back:?}"), format!("{t:?}"));
}

#[test]
fn export_plan_selects_and_finds_stale_files() {
    let mut db = Database::new();
    let mut a = task("tk_a", 1);
    a.metadata = "{\"secret\":1}".into();
    db.insert_task(&a).unwrap();
    let mut b = task("tk_b", 2);
    b.status = Status::Done;
    db.insert_task(&b).unwrap();
    let stems: Vec<String> = ["tk_a", "tk_b", "tk_gone", "notes"].iter().map(|s| s.to_string()).collect();

    // only pending tasks are written, without metadata; tk_b's file stays, as tk_b is stored
    let plan = flowstate::cli::state::export_plan(&db, Some("pending".into()), None, false, &stems).unwrap();
    assert_eq!(plan.entries.len(), 1);
    assert_eq!(plan.entries[0].task.id, "tk_a");
    assert_eq!(plan.entries[0].metadata, None);
    assert_eq!(plan.stale, vec!["tk_gone".to_string()]);

    let plan = flowstate::cli::state::export_plan(&db, None, None, true, &stems).unwrap();
    assert_eq!(plan.entries.len(), 2);
    assert_eq!(plan.entries[0].metadata, Some("{\"secret\":1}".to_string()));

    assert!(flowstate::cli::state::export_plan(&db, Some("bogus".into()), None, true, &stems).is_err());
}

#[test]
fn export_then_import_gives_the_same_tasks() {
    let mut db = Database::new();
    db.insert_task(&task("tk_p", 1)).unwrap();
    let mut c = task("tk_c", 2);
    c.parent_id = Some("tk_p".into());
    c.metadata = "{\"m\":true}".into();
    db.insert_task(&c).unwrap();
    let plan = flowstate::cli::state::export_plan(&db, None, None, true, &vec![]).unwrap();
    let tasks: Vec<Task> = plan.entries.iter().map(|e| e.task.duplicate()).collect();
    let mut fresh = Database::new();
    let (counts, r) = import_tasks(&mut fresh, &tasks, MergeStrategy::Skip);
    assert!(r.is_ok());
    assert_eq!(counts, ImportCounts { created: 2, updated: 0, skipped: 0 });
    assert_eq!(format!("{:?}", fresh.tasks()), format!("{:?}", db.tasks()));
}

#[test]
fn overwrite_keeps_the_stored_parent_when_the_file_names_a_missing_one() {
    let mut db = Database::new();
    db.insert_task(&task("tk_p", 1)).unwrap();
    let mut c = task("tk_c", 2);
    c.parent_id = Some("tk_p".into());
    db.insert_task(&c).unwrap();
    let mut file_c = task("tk_c", 2);
    file_c.title = "from file".into();
    file_c.parent_id = Some("tk_missing".into());
    file_c.updated_at = at(50);
    for strategy in [MergeStrategy::Overwrite, MergeStrategy::UpdateNewer] {
        let (counts, r) = import_tasks(&mut db, &vec![file_c.duplicate()], strategy);
        assert!(r.is_ok());
        let stored = db.get_task("tk_c").unwrap();
        assert_eq!(stored.title, "from file");
        assert_eq!(stored.parent_id, Some("tk_p".to_string()));
        if strategy == MergeStrategy::Overwrite {
            assert_eq!(counts, ImportCounts { created: 0, updated: 1, skipped: 0 });
        }
    }
}

#[test]
fn update_of_a_missing_task_is_not_found() {
    let mut db = Database::new();
    let updates = TaskUpdates {
        title: Some("x".into()),
        status: None,
        due_at: None,
        tags: None,
        recur_rule: None,
        metadata: None,
    };
    assert_eq!(db.update_task("tk_none", &updates).unwrap_err().message(), "not found: task tk_none not found");
    assert_eq!(db.check_auto_complete("tk_none").unwrap_err().message(), "not found: task tk_none not found");
    // a task that does not repeat gets no next instance
    assert!(flowstate::recur::generate_next_instance(&task("tk_once", 1), &mut db).unwrap().is_none());
}

#[test]
fn agenda_ties_keep_creation_order() {
    let mut db = Database::new();
    for (id, created) in [("tk_b", 2), ("tk_a", 1), ("tk_c", 3)] {
        let mut t = task(id, created);
        t.due_at = Some(at(T0));
        db.insert_task(&t).unwrap();
    }
    let v = db.get_overdue_tasks_at(at(T0 + 10)).unwrap();
    assert_eq!(ids(&v), vec!["tk_a", "tk_b", "tk_c"]);
}

#[test]
fn export_without_metadata_does_not_carry_it() {
    let mut db1 = Database::new();
    let mut db2 = Database::new();
    let mut a = task("tk_a", 1);
    a.metadata = "{\"token\":\"s3cr3t\"}".into();
    db1.insert_task(&a).unwrap();
    db2.insert_task(&task("tk_a", 1)).unwrap();
    let p1 = flowstate::cli::state::export_plan(&db1, None, None, false, &vec![]).unwrap();
    let p2 = flowstate::cli::state::export_plan(&db2, None, None, false, &vec![]).unwrap();
    assert_eq!(p1.entries[0].task.metadata, "{}");
    assert_eq!(format!("{:?}", p1.entries[0].task), format!("{:?}", p2.entries[0].task));
}

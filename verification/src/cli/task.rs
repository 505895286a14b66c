//! The `task` commands.
use vstd::prelude::*;

use super::{
    failed, parse_schedule_type, parse_status, run_failed, run_one, schedule_from_text,
    status_from_text, succeeded, Env, FileInfo, Output, OutputView, Run, RunView,
};
use crate::db::{
    add_attachment_outcome, attachment_not_found_text, attachments_of, auto_complete_outcome,
    children_of, filtered, has_task, insert_outcome, parse_datetime, parse_datetime_outcome,
    remove_attachment_outcome, status_update, task_not_found_text, task_of, update_outcome,
    Database, DbView, FiltersView, TaskFilters, TaskUpdates, UpdatesView,
};
use crate::errors::{ErrorView, FlowstateError};
use crate::models::{Attachment, AttachmentView, ScheduleType, Status, Task, TaskView};
use crate::recur::{generate_next_instance_at, next_due_representable, next_instance_outcome};
use crate::time::Instant;

verus! {

/// The `task` subcommands.
#[allow(inconsistent_fields)]
pub enum TaskAction {
    /// Add a new task
    Add {
        title: String,
        schedule_type: Option<String>,
        due: Option<String>,
        recur: Option<String>,
        parent: Option<String>,
        tag: Vec<String>,
        metadata: Option<String>,
        json: bool,
    },
    /// Get a task by ID
    Get { id: String, json: bool },
    /// List tasks with optional filters
    List {
        status: Option<String>,
        schedule_type: Option<String>,
        tag: Option<String>,
        due_before: Option<String>,
        json: bool,
    },
    /// Update a task
    Update {
        id: String,
        title: Option<String>,
        status: Option<String>,
        due: Option<String>,
        tag: Vec<String>,
        metadata: Option<String>,
        json: bool,
    },
    /// Mark a task as done
    Done { id: String, no_auto_complete: bool, json: bool },
    /// Cancel a task
    Cancel { id: String, json: bool },
    /// List subtasks of a parent task
    Breakdown { id: String, json: bool },
    /// Attach a file to a task
    Attach {
        task_id: String,
        path: String,
        name: Option<String>,
        mime_type: Option<String>,
        json: bool,
    },
    /// Remove an attachment
    Detach { attachment_id: String, json: bool },
    /// List attachments for a task
    Attachments { task_id: String, json: bool },
}

impl TaskAction {
    /// The command's JSON flag.
    pub open spec fn json_flag(&self) -> bool {
        match self {
            TaskAction::Add { json, .. } => *json,
            TaskAction::Get { json, .. } => *json,
            TaskAction::List { json, .. } => *json,
            TaskAction::Update { json, .. } => *json,
            TaskAction::Done { json, .. } => *json,
            TaskAction::Cancel { json, .. } => *json,
            TaskAction::Breakdown { json, .. } => *json,
            TaskAction::Attach { json, .. } => *json,
            TaskAction::Detach { json, .. } => *json,
            TaskAction::Attachments { json, .. } => *json,
        }
    }

    /// Whether the command's output is to be JSON.
    pub fn json(&self) -> (r: bool)
        ensures
            r == self.json_flag(),
    {
        match self {
            TaskAction::Add { json, .. } => *json,
            TaskAction::Get { json, .. } => *json,
            TaskAction::List { json, .. } => *json,
            TaskAction::Update { json, .. } => *json,
            TaskAction::Done { json, .. } => *json,
            TaskAction::Cancel { json, .. } => *json,
            TaskAction::Breakdown { json, .. } => *json,
            TaskAction::Attach { json, .. } => *json,
            TaskAction::Detach { json, .. } => *json,
            TaskAction::Attachments { json, .. } => *json,
        }
    }
}

/// What `serde_json` makes of a text read as a JSON value.
pub enum JsonCheckView {
    Invalid(Seq<char>),
    NotObject,
    Object,
}

/// What `serde_json` makes of a text read as a JSON value: refused (with its
/// message), a value other than an object, or an object.
pub enum JsonCheck {
    Invalid(String),
    NotObject,
    Object,
}

impl View for JsonCheck {
    type V = JsonCheckView;

    open spec fn view(&self) -> JsonCheckView {
        match self {
            JsonCheck::Invalid(m) => JsonCheckView::Invalid(m@),
            JsonCheck::NotObject => JsonCheckView::NotObject,
            JsonCheck::Object => JsonCheckView::Object,
        }
    }
}

/// What `serde_json::from_str::<serde_json::Value>` gives for a text.
pub uninterp spec fn json_value_check(text: Seq<char>) -> JsonCheckView;

/// Calls `serde_json::from_str::<serde_json::Value>` and tells an object from
/// other values; on refusal, carries `serde_json`'s message. Claims only that
/// the outcome is the named function of the text.
#[verifier::external_body]
fn check_json(text: &str) -> (r: JsonCheck)
    ensures
        r@ == json_value_check(text@),
{
    match serde_json::from_str::<serde_json::Value>(text) {
        Ok(v) => if v.is_object() {
            JsonCheck::Object
        } else {
            JsonCheck::NotObject
        },
        Err(e) => JsonCheck::Invalid(e.to_string()),
    }
}

/// The metadata a task gets: `{}` when none is given; else the text, which
/// must be a JSON object.
pub open spec fn metadata_outcome(m: Option<Seq<char>>) -> Result<Seq<char>, ErrorView> {
    match m {
        None => Ok("{}"@),
        Some(s) => match json_value_check(s) {
            JsonCheckView::Invalid(e) => Err(ErrorView::Validation("invalid metadata JSON: "@ + e)),
            JsonCheckView::NotObject => Err(ErrorView::Validation("metadata must be a JSON object"@)),
            JsonCheckView::Object => Ok(s),
        },
    }
}

/// Reads the metadata argument (see `metadata_outcome`).
pub fn parse_metadata_arg(metadata: Option<String>) -> (r: Result<String, FlowstateError>)
    ensures
        match r {
            Ok(m) => metadata_outcome(metadata.deep_view()) == Ok::<Seq<char>, ErrorView>(m@),
            Err(e) => metadata_outcome(metadata.deep_view()) == Err::<Seq<char>, ErrorView>(e@),
        },
{
    match metadata {
        None => Ok(String::from_str("{}")),
        Some(s) => match check_json(s.as_str()) {
            JsonCheck::Invalid(e) => Err(
                FlowstateError::Validation(String::from_str("invalid metadata JSON: ").concat(e.as_str())),
            ),
            JsonCheck::NotObject => Err(
                FlowstateError::Validation(String::from_str("metadata must be a JSON object")),
            ),
            JsonCheck::Object => Ok(s),
        },
    }
}

/// An optional status name read.
pub open spec fn opt_status(o: Option<Seq<char>>) -> Result<Option<Status>, ErrorView> {
    match o {
        None => Ok(None),
        Some(s) => match status_from_text(s) {
            Ok(st) => Ok(Some(st)),
            Err(e) => Err(e),
        },
    }
}

/// An optional schedule type name read.
pub open spec fn opt_schedule(o: Option<Seq<char>>) -> Result<Option<ScheduleType>, ErrorView> {
    match o {
        None => Ok(None),
        Some(s) => match schedule_from_text(s) {
            Ok(st) => Ok(Some(st)),
            Err(e) => Err(e),
        },
    }
}

/// An optional date-time read.
pub open spec fn opt_datetime(o: Option<Seq<char>>) -> Result<Option<Instant>, ErrorView> {
    match o {
        None => Ok(None),
        Some(s) => match parse_datetime_outcome(s) {
            Ok(i) => Ok(Some(i)),
            Err(e) => Err(e),
        },
    }
}

fn read_opt_status(o: &Option<String>) -> (r: Result<Option<Status>, FlowstateError>)
    ensures
        match r {
            Ok(x) => opt_status(o.deep_view()) == Ok::<Option<Status>, ErrorView>(x),
            Err(e) => opt_status(o.deep_view()) == Err::<Option<Status>, ErrorView>(e@),
        },
{
    match o {
        None => Ok(None),
        Some(s) => match parse_status(s.as_str()) {
            Ok(st) => Ok(Some(st)),
            Err(e) => Err(e),
        },
    }
}

fn read_opt_schedule(o: &Option<String>) -> (r: Result<Option<ScheduleType>, FlowstateError>)
    ensures
        match r {
            Ok(x) => opt_schedule(o.deep_view()) == Ok::<Option<ScheduleType>, ErrorView>(x),
            Err(e) => opt_schedule(o.deep_view()) == Err::<Option<ScheduleType>, ErrorView>(e@),
        },
{
    match o {
        None => Ok(None),
        Some(s) => match parse_schedule_type(s.as_str()) {
            Ok(st) => Ok(Some(st)),
            Err(e) => Err(e),
        },
    }
}

fn read_opt_datetime(o: &Option<String>) -> (r: Result<Option<Instant>, FlowstateError>)
    ensures
        match r {
            Ok(x) => opt_datetime(o.deep_view()) == Ok::<Option<Instant>, ErrorView>(x) && (x matches Some(
                i,
            ) ==> i.wf()),
            Err(e) => opt_datetime(o.deep_view()) == Err::<Option<Instant>, ErrorView>(e@),
        },
{
    match o {
        None => Ok(None),
        Some(s) => match parse_datetime(s.as_str()) {
            Ok(i) => Ok(Some(i)),
            Err(e) => Err(e),
        },
    }
}

/// What `task add` gives: the schedule type (default once), due date and
/// metadata are read in turn; a deadline without a due date is refused;
/// then a pending task with the fresh id, created now, is inserted and
/// reported.
pub open spec fn add_outcome(
    db: DbView,
    title: Seq<char>,
    schedule_type: Option<Seq<char>>,
    due: Option<Seq<char>>,
    recur: Option<Seq<char>>,
    parent: Option<Seq<char>>,
    tags: Seq<Seq<char>>,
    metadata: Option<Seq<char>>,
    now: Instant,
    id: Seq<char>,
) -> (DbView, RunView) {
    match opt_schedule(schedule_type) {
        Err(e) => (db, failed(e)),
        Ok(st) => {
            let stype = match st {
                Some(x) => x,
                None => ScheduleType::Once,
            };
            match opt_datetime(due) {
                Err(e) => (db, failed(e)),
                Ok(due_at) => if stype == ScheduleType::Deadline && due_at is None {
                    (db, failed(ErrorView::Validation("deadline tasks require --due"@)))
                } else {
                    match metadata_outcome(metadata) {
                        Err(e) => (db, failed(e)),
                        Ok(m) => {
                            let t = TaskView {
                                id,
                                title,
                                status: Status::Pending,
                                schedule_type: stype,
                                due_at,
                                recur_rule: recur,
                                parent_id: parent,
                                tags,
                                metadata: m,
                                created_at: now,
                                updated_at: now,
                            };
                            let (db2, r) = insert_outcome(db, t);
                            match r {
                                Err(e) => (db2, failed(e)),
                                Ok(_) => (db2, succeeded(seq![OutputView::Task(t)])),
                            }
                        },
                    }
                },
            }
        },
    }
}

/// Adds a task (see `add_outcome`).
pub fn cmd_add(
    db: &mut Database,
    title: String,
    schedule_type: Option<String>,
    due: Option<String>,
    recur: Option<String>,
    parent: Option<String>,
    tags: Vec<String>,
    metadata: Option<String>,
    env: &Env,
) -> (r: Run)
    requires
        old(db)@.wf(),
        env.wf(),
    ensures
        (final(db)@, r@) == add_outcome(
            old(db)@,
            title@,
            schedule_type.deep_view(),
            due.deep_view(),
            recur.deep_view(),
            parent.deep_view(),
            tags.deep_view(),
            metadata.deep_view(),
            env.now,
            env.task_id@,
        ),
        final(db)@.wf(),
{
    let stype = match read_opt_schedule(&schedule_type) {
        Ok(Some(x)) => x,
        Ok(None) => ScheduleType::Once,
        Err(e) => {
            return run_failed(e);
        },
    };
    let due_at = match read_opt_datetime(&due) {
        Ok(x) => x,
        Err(e) => {
            return run_failed(e);
        },
    };
    if stype == ScheduleType::Deadline && due_at.is_none() {
        return run_failed(FlowstateError::Validation(String::from_str("deadline tasks require --due")));
    }
    let ghost mv = metadata.deep_view();
    let m = match parse_metadata_arg(metadata) {
        Ok(m) => m,
        Err(e) => {
            return run_failed(e);
        },
    };
    let task = Task {
        id: env.task_id.clone(),
        title,
        status: Status::Pending,
        schedule_type: stype,
        due_at,
        recur_rule: recur,
        parent_id: parent,
        tags,
        metadata: m,
        created_at: env.now,
        updated_at: env.now,
    };
    match db.insert_task(&task) {
        Ok(()) => run_one(Output::Task(task)),
        Err(e) => run_failed(e),
    }
}

/// Fetches one task.
pub fn cmd_get(db: &Database, id: &str) -> (r: Run)
    requires
        db@.wf(),
    ensures
        r@ == (if has_task(db@.tasks, id@) {
            succeeded(seq![OutputView::Task(task_of(db@.tasks, id@))])
        } else {
            failed(ErrorView::NotFound(task_not_found_text(id@)))
        }),
{
    match db.get_task(id) {
        Ok(t) => run_one(Output::Task(t)),
        Err(e) => run_failed(e),
    }
}

/// What `task list` gives: the status, schedule type and due bound are read
/// in turn; then the tasks that pass those filters and the tag, in creation
/// order.
pub open spec fn list_outcome(
    db: DbView,
    status: Option<Seq<char>>,
    schedule_type: Option<Seq<char>>,
    tag: Option<Seq<char>>,
    due_before: Option<Seq<char>>,
) -> RunView {
    match opt_status(status) {
        Err(e) => failed(e),
        Ok(st) => match opt_schedule(schedule_type) {
            Err(e) => failed(e),
            Ok(sc) => match opt_datetime(due_before) {
                Err(e) => failed(e),
                Ok(b) => succeeded(
                    seq![
                        OutputView::Tasks(
                            filtered(
                                db.tasks,
                                FiltersView {
                                    status: st,
                                    schedule_type: sc,
                                    tag,
                                    due_before: b,
                                    parent_id: None,
                                },
                            ),
                        ),
                    ],
                ),
            },
        },
    }
}

/// Lists tasks (see `list_outcome`).
pub fn cmd_list(
    db: &Database,
    status: Option<String>,
    schedule_type: Option<String>,
    tag: Option<String>,
    due_before: Option<String>,
) -> (r: Run)
    requires
        db@.wf(),
    ensures
        r@ == list_outcome(
            db@,
            status.deep_view(),
            schedule_type.deep_view(),
            tag.deep_view(),
            due_before.deep_view(),
        ),
{
    let st = match read_opt_status(&status) {
        Ok(x) => x,
        Err(e) => {
            return run_failed(e);
        },
    };
    let sc = match read_opt_schedule(&schedule_type) {
        Ok(x) => x,
        Err(e) => {
            return run_failed(e);
        },
    };
    let b = match read_opt_datetime(&due_before) {
        Ok(x) => x,
        Err(e) => {
            return run_failed(e);
        },
    };
    let filters = TaskFilters { status: st, schedule_type: sc, tag, due_before: b, parent_id: None };
    match db.list_tasks(&filters) {
        Ok(v) => run_one(Output::Tasks(v)),
        Err(e) => run_failed(e),
    }
}

/// What `task update` gives: status, due date, tags (none when the list is
/// empty: tags are then kept) and metadata are read in turn; then the update.
pub open spec fn update_cmd_outcome(
    db: DbView,
    id: Seq<char>,
    title: Option<Seq<char>>,
    status: Option<Seq<char>>,
    due: Option<Seq<char>>,
    tags: Seq<Seq<char>>,
    metadata: Option<Seq<char>>,
    now: Instant,
) -> (DbView, RunView) {
    match opt_status(status) {
        Err(e) => (db, failed(e)),
        Ok(st) => match opt_datetime(due) {
            Err(e) => (db, failed(e)),
            Ok(d) => {
                let meta: Result<Option<Seq<char>>, ErrorView> = match metadata {
                    None => Ok(None),
                    Some(_) => match metadata_outcome(metadata) {
                        Ok(m) => Ok(Some(m)),
                        Err(e) => Err(e),
                    },
                };
                match meta {
                    Err(e) => (db, failed(e)),
                    Ok(m) => {
                        let u = UpdatesView {
                            title,
                            status: st,
                            due_at: match d {
                                Some(x) => Some(Some(x)),
                                None => None,
                            },
                            tags: if tags.len() == 0 {
                                None
                            } else {
                                Some(tags)
                            },
                            recur_rule: None,
                            metadata: m,
                        };
                        let (db2, r) = update_outcome(db, id, u, now);
                        match r {
                            Err(e) => (db2, failed(e)),
                            Ok(t) => (db2, succeeded(seq![OutputView::Task(t)])),
                        }
                    },
                }
            },
        },
    }
}

/// Updates a task (see `update_cmd_outcome`); the tags given replace the
/// task's own.
pub fn cmd_update(
    db: &mut Database,
    id: &str,
    title: Option<String>,
    status: Option<String>,
    due: Option<String>,
    tags: Vec<String>,
    metadata: Option<String>,
    env: &Env,
) -> (r: Run)
    requires
        old(db)@.wf(),
        env.wf(),
    ensures
        (final(db)@, r@) == update_cmd_outcome(
            old(db)@,
            id@,
            title.deep_view(),
            status.deep_view(),
            due.deep_view(),
            tags.deep_view(),
            metadata.deep_view(),
            env.now,
        ),
        final(db)@.wf(),
{
    let st = match read_opt_status(&status) {
        Ok(x) => x,
        Err(e) => {
            return run_failed(e);
        },
    };
    let d = match read_opt_datetime(&due) {
        Ok(x) => x,
        Err(e) => {
            return run_failed(e);
        },
    };
    let ghost tv = tags.deep_view();
    let parsed_tags = if tags.len() == 0 {
        None
    } else {
        Some(tags)
    };
    let ghost mv = metadata.deep_view();
    let m = if metadata.is_some() {
        match parse_metadata_arg(metadata) {
            Ok(m) => Some(m),
            Err(e) => {
                return run_failed(e);
            },
        }
    } else {
        None
    };
    let updates = TaskUpdates {
        title,
        status: st,
        due_at: match d {
            Some(x) => Some(Some(x)),
            None => None,
        },
        tags: parsed_tags,
        recur_rule: None,
        metadata: m,
    };
    match db.update_task_at(id, &updates, env.now) {
        Ok(t) => run_one(Output::Task(t)),
        Err(e) => run_failed(e),
    }
}

/// `task <id> is already done`
pub open spec fn already_done_text(id: Seq<char>) -> Seq<char> {
    "task "@ + id + " is already done"@
}

/// `task <id> is already cancelled`
pub open spec fn already_cancelled_text(id: Seq<char>) -> Seq<char> {
    "task "@ + id + " is already cancelled"@
}

/// `Parent task <id> auto-completed`
pub open spec fn parent_done_text(id: Seq<char>) -> Seq<char> {
    "Parent task "@ + id + " auto-completed"@
}

/// `Next recurrence created: <id>`
pub open spec fn next_created_text(id: Seq<char>) -> Seq<char> {
    "Next recurrence created: "@ + id
}

/// After a task is resolved: the auto-completion check of its parent, when
/// there is one and `check` holds, adding a message when the parent was
/// completed.
pub open spec fn parent_step(db: DbView, t: TaskView, check: bool, now: Instant, outputs: Seq<OutputView>) -> (
    DbView,
    RunView,
) {
    if check && t.parent_id is Some {
        let (db2, r) = auto_complete_outcome(db, t.parent_id->0, now);
        match r {
            Err(e) => (db2, RunView { outputs, result: Err(e) }),
            Ok(Some(p)) => (db2, succeeded(outputs.push(OutputView::Message(parent_done_text(p.id))))),
            Ok(None) => (db2, succeeded(outputs)),
        }
    } else {
        (db, succeeded(outputs))
    }
}

/// What `task done` gives: `task <id> not found`; a conflict when it is
/// already done; else the task marked done and reported, then its parent's
/// auto-completion check (unless turned off), then its next instance when it
/// repeats, each reported by a message.
pub open spec fn done_outcome(db: DbView, id: Seq<char>, no_auto_complete: bool, now: Instant, new_id: Seq<char>) -> (
    DbView,
    RunView,
) {
    if !has_task(db.tasks, id) {
        (db, failed(ErrorView::NotFound(task_not_found_text(id))))
    } else if task_of(db.tasks, id).status == Status::Done {
        (db, failed(ErrorView::Conflict(already_done_text(id))))
    } else {
        let (db1, r1) = update_outcome(db, id, status_update(Status::Done), now);
        let u = r1->Ok_0;
        let (db2, run2) = parent_step(db1, u, !no_auto_complete, now, seq![OutputView::Task(u)]);
        if run2.result is Err {
            (db2, run2)
        } else {
            let (db3, r3) = next_instance_outcome(db2, u, now, new_id);
            match r3 {
                Err(e) => (db3, RunView { outputs: run2.outputs, result: Err(e) }),
                Ok(Some(nt)) => (db3, succeeded(run2.outputs.push(OutputView::Message(next_created_text(nt.id))))),
                Ok(None) => (db3, run2),
            }
        }
    }
}

fn parent_message(p: &Task) -> (r: Output)
    ensures
        r@ == OutputView::Message(parent_done_text(p@.id)),
{
    Output::Message(String::from_str("Parent task ").concat(p.id.as_str()).concat(" auto-completed"))
}

/// Runs the parent's auto-completion check after `t` was resolved (see
/// `parent_step`).
fn run_parent_step(db: &mut Database, t: &Task, check: bool, now: Instant, outputs: Vec<Output>) -> (r: Run)
    requires
        old(db)@.wf(),
        now.wf(),
    ensures
        (final(db)@, r@) == parent_step(old(db)@, t@, check, now, outputs@.map_values(|o: Output| o@)),
        final(db)@.wf(),
{
    let ghost ov = outputs@.map_values(|o: Output| o@);
    let mut outputs = outputs;
    if check {
        if let Some(pid) = &t.parent_id {
            match db.check_auto_complete_at(pid.as_str(), now) {
                Err(e) => {
                    return Run { outputs, result: Err(e) };
                },
                Ok(Some(p)) => {
                    let m = parent_message(&p);
                    outputs.push(m);
                    assert(outputs@.map_values(|o: Output| o@) =~= ov.push(OutputView::Message(parent_done_text(p@.id))));
                    return Run { outputs, result: Ok(()) };
                },
                Ok(None) => {
                    return Run { outputs, result: Ok(()) };
                },
            }
        }
    }
    Run { outputs, result: Ok(()) }
}

/// Marks a task done (see `done_outcome`).
pub fn cmd_done(db: &mut Database, id: &str, no_auto_complete: bool, env: &Env) -> (r: Run)
    requires
        old(db)@.wf(),
        env.wf(),
        has_task(old(db)@.tasks, id@) && task_of(old(db)@.tasks, id@).status != Status::Done
            ==> next_due_representable(task_of(old(db)@.tasks, id@), env.now),
    ensures
        (final(db)@, r@) == done_outcome(old(db)@, id@, no_auto_complete, env.now, env.task_id@),
        final(db)@.wf(),
{
    let task = match db.get_task(id) {
        Ok(t) => t,
        Err(e) => {
            return run_failed(e);
        },
    };
    if task.status == Status::Done {
        return run_failed(
            FlowstateError::Conflict(String::from_str("task ").concat(id).concat(" is already done")),
        );
    }
    let u = TaskUpdates::status_only(Status::Done);
    let updated = match db.update_task_at(id, &u, env.now) {
        Ok(t) => t,
        Err(e) => {
            return run_failed(e);
        },
    };
    let first = run_one(Output::Task(updated.duplicate()));
    let run2 = run_parent_step(db, &updated, !no_auto_complete, env.now, first.outputs);
    if run2.result.is_err() {
        return run2;
    }
    let mut outputs = run2.outputs;
    let ghost ov = outputs@.map_values(|o: Output| o@);
    match generate_next_instance_at(&updated, db, env.now, env.task_id.clone()) {
        Err(e) => Run { outputs, result: Err(e) },
        Ok(Some(nt)) => {
            outputs.push(
                Output::Message(String::from_str("Next recurrence created: ").concat(nt.id.as_str())),
            );
            assert(outputs@.map_values(|o: Output| o@) =~= ov.push(
                OutputView::Message(next_created_text(nt@.id)),
            ));
            Run { outputs, result: Ok(()) }
        },
        Ok(None) => Run { outputs, result: Ok(()) },
    }
}

/// What `task cancel` gives: `task <id> not found`; a conflict when it is
/// already cancelled; else the task cancelled and reported, then its
/// parent's auto-completion check.
pub open spec fn cancel_outcome(db: DbView, id: Seq<char>, now: Instant) -> (DbView, RunView) {
    if !has_task(db.tasks, id) {
        (db, failed(ErrorView::NotFound(task_not_found_text(id))))
    } else if task_of(db.tasks, id).status == Status::Cancelled {
        (db, failed(ErrorView::Conflict(already_cancelled_text(id))))
    } else {
        let (db1, r1) = update_outcome(db, id, status_update(Status::Cancelled), now);
        let u = r1->Ok_0;
        parent_step(db1, u, true, now, seq![OutputView::Task(u)])
    }
}

/// Cancels a task (see `cancel_outcome`).
pub fn cmd_cancel(db: &mut Database, id: &str, env: &Env) -> (r: Run)
    requires
        old(db)@.wf(),
        env.wf(),
    ensures
        (final(db)@, r@) == cancel_outcome(old(db)@, id@, env.now),
        final(db)@.wf(),
{
    let task = match db.get_task(id) {
        Ok(t) => t,
        Err(e) => {
            return run_failed(e);
        },
    };
    if task.status == Status::Cancelled {
        return run_failed(
            FlowstateError::Conflict(String::from_str("task ").concat(id).concat(" is already cancelled")),
        );
    }
    let u = TaskUpdates::status_only(Status::Cancelled);
    let updated = match db.update_task_at(id, &u, env.now) {
        Ok(t) => t,
        Err(e) => {
            return run_failed(e);
        },
    };
    let first = run_one(Output::Task(updated.duplicate()));
    run_parent_step(db, &updated, true, env.now, first.outputs)
}

/// Lists the children of a task, which must exist.
pub fn cmd_breakdown(db: &Database, id: &str) -> (r: Run)
    requires
        db@.wf(),
    ensures
        r@ == (if has_task(db@.tasks, id@) {
            succeeded(seq![OutputView::Tasks(children_of(db@.tasks, id@))])
        } else {
            failed(ErrorView::NotFound(task_not_found_text(id@)))
        }),
{
    if let Err(e) = db.get_task(id) {
        return run_failed(e);
    }
    match db.get_children(id) {
        Ok(v) => run_one(Output::Tasks(v)),
        Err(e) => run_failed(e),
    }
}

/// The name an attachment gets: the one given, else the file's name, else
/// the path itself.
pub open spec fn attachment_name(name: Option<Seq<char>>, file_name: Option<Seq<char>>, path: Seq<char>) -> Seq<char> {
    match name {
        Some(n) => n,
        None => match file_name {
            Some(f) => f,
            None => path,
        },
    }
}

/// What `task attach` gives: the attachment, with the fresh id, created now,
/// added and reported (see `add_attachment_outcome`).
pub open spec fn attach_outcome(
    db: DbView,
    task_id: Seq<char>,
    path: Seq<char>,
    name: Option<Seq<char>>,
    mime_type: Option<Seq<char>>,
    file_name: Option<Seq<char>>,
    size_bytes: Option<i64>,
    now: Instant,
    id: Seq<char>,
) -> (DbView, RunView) {
    let a = AttachmentView {
        id,
        task_id,
        name: attachment_name(name, file_name, path),
        path,
        mime_type,
        size_bytes,
        created_at: now,
    };
    let (db2, r) = add_attachment_outcome(db, a);
    match r {
        Err(e) => (db2, failed(e)),
        Ok(x) => (db2, succeeded(seq![OutputView::Attachment(x)])),
    }
}

/// Attaches a file to a task (see `attach_outcome`).
pub fn cmd_attach(
    db: &mut Database,
    task_id: &str,
    path: &str,
    name: Option<String>,
    mime_type: Option<String>,
    file: &FileInfo,
    env: &Env,
) -> (r: Run)
    requires
        old(db)@.wf(),
        env.wf(),
    ensures
        (final(db)@, r@) == attach_outcome(
            old(db)@,
            task_id@,
            path@,
            name.deep_view(),
            mime_type.deep_view(),
            file.file_name.deep_view(),
            file.size_bytes,
            env.now,
            env.attachment_id@,
        ),
        final(db)@.wf(),
{
    let attachment_name = match name {
        Some(n) => n,
        None => match &file.file_name {
            Some(f) => f.clone(),
            None => String::from_str(path),
        },
    };
    let a = Attachment {
        id: env.attachment_id.clone(),
        task_id: String::from_str(task_id),
        name: attachment_name,
        path: String::from_str(path),
        mime_type,
        size_bytes: file.size_bytes,
        created_at: env.now,
    };
    match db.add_attachment_at(a) {
        Ok(x) => run_one(Output::Attachment(x)),
        Err(e) => run_failed(e),
    }
}

/// `Attachment <id> removed`
pub open spec fn detached_text(id: Seq<char>) -> Seq<char> {
    "Attachment "@ + id + " removed"@
}

/// Removes an attachment (see `remove_attachment_outcome`) and says so.
pub fn cmd_detach(db: &mut Database, attachment_id: &str) -> (r: Run)
    requires
        old(db)@.wf(),
    ensures
        final(db)@ == remove_attachment_outcome(old(db)@, attachment_id@).0,
        r@ == match remove_attachment_outcome(old(db)@, attachment_id@).1 {
            Ok(_) => succeeded(seq![OutputView::Message(detached_text(attachment_id@))]),
            Err(e) => failed(e),
        },
        final(db)@.wf(),
{
    match db.remove_attachment(attachment_id) {
        Ok(()) => run_one(
            Output::Message(String::from_str("Attachment ").concat(attachment_id).concat(" removed")),
        ),
        Err(e) => run_failed(e),
    }
}

/// Lists the attachments of a task.
pub fn cmd_attachments(db: &Database, task_id: &str) -> (r: Run)
    ensures
        r@ == succeeded(seq![OutputView::Attachments(attachments_of(db@.attachments, task_id@))]),
{
    match db.list_attachments(task_id) {
        Ok(v) => run_one(Output::Attachments(v)),
        Err(e) => run_failed(e),
    }
}

/// The precondition of a command: completing a task must keep its next
/// instance's due date representable.
pub open spec fn action_fits(action: &TaskAction, db: DbView, env: &Env) -> bool {
    match action {
        TaskAction::Done { id, .. } => has_task(db.tasks, id@) && task_of(db.tasks, id@).status
            != Status::Done ==> next_due_representable(task_of(db.tasks, id@), env.now),
        _ => true,
    }
}

/// Whether the command keeps its due-date arithmetic in range (see `action_fits`).
pub fn action_fits_exec(action: &TaskAction, db: &Database, env: &Env) -> (r: bool)
    requires
        db@.wf(),
        env.wf(),
    ensures
        r == action_fits(action, db@, env),
{
    match action {
        TaskAction::Done { id, .. } => db.recurrence_fits(id.as_str(), env.now),
        _ => true,
    }
}

/// What a `task` subcommand gives, for each subcommand as its own function states.
pub open spec fn handle_outcome(action: TaskAction, db: DbView, env: &Env, file: &FileInfo) -> (DbView, RunView) {
    match action {
        TaskAction::Add { title, schedule_type, due, recur, parent, tag, metadata, .. } => add_outcome(
            db,
            title@,
            schedule_type.deep_view(),
            due.deep_view(),
            recur.deep_view(),
            parent.deep_view(),
            tag.deep_view(),
            metadata.deep_view(),
            env.now,
            env.task_id@,
        ),
        TaskAction::Get { id, .. } => (db, if has_task(db.tasks, id@) {
            succeeded(seq![OutputView::Task(task_of(db.tasks, id@))])
        } else {
            failed(ErrorView::NotFound(task_not_found_text(id@)))
        }),
        TaskAction::List { status, schedule_type, tag, due_before, .. } => (db, list_outcome(
            db,
            status.deep_view(),
            schedule_type.deep_view(),
            tag.deep_view(),
            due_before.deep_view(),
        )),
        TaskAction::Update { id, title, status, due, tag, metadata, .. } => update_cmd_outcome(
            db,
            id@,
            title.deep_view(),
            status.deep_view(),
            due.deep_view(),
            tag.deep_view(),
            metadata.deep_view(),
            env.now,
        ),
        TaskAction::Done { id, no_auto_complete, .. } => done_outcome(
            db,
            id@,
            no_auto_complete,
            env.now,
            env.task_id@,
        ),
        TaskAction::Cancel { id, .. } => cancel_outcome(db, id@, env.now),
        TaskAction::Breakdown { id, .. } => (db, if has_task(db.tasks, id@) {
            succeeded(seq![OutputView::Tasks(children_of(db.tasks, id@))])
        } else {
            failed(ErrorView::NotFound(task_not_found_text(id@)))
        }),
        TaskAction::Attach { task_id, path, name, mime_type, .. } => attach_outcome(
            db,
            task_id@,
            path@,
            name.deep_view(),
            mime_type.deep_view(),
            file.file_name.deep_view(),
            file.size_bytes,
            env.now,
            env.attachment_id@,
        ),
        TaskAction::Detach { attachment_id, .. } => (
            remove_attachment_outcome(db, attachment_id@).0,
            match remove_attachment_outcome(db, attachment_id@).1 {
                Ok(_) => succeeded(seq![OutputView::Message(detached_text(attachment_id@))]),
                Err(e) => failed(e),
            },
        ),
        TaskAction::Attachments { task_id, .. } => (db, succeeded(
            seq![OutputView::Attachments(attachments_of(db.attachments, task_id@))],
        )),
    }
}

/// Runs a `task` subcommand against the store (see `handle_outcome`).
pub fn handle(action: TaskAction, db: &mut Database, env: &Env, file: &FileInfo) -> (r: Run)
    requires
        old(db)@.wf(),
        env.wf(),
        action_fits(&action, old(db)@, env),
    ensures
        (final(db)@, r@) == handle_outcome(action, old(db)@, env, file),
        final(db)@.wf(),
{
    match action {
        TaskAction::Add { title, schedule_type, due, recur, parent, tag, metadata, json: _ } => cmd_add(
            db,
            title,
            schedule_type,
            due,
            recur,
            parent,
            tag,
            metadata,
            env,
        ),
        TaskAction::Get { id, json: _ } => cmd_get(db, id.as_str()),
        TaskAction::List { status, schedule_type, tag, due_before, json: _ } => cmd_list(
            db,
            status,
            schedule_type,
            tag,
            due_before,
        ),
        TaskAction::Update { id, title, status, due, tag, metadata, json: _ } => cmd_update(
            db,
            id.as_str(),
            title,
            status,
            due,
            tag,
            metadata,
            env,
        ),
        TaskAction::Done { id, no_auto_complete, json: _ } => cmd_done(db, id.as_str(), no_auto_complete, env),
        TaskAction::Cancel { id, json: _ } => cmd_cancel(db, id.as_str(), env),
        TaskAction::Breakdown { id, json: _ } => cmd_breakdown(db, id.as_str()),
        TaskAction::Attach { task_id, path, name, mime_type, json: _ } => cmd_attach(
            db,
            task_id.as_str(),
            path.as_str(),
            name,
            mime_type,
            file,
            env,
        ),
        TaskAction::Detach { attachment_id, json: _ } => cmd_detach(db, attachment_id.as_str()),
        TaskAction::Attachments { task_id, json: _ } => cmd_attachments(db, task_id.as_str()),
    }
}

} // verus!

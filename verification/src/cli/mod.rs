//! The commands: what each one does to the store and what it reports.
use vstd::prelude::*;

use crate::errors::{clock_unread, clock_unread_text, ErrorView, FlowstateError};
use crate::models::{
    generate_attachment_id, generate_task_id, has_id_shape, lemma_schedule_type_texts,
    lemma_status_texts, Attachment, AttachmentView, ScheduleType, Status, Task, TaskView,
};
use crate::time::{now, Instant};

pub mod agenda;
pub mod state;
pub mod task;

verus! {

/// The command line: one command.
pub struct Cli {
    pub command: Commands,
}

/// The top-level commands.
pub enum Commands {
    /// Manage tasks
    Task { action: task::TaskAction },
    /// Show today's agenda
    Agenda { date: Option<String>, json: bool },
    /// Show overdue tasks
    Overdue { json: bool },
}

/// Something a command reports.
#[derive(Debug)]
pub enum Output {
    Task(Task),
    Tasks(Vec<Task>),
    Attachment(Attachment),
    Attachments(Vec<Attachment>),
    Message(String),
}

pub enum OutputView {
    Task(TaskView),
    Tasks(Seq<TaskView>),
    Attachment(AttachmentView),
    Attachments(Seq<AttachmentView>),
    Message(Seq<char>),
}

impl View for Output {
    type V = OutputView;

    open spec fn view(&self) -> OutputView {
        match self {
            Output::Task(t) => OutputView::Task(t@),
            Output::Tasks(v) => OutputView::Tasks(crate::db::views(v@)),
            Output::Attachment(a) => OutputView::Attachment(a@),
            Output::Attachments(v) => OutputView::Attachments(crate::db::attachment_views(v@)),
            Output::Message(m) => OutputView::Message(m@),
        }
    }
}

/// What a command reported, in order, and how it ended. A command that fails
/// after reporting something keeps what it reported (and what it stored).
#[derive(Debug)]
pub struct Run {
    pub outputs: Vec<Output>,
    pub result: Result<(), FlowstateError>,
}

pub struct RunView {
    pub outputs: Seq<OutputView>,
    pub result: Result<(), ErrorView>,
}

impl View for Run {
    type V = RunView;

    open spec fn view(&self) -> RunView {
        RunView {
            outputs: self.outputs@.map_values(|o: Output| o@),
            result: match &self.result {
                Ok(()) => Ok(()),
                Err(e) => Err(e@),
            },
        }
    }
}

/// A run that reported nothing and failed.
pub open spec fn failed(e: ErrorView) -> RunView {
    RunView { outputs: Seq::empty(), result: Err(e) }
}

/// A run that reported these outputs and succeeded.
pub open spec fn succeeded(outputs: Seq<OutputView>) -> RunView {
    RunView { outputs, result: Ok(()) }
}

pub(crate) fn run_failed(e: FlowstateError) -> (r: Run)
    ensures
        r@ == failed(e@),
{
    let r = Run { outputs: Vec::new(), result: Err(e) };
    assert(r@.outputs =~= Seq::<OutputView>::empty());
    r
}

pub(crate) fn run_one(o: Output) -> (r: Run)
    ensures
        r@ == succeeded(seq![o@]),
{
    let ghost ov = o@;
    let mut v = Vec::new();
    v.push(o);
    let r = Run { outputs: v, result: Ok(()) };
    assert(r@.outputs =~= seq![ov]);
    r
}

/// What a command draws from the world: the current time and fresh ids.
pub struct Env {
    pub now: Instant,
    pub task_id: String,
    pub attachment_id: String,
}

impl Env {
    /// A clock reading and well-formed fresh ids.
    pub open spec fn wf(&self) -> bool {
        &&& self.now.wf()
        &&& self.now.secs >= 0
        &&& self.now.nanos < 1_000_000_000
        &&& has_id_shape(self.task_id@, "tk_"@)
        &&& has_id_shape(self.attachment_id@, "at_"@)
    }

    /// Reads the clock and draws fresh ids; refused when the clock gives no
    /// reading in range.
    pub fn capture() -> (r: Result<Env, FlowstateError>)
        ensures
            match r {
                Ok(e) => e.wf(),
                Err(e) => e@ == ErrorView::Other(clock_unread_text()),
            },
    {
        match now() {
            Some(t) => Ok(Env { now: t, task_id: generate_task_id(), attachment_id: generate_attachment_id() }),
            None => Err(clock_unread()),
        }
    }
}

/// What the file system says of an attached file: its last path component
/// and its size, where they could be had.
pub struct FileInfo {
    pub file_name: Option<String>,
    pub size_bytes: Option<i64>,
}

/// The status that a name denotes, or `invalid status: <name>`.
pub open spec fn status_from_text(s: Seq<char>) -> Result<Status, ErrorView> {
    if exists|st: Status| st.text() == s {
        Ok(choose|st: Status| st.text() == s)
    } else {
        Err(ErrorView::Validation("invalid status: "@ + s))
    }
}

/// The schedule type that a name denotes, or `invalid schedule type: <name>`.
pub open spec fn schedule_from_text(s: Seq<char>) -> Result<ScheduleType, ErrorView> {
    if exists|st: ScheduleType| st.text() == s {
        Ok(choose|st: ScheduleType| st.text() == s)
    } else {
        Err(ErrorView::Validation("invalid schedule type: "@ + s))
    }
}

/// Reads a status name; a wrong one is a validation error.
pub fn parse_status(s: &str) -> (r: Result<Status, FlowstateError>)
    ensures
        match r {
            Ok(st) => status_from_text(s@) == Ok::<Status, ErrorView>(st),
            Err(e) => status_from_text(s@) == Err::<Status, ErrorView>(e@),
        },
{
    proof {
        lemma_status_texts();
    }
    match Status::from_str(s) {
        Ok(st) => Ok(st),
        Err(m) => Err(FlowstateError::Validation(m)),
    }
}

/// Reads a schedule type name; a wrong one is a validation error.
pub fn parse_schedule_type(s: &str) -> (r: Result<ScheduleType, FlowstateError>)
    ensures
        match r {
            Ok(st) => schedule_from_text(s@) == Ok::<ScheduleType, ErrorView>(st),
            Err(e) => schedule_from_text(s@) == Err::<ScheduleType, ErrorView>(e@),
        },
{
    proof {
        lemma_schedule_type_texts();
    }
    match ScheduleType::from_str(s) {
        Ok(st) => Ok(st),
        Err(m) => Err(FlowstateError::Validation(m)),
    }
}

impl Commands {
    /// Whether the command's output is to be JSON.
    pub fn json(&self) -> (r: bool)
        ensures
            r == match self {
                Commands::Task { action } => action.json_flag(),
                Commands::Agenda { json, .. } => *json,
                Commands::Overdue { json } => *json,
            },
    {
        match self {
            Commands::Task { action } => action.json(),
            Commands::Agenda { json, .. } => *json,
            Commands::Overdue { json } => *json,
        }
    }
}

/// The precondition of a command (see `task::action_fits`).
pub open spec fn command_fits(cmd: &Commands, db: crate::db::DbView, env: &Env) -> bool {
    match cmd {
        Commands::Task { action } => task::action_fits(action, db, env),
        _ => true,
    }
}

/// Whether the command keeps its due-date arithmetic in range.
pub fn command_fits_exec(cmd: &Commands, db: &crate::db::Database, env: &Env) -> (r: bool)
    requires
        db@.wf(),
        env.wf(),
    ensures
        r == command_fits(cmd, db@, env),
{
    match cmd {
        Commands::Task { action } => task::action_fits_exec(action, db, env),
        _ => true,
    }
}

/// Runs a command against the store: a `task` subcommand as
/// `task::handle_outcome` says, the agenda as `agenda::agenda_run` says, the
/// overdue list as `agenda::handle_overdue` says.
pub fn dispatch(cmd: Commands, db: &mut crate::db::Database, env: &Env, file: &FileInfo) -> (r: Run)
    requires
        old(db)@.wf(),
        env.wf(),
        command_fits(&cmd, old(db)@, env),
    ensures
        final(db)@.wf(),
        match cmd {
            Commands::Task { action } => (final(db)@, r@) == task::handle_outcome(action, old(db)@, env, file),
            Commands::Agenda { date, .. } => final(db)@ == old(db)@ && agenda::agenda_run(
                old(db)@,
                date.deep_view(),
                env.now,
                r@,
            ),
            Commands::Overdue { .. } => final(db)@ == old(db)@ && agenda::reports_in_agenda_order(
                r@,
                crate::db::overdue_tasks(old(db)@.tasks, env.now),
            ),
        },
{
    match cmd {
        Commands::Task { action } => task::handle(action, db, env, file),
        Commands::Agenda { date, json: _ } => agenda::handle_agenda(db, date, env),
        Commands::Overdue { json: _ } => agenda::handle_overdue(db, env),
    }
}

} // verus!

//! How a task is written to, and read back from, a row of the task table.
use vstd::prelude::*;

use crate::errors::{ErrorView, FlowstateError};
use crate::models::{clone_opt_string, ScheduleType, Status, Task, TaskView};
use crate::time::{
    format_rfc3339, has_four_digit_year, parse_rfc3339, rfc3339_instant, rfc3339_text, Instant,
};

verus! {

/// A task as the table stores it: every field as text.
pub struct TaskRow {
    pub id: String,
    pub title: String,
    pub status: String,
    pub schedule_type: String,
    pub due_at: Option<String>,
    pub recur_rule: Option<String>,
    pub parent_id: Option<String>,
    pub tags: String,
    pub metadata: String,
    pub created_at: String,
    pub updated_at: String,
}

pub struct TaskRowView {
    pub id: Seq<char>,
    pub title: Seq<char>,
    pub status: Seq<char>,
    pub schedule_type: Seq<char>,
    pub due_at: Option<Seq<char>>,
    pub recur_rule: Option<Seq<char>>,
    pub parent_id: Option<Seq<char>>,
    pub tags: Seq<char>,
    pub metadata: Seq<char>,
    pub created_at: Seq<char>,
    pub updated_at: Seq<char>,
}

impl View for TaskRow {
    type V = TaskRowView;

    open spec fn view(&self) -> TaskRowView {
        TaskRowView {
            id: self.id@,
            title: self.title@,
            status: self.status@,
            schedule_type: self.schedule_type@,
            due_at: self.due_at.deep_view(),
            recur_rule: self.recur_rule.deep_view(),
            parent_id: self.parent_id.deep_view(),
            tags: self.tags@,
            metadata: self.metadata@,
            created_at: self.created_at@,
            updated_at: self.updated_at@,
        }
    }
}

/// What `serde_json::to_string` gives for a list of strings: the JSON text,
/// or the error's message.
pub uninterp spec fn json_text_of_strings(items: Seq<Seq<char>>) -> Result<Seq<char>, Seq<char>>;

/// What `serde_json::from_str::<Vec<String>>` gives for a text: the list, or
/// nothing when the text is not a JSON list of strings.
pub uninterp spec fn json_strings_of_text(text: Seq<char>) -> Option<Seq<Seq<char>>>;

/// Calls `serde_json::to_string` on a list of strings. Claims that the
/// outcome is the named function of the list; that it succeeds (serde_json
/// fails only where a value's `Serialize` fails or a map has keys that are
/// not strings, and a list of strings has neither); and that
/// `serde_json::from_str::<Vec<String>>` reads the text back as the list (each
/// string is written as a JSON string literal, with every character that
/// needs it escaped).
#[verifier::external_body]
fn strings_to_json(items: &Vec<String>) -> (r: Result<String, String>)
    ensures
        match r {
            Ok(s) => json_text_of_strings(items.deep_view()) == Ok::<Seq<char>, Seq<char>>(s@),
            Err(m) => json_text_of_strings(items.deep_view()) == Err::<Seq<char>, Seq<char>>(m@),
        },
        r is Ok,
        r matches Ok(s) ==> json_strings_of_text(s@) == Some(items.deep_view()),
{
    serde_json::to_string(items).map_err(|e| e.to_string())
}

/// Calls `serde_json::from_str::<Vec<String>>`. Claims only that the outcome
/// is the named function of the text.
#[verifier::external_body]
fn strings_from_json(text: &str) -> (r: Option<Vec<String>>)
    ensures
        match r {
            Some(v) => json_strings_of_text(text@) == Some(v.deep_view()),
            None => json_strings_of_text(text@) is None,
        },
{
    serde_json::from_str::<Vec<String>>(text).ok()
}

/// The row that stores a task: names for the status and schedule type,
/// RFC 3339 texts for the instants, a JSON list for the tags; refused with
/// a validation error when the tags cannot be written.
pub open spec fn row_outcome(t: TaskView) -> Result<TaskRowView, ErrorView> {
    match json_text_of_strings(t.tags) {
        Err(m) => Err(ErrorView::Validation(m)),
        Ok(tags) => Ok(
            TaskRowView {
                id: t.id,
                title: t.title,
                status: t.status.text(),
                schedule_type: t.schedule_type.text(),
                due_at: match t.due_at {
                    Some(d) => Some(rfc3339_text(d)),
                    None => None,
                },
                recur_rule: t.recur_rule,
                parent_id: t.parent_id,
                tags,
                metadata: t.metadata,
                created_at: rfc3339_text(t.created_at),
                updated_at: rfc3339_text(t.updated_at),
            },
        ),
    }
}

/// Every instant of the task falls in a four-digit year.
pub open spec fn has_four_digit_years(t: TaskView) -> bool {
    &&& has_four_digit_year(t.created_at)
    &&& has_four_digit_year(t.updated_at)
    &&& (t.due_at matches Some(d) ==> has_four_digit_year(d))
}

/// Writes a task as a row (see `row_outcome`). This always succeeds, and a
/// task whose instants fall in four-digit years is read back from its row as
/// the same task, whatever the clock reads: what is stored in one run is what
/// the next run finds.
pub fn task_to_row(t: &Task) -> (r: Result<TaskRow, FlowstateError>)
    requires
        crate::db::task_wf(t@),
    ensures
        match r {
            Ok(row) => row_outcome(t@) == Ok::<TaskRowView, ErrorView>(row@),
            Err(e) => row_outcome(t@) == Err::<TaskRowView, ErrorView>(e@),
        },
        r is Ok,
        has_four_digit_years(t@) ==> forall|now: Instant|
            #[trigger] task_from_row_outcome(r->Ok_0@, now) == Ok::<TaskView, ErrorView>(t@),
{
    proof {
        crate::models::lemma_status_texts();
        crate::models::lemma_schedule_type_texts();
    }
    let tags = match strings_to_json(&t.tags) {
        Ok(s) => s,
        Err(m) => {
            return Err(FlowstateError::Validation(m));
        },
    };
    let due_at = match t.due_at {
        Some(d) => Some(format_rfc3339(d)),
        None => None,
    };
    let row = TaskRow {
        id: t.id.clone(),
        title: t.title.clone(),
        status: String::from_str(t.status.as_str()),
        schedule_type: String::from_str(t.schedule_type.as_str()),
        due_at,
        recur_rule: clone_opt_string(&t.recur_rule),
        parent_id: clone_opt_string(&t.parent_id),
        tags,
        metadata: t.metadata.clone(),
        created_at: format_rfc3339(t.created_at),
        updated_at: format_rfc3339(t.updated_at),
    };
    proof {
        if has_four_digit_years(t@) {
            assert(status_named(row@.status) == Some(t.status));
            assert(schedule_named(row@.schedule_type) == Some(t.schedule_type));
            assert forall|now: Instant| #[trigger]
                task_from_row_outcome(row@, now) == Ok::<TaskView, ErrorView>(t@) by {
                assert(task_from_row_outcome(row@, now)->Ok_0 =~= t@);
            }
        }
    }
    Ok(row)
}

/// The storage's complaint about a text column that does not convert.
pub open spec fn conversion_text(m: Seq<char>) -> Seq<char> {
    "Conversion error from type Text at index: 0, "@ + m
}

/// The status or schedule type that a name denotes, if any.
pub open spec fn status_named(s: Seq<char>) -> Option<Status> {
    if exists|st: Status| st.text() == s {
        Some(choose|st: Status| st.text() == s)
    } else {
        None
    }
}

pub open spec fn schedule_named(s: Seq<char>) -> Option<ScheduleType> {
    if exists|st: ScheduleType| st.text() == s {
        Some(choose|st: ScheduleType| st.text() == s)
    } else {
        None
    }
}

/// An instant read from a stored text, `now` when it does not read.
pub open spec fn instant_or(text: Seq<char>, now: Instant) -> Instant {
    match rfc3339_instant(text) {
        Some(i) => i,
        None => now,
    }
}

/// The task that a row stores: a status or schedule type that is not a name
/// is refused by the storage; a due date that does not read is dropped; tags
/// that do not read are none; creation and update instants that do not read
/// are `now`.
pub open spec fn task_from_row_outcome(r: TaskRowView, now: Instant) -> Result<TaskView, ErrorView> {
    match status_named(r.status) {
        None => Err(ErrorView::Database(conversion_text("invalid status: "@ + r.status))),
        Some(status) => match schedule_named(r.schedule_type) {
            None => Err(ErrorView::Database(conversion_text("invalid schedule type: "@ + r.schedule_type))),
            Some(schedule_type) => Ok(
                TaskView {
                    id: r.id,
                    title: r.title,
                    status,
                    schedule_type,
                    due_at: match r.due_at {
                        Some(s) => rfc3339_instant(s),
                        None => None,
                    },
                    recur_rule: r.recur_rule,
                    parent_id: r.parent_id,
                    tags: match json_strings_of_text(r.tags) {
                        Some(v) => v,
                        None => Seq::empty(),
                    },
                    metadata: r.metadata,
                    created_at: instant_or(r.created_at, now),
                    updated_at: instant_or(r.updated_at, now),
                },
            ),
        },
    }
}

/// Reads a task from a row (see `task_from_row_outcome`).
pub fn task_from_row(row: &TaskRow, now: Instant) -> (r: Result<Task, FlowstateError>)
    requires
        now.wf(),
    ensures
        match r {
            Ok(t) => task_from_row_outcome(row@, now) == Ok::<TaskView, ErrorView>(t@)
                && crate::db::task_wf(t@),
            Err(e) => task_from_row_outcome(row@, now) == Err::<TaskView, ErrorView>(e@),
        },
{
    proof {
        crate::models::lemma_status_texts();
        crate::models::lemma_schedule_type_texts();
    }
    let status = match Status::from_str(row.status.as_str()) {
        Ok(s) => s,
        Err(m) => {
            return Err(
                FlowstateError::Database(
                    String::from_str("Conversion error from type Text at index: 0, ").concat(m.as_str()),
                ),
            );
        },
    };
    let schedule_type = match ScheduleType::from_str(row.schedule_type.as_str()) {
        Ok(s) => s,
        Err(m) => {
            return Err(
                FlowstateError::Database(
                    String::from_str("Conversion error from type Text at index: 0, ").concat(m.as_str()),
                ),
            );
        },
    };
    let due_at = match &row.due_at {
        Some(s) => parse_rfc3339(s.as_str()),
        None => None,
    };
    let tags = match strings_from_json(row.tags.as_str()) {
        Some(v) => v,
        None => {
            let v: Vec<String> = Vec::new();
            assert(v.deep_view() =~= Seq::<Seq<char>>::empty());
            v
        },
    };
    let created_at = match parse_rfc3339(row.created_at.as_str()) {
        Some(i) => i,
        None => now,
    };
    let updated_at = match parse_rfc3339(row.updated_at.as_str()) {
        Some(i) => i,
        None => now,
    };
    Ok(
        Task {
            id: row.id.clone(),
            title: row.title.clone(),
            status,
            schedule_type,
            due_at,
            recur_rule: clone_opt_string(&row.recur_rule),
            parent_id: clone_opt_string(&row.parent_id),
            tags,
            metadata: row.metadata.clone(),
            created_at,
            updated_at,
        },
    )
}

/// An attachment as the table stores it.
pub struct AttachmentRow {
    pub id: String,
    pub task_id: String,
    pub name: String,
    pub path: String,
    pub mime_type: Option<String>,
    pub size_bytes: Option<i64>,
    pub created_at: String,
}

/// The row that stores an attachment: its creation instant as RFC 3339 text,
/// which reads back as that instant when its year has four digits.
pub fn attachment_to_row(a: &crate::models::Attachment) -> (r: AttachmentRow)
    requires
        a.created_at.wf(),
    ensures
        has_four_digit_year(a.created_at) ==> forall|now: Instant|
            #[trigger] instant_or(r.created_at@, now) == a.created_at,
        r.id@ == a.id@,
        r.task_id@ == a.task_id@,
        r.name@ == a.name@,
        r.path@ == a.path@,
        r.mime_type.deep_view() == a.mime_type.deep_view(),
        r.size_bytes == a.size_bytes,
        r.created_at@ == rfc3339_text(a.created_at),
{
    AttachmentRow {
        id: a.id.clone(),
        task_id: a.task_id.clone(),
        name: a.name.clone(),
        path: a.path.clone(),
        mime_type: clone_opt_string(&a.mime_type),
        size_bytes: a.size_bytes,
        created_at: format_rfc3339(a.created_at),
    }
}

/// The attachment that a row stores; a creation instant that does not read is `now`.
pub fn attachment_from_row(row: &AttachmentRow, now: Instant) -> (r: crate::models::Attachment)
    requires
        now.wf(),
    ensures
        r.id@ == row.id@,
        r.task_id@ == row.task_id@,
        r.name@ == row.name@,
        r.path@ == row.path@,
        r.mime_type.deep_view() == row.mime_type.deep_view(),
        r.size_bytes == row.size_bytes,
        r.created_at == instant_or(row.created_at@, now),
        r.created_at.wf(),
{
    crate::models::Attachment {
        id: row.id.clone(),
        task_id: row.task_id.clone(),
        name: row.name.clone(),
        path: row.path.clone(),
        mime_type: clone_opt_string(&row.mime_type),
        size_bytes: row.size_bytes,
        created_at: match parse_rfc3339(row.created_at.as_str()) {
            Some(i) => i,
            None => now,
        },
    }
}

/// Reads an RFC 3339 date-time as a UTC instant.
pub fn instant_from_rfc3339(s: &str) -> (r: Option<Instant>)
    ensures
        r == rfc3339_instant(s@),
        r matches Some(i) ==> i.wf(),
{
    parse_rfc3339(s)
}

} // verus!

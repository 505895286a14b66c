//! The plain-text forms of what the commands report.
use vstd::prelude::*;

use crate::db::{attachment_views, views};
use crate::models::{Attachment, AttachmentView, Task, TaskView};
use crate::time::{format_instant, instant_formatted};

verus! {

/// `[<id>] <title> (<status>)`, then ` due:<YYYY-MM-DD>` when the task is due.
pub open spec fn task_line_text(t: TaskView) -> Seq<char> {
    "["@ + t.id + "] "@ + t.title + " ("@ + t.status.text() + ")"@ + match t.due_at {
        Some(d) => " due:"@ + instant_formatted(d, "%Y-%m-%d"@),
        None => Seq::empty(),
    }
}

/// One task as a line of text (see `task_line_text`).
pub fn task_line(t: &Task) -> (r: String)
    requires
        crate::db::task_wf(t@),
    ensures
        r@ == task_line_text(t@),
{
    let head = String::from_str("[").concat(t.id.as_str()).concat("] ").concat(t.title.as_str()).concat(
        " (",
    ).concat(t.status.as_str()).concat(")");
    match t.due_at {
        Some(d) => {
            let day = format_instant(d, "%Y-%m-%d");
            head.concat(" due:").concat(day.as_str())
        },
        None => {
            assert(head@ + Seq::<char>::empty() =~= head@);
            head
        },
    }
}

/// The lines that show a list of tasks: one per task, or `No tasks found.`
pub open spec fn task_lines_text(ts: Seq<TaskView>) -> Seq<Seq<char>> {
    if ts.len() == 0 {
        seq!["No tasks found."@]
    } else {
        ts.map_values(|t: TaskView| task_line_text(t))
    }
}

/// A list of tasks as lines of text (see `task_lines_text`).
pub fn task_lines(ts: &Vec<Task>) -> (r: Vec<String>)
    requires
        forall|i: int| 0 <= i < ts@.len() ==> crate::db::task_wf(#[trigger] ts@[i]@),
    ensures
        r.deep_view() == task_lines_text(views(ts@)),
{
    let mut out: Vec<String> = Vec::new();
    if ts.len() == 0 {
        out.push(String::from_str("No tasks found."));
        assert(out.deep_view() =~= seq!["No tasks found."@]);
        return out;
    }
    for i in 0..ts.len()
        invariant
            out@.len() == i,
            forall|j: int| 0 <= j < i ==> (#[trigger] out@[j])@ == task_line_text(ts@[j]@),
            forall|j: int| 0 <= j < ts@.len() ==> crate::db::task_wf(#[trigger] ts@[j]@),
    {
        out.push(task_line(&ts[i]));
    }
    assert(out.deep_view() =~= views(ts@).map_values(|t: TaskView| task_line_text(t)));
    out
}

/// `[<id>] <name> -> <path> (<mime type, or unknown>)`
pub open spec fn attachment_line_text(a: AttachmentView) -> Seq<char> {
    "["@ + a.id + "] "@ + a.name + " -> "@ + a.path + " ("@ + match a.mime_type {
        Some(m) => m,
        None => "unknown"@,
    } + ")"@
}

/// One attachment as a line of text (see `attachment_line_text`).
pub fn attachment_line(a: &Attachment) -> (r: String)
    ensures
        r@ == attachment_line_text(a@),
{
    let mime: &str = match &a.mime_type {
        Some(m) => m.as_str(),
        None => "unknown",
    };
    String::from_str("[").concat(a.id.as_str()).concat("] ").concat(a.name.as_str()).concat(" -> ").concat(
        a.path.as_str(),
    ).concat(" (").concat(mime).concat(")")
}

/// The lines that show a list of attachments: one per attachment, or
/// `No attachments found.`
pub open spec fn attachment_lines_text(v: Seq<AttachmentView>) -> Seq<Seq<char>> {
    if v.len() == 0 {
        seq!["No attachments found."@]
    } else {
        v.map_values(|a: AttachmentView| attachment_line_text(a))
    }
}

/// A list of attachments as lines of text (see `attachment_lines_text`).
pub fn attachment_lines(v: &Vec<Attachment>) -> (r: Vec<String>)
    ensures
        r.deep_view() == attachment_lines_text(attachment_views(v@)),
{
    let mut out: Vec<String> = Vec::new();
    if v.len() == 0 {
        out.push(String::from_str("No attachments found."));
        assert(out.deep_view() =~= seq!["No attachments found."@]);
        return out;
    }
    for i in 0..v.len()
        invariant
            out@.len() == i,
            forall|j: int| 0 <= j < i ==> (#[trigger] out@[j])@ == attachment_line_text(v@[j]@),
    {
        out.push(attachment_line(&v[i]));
    }
    assert(out.deep_view() =~= attachment_views(v@).map_values(|a: AttachmentView| attachment_line_text(a)));
    out
}

} // verus!

//! The task model: statuses, schedule types, tasks and attachments.
use vstd::prelude::*;

use crate::text::str_eq;
use crate::time::Instant;

verus! {

/// Where a task stands.
#[derive(Clone, Copy, Debug, PartialEq, Eq, Structural)]
pub enum Status {
    Pending,
    InProgress,
    Done,
    Cancelled,
    Blocked,
}

/// How a task repeats, if at all.
#[derive(Clone, Copy, Debug, PartialEq, Eq, Structural)]
pub enum ScheduleType {
    Once,
    Daily,
    Weekly,
    Recurring,
    Deadline,
}

impl Status {
    /// The status's name, as it is written and read.
    pub open spec fn text(self) -> Seq<char> {
        match self {
            Status::Pending => "pending"@,
            Status::InProgress => "in_progress"@,
            Status::Done => "done"@,
            Status::Cancelled => "cancelled"@,
            Status::Blocked => "blocked"@,
        }
    }

    /// Done or cancelled: nothing more is expected of the task.
    pub open spec fn is_resolved(self) -> bool {
        self == Status::Done || self == Status::Cancelled
    }

    /// The status's name (the text that `Display` wrote).
    pub fn as_str(&self) -> (r: &'static str)
        ensures
            r@ == self.text(),
    {
        match self {
            Status::Pending => "pending",
            Status::InProgress => "in_progress",
            Status::Done => "done",
            Status::Cancelled => "cancelled",
            Status::Blocked => "blocked",
        }
    }

    /// Reads a status from its name; any other text is refused with
    /// `invalid status: <text>`.
    pub fn from_str(s: &str) -> (r: Result<Status, String>)
        ensures
            match r {
                Ok(st) => st.text() == s@,
                Err(e) => (forall|st: Status| st.text() != s@) && e@ == "invalid status: "@ + s@,
            },
    {
        proof {
            lemma_status_texts();
        }
        if str_eq(s, "pending") {
            Ok(Status::Pending)
        } else if str_eq(s, "in_progress") {
            Ok(Status::InProgress)
        } else if str_eq(s, "done") {
            Ok(Status::Done)
        } else if str_eq(s, "cancelled") {
            Ok(Status::Cancelled)
        } else if str_eq(s, "blocked") {
            Ok(Status::Blocked)
        } else {
            Err(String::from_str("invalid status: ").concat(s))
        }
    }
}

impl ScheduleType {
    /// The schedule type's name, as it is written and read.
    pub open spec fn text(self) -> Seq<char> {
        match self {
            ScheduleType::Once => "once"@,
            ScheduleType::Daily => "daily"@,
            ScheduleType::Weekly => "weekly"@,
            ScheduleType::Recurring => "recurring"@,
            ScheduleType::Deadline => "deadline"@,
        }
    }

    /// The schedule type's name (the text that `Display` wrote).
    pub fn as_str(&self) -> (r: &'static str)
        ensures
            r@ == self.text(),
    {
        match self {
            ScheduleType::Once => "once",
            ScheduleType::Daily => "daily",
            ScheduleType::Weekly => "weekly",
            ScheduleType::Recurring => "recurring",
            ScheduleType::Deadline => "deadline",
        }
    }

    /// Reads a schedule type from its name; any other text is refused with
    /// `invalid schedule type: <text>`.
    pub fn from_str(s: &str) -> (r: Result<ScheduleType, String>)
        ensures
            match r {
                Ok(st) => st.text() == s@,
                Err(e) => (forall|st: ScheduleType| st.text() != s@) && e@ == "invalid schedule type: "@
                    + s@,
            },
    {
        if str_eq(s, "once") {
            Ok(ScheduleType::Once)
        } else if str_eq(s, "daily") {
            Ok(ScheduleType::Daily)
        } else if str_eq(s, "weekly") {
            Ok(ScheduleType::Weekly)
        } else if str_eq(s, "recurring") {
            Ok(ScheduleType::Recurring)
        } else if str_eq(s, "deadline") {
            Ok(ScheduleType::Deadline)
        } else {
            Err(String::from_str("invalid schedule type: ").concat(s))
        }
    }
}

/// The names of the statuses are pairwise different.
pub proof fn lemma_status_texts()
    ensures
        forall|a: Status, b: Status| a.text() == b.text() ==> a == b,
{
    reveal_strlit("pending");
    reveal_strlit("in_progress");
    reveal_strlit("done");
    reveal_strlit("cancelled");
    reveal_strlit("blocked");
    assert forall|a: Status, b: Status| a.text() == b.text() implies a == b by {
        if a != b {
            assert(a.text().len() != b.text().len() || a.text()[0] != b.text()[0]);
        }
    }
}

/// The names of the schedule types are pairwise different.
pub proof fn lemma_schedule_type_texts()
    ensures
        forall|a: ScheduleType, b: ScheduleType| a.text() == b.text() ==> a == b,
{
    reveal_strlit("once");
    reveal_strlit("daily");
    reveal_strlit("weekly");
    reveal_strlit("recurring");
    reveal_strlit("deadline");
    assert forall|a: ScheduleType, b: ScheduleType| a.text() == b.text() implies a == b by {
        if a != b {
            assert(a.text().len() != b.text().len() || a.text()[0] != b.text()[0]);
        }
    }
}

/// A task as the library reasons about it: texts as character sequences.
#[verifier::ext_equal]
pub struct TaskView {
    pub id: Seq<char>,
    pub title: Seq<char>,
    pub status: Status,
    pub schedule_type: ScheduleType,
    pub due_at: Option<Instant>,
    pub recur_rule: Option<Seq<char>>,
    pub parent_id: Option<Seq<char>>,
    pub tags: Seq<Seq<char>>,
    pub metadata: Seq<char>,
    pub created_at: Instant,
    pub updated_at: Instant,
}

/// A task. `metadata` holds the text of a JSON object (`{}` when none was given).
#[derive(Debug)]
pub struct Task {
    pub id: String,
    pub title: String,
    pub status: Status,
    pub schedule_type: ScheduleType,
    pub due_at: Option<Instant>,
    pub recur_rule: Option<String>,
    pub parent_id: Option<String>,
    pub tags: Vec<String>,
    pub metadata: String,
    pub created_at: Instant,
    pub updated_at: Instant,
}

impl View for Task {
    type V = TaskView;

    open spec fn view(&self) -> TaskView {
        TaskView {
            id: self.id@,
            title: self.title@,
            status: self.status,
            schedule_type: self.schedule_type,
            due_at: self.due_at,
            recur_rule: self.recur_rule.deep_view(),
            parent_id: self.parent_id.deep_view(),
            tags: self.tags.deep_view(),
            metadata: self.metadata@,
            created_at: self.created_at,
            updated_at: self.updated_at,
        }
    }
}

/// A file attached to a task.
#[verifier::ext_equal]
pub struct AttachmentView {
    pub id: Seq<char>,
    pub task_id: Seq<char>,
    pub name: Seq<char>,
    pub path: Seq<char>,
    pub mime_type: Option<Seq<char>>,
    pub size_bytes: Option<i64>,
    pub created_at: Instant,
}

/// A file attached to a task.
#[derive(Debug)]
pub struct Attachment {
    pub id: String,
    pub task_id: String,
    pub name: String,
    pub path: String,
    pub mime_type: Option<String>,
    pub size_bytes: Option<i64>,
    pub created_at: Instant,
}

impl View for Attachment {
    type V = AttachmentView;

    open spec fn view(&self) -> AttachmentView {
        AttachmentView {
            id: self.id@,
            task_id: self.task_id@,
            name: self.name@,
            path: self.path@,
            mime_type: self.mime_type.deep_view(),
            size_bytes: self.size_bytes,
            created_at: self.created_at,
        }
    }
}

/// A copy of an optional string.
pub fn clone_opt_string(s: &Option<String>) -> (r: Option<String>)
    ensures
        r.deep_view() == s.deep_view(),
{
    match s {
        Some(x) => Some(x.clone()),
        None => None,
    }
}

/// A copy of a list of strings.
pub fn clone_strings(v: &Vec<String>) -> (r: Vec<String>)
    ensures
        r.deep_view() == v.deep_view(),
{
    let mut out: Vec<String> = Vec::new();
    for i in 0..v.len()
        invariant
            out@.len() == i,
            forall|j: int| 0 <= j < i ==> out@[j]@ == v@[j]@,
    {
        out.push(v[i].clone());
    }
    assert(out.deep_view() =~= v.deep_view());
    out
}

impl Task {
    /// The task carries this tag.
    pub fn has_tag(&self, tag: &str) -> (r: bool)
        ensures
            r == self@.tags.contains(tag@),
    {
        for i in 0..self.tags.len()
            invariant
                forall|j: int| 0 <= j < i ==> self.tags@[j]@ != tag@,
        {
            if str_eq(self.tags[i].as_str(), tag) {
                assert(self@.tags[i as int] == tag@);
                return true;
            }
        }
        assert forall|j: int| 0 <= j < self@.tags.len() implies self@.tags[j] != tag@ by {
            assert(self.tags@[j]@ == self@.tags[j]);
        }
        false
    }

    /// A copy of the task.
    pub fn duplicate(&self) -> (r: Task)
        ensures
            r@ == self@,
    {
        Task {
            id: self.id.clone(),
            title: self.title.clone(),
            status: self.status,
            schedule_type: self.schedule_type,
            due_at: self.due_at,
            recur_rule: clone_opt_string(&self.recur_rule),
            parent_id: clone_opt_string(&self.parent_id),
            tags: clone_strings(&self.tags),
            metadata: self.metadata.clone(),
            created_at: self.created_at,
            updated_at: self.updated_at,
        }
    }
}

impl Attachment {
    /// A copy of the attachment.
    pub fn duplicate(&self) -> (r: Attachment)
        ensures
            r@ == self@,
    {
        Attachment {
            id: self.id.clone(),
            task_id: self.task_id.clone(),
            name: self.name.clone(),
            path: self.path.clone(),
            mime_type: clone_opt_string(&self.mime_type),
            size_bytes: self.size_bytes,
            created_at: self.created_at,
        }
    }
}

/// The characters that generated identifiers draw from: `a`-`z` and `0`-`9`.
pub open spec fn is_id_char(c: char) -> bool {
    ('a' <= c && c <= 'z') || ('0' <= c && c <= '9')
}

/// An identifier: the given three-character prefix and eight identifier characters.
pub open spec fn has_id_shape(s: Seq<char>, prefix: Seq<char>) -> bool {
    &&& s.len() == 11
    &&& s.subrange(0, 3) == prefix
    &&& forall|i: int| 3 <= i < 11 ==> is_id_char(#[trigger] s[i])
}

/// Calls `nanoid::format` with the default random source. From its source:
/// the result has `size` characters, each taken from `alphabet` (which must be
/// at most 255 ASCII characters, else it panics; an empty one never returns).
/// Which characters come out is chance.
#[verifier::external_body]
fn random_chars(alphabet: &[char], size: usize) -> (r: String)
    requires
        0 < alphabet@.len() <= 255,
        size > 0,
        forall|i: int| 0 <= i < alphabet@.len() ==> (alphabet@[i] as u32) < 128,
    ensures
        r@.len() == size,
        forall|i: int| 0 <= i < r@.len() ==> alphabet@.contains(#[trigger] r@[i]),
{
    nanoid::format(nanoid::rngs::default, alphabet, size)
}

/// A fresh random identifier: the prefix and eight random identifier characters.
fn generate_id(prefix: &str) -> (r: String)
    requires
        prefix@.len() == 3,
    ensures
        has_id_shape(r@, prefix@),
{
    let alphabet: Vec<char> = vec![
        'a', 'b', 'c', 'd', 'e', 'f', 'g', 'h', 'i', 'j', 'k', 'l', 'm', 'n', 'o', 'p', 'q', 'r',
        's', 't', 'u', 'v', 'w', 'x', 'y', 'z', '0', '1', '2', '3', '4', '5', '6', '7', '8', '9',
    ];
    let suffix = random_chars(alphabet.as_slice(), 8);
    let r = String::from_str(prefix).concat(suffix.as_str());
    assert forall|i: int| 3 <= i < 11 implies is_id_char(#[trigger] r@[i]) by {
        assert(r@[i] == suffix@[i - 3]);
        assert(alphabet@.contains(suffix@[i - 3]));
    }
    assert(r@.subrange(0, 3) =~= prefix@);
    r
}

/// A fresh task identifier, `tk_` and eight random characters.
pub fn generate_task_id() -> (r: String)
    ensures
        has_id_shape(r@, "tk_"@),
{
    proof {
        reveal_strlit("tk_");
    }
    generate_id("tk_")
}

/// A fresh attachment identifier, `at_` and eight random characters.
pub fn generate_attachment_id() -> (r: String)
    ensures
        has_id_shape(r@, "at_"@),
{
    proof {
        reveal_strlit("at_");
    }
    generate_id("at_")
}

} // verus!

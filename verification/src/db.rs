//! The task store: every task and attachment, with the queries and updates
//! that the commands make. It keeps its tasks in creation order, with unique
//! ids and with every parent present.
use vstd::prelude::*;

use crate::errors::{clock_unread, clock_unread_text, ErrorView, FlowstateError};
use crate::models::{
    clone_opt_string, clone_strings, Attachment, AttachmentView, ScheduleType, Status, Task,
    TaskView,
};
use crate::text::str_eq;
use crate::time::{
    date_parsed_with_format, day_end, day_start, parse_date_with_format, parse_rfc3339,
    rfc3339_instant, spec_day_start_secs, weekday_name, weekday_of, Date, Instant,
};

verus! {

/// The views of a sequence of tasks.
pub open spec fn views(v: Seq<Task>) -> Seq<TaskView> {
    v.map_values(|t: Task| t@)
}

/// The views of a sequence of attachments.
pub open spec fn attachment_views(v: Seq<Attachment>) -> Seq<AttachmentView> {
    v.map_values(|a: Attachment| a@)
}

/// Some task has this id.
pub open spec fn has_task(s: Seq<TaskView>, id: Seq<char>) -> bool {
    exists|i: int| 0 <= i < s.len() && (#[trigger] s[i]).id == id
}

/// The task with this id (meaningful when `has_task` holds).
pub open spec fn task_of(s: Seq<TaskView>, id: Seq<char>) -> TaskView {
    s[choose|i: int| 0 <= i < s.len() && (#[trigger] s[i]).id == id]
}

/// No two tasks share an id.
pub open spec fn unique_ids(s: Seq<TaskView>) -> bool {
    forall|i: int, j: int|
        0 <= i < s.len() && 0 <= j < s.len() && (#[trigger] s[i]).id == (#[trigger] s[j]).id ==> i
            == j
}

/// The tasks come in order of creation.
pub open spec fn sorted_by_created(s: Seq<TaskView>) -> bool {
    forall|i: int, j: int|
        0 <= i < j < s.len() ==> (#[trigger] s[i]).created_at.spec_le((#[trigger] s[j]).created_at)
}

/// Every parent that a task names is in the store.
pub open spec fn parents_present(s: Seq<TaskView>) -> bool {
    forall|i: int|
        0 <= i < s.len() && (#[trigger] s[i]).parent_id is Some ==> has_task(s, s[i].parent_id->0)
}

/// A task's instants lie in the range that the clock and calendar represent.
pub open spec fn task_wf(t: TaskView) -> bool {
    &&& t.created_at.wf()
    &&& t.updated_at.wf()
    &&& (t.due_at matches Some(d) ==> d.wf())
}

/// The invariant of the store's tasks.
pub open spec fn tasks_wf(s: Seq<TaskView>) -> bool {
    &&& unique_ids(s)
    &&& sorted_by_created(s)
    &&& parents_present(s)
    &&& forall|i: int| 0 <= i < s.len() ==> task_wf(#[trigger] s[i])
}

/// Some attachment has this id.
pub open spec fn has_attachment(s: Seq<AttachmentView>, id: Seq<char>) -> bool {
    exists|i: int| 0 <= i < s.len() && (#[trigger] s[i]).id == id
}

/// The invariant of the store's attachments: unique ids, each on a task of the store.
pub open spec fn attachments_wf(a: Seq<AttachmentView>, s: Seq<TaskView>) -> bool {
    &&& forall|i: int, j: int|
        0 <= i < a.len() && 0 <= j < a.len() && (#[trigger] a[i]).id == (#[trigger] a[j]).id ==> i
            == j
    &&& forall|i: int| 0 <= i < a.len() ==> has_task(s, (#[trigger] a[i]).task_id)
    &&& forall|i: int| 0 <= i < a.len() ==> (#[trigger] a[i]).created_at.wf()
}

/// The store as the library reasons about it.
pub struct DbView {
    pub tasks: Seq<TaskView>,
    pub attachments: Seq<AttachmentView>,
}

/// Every task and attachment, held in memory.
pub struct Database {
    tasks: Vec<Task>,
    attachments: Vec<Attachment>,
}

impl View for Database {
    type V = DbView;

    closed spec fn view(&self) -> DbView {
        DbView { tasks: views(self.tasks@), attachments: attachment_views(self.attachments@) }
    }
}

impl DbView {
    /// The store's invariant.
    pub open spec fn wf(self) -> bool {
        tasks_wf(self.tasks) && attachments_wf(self.attachments, self.tasks)
    }
}

/// `task <id> not found`
pub open spec fn task_not_found_text(id: Seq<char>) -> Seq<char> {
    "task "@ + id + " not found"@
}

/// `parent task <id> not found`
pub open spec fn parent_not_found_text(id: Seq<char>) -> Seq<char> {
    "parent task "@ + id + " not found"@
}

/// The storage's refusal of a second task with an id already in use.
pub open spec fn duplicate_task_text() -> Seq<char> {
    "UNIQUE constraint failed: tasks.id"@
}

/// The storage's refusal of a second attachment with an id already in use.
pub open spec fn duplicate_attachment_text() -> Seq<char> {
    "UNIQUE constraint failed: attachments.id"@
}

pub(crate) fn task_not_found(id: &str) -> (e: FlowstateError)
    ensures
        e@ == ErrorView::NotFound(task_not_found_text(id@)),
{
    FlowstateError::NotFound(String::from_str("task ").concat(id).concat(" not found"))
}

/// The position at which a task created at `c` joins `s`: after every
/// task, from the end, created no later than `c`.
pub open spec fn insertion_point(s: Seq<TaskView>, c: Instant) -> int
    decreases s.len(),
{
    if s.len() == 0 {
        0
    } else if s.last().created_at.spec_le(c) {
        s.len() as int
    } else {
        insertion_point(s.drop_last(), c)
    }
}

pub(crate) proof fn lemma_insertion_point_bounds(s: Seq<TaskView>, c: Instant)
    ensures
        0 <= insertion_point(s, c) <= s.len(),
    decreases s.len(),
{
    if s.len() > 0 {
        lemma_insertion_point_bounds(s.drop_last(), c);
    }
}

/// What inserting a task gives: refused when its parent is missing, then
/// when its id is taken; else the task joins the store in creation order.
pub open spec fn insert_outcome(db: DbView, t: TaskView) -> (DbView, Result<(), ErrorView>) {
    if t.parent_id is Some && !has_task(db.tasks, t.parent_id->0) {
        (db, Err(ErrorView::NotFound(parent_not_found_text(t.parent_id->0))))
    } else if has_task(db.tasks, t.id) {
        (db, Err(ErrorView::Database(duplicate_task_text())))
    } else {
        (
            DbView {
                tasks: db.tasks.insert(insertion_point(db.tasks, t.created_at), t),
                attachments: db.attachments,
            },
            Ok(()),
        )
    }
}

/// The view of a result that carries nothing.
pub open spec fn unit_result_view(r: Result<(), FlowstateError>) -> Result<(), ErrorView> {
    match r {
        Ok(()) => Ok(()),
        Err(e) => Err(e@),
    }
}

/// The view of a result that carries a task.
pub open spec fn task_result_view(r: Result<Task, FlowstateError>) -> Result<TaskView, ErrorView> {
    match r {
        Ok(t) => Ok(t@),
        Err(e) => Err(e@),
    }
}

pub(crate) proof fn lemma_unique_index(s: Seq<TaskView>, i: int, id: Seq<char>)
    requires
        unique_ids(s),
        0 <= i < s.len(),
        s[i].id == id,
    ensures
        has_task(s, id),
        task_of(s, id) == s[i],
{
    assert(has_task(s, id));
    let k = choose|k: int| 0 <= k < s.len() && (#[trigger] s[k]).id == id;
    assert(s[k].id == s[i].id);
}

pub(crate) proof fn lemma_insert_keeps_wf(db: DbView, p: int, t: TaskView)
    requires
        db.wf(),
        task_wf(t),
        0 <= p <= db.tasks.len(),
        p == insertion_point(db.tasks, t.created_at),
        forall|j: int| p <= j < db.tasks.len() ==> !(#[trigger] db.tasks[j]).created_at.spec_le(t.created_at),
        !has_task(db.tasks, t.id),
        t.parent_id is Some ==> has_task(db.tasks, t.parent_id->0),
    ensures
        (DbView { tasks: db.tasks.insert(p, t), attachments: db.attachments }).wf(),
{
    let old_tasks = db.tasks;
    let new_tasks = db.tasks.insert(p, t);
    let c = t.created_at;
    assert(p > 0 ==> old_tasks[p - 1].created_at.spec_le(c)) by {
        if p > 0 {
            lemma_insertion_point_last(old_tasks, c);
        }
    }
    assert forall|i: int, j: int|
        0 <= i < new_tasks.len() && 0 <= j < new_tasks.len() && (#[trigger] new_tasks[i]).id
            == (#[trigger] new_tasks[j]).id implies i == j by {
        if i != p && j != p {
            let i0 = if i < p { i } else { i - 1 };
            let j0 = if j < p { j } else { j - 1 };
            assert(old_tasks[i0] == new_tasks[i]);
            assert(old_tasks[j0] == new_tasks[j]);
        } else if i == p && j != p {
            let j0 = if j < p { j } else { j - 1 };
            assert(old_tasks[j0] == new_tasks[j]);
        } else if j == p && i != p {
            let i0 = if i < p { i } else { i - 1 };
            assert(old_tasks[i0] == new_tasks[i]);
        }
    }
    assert forall|i: int, j: int| 0 <= i < j < new_tasks.len() implies
        (#[trigger] new_tasks[i]).created_at.spec_le((#[trigger] new_tasks[j]).created_at) by {
        if j < p {
            assert(new_tasks[i] == old_tasks[i]);
            assert(new_tasks[j] == old_tasks[j]);
        } else if i > p {
            assert(new_tasks[i] == old_tasks[i - 1]);
            assert(new_tasks[j] == old_tasks[j - 1]);
        } else if i == p {
            assert(new_tasks[j] == old_tasks[j - 1]);
            assert(!old_tasks[j - 1].created_at.spec_le(c));
        } else if j == p {
            assert(new_tasks[i] == old_tasks[i]);
            assert(i == p - 1 || old_tasks[i].created_at.spec_le(old_tasks[p - 1].created_at));
        } else {
            assert(new_tasks[i] == old_tasks[i]);
            assert(new_tasks[j] == old_tasks[j - 1]);
        }
    }
    assert forall|i: int| 0 <= i < new_tasks.len() && (#[trigger] new_tasks[i]).parent_id is Some
        implies has_task(new_tasks, new_tasks[i].parent_id->0) by {
        let pid = new_tasks[i].parent_id->0;
        if i != p {
            let i0 = if i < p { i } else { i - 1 };
            assert(old_tasks[i0] == new_tasks[i]);
        }
        let k = choose|k: int| 0 <= k < old_tasks.len() && (#[trigger] old_tasks[k]).id == pid;
        let k1 = if k < p { k } else { k + 1 };
        assert(new_tasks[k1] == old_tasks[k]);
    }
    assert forall|i: int| 0 <= i < new_tasks.len() implies task_wf(#[trigger] new_tasks[i]) by {
        if i != p {
            let i0 = if i < p { i } else { i - 1 };
            assert(old_tasks[i0] == new_tasks[i]);
        }
    }
    assert forall|i: int| 0 <= i < db.attachments.len() implies has_task(
        new_tasks, (#[trigger] db.attachments[i]).task_id) by {
        let tid = db.attachments[i].task_id;
        let k = choose|k: int| 0 <= k < old_tasks.len() && (#[trigger] old_tasks[k]).id == tid;
        let k1 = if k < p { k } else { k + 1 };
        assert(new_tasks[k1] == old_tasks[k]);
    }
}

pub(crate) proof fn lemma_insertion_point_last(s: Seq<TaskView>, c: Instant)
    requires
        insertion_point(s, c) > 0,
    ensures
        insertion_point(s, c) <= s.len(),
        s[insertion_point(s, c) - 1].created_at.spec_le(c),
    decreases s.len(),
{
    if s.len() > 0 && !s.last().created_at.spec_le(c) {
        lemma_insertion_point_last(s.drop_last(), c);
    }
}

impl Database {
    /// An empty store.
    pub fn new() -> (db: Database)
        ensures
            db@.tasks == Seq::<TaskView>::empty(),
            db@.attachments == Seq::<AttachmentView>::empty(),
            db@.wf(),
    {
        let db = Database { tasks: Vec::new(), attachments: Vec::new() };
        assert(views(db.tasks@) =~= Seq::<TaskView>::empty());
        assert(attachment_views(db.attachments@) =~= Seq::<AttachmentView>::empty());
        db
    }

    /// Index of the task with this id.
    fn find_index(&self, id: &str) -> (r: Option<usize>)
        ensures
            match r {
                Some(i) => i < self@.tasks.len() && self@.tasks[i as int].id == id@,
                None => !has_task(self@.tasks, id@),
            },
    {
        for i in 0..self.tasks.len()
            invariant
                self@.tasks == views(self.tasks@),
                forall|j: int| 0 <= j < i ==> self@.tasks[j].id != id@,
        {
            if str_eq(self.tasks[i].id.as_str(), id) {
                return Some(i);
            }
        }
        None
    }

    /// The task with this id, or `task <id> not found`.
    pub fn get_task(&self, id: &str) -> (r: Result<Task, FlowstateError>)
        requires
            self@.wf(),
        ensures
            task_result_view(r) == (if has_task(self@.tasks, id@) {
                Ok(task_of(self@.tasks, id@))
            } else {
                Err(ErrorView::NotFound(task_not_found_text(id@)))
            }),
    {
        match self.find_index(id) {
            Some(i) => {
                proof {
                    lemma_unique_index(self@.tasks, i as int, id@);
                }
                Ok(self.tasks[i].duplicate())
            },
            None => Err(task_not_found(id)),
        }
    }

    /// Adds a task: refused with `parent task <id> not found` when the
    /// parent it names is missing, and by the storage when its id is taken;
    /// else the task joins the store in order of creation.
    pub fn insert_task(&mut self, task: &Task) -> (r: Result<(), FlowstateError>)
        requires
            old(self)@.wf(),
            task_wf(task@),
        ensures
            (final(self)@, unit_result_view(r)) == insert_outcome(old(self)@, task@),
            final(self)@.wf(),
    {
        if let Some(pid) = &task.parent_id {
            if self.find_index(pid.as_str()).is_none() {
                return Err(
                    FlowstateError::NotFound(
                        String::from_str("parent task ").concat(pid.as_str()).concat(" not found"),
                    ),
                );
            }
        }
        if self.find_index(task.id.as_str()).is_some() {
            return Err(FlowstateError::Database(String::from_str("UNIQUE constraint failed: tasks.id")));
        }
        let ghost old_tasks = self@.tasks;
        let c = task.created_at;
        let mut p = self.tasks.len();
        assert(old_tasks.take(p as int) =~= old_tasks);
        while p > 0 && !self.tasks[p - 1].created_at.le(&c)
            invariant
                p <= self.tasks.len(),
                self@.tasks == old_tasks,
                self@.tasks == views(self.tasks@),
                insertion_point(old_tasks, c) == insertion_point(old_tasks.take(p as int), c),
                forall|j: int| p <= j < old_tasks.len() ==> !(#[trigger] old_tasks[j]).created_at.spec_le(c),
            decreases p,
        {
            assert(old_tasks.take(p as int).drop_last() =~= old_tasks.take(p - 1));
            p = p - 1;
        }
        proof {
            if p > 0 {
                assert(old_tasks.take(p as int).last() == old_tasks[p - 1]);
            }
        }
        assert(insertion_point(old_tasks, c) == p);
        self.tasks.insert(p, task.duplicate());
        assert(views(self.tasks@) =~= old_tasks.insert(p as int, task@));
        proof {
            lemma_insert_keeps_wf(old(self)@, p as int, task@);
        }
        Ok(())
    }
}

/// Which tasks a listing keeps; each field that is set must match.
pub struct TaskFilters {
    pub status: Option<Status>,
    pub schedule_type: Option<ScheduleType>,
    pub tag: Option<String>,
    pub due_before: Option<Instant>,
    pub parent_id: Option<String>,
}

pub struct FiltersView {
    pub status: Option<Status>,
    pub schedule_type: Option<ScheduleType>,
    pub tag: Option<Seq<char>>,
    pub due_before: Option<Instant>,
    pub parent_id: Option<Seq<char>>,
}

impl View for TaskFilters {
    type V = FiltersView;

    open spec fn view(&self) -> FiltersView {
        FiltersView {
            status: self.status,
            schedule_type: self.schedule_type,
            tag: self.tag.deep_view(),
            due_before: self.due_before,
            parent_id: self.parent_id.deep_view(),
        }
    }
}

impl Default for TaskFilters {
    /// Filters that keep every task.
    fn default() -> (r: TaskFilters)
        ensures
            r@.status is None,
            r@.schedule_type is None,
            r@.tag is None,
            r@.due_before is None,
            r@.parent_id is None,
    {
        TaskFilters { status: None, schedule_type: None, tag: None, due_before: None, parent_id: None }
    }
}

/// A task passes the filters: its status and schedule type are those
/// asked for, it carries the tag, it is due no later than the bound, and its
/// parent is the one asked for.
pub open spec fn matches_filters(t: TaskView, f: FiltersView) -> bool {
    &&& (f.status matches Some(s) ==> t.status == s)
    &&& (f.schedule_type matches Some(s) ==> t.schedule_type == s)
    &&& (f.tag matches Some(g) ==> t.tags.contains(g))
    &&& (f.due_before matches Some(b) ==> (t.due_at matches Some(d) && d.spec_le(b)))
    &&& (f.parent_id matches Some(p) ==> t.parent_id == Some(p))
}

/// The tasks of a store that pass the filters, in creation order.
pub open spec fn filtered(s: Seq<TaskView>, f: FiltersView) -> Seq<TaskView> {
    s.filter(|t: TaskView| matches_filters(t, f))
}

/// The children of a task, in creation order.
pub open spec fn children_of(s: Seq<TaskView>, parent_id: Seq<char>) -> Seq<TaskView> {
    s.filter(|t: TaskView| t.parent_id == Some(parent_id))
}

fn opt_str_eq(a: &Option<String>, b: &str) -> (r: bool)
    ensures
        r == (a.deep_view() == Some(b@)),
{
    match a {
        Some(x) => str_eq(x.as_str(), b),
        None => false,
    }
}

fn task_matches(t: &Task, f: &TaskFilters) -> (r: bool)
    ensures
        r == matches_filters(t@, f@),
{
    if let Some(s) = f.status {
        if t.status != s {
            return false;
        }
    }
    if let Some(s) = f.schedule_type {
        if t.schedule_type != s {
            return false;
        }
    }
    if let Some(g) = &f.tag {
        if !t.has_tag(g.as_str()) {
            return false;
        }
    }
    if let Some(b) = &f.due_before {
        match &t.due_at {
            Some(d) => {
                if !d.le(b) {
                    return false;
                }
            },
            None => {
                return false;
            },
        }
    }
    if let Some(p) = &f.parent_id {
        if !opt_str_eq(&t.parent_id, p.as_str()) {
            return false;
        }
    }
    true
}

/// Changes to a task; each field that is set replaces the task's own.
pub struct TaskUpdates {
    pub title: Option<String>,
    pub status: Option<Status>,
    pub due_at: Option<Option<Instant>>,
    pub tags: Option<Vec<String>>,
    pub recur_rule: Option<Option<String>>,
    pub metadata: Option<String>,
}

pub struct UpdatesView {
    pub title: Option<Seq<char>>,
    pub status: Option<Status>,
    pub due_at: Option<Option<Instant>>,
    pub tags: Option<Seq<Seq<char>>>,
    pub recur_rule: Option<Option<Seq<char>>>,
    pub metadata: Option<Seq<char>>,
}

impl View for TaskUpdates {
    type V = UpdatesView;

    open spec fn view(&self) -> UpdatesView {
        UpdatesView {
            title: self.title.deep_view(),
            status: self.status,
            due_at: self.due_at,
            tags: match &self.tags {
                Some(v) => Some(v.deep_view()),
                None => None,
            },
            recur_rule: match &self.recur_rule {
                Some(r) => Some(r.deep_view()),
                None => None,
            },
            metadata: self.metadata.deep_view(),
        }
    }
}

impl TaskUpdates {
    /// Updates that only set the status.
    pub fn status_only(status: Status) -> (r: TaskUpdates)
        ensures
            r@ == status_update(status),
    {
        TaskUpdates { title: None, status: Some(status), due_at: None, tags: None, recur_rule: None, metadata: None }
    }
}

/// Updates that only set the status.
pub open spec fn status_update(status: Status) -> UpdatesView {
    UpdatesView { title: None, status: Some(status), due_at: None, tags: None, recur_rule: None, metadata: None }
}

/// A due instant that the updates set lies in range.
pub open spec fn updates_wf(u: UpdatesView) -> bool {
    u.due_at matches Some(Some(d)) ==> d.wf()
}

/// The updates change something.
pub open spec fn has_changes(u: UpdatesView) -> bool {
    u.title is Some || u.status is Some || u.due_at is Some || u.tags is Some || u.recur_rule is Some
        || u.metadata is Some
}

/// A task with the updates applied, stamped as updated at `now`.
pub open spec fn apply_updates(t: TaskView, u: UpdatesView, now: Instant) -> TaskView {
    TaskView {
        title: match u.title { Some(x) => x, None => t.title },
        status: match u.status { Some(x) => x, None => t.status },
        due_at: match u.due_at { Some(x) => x, None => t.due_at },
        tags: match u.tags { Some(x) => x, None => t.tags },
        recur_rule: match u.recur_rule { Some(x) => x, None => t.recur_rule },
        metadata: match u.metadata { Some(x) => x, None => t.metadata },
        updated_at: now,
        ..t
    }
}

/// What updating a task gives: `task <id> not found` when it is missing; the
/// task unchanged when the updates change nothing; else the task with the
/// updates applied, stamped with `now`, in its place.
pub open spec fn update_outcome(db: DbView, id: Seq<char>, u: UpdatesView, now: Instant) -> (
    DbView,
    Result<TaskView, ErrorView>,
) {
    if !has_task(db.tasks, id) {
        (db, Err(ErrorView::NotFound(task_not_found_text(id))))
    } else if !has_changes(u) {
        (db, Ok(task_of(db.tasks, id)))
    } else {
        (
            DbView {
                tasks: db.tasks.map_values(
                    |t: TaskView|
                        if t.id == id {
                            apply_updates(t, u, now)
                        } else {
                            t
                        },
                ),
                attachments: db.attachments,
            },
            Ok(apply_updates(task_of(db.tasks, id), u, now)),
        )
    }
}

/// What the auto-completion check gives for a parent: `task <id> not found`
/// when it is missing; nothing when it carries the `meta` tag, is already
/// done or cancelled, or has no children; else, when every child is done or
/// cancelled, the parent marked done; otherwise nothing.
pub open spec fn auto_complete_outcome(db: DbView, parent_id: Seq<char>, now: Instant) -> (
    DbView,
    Result<Option<TaskView>, ErrorView>,
) {
    if !has_task(db.tasks, parent_id) {
        (db, Err(ErrorView::NotFound(task_not_found_text(parent_id))))
    } else {
        let p = task_of(db.tasks, parent_id);
        let ch = children_of(db.tasks, parent_id);
        if p.tags.contains("meta"@) || p.status.is_resolved() || ch.len() == 0 {
            (db, Ok(None))
        } else if forall|i: int| 0 <= i < ch.len() ==> (#[trigger] ch[i]).status.is_resolved() {
            let (db2, r) = update_outcome(db, parent_id, status_update(Status::Done), now);
            (
                db2,
                match r {
                    Ok(t) => Ok(Some(t)),
                    Err(e) => Err(e),
                },
            )
        } else {
            (db, Ok(None))
        }
    }
}

/// The view of a result that carries a list of tasks.
pub open spec fn tasks_result_view(r: Result<Vec<Task>, FlowstateError>) -> Result<Seq<TaskView>, ErrorView> {
    match r {
        Ok(v) => Ok(views(v@)),
        Err(e) => Err(e@),
    }
}

/// The view of a result that may carry a task.
pub open spec fn opt_task_result_view(r: Result<Option<Task>, FlowstateError>) -> Result<Option<TaskView>, ErrorView> {
    match r {
        Ok(Some(t)) => Ok(Some(t@)),
        Ok(None) => Ok(None),
        Err(e) => Err(e@),
    }
}

fn apply_to(t: &Task, u: &TaskUpdates, now: Instant) -> (r: Task)
    ensures
        r@ == apply_updates(t@, u@, now),
{
    Task {
        id: t.id.clone(),
        title: match &u.title { Some(x) => x.clone(), None => t.title.clone() },
        status: match u.status { Some(x) => x, None => t.status },
        schedule_type: t.schedule_type,
        due_at: match u.due_at { Some(x) => x, None => t.due_at },
        recur_rule: match &u.recur_rule { Some(x) => clone_opt_string(x), None => clone_opt_string(&t.recur_rule) },
        parent_id: clone_opt_string(&t.parent_id),
        tags: match &u.tags { Some(x) => clone_strings(x), None => clone_strings(&t.tags) },
        metadata: match &u.metadata { Some(x) => x.clone(), None => t.metadata.clone() },
        created_at: t.created_at,
        updated_at: now,
    }
}

pub(crate) proof fn lemma_replace_keeps_wf(db: DbView, i: int, t: TaskView)
    requires
        db.wf(),
        0 <= i < db.tasks.len(),
        t.id == db.tasks[i].id,
        t.parent_id == db.tasks[i].parent_id,
        t.created_at == db.tasks[i].created_at,
        task_wf(t),
    ensures
        (DbView { tasks: db.tasks.update(i, t), attachments: db.attachments }).wf(),
{
    let s = db.tasks;
    let n = s.update(i, t);
    assert forall|a: int, b: int| 0 <= a < n.len() && 0 <= b < n.len() && (#[trigger] n[a]).id
        == (#[trigger] n[b]).id implies a == b by {
        assert(n[a].id == s[a].id);
        assert(n[b].id == s[b].id);
    }
    assert forall|a: int, b: int| 0 <= a < b < n.len() implies
        (#[trigger] n[a]).created_at.spec_le((#[trigger] n[b]).created_at) by {
        assert(n[a].created_at == s[a].created_at);
        assert(n[b].created_at == s[b].created_at);
    }
    assert forall|a: int| 0 <= a < n.len() && (#[trigger] n[a]).parent_id is Some implies has_task(
        n, n[a].parent_id->0) by {
        assert(n[a].parent_id == s[a].parent_id);
        let k = choose|k: int| 0 <= k < s.len() && (#[trigger] s[k]).id == s[a].parent_id->0;
        assert(n[k].id == s[k].id);
    }
    assert forall|a: int| 0 <= a < n.len() implies task_wf(#[trigger] n[a]) by {
        if a != i {
            assert(n[a] == s[a]);
        }
    }
    assert forall|a: int| 0 <= a < db.attachments.len() implies has_task(
        n, (#[trigger] db.attachments[a]).task_id) by {
        let tid = db.attachments[a].task_id;
        let k = choose|k: int| 0 <= k < s.len() && (#[trigger] s[k]).id == tid;
        assert(n[k].id == s[k].id);
    }
}

impl Database {
    /// The tasks that pass the filters, in order of creation.
    pub fn list_tasks(&self, filters: &TaskFilters) -> (r: Result<Vec<Task>, FlowstateError>)
        requires
            self@.wf(),
        ensures
            tasks_result_view(r) == Ok::<Seq<TaskView>, ErrorView>(filtered(self@.tasks, filters@)),
    {
        let ghost pred = |t: TaskView| matches_filters(t, filters@);
        let mut out: Vec<Task> = Vec::new();
        for i in 0..self.tasks.len()
            invariant
                self@.tasks == views(self.tasks@),
                pred == (|t: TaskView| matches_filters(t, filters@)),
                views(out@) == self@.tasks.take(i as int).filter(pred),
        {
            let ghost before = views(out@);
            assert(self@.tasks.take(i + 1) =~= self@.tasks.take(i as int).push(self@.tasks[i as int]));
            proof {
                self@.tasks.take(i as int).lemma_filter_push(self@.tasks[i as int], pred);
            }
            if task_matches(&self.tasks[i], filters) {
                out.push(self.tasks[i].duplicate());
                assert(views(out@) =~= before.push(self@.tasks[i as int]));
            }
        }
        assert(self@.tasks.take(self.tasks.len() as int) =~= self@.tasks);
        Ok(out)
    }

    /// The children of a task, in order of creation.
    pub fn get_children(&self, parent_id: &str) -> (r: Result<Vec<Task>, FlowstateError>)
        requires
            self@.wf(),
        ensures
            tasks_result_view(r) == Ok::<Seq<TaskView>, ErrorView>(children_of(self@.tasks, parent_id@)),
    {
        let f = TaskFilters {
            status: None,
            schedule_type: None,
            tag: None,
            due_before: None,
            parent_id: Some(String::from_str(parent_id)),
        };
        let r = self.list_tasks(&f);
        assert(filtered(self@.tasks, f@) =~= children_of(self@.tasks, parent_id@)) by {
            assert((|t: TaskView| matches_filters(t, f@)) =~= (|t: TaskView| t.parent_id == Some(parent_id@)));
        }
        r
    }

    /// Applies updates to a task, stamping it as updated at `now` (see
    /// `update_outcome`).
    pub fn update_task_at(&mut self, id: &str, updates: &TaskUpdates, now: Instant) -> (r: Result<Task, FlowstateError>)
        requires
            old(self)@.wf(),
            updates_wf(updates@),
            now.wf(),
        ensures
            (final(self)@, task_result_view(r)) == update_outcome(old(self)@, id@, updates@, now),
            final(self)@.wf(),
    {
        let i = match self.find_index(id) {
            Some(i) => i,
            None => {
                return Err(task_not_found(id));
            },
        };
        proof {
            lemma_unique_index(self@.tasks, i as int, id@);
        }
        let changes = updates.title.is_some() || updates.status.is_some() || updates.due_at.is_some()
            || updates.tags.is_some() || updates.recur_rule.is_some() || updates.metadata.is_some();
        if !changes {
            return Ok(self.tasks[i].duplicate());
        }
        let ghost old_db = self@;
        let nt = apply_to(&self.tasks[i], updates, now);
        let res = nt.duplicate();
        self.tasks.set(i, nt);
        proof {
            assert(views(self.tasks@) =~= old_db.tasks.update(i as int, res@));
            lemma_replace_keeps_wf(old_db, i as int, res@);
            let f = |t: TaskView| if t.id == id@ { apply_updates(t, updates@, now) } else { t };
            assert forall|k: int| 0 <= k < old_db.tasks.len() implies
                #[trigger] old_db.tasks.update(i as int, res@)[k] == f(old_db.tasks[k]) by {
                if k != i {
                    if old_db.tasks[k].id == id@ {
                        assert(old_db.tasks[k].id == old_db.tasks[i as int].id);
                    }
                }
            }
            assert(old_db.tasks.update(i as int, res@) =~= old_db.tasks.map_values(f));
        }
        Ok(res)
    }

    /// Applies updates to a task, stamped with the clock's current time
    /// (see `update_outcome`). A missing task, or updates that change
    /// nothing, are answered without reading the clock.
    pub fn update_task(&mut self, id: &str, updates: &TaskUpdates) -> (r: Result<Task, FlowstateError>)
        requires
            old(self)@.wf(),
            updates_wf(updates@),
        ensures
            !has_task(old(self)@.tasks, id@) || !has_changes(updates@) ==> forall|now: Instant|
                #[trigger] update_outcome(old(self)@, id@, updates@, now) == (final(self)@, task_result_view(r)),
            (final(self)@ == old(self)@ && task_result_view(r) == Err::<TaskView, ErrorView>(
                ErrorView::Other(clock_unread_text()),
            )) || exists|now: Instant|
                now.wf() && (final(self)@, task_result_view(r)) == update_outcome(
                    old(self)@,
                    id@,
                    updates@,
                    now,
                ),
            final(self)@.wf(),
    {
        if self.find_index(id).is_none() {
            let e = task_not_found(id);
            assert(Instant { secs: 0, nanos: 0 }.wf());
            assert(update_outcome(self@, id@, updates@, Instant { secs: 0, nanos: 0 }).1 == Err::<TaskView, ErrorView>(e@));
            return Err(e);
        }
        let changes = updates.title.is_some() || updates.status.is_some() || updates.due_at.is_some()
            || updates.tags.is_some() || updates.recur_rule.is_some() || updates.metadata.is_some();
        if !changes {
            let t = self.get_task(id);
            assert(Instant { secs: 0, nanos: 0 }.wf());
            assert(update_outcome(self@, id@, updates@, Instant { secs: 0, nanos: 0 }).1 == task_result_view(t));
            return t;
        }
        match crate::time::now() {
            Some(now) => self.update_task_at(id, updates, now),
            None => Err(clock_unread()),
        }
    }

    /// Whether the parent is due to be marked done (see `completes_parent`);
    /// `task <id> not found` when it is missing.
    pub fn auto_complete_due(&self, parent_id: &str) -> (r: Result<bool, FlowstateError>)
        requires
            self@.wf(),
        ensures
            match r {
                Ok(b) => has_task(self@.tasks, parent_id@) && b == completes_parent(self@, parent_id@),
                Err(e) => !has_task(self@.tasks, parent_id@) && e@ == ErrorView::NotFound(
                    task_not_found_text(parent_id@),
                ),
            },
    {
        let parent = match self.get_task(parent_id) {
            Ok(p) => p,
            Err(e) => {
                return Err(e);
            },
        };
        if parent.has_tag("meta") {
            return Ok(false);
        }
        if parent.status == Status::Done || parent.status == Status::Cancelled {
            return Ok(false);
        }
        let children = match self.get_children(parent_id) {
            Ok(c) => c,
            Err(e) => {
                return Err(e);
            },
        };
        if children.len() == 0 {
            return Ok(false);
        }
        let ghost ch = children_of(self@.tasks, parent_id@);
        let mut all_resolved = true;
        for i in 0..children.len()
            invariant
                views(children@) == ch,
                all_resolved == (forall|j: int| 0 <= j < i ==> (#[trigger] ch[j]).status.is_resolved()),
        {
            let st = children[i].status;
            assert(ch[i as int].status == st);
            if !(st == Status::Done || st == Status::Cancelled) {
                all_resolved = false;
            }
        }
        Ok(all_resolved)
    }

    /// Marks a parent done once every child is done or cancelled (see
    /// `auto_complete_outcome`), stamping it with `now`.
    pub fn check_auto_complete_at(&mut self, parent_id: &str, now: Instant) -> (r: Result<Option<Task>, FlowstateError>)
        requires
            old(self)@.wf(),
            now.wf(),
        ensures
            (final(self)@, opt_task_result_view(r)) == auto_complete_outcome(old(self)@, parent_id@, now),
            final(self)@.wf(),
    {
        match self.auto_complete_due(parent_id) {
            Err(e) => Err(e),
            Ok(false) => Ok(None),
            Ok(true) => {
                let u = TaskUpdates::status_only(Status::Done);
                match self.update_task_at(parent_id, &u, now) {
                    Ok(t) => Ok(Some(t)),
                    Err(e) => Err(e),
                }
            },
        }
    }

    /// Marks a parent done once every child is done or cancelled (see
    /// `auto_complete_outcome`), stamped with the clock's current time.
    pub fn check_auto_complete(&mut self, parent_id: &str) -> (r: Result<Option<Task>, FlowstateError>)
        requires
            old(self)@.wf(),
        ensures
            !completes_parent(old(self)@, parent_id@) ==> forall|now: Instant|
                #[trigger] auto_complete_outcome(old(self)@, parent_id@, now) == (
                    final(self)@,
                    opt_task_result_view(r),
                ),
            (final(self)@ == old(self)@ && opt_task_result_view(r) == Err::<Option<TaskView>, ErrorView>(
                ErrorView::Other(clock_unread_text()),
            )) || exists|now: Instant|
                now.wf() && (final(self)@, opt_task_result_view(r)) == auto_complete_outcome(
                    old(self)@,
                    parent_id@,
                    now,
                ),
            final(self)@.wf(),
    {
        let due = self.auto_complete_due(parent_id);
        let witness = Instant { secs: 0, nanos: 0 };
        assert(witness.wf());
        match due {
            Err(e) => {
                assert(auto_complete_outcome(self@, parent_id@, witness).1 == Err::<Option<TaskView>, ErrorView>(e@));
                Err(e)
            },
            Ok(false) => {
                assert(auto_complete_outcome(self@, parent_id@, witness).1 == Ok::<Option<TaskView>, ErrorView>(None));
                Ok(None)
            },
            Ok(true) => match crate::time::now() {
                Some(now) => self.check_auto_complete_at(parent_id, now),
                None => Err(clock_unread()),
            },
        }
    }
}

/// The parent is stored, neither tagged `meta` nor done or cancelled, and
/// has children, all of them done or cancelled: checking it marks it done.
pub open spec fn completes_parent(db: DbView, parent_id: Seq<char>) -> bool {
    &&& has_task(db.tasks, parent_id)
    &&& !task_of(db.tasks, parent_id).tags.contains("meta"@)
    &&& !task_of(db.tasks, parent_id).status.is_resolved()
    &&& children_of(db.tasks, parent_id).len() > 0
    &&& forall|i: int|
        0 <= i < children_of(db.tasks, parent_id).len() ==> (#[trigger] children_of(db.tasks, parent_id)[i]).status.is_resolved()
}

/// Pending or in progress.
pub open spec fn is_open(s: Status) -> bool {
    s == Status::Pending || s == Status::InProgress
}

/// Two characters are equal when ASCII letters are folded to lower case.
pub open spec fn ci_eq(a: char, b: char) -> bool {
    ||| a == b
    ||| ('A' <= a && a <= 'Z' && (a as u32) + 32 == (b as u32))
    ||| ('A' <= b && b <= 'Z' && (b as u32) + 32 == (a as u32))
}

/// `needle` occurs in `hay`, ASCII letters compared without regard to case
/// (as SQL's `LIKE '%needle%'` matches).
pub open spec fn contains_ci(hay: Seq<char>, needle: Seq<char>) -> bool {
    exists|k: int| 0 <= k && k + needle.len() <= hay.len() && #[trigger] ci_match_at(hay, needle, k)
}

/// `needle` occurs in `hay` at position `k`, ASCII case folded.
pub open spec fn ci_match_at(hay: Seq<char>, needle: Seq<char>, k: int) -> bool {
    forall|j: int| 0 <= j < needle.len() ==> ci_eq(#[trigger] hay[k + j], needle[j])
}

fn char_ci_eq(a: char, b: char) -> (r: bool)
    ensures
        r == ci_eq(a, b),
{
    a == b || ('A' <= a && a <= 'Z' && (a as u32) + 32 == (b as u32)) || ('A' <= b && b <= 'Z'
        && (b as u32) + 32 == (a as u32))
}

/// Whether `needle` occurs in `hay`, ASCII case folded.
pub fn contains_ignore_case(hay: &Vec<char>, needle: &Vec<char>) -> (r: bool)
    ensures
        r == contains_ci(hay@, needle@),
{
    if needle.len() > hay.len() {
        return false;
    }
    let last = hay.len() - needle.len();
    let mut k: usize = 0;
    while k <= last
        invariant
            last == hay.len() - needle.len(),
            needle.len() <= hay.len(),
            forall|k0: int| 0 <= k0 < k ==> !#[trigger] ci_match_at(hay@, needle@, k0),
        decreases last + 1 - k,
    {
        let mut j: usize = 0;
        let mut all = true;
        while j < needle.len()
            invariant
                k + needle.len() <= hay.len(),
                j <= needle.len(),
                all == (forall|j0: int| 0 <= j0 < j ==> ci_eq(#[trigger] hay@[k + j0], needle@[j0])),
            decreases needle.len() - j,
        {
            if !char_ci_eq(hay[k + j], needle[j]) {
                all = false;
            }
            j = j + 1;
        }
        assert(all == ci_match_at(hay@, needle@, k as int));
        if all {
            return true;
        }
        k = k + 1;
    }
    assert forall|k0: int| 0 <= k0 && k0 + needle@.len() <= hay@.len() implies !#[trigger] ci_match_at(
        hay@, needle@, k0) by {
        assert(k0 < k);
    }
    false
}

/// Due instants in agenda order: an earlier due first, no due last.
pub open spec fn due_le(a: Option<Instant>, b: Option<Instant>) -> bool {
    match (a, b) {
        (Some(x), Some(y)) => x.spec_le(y),
        (Some(_), None) => true,
        (None, Some(_)) => false,
        (None, None) => true,
    }
}

/// Agenda order: by due instant (none last), then by creation.
pub open spec fn agenda_le(a: TaskView, b: TaskView) -> bool {
    ||| (due_le(a.due_at, b.due_at) && !due_le(b.due_at, a.due_at))
    ||| (due_le(a.due_at, b.due_at) && due_le(b.due_at, a.due_at) && a.created_at.spec_le(
        b.created_at,
    ))
}

/// The tasks come in agenda order.
pub open spec fn agenda_sorted(s: Seq<TaskView>) -> bool {
    forall|i: int, j: int| 0 <= i < j < s.len() ==> agenda_le(#[trigger] s[i], #[trigger] s[j])
}

fn due_le_exec(a: &Option<Instant>, b: &Option<Instant>) -> (r: bool)
    ensures
        r == due_le(*a, *b),
{
    match (a, b) {
        (Some(x), Some(y)) => x.le(y),
        (Some(_), None) => true,
        (None, Some(_)) => false,
        (None, None) => true,
    }
}

proof fn lemma_due_le_total_trans()
    ensures
        forall|a: Option<Instant>, b: Option<Instant>| due_le(a, b) || due_le(b, a),
        forall|a: Option<Instant>, b: Option<Instant>, c: Option<Instant>|
            #[trigger] due_le(a, b) && #[trigger] due_le(b, c) ==> due_le(a, c),
{
}

/// One step of the agenda sort: `x` joins a sorted `out` after every task
/// due no later than it.
proof fn lemma_sorted_insert(out: Seq<TaskView>, p: int, x: TaskView)
    requires
        agenda_sorted(out),
        0 <= p <= out.len(),
        p > 0 ==> due_le(out[p - 1].due_at, x.due_at),
        forall|j: int| p <= j < out.len() ==> !due_le((#[trigger] out[j]).due_at, x.due_at),
        forall|j: int| 0 <= j < out.len() ==> (#[trigger] out[j]).created_at.spec_le(x.created_at),
    ensures
        agenda_sorted(out.insert(p, x)),
{
    lemma_due_le_total_trans();
    let n = out.insert(p, x);
    assert forall|i: int, j: int| 0 <= i < j < n.len() implies agenda_le(#[trigger] n[i], #[trigger] n[j]) by {
        if j < p {
            assert(n[i] == out[i] && n[j] == out[j]);
        } else if i > p {
            assert(n[i] == out[i - 1] && n[j] == out[j - 1]);
        } else if i == p {
            assert(n[j] == out[j - 1]);
            assert(!due_le(out[j - 1].due_at, x.due_at));
        } else if j == p {
            assert(n[i] == out[i]);
            if i < p - 1 {
                assert(agenda_le(out[i], out[p - 1]));
                assert(due_le(out[i].due_at, out[p - 1].due_at));
            }
            assert(due_le(out[i].due_at, x.due_at));
        } else {
            assert(n[i] == out[i] && n[j] == out[j - 1]);
        }
    }
}

/// The position at which a task due at `d` joins `s`: after every task,
/// from the end, due no later than `d` (none last).
pub open spec fn due_insertion_point(s: Seq<TaskView>, d: Option<Instant>) -> int
    decreases s.len(),
{
    if s.len() == 0 {
        0
    } else if due_le(s.last().due_at, d) {
        s.len() as int
    } else {
        due_insertion_point(s.drop_last(), d)
    }
}

/// Tasks sorted by due instant (none last), keeping their given order among
/// tasks due at the same instant: each task in turn joins the sorted tasks
/// before it after every one due no later than it.
pub open spec fn by_due(s: Seq<TaskView>) -> Seq<TaskView>
    decreases s.len(),
{
    if s.len() == 0 {
        s
    } else {
        let r = by_due(s.drop_last());
        r.insert(due_insertion_point(r, s.last().due_at), s.last())
    }
}

/// Sorts tasks listed in creation order into agenda order, keeping creation
/// order among tasks due at the same instant.
fn sort_by_due(v: &Vec<Task>) -> (r: Vec<Task>)
    requires
        sorted_by_created(views(v@)),
    ensures
        views(r@) == by_due(views(v@)),
        views(r@).to_multiset() == views(v@).to_multiset(),
        agenda_sorted(views(r@)),
{
    let ghost vs = views(v@);
    let mut out: Vec<Task> = Vec::new();
    assert(views(out@) =~= Seq::<TaskView>::empty());
    assert(vs.take(0) =~= Seq::<TaskView>::empty());
    for i in 0..v.len()
        invariant
            vs == views(v@),
            sorted_by_created(vs),
            views(out@).to_multiset() == vs.take(i as int).to_multiset(),
            views(out@) == by_due(vs.take(i as int)),
            agenda_sorted(views(out@)),
            forall|k: int, m: int|
                0 <= k < out@.len() && i <= m < vs.len() ==> (#[trigger] views(out@)[k]).created_at.spec_le(
                    (#[trigger] vs[m]).created_at,
                ),
    {
        let ghost before = views(out@);
        let x = &v[i];
        let mut p = out.len();
        assert(before.take(p as int) =~= before);
        while p > 0 && !due_le_exec(&out[p - 1].due_at, &x.due_at)
            invariant
                p <= out.len(),
                before == views(out@),
                forall|j: int| p <= j < before.len() ==> !due_le((#[trigger] before[j]).due_at, x@.due_at),
                due_insertion_point(before, x@.due_at) == due_insertion_point(before.take(p as int), x@.due_at),
            decreases p,
        {
            assert(before.take(p as int).drop_last() =~= before.take(p - 1));
            p = p - 1;
        }
        proof {
            if p > 0 {
                assert(before.take(p as int).last() == before[p - 1]);
            }
            assert(due_insertion_point(before, x@.due_at) == p);
            assert(vs.take(i + 1).drop_last() =~= vs.take(i as int));
            assert(vs.take(i + 1).last() == x@);
        }
        proof {
            assert forall|j: int| 0 <= j < before.len() implies (#[trigger] before[j]).created_at.spec_le(
                x@.created_at) by {
                assert(vs[i as int] == x@);
            }
            lemma_sorted_insert(before, p as int, x@);
            vstd::seq_lib::to_multiset_insert(before, p as int, x@);
            vstd::seq_lib::to_multiset_build(vs.take(i as int), x@);
            assert(vs.take(i + 1) =~= vs.take(i as int).push(x@));
        }
        out.insert(p, x.duplicate());
        assert(views(out@) =~= before.insert(p as int, x@));
        proof {
            assert forall|k: int, m: int|
                0 <= k < out@.len() && i + 1 <= m < vs.len() implies (#[trigger] views(out@)[k]).created_at.spec_le(
                    (#[trigger] vs[m]).created_at) by {
                if k < p {
                    assert(views(out@)[k] == before[k]);
                } else if k > p {
                    assert(views(out@)[k] == before[k - 1]);
                } else {
                    assert(views(out@)[k] == vs[i as int]);
                }
            }
        }
    }
    assert(vs.take(v.len() as int) =~= vs);
    out
}

/// Whether a task belongs on the agenda of the day from `start` to `end`
/// whose weekday is `weekday`: due that day and not done or cancelled;
/// daily and open; weekly, open, with the weekday in its rule; overdue and not
/// done or cancelled; or in progress.
pub open spec fn agenda_pred(t: TaskView, start: Instant, end: Instant, weekday: Seq<char>) -> bool {
    ||| (t.due_at matches Some(d) && start.spec_le(d) && d.spec_le(end) && !t.status.is_resolved())
    ||| (t.schedule_type == ScheduleType::Daily && is_open(t.status))
    ||| (t.schedule_type == ScheduleType::Weekly && (t.recur_rule matches Some(r) && contains_ci(
        r,
        weekday,
    )) && is_open(t.status))
    ||| (t.due_at matches Some(d) && d.spec_lt(start) && !t.status.is_resolved())
    ||| t.status == Status::InProgress
}

/// The first instant of a day.
pub open spec fn day_start_instant(d: Date) -> Instant {
    Instant { secs: spec_day_start_secs(d) as i64, nanos: 0 }
}

/// The last whole second of a day.
pub open spec fn day_end_instant(d: Date) -> Instant {
    Instant { secs: (spec_day_start_secs(d) + 86399) as i64, nanos: 0 }
}

/// The tasks on a day's agenda, in creation order.
pub open spec fn agenda_tasks(s: Seq<TaskView>, d: Date) -> Seq<TaskView> {
    s.filter(
        |t: TaskView|
            agenda_pred(t, day_start_instant(d), day_end_instant(d), weekday_name(d.ce_day as int)),
    )
}

/// Whether a task is overdue at `now`: due before it and not done or cancelled.
pub open spec fn overdue_pred(t: TaskView, now: Instant) -> bool {
    t.due_at matches Some(d) && d.spec_lt(now) && !t.status.is_resolved()
}

/// The tasks overdue at `now`, in creation order.
pub open spec fn overdue_tasks(s: Seq<TaskView>, now: Instant) -> Seq<TaskView> {
    s.filter(|t: TaskView| overdue_pred(t, now))
}

enum Query {
    Agenda { start: Instant, end: Instant, weekday: Vec<char> },
    Overdue { now: Instant },
}

spec fn query_pred(q: Query, t: TaskView) -> bool {
    match q {
        Query::Agenda { start, end, weekday } => agenda_pred(t, start, end, weekday@),
        Query::Overdue { now } => overdue_pred(t, now),
    }
}

fn query_matches(q: &Query, t: &Task) -> (r: bool)
    ensures
        r == query_pred(*q, t@),
{
    let resolved = t.status == Status::Done || t.status == Status::Cancelled;
    let open = t.status == Status::Pending || t.status == Status::InProgress;
    match q {
        Query::Agenda { start, end, weekday } => {
            if let Some(d) = &t.due_at {
                if start.le(d) && d.le(end) && !resolved {
                    return true;
                }
                if d.lt(start) && !resolved {
                    return true;
                }
            }
            if t.schedule_type == ScheduleType::Daily && open {
                return true;
            }
            if t.schedule_type == ScheduleType::Weekly && open {
                if let Some(r) = &t.recur_rule {
                    let rc = crate::text::chars_of(r.as_str());
                    if contains_ignore_case(&rc, weekday) {
                        return true;
                    }
                }
            }
            t.status == Status::InProgress
        },
        Query::Overdue { now } => {
            match &t.due_at {
                Some(d) => d.lt(now) && !resolved,
                None => false,
            }
        },
    }
}

impl Database {
    /// The tasks that the query keeps, in creation order.
    fn select(&self, q: &Query) -> (r: Vec<Task>)
        requires
            self@.wf(),
        ensures
            views(r@) == self@.tasks.filter(|t: TaskView| query_pred(*q, t)),
            sorted_by_created(views(r@)),
    {
        let ghost pred = |t: TaskView| query_pred(*q, t);
        let ghost s = self@.tasks;
        let mut out: Vec<Task> = Vec::new();
        assert(views(out@) =~= Seq::<TaskView>::empty());
        for i in 0..self.tasks.len()
            invariant
                s == self@.tasks,
                s == views(self.tasks@),
                self@.wf(),
                pred == (|t: TaskView| query_pred(*q, t)),
                views(out@) == s.take(i as int).filter(pred),
                sorted_by_created(views(out@)),
                forall|k: int, m: int|
                    0 <= k < out@.len() && i <= m < s.len() ==> (#[trigger] views(out@)[k]).created_at.spec_le(
                        (#[trigger] s[m]).created_at,
                    ),
        {
            let ghost before = views(out@);
            assert(s.take(i + 1) =~= s.take(i as int).push(s[i as int]));
            proof {
                s.take(i as int).lemma_filter_push(s[i as int], pred);
            }
            if query_matches(q, &self.tasks[i]) {
                out.push(self.tasks[i].duplicate());
                assert(views(out@) =~= before.push(s[i as int]));
                proof {
                    assert forall|a: int, b: int| 0 <= a < b < views(out@).len() implies
                        (#[trigger] views(out@)[a]).created_at.spec_le((#[trigger] views(out@)[b]).created_at) by {
                        if b == before.len() {
                            assert(views(out@)[a] == before[a]);
                        } else {
                            assert(views(out@)[a] == before[a]);
                            assert(views(out@)[b] == before[b]);
                        }
                    }
                    assert forall|k: int, m: int|
                        0 <= k < out@.len() && i + 1 <= m < s.len() implies (#[trigger] views(out@)[k]).created_at.spec_le(
                            (#[trigger] s[m]).created_at) by {
                        if k < before.len() {
                            assert(views(out@)[k] == before[k]);
                        } else {
                            assert(views(out@)[k] == s[i as int]);
                        }
                    }
                }
            }
        }
        assert(s.take(self.tasks.len() as int) =~= s);
        out
    }

    /// The agenda of a day: tasks due that day, daily tasks, weekly tasks
    /// whose rule names the day's weekday, overdue tasks and tasks in
    /// progress (see `agenda_pred`), each once, by due instant (none last),
    /// then by creation.
    pub fn get_agenda_tasks(&self, date: Date) -> (r: Result<Vec<Task>, FlowstateError>)
        requires
            self@.wf(),
            date.wf(),
        ensures
            r is Ok,
            r matches Ok(v) ==> views(v@) == by_due(agenda_tasks(self@.tasks, date)),
            r matches Ok(v) ==> views(v@).to_multiset() == agenda_tasks(self@.tasks, date).to_multiset(),
            r matches Ok(v) ==> agenda_sorted(views(v@)),
    {
        let start = day_start(date);
        let end = day_end(date);
        let weekday = weekday_of(date);
        let q = Query::Agenda { start, end, weekday };
        let selected = self.select(&q);
        assert((|t: TaskView| query_pred(q, t)) =~= (|t: TaskView|
            agenda_pred(t, day_start_instant(date), day_end_instant(date), weekday_name(date.ce_day as int))));
        Ok(sort_by_due(&selected))
    }

    /// The tasks overdue at `now` (due before it, neither done nor
    /// cancelled), by due instant.
    pub fn get_overdue_tasks_at(&self, now: Instant) -> (r: Result<Vec<Task>, FlowstateError>)
        requires
            self@.wf(),
        ensures
            r is Ok,
            r matches Ok(v) ==> views(v@) == by_due(overdue_tasks(self@.tasks, now)),
            r matches Ok(v) ==> views(v@).to_multiset() == overdue_tasks(self@.tasks, now).to_multiset(),
            r matches Ok(v) ==> agenda_sorted(views(v@)),
    {
        let q = Query::Overdue { now };
        let selected = self.select(&q);
        assert((|t: TaskView| query_pred(q, t)) =~= (|t: TaskView| overdue_pred(t, now)));
        Ok(sort_by_due(&selected))
    }

    /// The tasks overdue at the clock's current time.
    pub fn get_overdue_tasks(&self) -> (r: Result<Vec<Task>, FlowstateError>)
        requires
            self@.wf(),
        ensures
            match r {
                Ok(v) => exists|now: Instant|
                    now.wf() && views(v@) == by_due(overdue_tasks(self@.tasks, now))
                        && views(v@).to_multiset() == overdue_tasks(self@.tasks, now).to_multiset()
                        && agenda_sorted(views(v@)),
                Err(e) => e@ == ErrorView::Other(clock_unread_text()),
            },
    {
        match crate::time::now() {
            Some(now) => self.get_overdue_tasks_at(now),
            None => Err(clock_unread()),
        }
    }
}

/// `invalid datetime: <text> (expected RFC 3339 or YYYY-MM-DD)`
pub open spec fn invalid_datetime_text(s: Seq<char>) -> Seq<char> {
    "invalid datetime: "@ + s + " (expected RFC 3339 or YYYY-MM-DD)"@
}

/// What reading a date-time gives: an RFC 3339 date-time as it stands; else
/// a `YYYY-MM-DD` date at 23:59:59 UTC; else a validation error.
pub open spec fn parse_datetime_outcome(s: Seq<char>) -> Result<Instant, ErrorView> {
    match rfc3339_instant(s) {
        Some(i) => Ok(i),
        None => match date_parsed_with_format(s, "%Y-%m-%d"@) {
            Some(d) => Ok(day_end_instant(d)),
            None => Err(ErrorView::Validation(invalid_datetime_text(s))),
        },
    }
}

/// The view of a result that carries an instant.
pub open spec fn instant_result_view(r: Result<Instant, FlowstateError>) -> Result<Instant, ErrorView> {
    match r {
        Ok(i) => Ok(i),
        Err(e) => Err(e@),
    }
}

/// Reads a date-time: RFC 3339 (`2026-03-10T17:00:00Z`), or a date alone
/// (`2026-03-10`), taken as the end of that day in UTC.
pub fn parse_datetime(s: &str) -> (r: Result<Instant, FlowstateError>)
    ensures
        instant_result_view(r) == parse_datetime_outcome(s@),
        r matches Ok(i) ==> i.wf(),
{
    if let Some(i) = parse_rfc3339(s) {
        return Ok(i);
    }
    if let Some(d) = parse_date_with_format(s, "%Y-%m-%d") {
        return Ok(day_end(d));
    }
    Err(
        FlowstateError::Validation(
            String::from_str("invalid datetime: ").concat(s).concat(
                " (expected RFC 3339 or YYYY-MM-DD)",
            ),
        ),
    )
}

/// `attachment <id> not found`
pub open spec fn attachment_not_found_text(id: Seq<char>) -> Seq<char> {
    "attachment "@ + id + " not found"@
}

/// What attaching gives: `task <id> not found` when the task is missing;
/// refused by the storage when the attachment id is taken; else the
/// attachment is added last.
pub open spec fn add_attachment_outcome(db: DbView, a: AttachmentView) -> (DbView, Result<AttachmentView, ErrorView>) {
    if !has_task(db.tasks, a.task_id) {
        (db, Err(ErrorView::NotFound(task_not_found_text(a.task_id))))
    } else if has_attachment(db.attachments, a.id) {
        (db, Err(ErrorView::Database(duplicate_attachment_text())))
    } else {
        (DbView { tasks: db.tasks, attachments: db.attachments.push(a) }, Ok(a))
    }
}

/// What detaching gives: `attachment <id> not found` when it is missing; else
/// the store without it.
pub open spec fn remove_attachment_outcome(db: DbView, id: Seq<char>) -> (DbView, Result<(), ErrorView>) {
    if !has_attachment(db.attachments, id) {
        (db, Err(ErrorView::NotFound(attachment_not_found_text(id))))
    } else {
        let i = choose|i: int| 0 <= i < db.attachments.len() && (#[trigger] db.attachments[i]).id == id;
        (DbView { tasks: db.tasks, attachments: db.attachments.remove(i) }, Ok(()))
    }
}

/// The attachments of a task, in the order they were added.
pub open spec fn attachments_of(a: Seq<AttachmentView>, task_id: Seq<char>) -> Seq<AttachmentView> {
    a.filter(|x: AttachmentView| x.task_id == task_id)
}

/// The view of a result that carries an attachment.
pub open spec fn attachment_result_view(r: Result<Attachment, FlowstateError>) -> Result<AttachmentView, ErrorView> {
    match r {
        Ok(a) => Ok(a@),
        Err(e) => Err(e@),
    }
}

impl Database {
    fn find_attachment(&self, id: &str) -> (r: Option<usize>)
        ensures
            match r {
                Some(i) => i < self@.attachments.len() && self@.attachments[i as int].id == id@,
                None => !has_attachment(self@.attachments, id@),
            },
    {
        for i in 0..self.attachments.len()
            invariant
                self@.attachments == attachment_views(self.attachments@),
                forall|j: int| 0 <= j < i ==> self@.attachments[j].id != id@,
        {
            if str_eq(self.attachments[i].id.as_str(), id) {
                return Some(i);
            }
        }
        None
    }

    /// Attaches a file to a task (see `add_attachment_outcome`).
    pub fn add_attachment_at(&mut self, attachment: Attachment) -> (r: Result<Attachment, FlowstateError>)
        requires
            old(self)@.wf(),
            attachment.created_at.wf(),
        ensures
            (final(self)@, attachment_result_view(r)) == add_attachment_outcome(old(self)@, attachment@),
            final(self)@.wf(),
    {
        if self.find_index(attachment.task_id.as_str()).is_none() {
            return Err(task_not_found(attachment.task_id.as_str()));
        }
        if self.find_attachment(attachment.id.as_str()).is_some() {
            return Err(
                FlowstateError::Database(String::from_str("UNIQUE constraint failed: attachments.id")),
            );
        }
        let ghost old_db = self@;
        let copy = attachment.duplicate();
        self.attachments.push(attachment);
        assert(attachment_views(self.attachments@) =~= old_db.attachments.push(copy@));
        proof {
            let a = self@.attachments;
            assert forall|i: int, j: int|
                0 <= i < a.len() && 0 <= j < a.len() && (#[trigger] a[i]).id == (#[trigger] a[j]).id
                    implies i == j by {
                if i < old_db.attachments.len() && j < old_db.attachments.len() {
                    assert(a[i] == old_db.attachments[i] && a[j] == old_db.attachments[j]);
                } else if i < old_db.attachments.len() {
                    assert(a[i] == old_db.attachments[i]);
                } else if j < old_db.attachments.len() {
                    assert(a[j] == old_db.attachments[j]);
                }
            }
            assert forall|i: int| 0 <= i < a.len() implies has_task(self@.tasks, (#[trigger] a[i]).task_id)
                by {
                if i < old_db.attachments.len() {
                    assert(a[i] == old_db.attachments[i]);
                }
            }
            assert forall|i: int| 0 <= i < a.len() implies (#[trigger] a[i]).created_at.wf() by {
                if i < old_db.attachments.len() {
                    assert(a[i] == old_db.attachments[i]);
                }
            }
        }
        Ok(copy)
    }

    /// Removes an attachment (see `remove_attachment_outcome`).
    pub fn remove_attachment(&mut self, id: &str) -> (r: Result<(), FlowstateError>)
        requires
            old(self)@.wf(),
        ensures
            (final(self)@, unit_result_view(r)) == remove_attachment_outcome(old(self)@, id@),
            final(self)@.wf(),
    {
        let i = match self.find_attachment(id) {
            Some(i) => i,
            None => {
                return Err(
                    FlowstateError::NotFound(
                        String::from_str("attachment ").concat(id).concat(" not found"),
                    ),
                );
            },
        };
        let ghost old_db = self@;
        proof {
            let k = choose|k: int| 0 <= k < old_db.attachments.len() && (#[trigger] old_db.attachments[k]).id == id@;
            assert(old_db.attachments[k].id == old_db.attachments[i as int].id);
        }
        self.attachments.remove(i);
        assert(attachment_views(self.attachments@) =~= old_db.attachments.remove(i as int));
        proof {
            let a = self@.attachments;
            let o = old_db.attachments;
            assert forall|x: int, y: int|
                0 <= x < a.len() && 0 <= y < a.len() && (#[trigger] a[x]).id == (#[trigger] a[y]).id
                    implies x == y by {
                let x0 = if x < i { x } else { x + 1 };
                let y0 = if y < i { y } else { y + 1 };
                assert(a[x] == o[x0] && a[y] == o[y0]);
            }
            assert forall|x: int| 0 <= x < a.len() implies has_task(self@.tasks, (#[trigger] a[x]).task_id)
                by {
                let x0 = if x < i { x } else { x + 1 };
                assert(a[x] == o[x0]);
            }
            assert forall|x: int| 0 <= x < a.len() implies (#[trigger] a[x]).created_at.wf() by {
                let x0 = if x < i { x } else { x + 1 };
                assert(a[x] == o[x0]);
            }
        }
        Ok(())
    }

    /// The attachments of a task, in the order they were added.
    pub fn list_attachments(&self, task_id: &str) -> (r: Result<Vec<Attachment>, FlowstateError>)
        ensures
            r matches Ok(v) && attachment_views(v@) == attachments_of(self@.attachments, task_id@),
    {
        let ghost pred = |x: AttachmentView| x.task_id == task_id@;
        let ghost s = self@.attachments;
        let mut out: Vec<Attachment> = Vec::new();
        assert(attachment_views(out@) =~= Seq::<AttachmentView>::empty());
        for i in 0..self.attachments.len()
            invariant
                s == attachment_views(self.attachments@),
                pred == (|x: AttachmentView| x.task_id == task_id@),
                attachment_views(out@) == s.take(i as int).filter(pred),
        {
            let ghost before = attachment_views(out@);
            assert(s.take(i + 1) =~= s.take(i as int).push(s[i as int]));
            proof {
                s.take(i as int).lemma_filter_push(s[i as int], pred);
            }
            if str_eq(self.attachments[i].task_id.as_str(), task_id) {
                out.push(self.attachments[i].duplicate());
                assert(attachment_views(out@) =~= before.push(s[i as int]));
            }
        }
        assert(s.take(self.attachments.len() as int) =~= s);
        Ok(out)
    }
}

impl Database {
    /// Whether completing the task with this id keeps the next instance's
    /// due date representable (true when there is no such task, or it is
    /// already done and so is not completed again).
    pub fn recurrence_fits(&self, id: &str, now: Instant) -> (r: bool)
        requires
            self@.wf(),
            now.wf(),
        ensures
            r == (has_task(self@.tasks, id@) && task_of(self@.tasks, id@).status != Status::Done
                ==> crate::recur::next_due_representable(task_of(self@.tasks, id@), now)),
    {
        match self.find_index(id) {
            None => true,
            Some(i) => {
                proof {
                    lemma_unique_index(self@.tasks, i as int, id@);
                }
                if self.tasks[i].status == Status::Done {
                    true
                } else {
                    crate::recur::next_due_fits(&self.tasks[i], now)
                }
            },
        }
    }
}

impl Instant {
    /// Whether the instant lies in the range that the clock and calendar represent.
    pub fn is_wf(&self) -> (r: bool)
        ensures
            r == self.wf(),
    {
        if !(crate::time::MIN_SECS <= self.secs && self.secs <= crate::time::MAX_SECS) {
            return false;
        }
        // MIN_SECS is a multiple of 60, so the shifted count has the same remainder.
        let shifted: u64 = (self.secs - crate::time::MIN_SECS) as u64;
        let rem: u64 = shifted % 60;
        assert(rem == self.secs % 60) by {
            let q = (self.secs as int) / 60;
            let r = (self.secs as int) % 60;
            vstd::arithmetic::div_mod::lemma_fundamental_div_mod(self.secs as int, 60);
            vstd::arithmetic::div_mod::lemma_fundamental_div_mod_converse(
                shifted as int, 60, q + 138910020480, r,
            );
        }
        self.nanos < 1_000_000_000 || (self.nanos < 2_000_000_000 && rem == 59)
    }
}

/// Whether a task's instants lie in range (see `task_wf`).
pub fn task_is_wf(t: &Task) -> (r: bool)
    ensures
        r == task_wf(t@),
{
    t.created_at.is_wf() && t.updated_at.is_wf() && match &t.due_at {
        Some(d) => d.is_wf(),
        None => true,
    }
}

/// Inserting at the insertion point keeps ids unique and creation order.
proof fn lemma_insert_sorted_unique(s: Seq<TaskView>, p: int, t: TaskView)
    requires
        unique_ids(s),
        sorted_by_created(s),
        0 <= p <= s.len(),
        p > 0 ==> s[p - 1].created_at.spec_le(t.created_at),
        forall|j: int| p <= j < s.len() ==> !(#[trigger] s[j]).created_at.spec_le(t.created_at),
        !has_task(s, t.id),
    ensures
        unique_ids(s.insert(p, t)),
        sorted_by_created(s.insert(p, t)),
{
    let n = s.insert(p, t);
    let c = t.created_at;
    assert forall|i: int, j: int|
        0 <= i < n.len() && 0 <= j < n.len() && (#[trigger] n[i]).id == (#[trigger] n[j]).id implies i
            == j by {
        if i != p && j != p {
            let i0 = if i < p { i } else { i - 1 };
            let j0 = if j < p { j } else { j - 1 };
            assert(s[i0] == n[i] && s[j0] == n[j]);
        } else if i == p && j != p {
            let j0 = if j < p { j } else { j - 1 };
            assert(s[j0] == n[j]);
        } else if j == p && i != p {
            let i0 = if i < p { i } else { i - 1 };
            assert(s[i0] == n[i]);
        }
    }
    assert forall|i: int, j: int| 0 <= i < j < n.len() implies (#[trigger] n[i]).created_at.spec_le(
        (#[trigger] n[j]).created_at) by {
        if j < p {
            assert(n[i] == s[i] && n[j] == s[j]);
        } else if i > p {
            assert(n[i] == s[i - 1] && n[j] == s[j - 1]);
        } else if i == p {
            assert(n[j] == s[j - 1]);
        } else if j == p {
            assert(n[i] == s[i]);
            assert(i == p - 1 || s[i].created_at.spec_le(s[p - 1].created_at));
        } else {
            assert(n[i] == s[i] && n[j] == s[j - 1]);
        }
    }
}

/// The storage's complaint about stored data that breaks the store's rules.
pub open spec fn inconsistent_text() -> Seq<char> {
    "stored tasks are inconsistent"@
}

/// Stored tasks and attachments from which a store can be rebuilt: task ids
/// are unique, every instant is in range, and every parent that a task names
/// and every attachment's task is among the tasks, with attachment ids unique.
pub open spec fn restorable(tasks: Seq<TaskView>, atts: Seq<AttachmentView>) -> bool {
    &&& unique_ids(tasks)
    &&& parents_present(tasks)
    &&& forall|i: int| 0 <= i < tasks.len() ==> task_wf(#[trigger] tasks[i])
    &&& attachments_wf(atts, tasks)
}

/// Two sequences with the same elements hold the same tasks and ids.
pub(crate) proof fn lemma_same_elements(s1: Seq<TaskView>, s2: Seq<TaskView>)
    requires
        s1.to_multiset() == s2.to_multiset(),
    ensures
        forall|x: TaskView| s1.contains(x) <==> s2.contains(x),
        forall|id: Seq<char>| has_task(s1, id) <==> has_task(s2, id),
{
    assert forall|x: TaskView| s1.contains(x) <==> s2.contains(x) by {
        vstd::seq_lib::to_multiset_contains(s1, x);
        vstd::seq_lib::to_multiset_contains(s2, x);
    }
    assert forall|id: Seq<char>| has_task(s1, id) implies has_task(s2, id) by {
        let i = choose|i: int| 0 <= i < s1.len() && (#[trigger] s1[i]).id == id;
        assert(s1.contains(s1[i]));
        let j = choose|j: int| 0 <= j < s2.len() && s2[j] == s1[i];
        assert(s2[j].id == id);
    }
    assert forall|id: Seq<char>| has_task(s2, id) implies has_task(s1, id) by {
        let i = choose|i: int| 0 <= i < s2.len() && (#[trigger] s2[i]).id == id;
        assert(s2.contains(s2[i]));
        let j = choose|j: int| 0 <= j < s1.len() && s1[j] == s2[i];
        assert(s1[j].id == id);
    }
}

impl Database {
    /// Rebuilds a store from stored tasks and attachments, in any order.
    /// Refused, exactly when they are not `restorable`, when ids repeat, a
    /// named parent or an attachment's task is missing, or an instant is out
    /// of range; else the store holds the same tasks, in creation order, and
    /// the attachments as given.
    pub fn restore(tasks: Vec<Task>, attachments: Vec<Attachment>) -> (r: Result<Database, FlowstateError>)
        ensures
            r is Ok <==> restorable(views(tasks@), attachment_views(attachments@)),
            match r {
                Ok(db) => db@.wf() && db@.tasks.to_multiset() == views(tasks@).to_multiset()
                    && db@.attachments == attachment_views(attachments@),
                Err(e) => e@ == ErrorView::Database(inconsistent_text()),
            },
    {
        let ghost input = views(tasks@);
        let ghost atts = attachment_views(attachments@);
        let mut db = Database { tasks: Vec::new(), attachments: Vec::new() };
        assert(views(db.tasks@) =~= Seq::<TaskView>::empty());
        assert(input.take(0) =~= Seq::<TaskView>::empty());
        for i in 0..tasks.len()
            invariant
                input == views(tasks@),
                db.attachments@.len() == 0,
                unique_ids(db@.tasks),
                sorted_by_created(db@.tasks),
                forall|k: int| 0 <= k < db@.tasks.len() ==> task_wf(#[trigger] db@.tasks[k]),
                db@.tasks.to_multiset() == input.take(i as int).to_multiset(),
                db@.tasks == views(db.tasks@),
                unique_ids(input.take(i as int)),
                forall|k: int| 0 <= k < i ==> task_wf(#[trigger] input[k]),
        {
            let t = &tasks[i];
            if !task_is_wf(t) {
                assert(!task_wf(input[i as int]));
                return Err(FlowstateError::Database(String::from_str("stored tasks are inconsistent")));
            }
            if let Some(q) = db.find_index(t.id.as_str()) {
                proof {
                    lemma_same_elements(db@.tasks, input.take(i as int));
                    assert(db@.tasks[q as int].id == t@.id);
                    assert(has_task(db@.tasks, t@.id));
                    assert(has_task(input.take(i as int), t@.id));
                    let j = choose|j: int|
                        0 <= j < input.take(i as int).len() && (#[trigger] input.take(i as int)[j]).id
                            == t@.id;
                    assert(input[j].id == input[i as int].id);
                }
                return Err(FlowstateError::Database(String::from_str("stored tasks are inconsistent")));
            }
            let ghost before = db@.tasks;
            proof {
                lemma_same_elements(before, input.take(i as int));
                let next = input.take(i + 1);
                assert forall|a: int, b: int|
                    0 <= a < next.len() && 0 <= b < next.len() && (#[trigger] next[a]).id
                        == (#[trigger] next[b]).id implies a == b by {
                    if a < i && b < i {
                        assert(next[a] == input.take(i as int)[a]);
                        assert(next[b] == input.take(i as int)[b]);
                    } else if a < i {
                        assert(input.take(i as int)[a].id == t@.id);
                    } else if b < i {
                        assert(input.take(i as int)[b].id == t@.id);
                    }
                }
            }
            let c = t.created_at;
            let mut p = db.tasks.len();
            while p > 0 && !db.tasks[p - 1].created_at.le(&c)
                invariant
                    p <= db.tasks.len(),
                    before == views(db.tasks@),
                    forall|j: int| p <= j < before.len() ==> !(#[trigger] before[j]).created_at.spec_le(c),
                decreases p,
            {
                p = p - 1;
            }
            proof {
                lemma_insert_sorted_unique(before, p as int, t@);
                vstd::seq_lib::to_multiset_insert(before, p as int, t@);
                vstd::seq_lib::to_multiset_build(input.take(i as int), t@);
                assert(input.take(i + 1) =~= input.take(i as int).push(t@));
            }
            db.tasks.insert(p, t.duplicate());
            assert(views(db.tasks@) =~= before.insert(p as int, t@));
            proof {
                assert forall|k: int| 0 <= k < db@.tasks.len() implies task_wf(#[trigger] db@.tasks[k]) by {
                    if k < p {
                        assert(db@.tasks[k] == before[k]);
                    } else if k > p {
                        assert(db@.tasks[k] == before[k - 1]);
                    }
                }
            }
        }
        assert(input.take(tasks.len() as int) =~= input);
        proof {
            lemma_same_elements(db@.tasks, input);
        }
        for k in 0..db.tasks.len()
            invariant
                input == views(tasks@),
                db@.tasks == views(db.tasks@),
                forall|x: TaskView|
                    #![trigger db@.tasks.contains(x)]
                    #![trigger input.contains(x)]
                    db@.tasks.contains(x) <==> input.contains(x),
                forall|id: Seq<char>|
                    #![trigger has_task(db@.tasks, id)]
                    #![trigger has_task(input, id)]
                    has_task(db@.tasks, id) <==> has_task(input, id),
                forall|j: int|
                    0 <= j < k && (#[trigger] db@.tasks[j]).parent_id is Some ==> has_task(
                        db@.tasks,
                        db@.tasks[j].parent_id->0,
                    ),
        {
            if let Some(pid) = &db.tasks[k].parent_id {
                if db.find_index(pid.as_str()).is_none() {
                    proof {
                        assert(db@.tasks.contains(db@.tasks[k as int]));
                        let j = choose|j: int| 0 <= j < input.len() && input[j] == db@.tasks[k as int];
                        assert(input[j].parent_id == Some(pid@));
                        assert(!has_task(db@.tasks, pid@));
                        assert(!has_task(input, pid@));
                        assert(!parents_present(input));
                    }
                    return Err(FlowstateError::Database(String::from_str("stored tasks are inconsistent")));
                }
            }
        }
        assert(parents_present(input)) by {
            assert forall|j: int| 0 <= j < input.len() && (#[trigger] input[j]).parent_id is Some implies has_task(
                input,
                input[j].parent_id->0,
            ) by {
                assert(input.contains(input[j]));
                let p = choose|p: int| 0 <= p < db@.tasks.len() && db@.tasks[p] == input[j];
                assert(db@.tasks[p].parent_id is Some);
            }
        }
        for k in 0..attachments.len()
            invariant
                db@.tasks == views(db.tasks@),
                input == views(tasks@),
                atts == attachment_views(attachments@),
                db.attachments@.len() == 0,
                forall|id: Seq<char>|
                    #![trigger has_task(db@.tasks, id)]
                    #![trigger has_task(input, id)]
                    has_task(db@.tasks, id) <==> has_task(input, id),
                forall|j: int|
                    0 <= j < k ==> has_task(db@.tasks, (#[trigger] atts[j]).task_id)
                        && atts[j].created_at.wf(),
                forall|a: int, b: int|
                    0 <= a < k && 0 <= b < k && (#[trigger] atts[a]).id == (#[trigger] atts[b]).id
                        ==> a == b,
        {
            let a = &attachments[k];
            assert(atts[k as int] == a@);
            if db.find_index(a.task_id.as_str()).is_none() {
                assert(!has_task(db@.tasks, atts[k as int].task_id));
                assert(!has_task(input, atts[k as int].task_id));
                assert(!attachments_wf(atts, input));
                return Err(FlowstateError::Database(String::from_str("stored tasks are inconsistent")));
            }
            if !a.created_at.is_wf() {
                assert(!atts[k as int].created_at.wf());
                return Err(FlowstateError::Database(String::from_str("stored tasks are inconsistent")));
            }
            for m in 0..k
                invariant
                    k < attachments@.len(),
                    atts == attachment_views(attachments@),
                    forall|b: int| 0 <= b < m ==> atts[b].id != attachments@[k as int]@.id,
            {
                assert(atts[m as int] == attachments@[m as int]@);
                if str_eq(attachments[m].id.as_str(), attachments[k].id.as_str()) {
                    assert(atts[m as int].id == atts[k as int].id);
                    return Err(FlowstateError::Database(String::from_str("stored tasks are inconsistent")));
                }
            }
        }
        let tasks_out = db.tasks;
        let result = Database { tasks: tasks_out, attachments };
        assert(attachments_wf(result@.attachments, result@.tasks));
        assert(attachments_wf(atts, input));
        Ok(result)
    }

    /// The tasks of the store, in creation order.
    pub fn tasks(&self) -> (r: &Vec<Task>)
        ensures
            views(r@) == self@.tasks,
    {
        &self.tasks
    }

    /// The attachments of the store, in the order they were added.
    pub fn attachments(&self) -> (r: &Vec<Attachment>)
        ensures
            attachment_views(r@) == self@.attachments,
    {
        &self.attachments
    }
}

/// Every task after the insertion point was created after `c`.
pub(crate) proof fn lemma_insertion_point_after(s: Seq<TaskView>, c: Instant)
    ensures
        forall|j: int|
            insertion_point(s, c) <= j < s.len() ==> !(#[trigger] s[j]).created_at.spec_le(c),
    decreases s.len(),
{
    lemma_insertion_point_bounds(s, c);
    if s.len() > 0 && !s.last().created_at.spec_le(c) {
        lemma_insertion_point_after(s.drop_last(), c);
        lemma_insertion_point_bounds(s.drop_last(), c);
        assert forall|j: int| insertion_point(s, c) <= j < s.len() implies !(
        #[trigger] s[j]).created_at.spec_le(c) by {
            if j < s.len() - 1 {
                assert(s[j] == s.drop_last()[j]);
            }
        }
    }
}

/// The position of the task with this id (meaningful when `has_task` holds).
pub open spec fn index_of(s: Seq<TaskView>, id: Seq<char>) -> int {
    choose|i: int| 0 <= i < s.len() && (#[trigger] s[i]).id == id
}

/// The tasks with the one that has `t`'s id taken out and `t` put in its
/// place in creation order.
pub open spec fn swapped_tasks(s: Seq<TaskView>, t: TaskView) -> Seq<TaskView> {
    let rest = s.remove(index_of(s, t.id));
    rest.insert(insertion_point(rest, t.created_at), t)
}

/// The copy that replaces a stored task: the given copy, except that a
/// parent it names that is not stored gives way to the stored task's own
/// parent (a replacement never fails on the parent, and never leaves a
/// dangling one).
pub open spec fn replacement(s: Seq<TaskView>, t: TaskView) -> TaskView {
    if t.parent_id is Some && !has_task(s, t.parent_id->0) {
        TaskView { parent_id: task_of(s, t.id).parent_id, ..t }
    } else {
        t
    }
}

/// What replacing a stored task with another copy of it gives: refused with
/// `task <id> not found` when no task has its id; else the `replacement`
/// takes the stored task's place, every field included, in creation order.
pub open spec fn replace_outcome(db: DbView, t: TaskView) -> (DbView, Result<(), ErrorView>) {
    if !has_task(db.tasks, t.id) {
        (db, Err(ErrorView::NotFound(task_not_found_text(t.id))))
    } else {
        (DbView { tasks: swapped_tasks(db.tasks, replacement(db.tasks, t)), attachments: db.attachments }, Ok(()))
    }
}

/// Swapping a task for a copy with the same id keeps the store's invariant
/// and every id, and the copy is what its id then gives.
pub(crate) proof fn lemma_swap_keeps_wf(db: DbView, i: int, t: TaskView)
    requires
        db.wf(),
        0 <= i < db.tasks.len(),
        db.tasks[i].id == t.id,
        task_wf(t),
        t.parent_id is Some ==> has_task(db.tasks, t.parent_id->0),
    ensures
        index_of(db.tasks, t.id) == i,
        (DbView { tasks: swapped_tasks(db.tasks, t), attachments: db.attachments }).wf(),
        forall|x: Seq<char>| has_task(db.tasks, x) ==> #[trigger] has_task(swapped_tasks(db.tasks, t), x),
        forall|x: Seq<char>|
            x != t.id ==> #[trigger] has_task(swapped_tasks(db.tasks, t), x) == has_task(db.tasks, x),
        forall|x: Seq<char>|
            x != t.id && has_task(db.tasks, x) ==> #[trigger] task_of(swapped_tasks(db.tasks, t), x)
                == task_of(db.tasks, x),
        has_task(swapped_tasks(db.tasks, t), t.id),
        task_of(swapped_tasks(db.tasks, t), t.id) == t,
{
    let s = db.tasks;
    let c = t.created_at;
    let k = index_of(s, t.id);
    assert(s[i].id == t.id);
    assert(0 <= k < s.len() && s[k].id == t.id);
    assert(k == i);
    let rest = s.remove(i);
    assert forall|a: int, b: int|
        0 <= a < rest.len() && 0 <= b < rest.len() && (#[trigger] rest[a]).id == (#[trigger] rest[b]).id
        implies a == b by {
        let a1 = if a < i { a } else { a + 1 };
        let b1 = if b < i { b } else { b + 1 };
        assert(rest[a] == s[a1]);
        assert(rest[b] == s[b1]);
    }
    assert forall|a: int, b: int| 0 <= a < b < rest.len() implies
        (#[trigger] rest[a]).created_at.spec_le((#[trigger] rest[b]).created_at) by {
        let a1 = if a < i { a } else { a + 1 };
        let b1 = if b < i { b } else { b + 1 };
        assert(rest[a] == s[a1]);
        assert(rest[b] == s[b1]);
    }
    assert(!has_task(rest, t.id)) by {
        if has_task(rest, t.id) {
            let a = choose|a: int| 0 <= a < rest.len() && (#[trigger] rest[a]).id == t.id;
            let a1 = if a < i { a } else { a + 1 };
            assert(rest[a] == s[a1]);
        }
    }
    let p = insertion_point(rest, c);
    lemma_insertion_point_bounds(rest, c);
    lemma_insertion_point_after(rest, c);
    if p > 0 {
        lemma_insertion_point_last(rest, c);
    }
    lemma_insert_sorted_unique(rest, p, t);
    let n = rest.insert(p, t);
    assert(n == swapped_tasks(s, t));
    assert forall|x: Seq<char>| has_task(s, x) implies #[trigger] has_task(n, x) by {
        if x == t.id {
            assert(n[p].id == x);
        } else {
            let q = choose|q: int| 0 <= q < s.len() && (#[trigger] s[q]).id == x;
            assert(q != i);
            let q0 = if q < i { q } else { q - 1 };
            assert(rest[q0] == s[q]);
            let q1 = if q0 < p { q0 } else { q0 + 1 };
            assert(n[q1] == rest[q0]);
        }
    }
    assert forall|a: int| 0 <= a < n.len() && (#[trigger] n[a]).parent_id is Some implies has_task(
        n,
        n[a].parent_id->0,
    ) by {
        if a != p {
            let a0 = if a < p { a } else { a - 1 };
            let a1 = if a0 < i { a0 } else { a0 + 1 };
            assert(n[a] == rest[a0]);
            assert(rest[a0] == s[a1]);
            assert(has_task(s, s[a1].parent_id->0));
        }
        assert(has_task(s, n[a].parent_id->0));
    }
    assert forall|a: int| 0 <= a < n.len() implies task_wf(#[trigger] n[a]) by {
        if a != p {
            let a0 = if a < p { a } else { a - 1 };
            let a1 = if a0 < i { a0 } else { a0 + 1 };
            assert(n[a] == rest[a0]);
            assert(rest[a0] == s[a1]);
        }
    }
    assert forall|a: int| 0 <= a < db.attachments.len() implies has_task(
        n,
        (#[trigger] db.attachments[a]).task_id,
    ) by {
        assert(has_task(s, db.attachments[a].task_id));
    }
    assert(n[p].id == t.id);
    lemma_unique_index(n, p, t.id);
    assert forall|x: Seq<char>| x != t.id implies #[trigger] has_task(n, x) == has_task(s, x) by {
        if has_task(n, x) {
            let a = choose|a: int| 0 <= a < n.len() && (#[trigger] n[a]).id == x;
            assert(a != p);
            let a0 = if a < p { a } else { a - 1 };
            let a1 = if a0 < i { a0 } else { a0 + 1 };
            assert(n[a] == rest[a0]);
            assert(rest[a0] == s[a1]);
        }
    }
    assert forall|x: Seq<char>| x != t.id && has_task(s, x) implies #[trigger] task_of(n, x) == task_of(s, x) by {
        let q = choose|q: int| 0 <= q < s.len() && (#[trigger] s[q]).id == x;
        assert(q != i);
        let q0 = if q < i { q } else { q - 1 };
        assert(rest[q0] == s[q]);
        let q1 = if q0 < p { q0 } else { q0 + 1 };
        assert(n[q1] == rest[q0]);
        lemma_unique_index(s, q, x);
        lemma_unique_index(n, q1, x);
    }
}

impl Database {
    /// Replaces a stored task with another copy of it, every field included,
    /// keeping the stored parent where the copy names one that is not stored
    /// (see `replace_outcome`).
    pub fn replace_task(&mut self, task: &Task) -> (r: Result<(), FlowstateError>)
        requires
            old(self)@.wf(),
            task_wf(task@),
        ensures
            (final(self)@, unit_result_view(r)) == replace_outcome(old(self)@, task@),
            final(self)@.wf(),
    {
        let i = match self.find_index(task.id.as_str()) {
            Some(i) => i,
            None => {
                return Err(task_not_found(task.id.as_str()));
            },
        };
        proof {
            lemma_unique_index(self@.tasks, i as int, task@.id);
        }
        let mut copy = task.duplicate();
        if let Some(pid) = &task.parent_id {
            if self.find_index(pid.as_str()).is_none() {
                copy.parent_id = clone_opt_string(&self.tasks[i].parent_id);
            }
        }
        assert(copy@ == replacement(self@.tasks, task@));
        let ghost old_db = self@;
        proof {
            let st = old_db.tasks[i as int];
            if st.parent_id is Some {
                assert(has_task(old_db.tasks, st.parent_id->0));
            }
            lemma_swap_keeps_wf(old_db, i as int, copy@);
        }
        self.tasks.remove(i);
        let ghost rest = self@.tasks;
        assert(rest =~= old_db.tasks.remove(i as int));
        let c = copy.created_at;
        let mut p = self.tasks.len();
        assert(rest.take(p as int) =~= rest);
        while p > 0 && !self.tasks[p - 1].created_at.le(&c)
            invariant
                p <= self.tasks.len(),
                self@.tasks == rest,
                self@.tasks == views(self.tasks@),
                insertion_point(rest, c) == insertion_point(rest.take(p as int), c),
            decreases p,
        {
            assert(rest.take(p as int).drop_last() =~= rest.take(p - 1));
            p = p - 1;
        }
        proof {
            if p > 0 {
                assert(rest.take(p as int).last() == rest[p - 1]);
            }
        }
        assert(insertion_point(rest, c) == p);
        let ghost cv = copy@;
        self.tasks.insert(p, copy);
        assert(views(self.tasks@) =~= rest.insert(p as int, cv));
        Ok(())
    }
}

/// A read gives back what a write wrote: once a task is inserted, looking
/// up its id gives that task; the store keeps its invariant, and every other
/// id gives what it gave before.
pub proof fn law_get_after_insert(db: DbView, t: TaskView)
    requires
        db.wf(),
        task_wf(t),
        insert_outcome(db, t).1 is Ok,
    ensures
        insert_outcome(db, t).0.wf(),
        has_task(insert_outcome(db, t).0.tasks, t.id),
        task_of(insert_outcome(db, t).0.tasks, t.id) == t,
        forall|id: Seq<char>|
            id != t.id ==> #[trigger] has_task(insert_outcome(db, t).0.tasks, id) == has_task(
                db.tasks,
                id,
            ),
        forall|id: Seq<char>|
            id != t.id && has_task(db.tasks, id) ==> #[trigger] task_of(
                insert_outcome(db, t).0.tasks,
                id,
            ) == task_of(db.tasks, id),
{
    let s = db.tasks;
    let p = insertion_point(s, t.created_at);
    lemma_insertion_point_bounds(s, t.created_at);
    lemma_insertion_point_after(s, t.created_at);
    lemma_insert_keeps_wf(db, p, t);
    let n = s.insert(p, t);
    assert(insert_outcome(db, t).0.tasks == n);
    lemma_unique_index(n, p, t.id);
    assert forall|id: Seq<char>| id != t.id implies #[trigger] has_task(n, id) == has_task(s, id) by {
        if has_task(s, id) {
            let k = choose|k: int| 0 <= k < s.len() && (#[trigger] s[k]).id == id;
            let k1 = if k < p { k } else { k + 1 };
            assert(n[k1] == s[k]);
        }
        if has_task(n, id) {
            let k = choose|k: int| 0 <= k < n.len() && (#[trigger] n[k]).id == id;
            let k0 = if k < p { k } else { k - 1 };
            assert(n[k] == s[k0]);
        }
    }
    assert forall|id: Seq<char>| id != t.id && has_task(s, id) implies #[trigger] task_of(n, id)
        == task_of(s, id) by {
        let k = choose|k: int| 0 <= k < s.len() && (#[trigger] s[k]).id == id;
        let k1 = if k < p { k } else { k + 1 };
        assert(n[k1] == s[k]);
        lemma_unique_index(s, k, id);
        lemma_unique_index(n, k1, id);
    }
}

/// An update changes only the task it names: looking it up gives the task
/// with the updates applied (or unchanged when they change nothing), every
/// other id gives what it gave before, and the store keeps its invariant.
pub proof fn law_get_after_update(db: DbView, id: Seq<char>, u: UpdatesView, now: Instant)
    requires
        db.wf(),
        updates_wf(u),
        now.wf(),
        has_task(db.tasks, id),
    ensures
        update_outcome(db, id, u, now).0.wf(),
        has_task(update_outcome(db, id, u, now).0.tasks, id),
        task_of(update_outcome(db, id, u, now).0.tasks, id) == (if has_changes(u) {
            apply_updates(task_of(db.tasks, id), u, now)
        } else {
            task_of(db.tasks, id)
        }),
        update_outcome(db, id, u, now).1 == Ok::<TaskView, ErrorView>(
            task_of(update_outcome(db, id, u, now).0.tasks, id),
        ),
        update_outcome(db, id, u, now).0.attachments == db.attachments,
        forall|x: Seq<char>|
            x != id ==> #[trigger] has_task(update_outcome(db, id, u, now).0.tasks, x) == has_task(
                db.tasks,
                x,
            ),
        forall|x: Seq<char>|
            x != id && has_task(db.tasks, x) ==> #[trigger] task_of(
                update_outcome(db, id, u, now).0.tasks,
                x,
            ) == task_of(db.tasks, x),
{
    let s = db.tasks;
    let i = choose|i: int| 0 <= i < s.len() && (#[trigger] s[i]).id == id;
    lemma_unique_index(s, i, id);
    if has_changes(u) {
        let a = apply_updates(s[i], u, now);
        let f = |t: TaskView| if t.id == id { apply_updates(t, u, now) } else { t };
        let n = s.map_values(f);
        assert(n =~= s.update(i, a)) by {
            assert forall|k: int| 0 <= k < s.len() implies #[trigger] n[k] == s.update(i, a)[k] by {
                if k != i && s[k].id == id {
                    assert(s[k].id == s[i].id);
                }
            }
        }
        lemma_replace_keeps_wf(db, i, a);
        lemma_unique_index(n, i, id);
        assert forall|x: Seq<char>| x != id implies #[trigger] has_task(n, x) == has_task(s, x) by {
            if has_task(s, x) {
                let k = choose|k: int| 0 <= k < s.len() && (#[trigger] s[k]).id == x;
                assert(n[k].id == s[k].id);
            }
            if has_task(n, x) {
                let k = choose|k: int| 0 <= k < n.len() && (#[trigger] n[k]).id == x;
                assert(n[k].id == s[k].id);
            }
        }
        assert forall|x: Seq<char>| x != id && has_task(s, x) implies #[trigger] task_of(n, x) == task_of(
            s, x) by {
            let k = choose|k: int| 0 <= k < s.len() && (#[trigger] s[k]).id == x;
            assert(k != i);
            assert(n[k] == s[k]);
            lemma_unique_index(s, k, x);
            lemma_unique_index(n, k, x);
        }
    }
}

} // verus!

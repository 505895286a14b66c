//! Export and import of tasks: the decisions that the `state` commands take
//! (the files themselves are read and written around them).
use vstd::prelude::*;

use super::{parse_status, status_from_text};
use crate::db::{
    filtered, has_task, insert_outcome, replace_outcome, task_of, task_wf, views, Database, DbView,
    FiltersView, TaskFilters,
};
use crate::errors::{ErrorView, FlowstateError};
use crate::models::{Status, Task, TaskView};
use crate::text::{chars_of, decimal, decimal_text, has_prefix, starts_with, str_eq};

verus! {

/// The `state` subcommands.
pub enum StateAction {
    /// Export tasks to files for version control
    Export {
        dir: String,
        include_metadata: bool,
        status: Option<String>,
        tag: Option<String>,
        json: bool,
    },
    /// Import tasks from exported files
    Import { dir: String, strategy: String, json: bool },
}

/// What to do with an imported task whose id is already in the store.
#[derive(Clone, Copy, Debug, PartialEq, Eq, Structural)]
pub enum MergeStrategy {
    Overwrite,
    Skip,
    UpdateNewer,
}

impl MergeStrategy {
    /// The strategy's name.
    pub open spec fn text(self) -> Seq<char> {
        match self {
            MergeStrategy::Overwrite => "overwrite"@,
            MergeStrategy::Skip => "skip"@,
            MergeStrategy::UpdateNewer => "update-newer"@,
        }
    }

    /// Reads a strategy name; any other text is refused with
    /// `invalid strategy: <text> (expected overwrite, skip, or update-newer)`.
    pub fn from_str(s: &str) -> (r: Result<MergeStrategy, String>)
        ensures
            match r {
                Ok(st) => st.text() == s@,
                Err(e) => (forall|st: MergeStrategy| st.text() != s@) && e@ == "invalid strategy: "@
                    + s@ + " (expected overwrite, skip, or update-newer)"@,
            },
    {
        if str_eq(s, "overwrite") {
            Ok(MergeStrategy::Overwrite)
        } else if str_eq(s, "skip") {
            Ok(MergeStrategy::Skip)
        } else if str_eq(s, "update-newer") {
            Ok(MergeStrategy::UpdateNewer)
        } else {
            Err(
                String::from_str("invalid strategy: ").concat(s).concat(
                    " (expected overwrite, skip, or update-newer)",
                ),
            )
        }
    }
}

/// The tasks to export: those with the status and tag asked for, in creation
/// order; a wrong status name is a validation error.
pub open spec fn export_selection(db: DbView, status: Option<Seq<char>>, tag: Option<Seq<char>>) -> Result<
    Seq<TaskView>,
    ErrorView,
> {
    let st: Result<Option<Status>, ErrorView> = match status {
        None => Ok(None),
        Some(s) => match status_from_text(s) {
            Ok(x) => Ok(Some(x)),
            Err(e) => Err(e),
        },
    };
    match st {
        Err(e) => Err(e),
        Ok(x) => Ok(
            filtered(
                db.tasks,
                FiltersView { status: x, schedule_type: None, tag, due_before: None, parent_id: None },
            ),
        ),
    }
}

/// Chooses the tasks to export (see `export_selection`).
pub fn export_tasks(db: &Database, status: Option<String>, tag: Option<String>) -> (r: Result<
    Vec<Task>,
    FlowstateError,
>)
    requires
        db@.wf(),
    ensures
        match r {
            Ok(v) => export_selection(db@, status.deep_view(), tag.deep_view()) == Ok::<
                Seq<TaskView>,
                ErrorView,
            >(views(v@)),
            Err(e) => export_selection(db@, status.deep_view(), tag.deep_view()) == Err::<
                Seq<TaskView>,
                ErrorView,
            >(e@),
        },
{
    let st = match &status {
        None => None,
        Some(s) => match parse_status(s.as_str()) {
            Ok(x) => Some(x),
            Err(e) => {
                return Err(e);
            },
        },
    };
    let filters = TaskFilters { status: st, schedule_type: None, tag, due_before: None, parent_id: None };
    db.list_tasks(&filters)
}

/// An exported file is stale when its name (without extension) has the task
/// id prefix `tk_` and names none of the given tasks (an export passes all
/// the stored tasks).
pub open spec fn is_stale(stem: Seq<char>, tasks: Seq<TaskView>) -> bool {
    has_prefix(stem, "tk_"@) && !has_task(tasks, stem)
}

/// The file names (without extension) among `stems` that are stale, in order.
pub fn stale_exports(stems: &Vec<String>, tasks: &Vec<Task>) -> (r: Vec<String>)
    ensures
        r.deep_view() == stems.deep_view().filter(|s: Seq<char>| is_stale(s, views(tasks@))),
{
    let ghost pred = |s: Seq<char>| is_stale(s, views(tasks@));
    let ghost sv = stems.deep_view();
    let mut out: Vec<String> = Vec::new();
    assert(out.deep_view() =~= Seq::<Seq<char>>::empty());
    for i in 0..stems.len()
        invariant
            sv == stems.deep_view(),
            pred == (|s: Seq<char>| is_stale(s, views(tasks@))),
            out.deep_view() == sv.take(i as int).filter(pred),
    {
        let ghost before = out.deep_view();
        assert(sv.take(i + 1) =~= sv.take(i as int).push(sv[i as int]));
        proof {
            sv.take(i as int).lemma_filter_push(sv[i as int], pred);
        }
        let chars = chars_of(stems[i].as_str());
        let mut present = false;
        for j in 0..tasks.len()
            invariant
                present == exists|k: int| 0 <= k < j && (#[trigger] views(tasks@)[k]).id == sv[i as int],
                sv == stems.deep_view(),
                i < sv.len(),
        {
            if str_eq(tasks[j].id.as_str(), stems[i].as_str()) {
                present = true;
                assert(views(tasks@)[j as int].id == sv[i as int]);
            }
        }
        if starts_with(&chars, "tk_") && !present {
            out.push(stems[i].clone());
            assert(out.deep_view() =~= before.push(sv[i as int]));
        }
    }
    assert(sv.take(stems.len() as int) =~= sv);
    out
}

/// One file of an export: a task and, when metadata is included, its metadata.
pub struct ExportEntry {
    pub task: Task,
    pub metadata: Option<String>,
}

/// What an export does: the files to write, in order, and the names
/// (without extension) of the stale files to remove.
pub struct ExportPlan {
    pub entries: Vec<ExportEntry>,
    pub stale: Vec<String>,
}

/// The views of export entries: each task with the metadata it carries.
pub open spec fn entry_views(v: Seq<ExportEntry>) -> Seq<(TaskView, Option<Seq<char>>)> {
    v.map_values(|e: ExportEntry| (e.task@, e.metadata.deep_view()))
}

/// A task as an export without metadata writes it: its metadata is the
/// empty object, and the entry carries none.
pub open spec fn strip_metadata(t: TaskView) -> TaskView {
    TaskView { metadata: "{}"@, ..t }
}

/// The task an export writes: the task itself with metadata included, else
/// the task with its metadata stripped.
pub open spec fn exported_task(t: TaskView, include_metadata: bool) -> TaskView {
    if include_metadata {
        t
    } else {
        strip_metadata(t)
    }
}

/// What an export writes and removes: a file for each selected task (see
/// `export_selection`), carrying its metadata only when metadata is included
/// (else the task is written with its metadata stripped); and every file
/// among `stems` that is stale with respect to all the stored tasks, so that
/// a file is removed only when its task is no longer in the store.
pub open spec fn export_plan_outcome(
    db: DbView,
    status: Option<Seq<char>>,
    tag: Option<Seq<char>>,
    include_metadata: bool,
    stems: Seq<Seq<char>>,
) -> Result<(Seq<(TaskView, Option<Seq<char>>)>, Seq<Seq<char>>), ErrorView> {
    match export_selection(db, status, tag) {
        Err(e) => Err(e),
        Ok(sel) => Ok(
            (
                sel.map_values(
                    |t: TaskView|
                        (exported_task(t, include_metadata), if include_metadata {
                            Some(t.metadata)
                        } else {
                            None
                        }),
                ),
                stems.filter(|s: Seq<char>| is_stale(s, db.tasks)),
            ),
        ),
    }
}

/// Plans an export (see `export_plan_outcome`); `stems` are the names
/// (without extension) of the `.json` files already in the directory.
pub fn export_plan(
    db: &Database,
    status: Option<String>,
    tag: Option<String>,
    include_metadata: bool,
    stems: &Vec<String>,
) -> (r: Result<ExportPlan, FlowstateError>)
    requires
        db@.wf(),
    ensures
        match r {
            Ok(p) => export_plan_outcome(db@, status.deep_view(), tag.deep_view(), include_metadata, stems.deep_view())
                == Ok::<(Seq<(TaskView, Option<Seq<char>>)>, Seq<Seq<char>>), ErrorView>(
                (entry_views(p.entries@), p.stale.deep_view()),
            ),
            Err(e) => export_plan_outcome(db@, status.deep_view(), tag.deep_view(), include_metadata, stems.deep_view())
                == Err::<(Seq<(TaskView, Option<Seq<char>>)>, Seq<Seq<char>>), ErrorView>(e@),
        },
{
    let tasks = match export_tasks(db, status, tag) {
        Ok(v) => v,
        Err(e) => {
            return Err(e);
        },
    };
    let ghost sel = views(tasks@);
    let ghost f = |t: TaskView|
        (exported_task(t, include_metadata), if include_metadata {
            Some(t.metadata)
        } else {
            None
        });
    let mut entries: Vec<ExportEntry> = Vec::new();
    for i in 0..tasks.len()
        invariant
            sel == views(tasks@),
            f == (|t: TaskView|
                (exported_task(t, include_metadata), if include_metadata {
                    Some(t.metadata)
                } else {
                    None
                })),
            entries@.len() == i,
            entry_views(entries@) == sel.take(i as int).map_values(f),
    {
        let mut t = tasks[i].duplicate();
        assert(t@ == sel[i as int]);
        let metadata = if include_metadata {
            let m = t.metadata.clone();
            assert(m@ == t@.metadata);
            Some(m)
        } else {
            t.metadata = String::from_str("{}");
            None
        };
        assert(t@ == exported_task(sel[i as int], include_metadata));
        assert(metadata.deep_view() == f(sel[i as int]).1);
        let ghost before = entries@;
        let e = ExportEntry { task: t, metadata };
        assert((e.task@, e.metadata.deep_view()) == f(sel[i as int]));
        entries.push(e);
        assert(entry_views(entries@) =~= sel.take(i + 1).map_values(f)) by {
            assert(entries@ == before.push(e));
            assert forall|k: int| 0 <= k < i implies #[trigger] entry_views(entries@)[k] == entry_views(before)[k] by {
                assert(entries@[k] == before[k]);
            }
        }
    }
    assert(sel.take(tasks.len() as int) =~= sel);
    let stale = stale_exports(stems, db.tasks());
    Ok(ExportPlan { entries, stale })
}

/// `Exported <n> tasks to <dir> (removed <m> stale files)`
pub open spec fn export_message_text(exported: nat, dir: Seq<char>, removed: nat) -> Seq<char> {
    "Exported "@ + decimal_text(exported) + " tasks to "@ + dir + " (removed "@ + decimal_text(removed)
        + " stale files)"@
}

/// The message that ends an export.
pub fn export_message(exported: u64, dir: &str, removed: u64) -> (r: String)
    ensures
        r@ == export_message_text(exported as nat, dir@, removed as nat),
{
    let a = decimal(exported);
    let b = decimal(removed);
    String::from_str("Exported ").concat(a.as_str()).concat(" tasks to ").concat(dir).concat(
        " (removed ",
    ).concat(b.as_str()).concat(" stale files)")
}

/// What became of one imported task.
#[derive(Clone, Copy, Debug, PartialEq, Eq, Structural)]
pub enum ImportAction {
    Created,
    Updated,
    Skipped,
}

/// What importing one task gives: a task with a new id is inserted; one
/// whose id is taken is skipped, overwritten, or overwritten only when the
/// imported copy was updated later, as the strategy says. An overwrite puts
/// the imported copy in place of the stored task, every field included (see
/// `replace_outcome`: a parent it names that is not stored gives way to the
/// stored task's parent, so an overwrite never fails on the parent).
pub open spec fn import_one_outcome(db: DbView, t: TaskView, strategy: MergeStrategy) -> (
    DbView,
    Result<ImportAction, ErrorView>,
) {
    if has_task(db.tasks, t.id) {
        let overwrite = match strategy {
            MergeStrategy::Skip => false,
            MergeStrategy::Overwrite => true,
            MergeStrategy::UpdateNewer => task_of(db.tasks, t.id).updated_at.spec_lt(t.updated_at),
        };
        if overwrite {
            let (d, r) = replace_outcome(db, t);
            (
                d,
                match r {
                    Ok(_) => Ok(ImportAction::Updated),
                    Err(e) => Err(e),
                },
            )
        } else {
            (db, Ok(ImportAction::Skipped))
        }
    } else {
        let (d, r) = insert_outcome(db, t);
        (
            d,
            match r {
                Ok(_) => Ok(ImportAction::Created),
                Err(e) => Err(e),
            },
        )
    }
}

/// How many imported tasks were created, updated and skipped.
#[derive(Clone, Copy, Debug, PartialEq, Eq, Structural)]
pub struct ImportCounts {
    pub created: u64,
    pub updated: u64,
    pub skipped: u64,
}

/// Counts after one more action.
pub open spec fn count_action(c: (nat, nat, nat), a: ImportAction) -> (nat, nat, nat) {
    match a {
        ImportAction::Created => (c.0 + 1, c.1, c.2),
        ImportAction::Updated => (c.0, c.1 + 1, c.2),
        ImportAction::Skipped => (c.0, c.1, c.2 + 1),
    }
}

/// What importing tasks in turn gives: each imported as `import_one_outcome`
/// says, counted, until the first failure, which ends the import (what was
/// imported before it stays).
pub open spec fn import_all_outcome(db: DbView, ts: Seq<TaskView>, strategy: MergeStrategy) -> (
    DbView,
    (nat, nat, nat),
    Result<(), ErrorView>,
)
    decreases ts.len(),
{
    if ts.len() == 0 {
        (db, (0, 0, 0), Ok(()))
    } else {
        let (d1, c, r) = import_all_outcome(db, ts.drop_last(), strategy);
        if r is Err {
            (d1, c, r)
        } else {
            let (d2, r2) = import_one_outcome(d1, ts.last(), strategy);
            match r2 {
                Err(e) => (d2, c, Err(e)),
                Ok(a) => (d2, count_action(c, a), Ok(())),
            }
        }
    }
}

/// Imports one task (see `import_one_outcome`).
pub fn import_one(db: &mut Database, t: &Task, strategy: MergeStrategy) -> (r: Result<
    ImportAction,
    FlowstateError,
>)
    requires
        old(db)@.wf(),
        task_wf(t@),
    ensures
        final(db)@ == import_one_outcome(old(db)@, t@, strategy).0,
        match r {
            Ok(a) => import_one_outcome(old(db)@, t@, strategy).1 == Ok::<ImportAction, ErrorView>(a),
            Err(e) => import_one_outcome(old(db)@, t@, strategy).1 == Err::<ImportAction, ErrorView>(e@),
        },
        final(db)@.wf(),
{
    match db.get_task(t.id.as_str()) {
        Ok(existing) => {
            let overwrite = match strategy {
                MergeStrategy::Skip => false,
                MergeStrategy::Overwrite => true,
                MergeStrategy::UpdateNewer => existing.updated_at.lt(&t.updated_at),
            };
            if overwrite {
                match db.replace_task(t) {
                    Ok(_) => Ok(ImportAction::Updated),
                    Err(e) => Err(e),
                }
            } else {
                Ok(ImportAction::Skipped)
            }
        },
        Err(_) => match db.insert_task(t) {
            Ok(()) => Ok(ImportAction::Created),
            Err(e) => Err(e),
        },
    }
}

/// Imports tasks in turn (see `import_all_outcome`); returns the counts so
/// far and how the import ended.
pub fn import_tasks(db: &mut Database, tasks: &Vec<Task>, strategy: MergeStrategy) -> (r: (
    ImportCounts,
    Result<(), FlowstateError>,
))
    requires
        old(db)@.wf(),
        forall|i: int| 0 <= i < tasks@.len() ==> task_wf(#[trigger] tasks@[i]@),
    ensures
        final(db)@ == import_all_outcome(old(db)@, views(tasks@), strategy).0,
        (r.0.created as nat, r.0.updated as nat, r.0.skipped as nat) == import_all_outcome(
            old(db)@,
            views(tasks@),
            strategy,
        ).1,
        match r.1 {
            Ok(()) => import_all_outcome(old(db)@, views(tasks@), strategy).2 is Ok,
            Err(e) => import_all_outcome(old(db)@, views(tasks@), strategy).2 == Err::<(), ErrorView>(
                e@,
            ),
        },
        final(db)@.wf(),
{
    let ghost ts = views(tasks@);
    let ghost db0 = db@;
    let mut counts = ImportCounts { created: 0, updated: 0, skipped: 0 };
    let mut i: usize = 0;
    assert(ts.take(0) =~= Seq::<TaskView>::empty());
    while i < tasks.len()
        invariant
            i <= tasks.len(),
            ts == views(tasks@),
            db0 == old(db)@,
            forall|k: int| 0 <= k < tasks@.len() ==> task_wf(#[trigger] tasks@[k]@),
            db@.wf(),
            import_all_outcome(db0, ts.take(i as int), strategy).0 == db@,
            import_all_outcome(db0, ts.take(i as int), strategy).1 == (
                counts.created as nat,
                counts.updated as nat,
                counts.skipped as nat,
            ),
            import_all_outcome(db0, ts.take(i as int), strategy).2 is Ok,
            counts.created + counts.updated + counts.skipped == i,
        decreases tasks.len() - i,
    {
        assert(ts.take(i + 1).drop_last() =~= ts.take(i as int));
        assert(ts.take(i + 1).last() == tasks@[i as int]@);
        let ghost dbi = db@;
        let ghost ci = (counts.created as nat, counts.updated as nat, counts.skipped as nat);
        match import_one(db, &tasks[i], strategy) {
            Err(e) => {
                proof {
                    assert(import_one_outcome(dbi, tasks@[i as int]@, strategy).1 == Err::<ImportAction, ErrorView>(e@));
                    assert(import_all_outcome(db0, ts.take(i + 1), strategy) == (db@, ci, Err::<(), ErrorView>(e@)));
                    assert(import_all_outcome(db0, ts.take(i + 1), strategy).2 is Err);
                    lemma_import_stops(db0, ts, i as int + 1, strategy);
                }
                return (counts, Err(e));
            },
            Ok(a) => {
                match a {
                    ImportAction::Created => {
                        counts.created = counts.created + 1;
                    },
                    ImportAction::Updated => {
                        counts.updated = counts.updated + 1;
                    },
                    ImportAction::Skipped => {
                        counts.skipped = counts.skipped + 1;
                    },
                }
            },
        }
        i = i + 1;
    }
    assert(ts.take(tasks.len() as int) =~= ts);
    (counts, Ok(()))
}

/// Once an import has failed, later tasks change nothing.
proof fn lemma_import_stops(db: DbView, ts: Seq<TaskView>, k: int, strategy: MergeStrategy)
    requires
        0 <= k <= ts.len(),
        import_all_outcome(db, ts.take(k), strategy).2 is Err,
    ensures
        import_all_outcome(db, ts, strategy) == import_all_outcome(db, ts.take(k), strategy),
    decreases ts.len() - k,
{
    if k < ts.len() {
        assert(ts.take(k + 1).drop_last() =~= ts.take(k));
        lemma_import_stops(db, ts, k + 1, strategy);
    } else {
        assert(ts.take(k) =~= ts);
    }
}

/// `Imported from <dir>: <c> created, <u> updated, <s> skipped`
pub open spec fn import_message_text(dir: Seq<char>, c: ImportCounts) -> Seq<char> {
    "Imported from "@ + dir + ": "@ + decimal_text(c.created as nat) + " created, "@ + decimal_text(
        c.updated as nat,
    ) + " updated, "@ + decimal_text(c.skipped as nat) + " skipped"@
}

/// The message that ends an import.
pub fn import_message(dir: &str, c: ImportCounts) -> (r: String)
    ensures
        r@ == import_message_text(dir@, c),
{
    let a = decimal(c.created);
    let b = decimal(c.updated);
    let d = decimal(c.skipped);
    String::from_str("Imported from ").concat(dir).concat(": ").concat(a.as_str()).concat(
        " created, ",
    ).concat(b.as_str()).concat(" updated, ").concat(d.as_str()).concat(" skipped")
}

} // verus!

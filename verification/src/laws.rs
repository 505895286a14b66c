//! What holds of the commands across calls: auto-completion of parents,
//! recurrence, conflicts, listing order and the reading of names.
use vstd::prelude::*;

use crate::cli::state::{
    export_plan_outcome, export_selection, exported_task, import_all_outcome, import_one_outcome, is_stale,
    strip_metadata, ImportAction, MergeStrategy,
};
use crate::cli::task::{cancel_outcome, done_outcome, parent_step};
use crate::db::{
    apply_updates, auto_complete_outcome, children_of, has_task, insert_outcome, insertion_point,
    law_get_after_insert, law_get_after_update, matches_filters, status_update, task_of, task_wf,
    update_outcome, DbView, FiltersView,
};
use crate::models::{Status, TaskView};
use crate::recur::{next_due_representable, next_instance, next_instance_outcome, step_days, due_base, next_due};
use crate::time::{can_shift, spec_shift, Instant, SECS_PER_DAY};

verus! {

broadcast use vstd::seq_lib::group_filter_ensures;

/// The next instance of a task lies in range when its due date is representable.
proof fn lemma_next_instance_wf(t: TaskView, now: Instant, id: Seq<char>)
    requires
        task_wf(t),
        now.wf(),
        next_due_representable(t, now),
    ensures
        next_instance(t, now, id) matches Some(nt) ==> task_wf(nt) && nt.id == id,
{
}

/// Marking `cid` done or cancelled leaves every child of `pid` resolved when
/// every other child already was, and `cid` is one of them.
proof fn lemma_children_resolved(db: DbView, cid: Seq<char>, pid: Seq<char>, st: Status, now: Instant)
    requires
        db.wf(),
        now.wf(),
        st.is_resolved(),
        has_task(db.tasks, cid),
        task_of(db.tasks, cid).parent_id == Some(pid),
        forall|i: int|
            0 <= i < db.tasks.len() && (#[trigger] db.tasks[i]).parent_id == Some(pid) && db.tasks[i].id
                != cid ==> db.tasks[i].status.is_resolved(),
    ensures
        children_of(update_outcome(db, cid, status_update(st), now).0.tasks, pid).len() > 0,
        forall|i: int|
            0 <= i < children_of(update_outcome(db, cid, status_update(st), now).0.tasks, pid).len()
                ==> (#[trigger] children_of(update_outcome(db, cid, status_update(st), now).0.tasks, pid)[i]).status.is_resolved(),
{
    let s = db.tasks;
    let n = update_outcome(db, cid, status_update(st), now).0.tasks;
    let pred = |t: TaskView| t.parent_id == Some(pid);
    let f = |t: TaskView| if t.id == cid { crate::db::apply_updates(t, status_update(st), now) } else { t };
    assert(n == s.map_values(f));
    let i0 = choose|i: int| 0 <= i < s.len() && (#[trigger] s[i]).id == cid;
    crate::db::lemma_unique_index(s, i0, cid);
    assert(pred(n[i0]));
    s.map_values(f).lemma_filter_contains(pred, i0);
    assert(n.filter(pred).contains(n[i0]));
    assert forall|i: int| 0 <= i < n.filter(pred).len() implies (#[trigger] n.filter(pred)[i]).status.is_resolved() by {
        let x = n.filter(pred)[i];
        assert(n.filter(pred).contains(x));
        n.lemma_filter_contains_rev(pred, x);
        let k = choose|k: int| 0 <= k < n.len() && n[k] == x;
        assert(n[k] == f(s[k]));
    }
    assert(children_of(n, pid) == n.filter(pred));
}

/// After the parent step following a resolved child, the parent is done.
proof fn lemma_parent_step_completes(db1: DbView, u: TaskView, cid: Seq<char>, pid: Seq<char>, now: Instant, outs: Seq<crate::cli::OutputView>)
    requires
        db1.wf(),
        now.wf(),
        u.parent_id == Some(pid),
        has_task(db1.tasks, pid),
        !task_of(db1.tasks, pid).tags.contains("meta"@),
        task_of(db1.tasks, pid).status != Status::Cancelled,
        children_of(db1.tasks, pid).len() > 0,
        forall|i: int|
            0 <= i < children_of(db1.tasks, pid).len() ==> (#[trigger] children_of(db1.tasks, pid)[i]).status.is_resolved(),
    ensures
        parent_step(db1, u, true, now, outs).1.result is Ok,
        parent_step(db1, u, true, now, outs).0.wf(),
        has_task(parent_step(db1, u, true, now, outs).0.tasks, pid),
        task_of(parent_step(db1, u, true, now, outs).0.tasks, pid).status == Status::Done,
{
    if task_of(db1.tasks, pid).status != Status::Done {
        law_get_after_update(db1, pid, status_update(Status::Done), now);
    }
}

/// The parent's status survives the next-instance step.
proof fn lemma_next_keeps(db2: DbView, u: TaskView, now: Instant, nid: Seq<char>, x: Seq<char>)
    requires
        db2.wf(),
        now.wf(),
        task_wf(u),
        next_due_representable(u, now),
        has_task(db2.tasks, x),
    ensures
        next_instance_outcome(db2, u, now, nid).0.wf(),
        has_task(next_instance_outcome(db2, u, now, nid).0.tasks, x),
        task_of(next_instance_outcome(db2, u, now, nid).0.tasks, x) == task_of(db2.tasks, x),
{
    lemma_next_instance_wf(u, now, nid);
    if let Some(nt) = next_instance(u, now, nid) {
        if insert_outcome(db2, nt).1 is Ok {
            law_get_after_insert(db2, nt);
        }
    }
}

/// When all children are done or cancelled, the parent is marked done:
/// completing the last open child of a parent that is neither tagged `meta`
/// nor done or cancelled leaves the parent done.
pub proof fn law_done_completes_parent(db: DbView, cid: Seq<char>, pid: Seq<char>, now: Instant, nid: Seq<char>)
    requires
        db.wf(),
        now.wf(),
        has_task(db.tasks, cid),
        task_of(db.tasks, cid).status != Status::Done,
        task_of(db.tasks, cid).parent_id == Some(pid),
        next_due_representable(task_of(db.tasks, cid), now),
        !task_of(db.tasks, pid).tags.contains("meta"@),
        !task_of(db.tasks, pid).status.is_resolved(),
        forall|i: int|
            0 <= i < db.tasks.len() && (#[trigger] db.tasks[i]).parent_id == Some(pid) && db.tasks[i].id
                != cid ==> db.tasks[i].status.is_resolved(),
    ensures
        has_task(done_outcome(db, cid, false, now, nid).0.tasks, pid),
        task_of(done_outcome(db, cid, false, now, nid).0.tasks, pid).status == Status::Done,
{
    let su = status_update(Status::Done);
    law_get_after_update(db, cid, su, now);
    let db1 = update_outcome(db, cid, su, now).0;
    let u = task_of(db1.tasks, cid);
    assert(has_task(db.tasks, pid));
    lemma_children_resolved(db, cid, pid, Status::Done, now);
    lemma_parent_step_completes(db1, u, cid, pid, now, seq![crate::cli::OutputView::Task(u)]);
    let db2 = parent_step(db1, u, true, now, seq![crate::cli::OutputView::Task(u)]).0;
    assert(step_days(u) == step_days(task_of(db.tasks, cid)));
    lemma_next_keeps(db2, u, now, nid, pid);
}

/// Cancelling the last open child of a parent that is neither tagged `meta`
/// nor done or cancelled leaves the parent done.
pub proof fn law_cancel_completes_parent(db: DbView, cid: Seq<char>, pid: Seq<char>, now: Instant)
    requires
        db.wf(),
        now.wf(),
        has_task(db.tasks, cid),
        task_of(db.tasks, cid).status != Status::Cancelled,
        task_of(db.tasks, cid).parent_id == Some(pid),
        pid != cid,
        !task_of(db.tasks, pid).tags.contains("meta"@),
        !task_of(db.tasks, pid).status.is_resolved(),
        forall|i: int|
            0 <= i < db.tasks.len() && (#[trigger] db.tasks[i]).parent_id == Some(pid) && db.tasks[i].id
                != cid ==> db.tasks[i].status.is_resolved(),
    ensures
        has_task(cancel_outcome(db, cid, now).0.tasks, pid),
        task_of(cancel_outcome(db, cid, now).0.tasks, pid).status == Status::Done,
{
    let su = status_update(Status::Cancelled);
    law_get_after_update(db, cid, su, now);
    let db1 = update_outcome(db, cid, su, now).0;
    let u = task_of(db1.tasks, cid);
    assert(has_task(db.tasks, pid));
    lemma_children_resolved(db, cid, pid, Status::Cancelled, now);
    lemma_parent_step_completes(db1, u, cid, pid, now, seq![crate::cli::OutputView::Task(u)]);
}

/// The parent step after resolving `u` leaves task `x` as it was, unless
/// `x` is `u`'s parent and open and not tagged `meta`.
proof fn lemma_parent_step_keeps(db1: DbView, u: TaskView, check: bool, now: Instant, outs: Seq<crate::cli::OutputView>, x: Seq<char>)
    requires
        db1.wf(),
        now.wf(),
        has_task(db1.tasks, x),
        u.parent_id != Some(x) || task_of(db1.tasks, x).tags.contains("meta"@)
            || task_of(db1.tasks, x).status.is_resolved(),
    ensures
        parent_step(db1, u, check, now, outs).0.wf(),
        has_task(parent_step(db1, u, check, now, outs).0.tasks, x),
        task_of(parent_step(db1, u, check, now, outs).0.tasks, x) == task_of(db1.tasks, x),
{
    if check && u.parent_id is Some {
        let q = u.parent_id->0;
        if has_task(db1.tasks, q) && q != x {
            law_get_after_update(db1, q, status_update(Status::Done), now);
        }
    }
}

/// A parent tagged `meta` is never completed by its children: marking any
/// other task done, with or without the parent check, leaves it as it was.
pub proof fn law_meta_parent_kept(db: DbView, cid: Seq<char>, pid: Seq<char>, no_auto_complete: bool, now: Instant, nid: Seq<char>)
    requires
        db.wf(),
        now.wf(),
        pid != cid,
        has_task(db.tasks, pid),
        task_of(db.tasks, pid).tags.contains("meta"@),
        has_task(db.tasks, cid) && task_of(db.tasks, cid).status != Status::Done ==> next_due_representable(
            task_of(db.tasks, cid),
            now,
        ),
    ensures
        has_task(done_outcome(db, cid, no_auto_complete, now, nid).0.tasks, pid),
        task_of(done_outcome(db, cid, no_auto_complete, now, nid).0.tasks, pid) == task_of(db.tasks, pid),
{
    if has_task(db.tasks, cid) && task_of(db.tasks, cid).status != Status::Done {
        let su = status_update(Status::Done);
        law_get_after_update(db, cid, su, now);
        let db1 = update_outcome(db, cid, su, now).0;
        let u = task_of(db1.tasks, cid);
        let outs = seq![crate::cli::OutputView::Task(u)];
        lemma_parent_step_keeps(db1, u, !no_auto_complete, now, outs, pid);
        let db2 = parent_step(db1, u, !no_auto_complete, now, outs).0;
        assert(step_days(u) == step_days(task_of(db.tasks, cid)));
        lemma_next_keeps(db2, u, now, nid, pid);
    }
}

/// With the parent check turned off, marking a task done changes no other
/// task (it may only add the next instance).
pub proof fn law_no_auto_complete_keeps_others(db: DbView, cid: Seq<char>, now: Instant, nid: Seq<char>, x: Seq<char>)
    requires
        db.wf(),
        now.wf(),
        x != cid,
        has_task(db.tasks, x),
        has_task(db.tasks, cid) && task_of(db.tasks, cid).status != Status::Done ==> next_due_representable(
            task_of(db.tasks, cid),
            now,
        ),
    ensures
        has_task(done_outcome(db, cid, true, now, nid).0.tasks, x),
        task_of(done_outcome(db, cid, true, now, nid).0.tasks, x) == task_of(db.tasks, x),
{
    if has_task(db.tasks, cid) && task_of(db.tasks, cid).status != Status::Done {
        let su = status_update(Status::Done);
        law_get_after_update(db, cid, su, now);
        let db1 = update_outcome(db, cid, su, now).0;
        let u = task_of(db1.tasks, cid);
        assert(step_days(u) == step_days(task_of(db.tasks, cid)));
        lemma_next_keeps(db1, u, now, nid, x);
    }
}

/// Marking a task done twice is a conflict: after a task is marked done,
/// marking it done again reports `task <id> is already done` and changes
/// nothing.
pub proof fn law_done_twice_conflicts(
    db: DbView,
    cid: Seq<char>,
    no_auto_complete: bool,
    now: Instant,
    nid: Seq<char>,
    no_auto_complete2: bool,
    now2: Instant,
    nid2: Seq<char>,
)
    requires
        db.wf(),
        now.wf(),
        has_task(db.tasks, cid),
        next_due_representable(task_of(db.tasks, cid), now),
    ensures
        ({
            let db3 = done_outcome(db, cid, no_auto_complete, now, nid).0;
            done_outcome(db3, cid, no_auto_complete2, now2, nid2) == (
                db3,
                crate::cli::failed(crate::errors::ErrorView::Conflict(crate::cli::task::already_done_text(cid))),
            )
        }),
{
    if task_of(db.tasks, cid).status != Status::Done {
        let su = status_update(Status::Done);
        law_get_after_update(db, cid, su, now);
        let db1 = update_outcome(db, cid, su, now).0;
        let u = task_of(db1.tasks, cid);
        let outs = seq![crate::cli::OutputView::Task(u)];
        lemma_parent_step_keeps(db1, u, !no_auto_complete, now, outs, cid);
        let db2 = parent_step(db1, u, !no_auto_complete, now, outs).0;
        assert(step_days(u) == step_days(task_of(db.tasks, cid)));
        lemma_next_keeps(db2, u, now, nid, cid);
    }
}

/// A repeating task comes round again one step after its due date (or
/// after `now` when it has none): 1 day for daily, 7 for weekly, what the
/// rule gives for recurring. The instance is pending and keeps the title,
/// schedule, rule, parent, tags and metadata. (A due date on a leap second
/// first loses the leap second, so it is left out.)
pub proof fn law_next_instance(t: TaskView, now: Instant, id: Seq<char>)
    requires
        step_days(t) is Some,
        due_base(t, now).nanos < 1_000_000_000,
    ensures
        next_instance(t, now, id) is Some,
        ({
            let nt = next_instance(t, now, id)->0;
            let b = due_base(t, now);
            &&& nt.due_at == Some(Instant { secs: (b.secs + step_days(t)->0 * SECS_PER_DAY) as i64, nanos: b.nanos })
            &&& nt.status == Status::Pending
            &&& nt.id == id
            &&& nt.title == t.title
            &&& nt.schedule_type == t.schedule_type
            &&& nt.recur_rule == t.recur_rule
            &&& nt.parent_id == t.parent_id
            &&& nt.tags == t.tags
            &&& nt.metadata == t.metadata
            &&& nt.created_at == now
        }),
{
}

/// A task that does not repeat gets no next instance.
pub proof fn law_no_next_instance(t: TaskView, now: Instant, id: Seq<char>)
    requires
        step_days(t) is None,
    ensures
        next_instance(t, now, id) is None,
{
}

/// Writing a status's name and reading it back gives the status; likewise
/// for schedule types.
pub proof fn law_names_round_trip(st: Status, sc: crate::models::ScheduleType)
    ensures
        crate::cli::status_from_text(st.text()) == Ok::<Status, crate::errors::ErrorView>(st),
        crate::cli::schedule_from_text(sc.text()) == Ok::<crate::models::ScheduleType, crate::errors::ErrorView>(sc),
{
    crate::models::lemma_status_texts();
    crate::models::lemma_schedule_type_texts();
    assert(st.text() == st.text());
    assert(sc.text() == sc.text());
}

/// Keeping some tasks of a list with unique ids keeps the ids unique.
proof fn lemma_filter_unique(s: Seq<TaskView>, p: spec_fn(TaskView) -> bool)
    requires
        crate::db::unique_ids(s),
    ensures
        crate::db::unique_ids(s.filter(p)),
    decreases s.len(),
{
    reveal(Seq::filter);
    if s.len() > 0 {
        let d = s.drop_last();
        assert(crate::db::unique_ids(d)) by {
            assert forall|i: int, j: int|
                0 <= i < d.len() && 0 <= j < d.len() && (#[trigger] d[i]).id == (#[trigger] d[j]).id implies i == j by {
                assert(d[i] == s[i] && d[j] == s[j]);
            }
        }
        lemma_filter_unique(d, p);
        if p(s.last()) {
            let f = s.filter(p);
            let fd = d.filter(p);
            assert(f == fd.push(s.last()));
            assert forall|i: int, j: int|
                0 <= i < f.len() && 0 <= j < f.len() && (#[trigger] f[i]).id == (#[trigger] f[j]).id implies i == j by {
                if i < fd.len() && j < fd.len() {
                    assert(f[i] == fd[i] && f[j] == fd[j]);
                } else if i < fd.len() {
                    assert(fd.contains(fd[i]));
                    d.lemma_filter_contains_rev(p, fd[i]);
                    let k = choose|k: int| 0 <= k < d.len() && d[k] == fd[i];
                    assert(s[k] == d[k]);
                    assert(s[k].id == s[s.len() - 1].id);
                } else if j < fd.len() {
                    assert(fd.contains(fd[j]));
                    d.lemma_filter_contains_rev(p, fd[j]);
                    let k = choose|k: int| 0 <= k < d.len() && d[k] == fd[j];
                    assert(s[k] == d[k]);
                    assert(s[k].id == s[s.len() - 1].id);
                }
            }
        }
    }
}

/// A list with the same tasks, as often, as one with unique ids has unique ids.
proof fn lemma_permutation_unique(a: Seq<TaskView>, b: Seq<TaskView>)
    requires
        crate::db::unique_ids(a),
        a.to_multiset() == b.to_multiset(),
    ensures
        crate::db::unique_ids(b),
{
    broadcast use vstd::seq_lib::group_to_multiset_ensures;

    assert(a.no_duplicates()) by {
        assert forall|i: int, j: int| 0 <= i < a.len() && 0 <= j < a.len() && i != j implies a[i] != a[j] by {
            if a[i] == a[j] {
                assert(a[i].id == a[j].id);
            }
        }
    }
    a.lemma_multiset_has_no_duplicates();
    b.lemma_multiset_has_no_duplicates_conv();
    assert forall|i: int, j: int|
        0 <= i < b.len() && 0 <= j < b.len() && (#[trigger] b[i]).id == (#[trigger] b[j]).id implies i == j by {
        if i != j {
            assert(b[i] != b[j]);
            assert(b.contains(b[i]));
            assert(b.contains(b[j]));
            assert(a.to_multiset().contains(b[i]));
            assert(a.to_multiset().contains(b[j]));
            assert(a.contains(b[i]));
            assert(a.contains(b[j]));
            let ki = choose|k: int| 0 <= k < a.len() && a[k] == b[i];
            let kj = choose|k: int| 0 <= k < a.len() && a[k] == b[j];
            assert(a[ki].id == a[kj].id);
        }
    }
}

/// The agenda lists each task once, however many of its reasons a task meets.
pub proof fn law_agenda_lists_each_task_once(db: DbView, d: crate::time::Date, v: Seq<TaskView>)
    requires
        db.wf(),
        v.to_multiset() == crate::db::agenda_tasks(db.tasks, d).to_multiset(),
    ensures
        crate::db::unique_ids(v),
{
    let p = |t: TaskView|
        crate::db::agenda_pred(
            t,
            crate::db::day_start_instant(d),
            crate::db::day_end_instant(d),
            crate::time::weekday_name(d.ce_day as int),
        );
    lemma_filter_unique(db.tasks, p);
    lemma_permutation_unique(crate::db::agenda_tasks(db.tasks, d), v);
}

/// Keeping some tasks of a list in creation order keeps creation order.
proof fn lemma_filter_sorted(s: Seq<TaskView>, p: spec_fn(TaskView) -> bool)
    requires
        crate::db::sorted_by_created(s),
    ensures
        crate::db::sorted_by_created(s.filter(p)),
    decreases s.len(),
{
    reveal(Seq::filter);
    if s.len() > 0 {
        let d = s.drop_last();
        assert(crate::db::sorted_by_created(d)) by {
            assert forall|i: int, j: int| 0 <= i < j < d.len() implies (#[trigger] d[i]).created_at.spec_le(
                (#[trigger] d[j]).created_at) by {
                assert(d[i] == s[i] && d[j] == s[j]);
            }
        }
        lemma_filter_sorted(d, p);
        if p(s.last()) {
            let f = s.filter(p);
            let fd = d.filter(p);
            assert(f == fd.push(s.last()));
            assert forall|i: int, j: int| 0 <= i < j < f.len() implies (#[trigger] f[i]).created_at.spec_le(
                (#[trigger] f[j]).created_at) by {
                if j < fd.len() {
                    assert(f[i] == fd[i] && f[j] == fd[j]);
                } else {
                    assert(fd.contains(fd[i]));
                    d.lemma_filter_contains_rev(p, fd[i]);
                    let k = choose|k: int| 0 <= k < d.len() && d[k] == fd[i];
                    assert(s[k] == d[k]);
                }
            }
        }
    }
}

/// Listings come in creation order, whatever the filters.
pub proof fn law_listing_in_creation_order(db: DbView, f: crate::db::FiltersView)
    requires
        db.wf(),
    ensures
        crate::db::sorted_by_created(crate::db::filtered(db.tasks, f)),
{
    lemma_filter_sorted(db.tasks, |t: TaskView| crate::db::matches_filters(t, f));
}

/// A stored task lies in range, and the parent it names is stored.
proof fn lemma_stored_task(db: DbView, id: Seq<char>)
    requires
        db.wf(),
        has_task(db.tasks, id),
    ensures
        task_wf(task_of(db.tasks, id)),
        task_of(db.tasks, id).id == id,
        task_of(db.tasks, id).parent_id matches Some(p) ==> has_task(db.tasks, p),
{
    let i = choose|i: int| 0 <= i < db.tasks.len() && (#[trigger] db.tasks[i]).id == id;
    assert(task_wf(db.tasks[i]));
    assert(db.tasks[i].parent_id is Some ==> has_task(db.tasks, db.tasks[i].parent_id->0));
}

/// The parent step adds and drops no task, succeeds when the parent is
/// stored, and changes no task but the parent it checks.
proof fn lemma_parent_step_effect(db1: DbView, u: TaskView, check: bool, now: Instant, outs: Seq<crate::cli::OutputView>)
    requires
        db1.wf(),
        now.wf(),
        u.parent_id matches Some(p) ==> has_task(db1.tasks, p),
    ensures
        parent_step(db1, u, check, now, outs).1.result is Ok,
        parent_step(db1, u, check, now, outs).0.wf(),
        forall|x: Seq<char>|
            #[trigger] has_task(parent_step(db1, u, check, now, outs).0.tasks, x) == has_task(db1.tasks, x),
        forall|x: Seq<char>|
            has_task(db1.tasks, x) && (!check || u.parent_id != Some(x)) ==> #[trigger] task_of(
                parent_step(db1, u, check, now, outs).0.tasks,
                x,
            ) == task_of(db1.tasks, x),
        check && u.parent_id is Some ==> parent_step(db1, u, check, now, outs).0 == auto_complete_outcome(
            db1,
            u.parent_id->0,
            now,
        ).0,
{
    if check && u.parent_id is Some {
        let p = u.parent_id->0;
        law_get_after_update(db1, p, status_update(Status::Done), now);
    }
}

/// The next-instance step, with an id no task has, succeeds; it adds the
/// next instance when the task repeats and changes no other task.
proof fn lemma_next_effect(db2: DbView, u: TaskView, now: Instant, nid: Seq<char>)
    requires
        db2.wf(),
        now.wf(),
        task_wf(u),
        next_due_representable(u, now),
        !has_task(db2.tasks, nid),
        u.parent_id matches Some(p) ==> has_task(db2.tasks, p),
    ensures
        next_instance_outcome(db2, u, now, nid).1 is Ok,
        next_instance_outcome(db2, u, now, nid).1 == Ok::<Option<TaskView>, crate::errors::ErrorView>(
            next_instance(u, now, nid),
        ),
        next_instance_outcome(db2, u, now, nid).0.wf(),
        forall|x: Seq<char>|
            x != nid ==> #[trigger] has_task(next_instance_outcome(db2, u, now, nid).0.tasks, x) == has_task(
                db2.tasks,
                x,
            ),
        forall|x: Seq<char>|
            x != nid && has_task(db2.tasks, x) ==> #[trigger] task_of(
                next_instance_outcome(db2, u, now, nid).0.tasks,
                x,
            ) == task_of(db2.tasks, x),
        has_task(next_instance_outcome(db2, u, now, nid).0.tasks, nid) == next_instance(u, now, nid) is Some,
        next_instance(u, now, nid) matches Some(nt) ==> task_of(
            next_instance_outcome(db2, u, now, nid).0.tasks,
            nid,
        ) == nt,
{
    lemma_next_instance_wf(u, now, nid);
    if let Some(nt) = next_instance(u, now, nid) {
        assert(insert_outcome(db2, nt).1 is Ok);
        law_get_after_insert(db2, nt);
    }
}

/// Marking done a task that is not done yet, with an id for its next
/// instance that no task has, succeeds, and this is all it does: the task
/// becomes done, stamped `now`, its other fields kept; its parent ends as the
/// auto-completion check on the store after that step leaves it, or
/// unchanged with the check turned off; the next instance is added when the
/// task repeats; no other task is added, dropped or changed.
pub proof fn law_done_effect(db: DbView, cid: Seq<char>, no_auto_complete: bool, now: Instant, nid: Seq<char>)
    requires
        db.wf(),
        now.wf(),
        has_task(db.tasks, cid),
        task_of(db.tasks, cid).status != Status::Done,
        next_due_representable(task_of(db.tasks, cid), now),
        !has_task(db.tasks, nid),
    ensures
        ({
            let t = task_of(db.tasks, cid);
            let db1 = update_outcome(db, cid, status_update(Status::Done), now).0;
            let (d, run) = done_outcome(db, cid, no_auto_complete, now, nid);
            &&& run.result is Ok
            &&& d.wf()
            &&& has_task(d.tasks, cid)
            &&& task_of(d.tasks, cid) == apply_updates(t, status_update(Status::Done), now)
            &&& (t.parent_id is Some && t.parent_id->0 != cid ==> has_task(d.tasks, t.parent_id->0)
                && task_of(d.tasks, t.parent_id->0) == (if no_auto_complete {
                    task_of(db.tasks, t.parent_id->0)
                } else {
                    task_of(auto_complete_outcome(db1, t.parent_id->0, now).0.tasks, t.parent_id->0)
                }))
            &&& forall|x: Seq<char>|
                x != cid && x != nid && t.parent_id != Some(x) ==> #[trigger] has_task(d.tasks, x) == has_task(
                    db.tasks,
                    x,
                ) && (has_task(db.tasks, x) ==> task_of(d.tasks, x) == task_of(db.tasks, x))
            &&& has_task(d.tasks, nid) == next_instance(t, now, nid) is Some
            &&& next_instance(t, now, nid) matches Some(nt) ==> task_of(d.tasks, nid) == nt
        }),
{
    let t = task_of(db.tasks, cid);
    let su = status_update(Status::Done);
    lemma_stored_task(db, cid);
    law_get_after_update(db, cid, su, now);
    let db1 = update_outcome(db, cid, su, now).0;
    let u = task_of(db1.tasks, cid);
    assert(u == apply_updates(t, su, now));
    let outs = seq![crate::cli::OutputView::Task(u)];
    if let Some(p) = u.parent_id {
        assert(has_task(db.tasks, p));
        if p != cid {
            assert(has_task(db1.tasks, p));
        }
    }
    lemma_parent_step_effect(db1, u, !no_auto_complete, now, outs);
    let db2 = parent_step(db1, u, !no_auto_complete, now, outs).0;
    assert(step_days(u) == step_days(t));
    assert(next_instance(u, now, nid) == next_instance(t, now, nid));
    assert(!has_task(db1.tasks, nid));
    assert(!has_task(db2.tasks, nid));
    if let Some(p) = u.parent_id {
        assert(has_task(db2.tasks, p));
    }
    lemma_stored_task(db1, cid);
    lemma_next_effect(db2, u, now, nid);
    let d = next_instance_outcome(db2, u, now, nid).0;
    // the task itself: the parent step leaves it, unless it names itself as
    // parent, where the check finds it already done
    if !no_auto_complete && u.parent_id == Some(cid) {
        assert(task_of(db1.tasks, cid).status.is_resolved());
    }
    assert(task_of(db2.tasks, cid) == u);
    assert(task_of(d.tasks, cid) == u);
    if let Some(p) = t.parent_id {
        if p != cid {
            if no_auto_complete {
                assert(task_of(db2.tasks, p) == task_of(db1.tasks, p));
            }
            assert(task_of(d.tasks, p) == task_of(db2.tasks, p));
        }
    }
    assert forall|x: Seq<char>|
        x != cid && x != nid && t.parent_id != Some(x) implies #[trigger] has_task(d.tasks, x) == has_task(
            db.tasks,
            x,
        ) && (has_task(db.tasks, x) ==> task_of(d.tasks, x) == task_of(db.tasks, x)) by {
        assert(has_task(db2.tasks, x) == has_task(db1.tasks, x));
        if has_task(db.tasks, x) {
            assert(task_of(db1.tasks, x) == task_of(db.tasks, x));
            assert(task_of(db2.tasks, x) == task_of(db1.tasks, x));
        }
    }
}

/// Every parent that a task names comes before it.
pub open spec fn parents_first(s: Seq<TaskView>) -> bool {
    forall|i: int|
        0 <= i < s.len() && (#[trigger] s[i]).parent_id is Some ==> has_task(s.take(i), s[i].parent_id->0)
}

/// Filtering by a test that every element passes keeps every element.
proof fn lemma_filter_keeps_all(s: Seq<TaskView>, pred: spec_fn(TaskView) -> bool)
    requires
        forall|i: int| 0 <= i < s.len() ==> pred(#[trigger] s[i]),
    ensures
        s.filter(pred) == s,
    decreases s.len(),
{
    if s.len() > 0 {
        let d = s.drop_last();
        assert forall|i: int| 0 <= i < d.len() implies pred(#[trigger] d[i]) by {
            assert(d[i] == s[i]);
        }
        lemma_filter_keeps_all(d, pred);
        assert(d.push(s.last()) =~= s);
        d.lemma_filter_push(s.last(), pred);
        assert(pred(s[s.len() - 1]));
    } else {
        assert(s.filter(pred) =~= s);
    }
}

/// Creating a task that sorts after every task, has a new id and names a
/// stored parent appends it.
proof fn lemma_import_appends(pre: Seq<TaskView>, t: TaskView)
    requires
        !has_task(pre, t.id),
        t.parent_id is Some ==> has_task(pre, t.parent_id->0),
        pre.len() > 0 ==> pre.last().created_at.spec_le(t.created_at),
    ensures
        import_one_outcome(
            DbView { tasks: pre, attachments: Seq::<crate::models::AttachmentView>::empty() },
            t,
            MergeStrategy::Skip,
        ) == (
            DbView { tasks: pre.push(t), attachments: Seq::<crate::models::AttachmentView>::empty() },
            Ok::<ImportAction, crate::errors::ErrorView>(ImportAction::Created),
        ),
{
    assert(insertion_point(pre, t.created_at) == pre.len());
    assert(pre.insert(pre.len() as int, t) =~= pre.push(t));
}

/// Importing, with the `skip` strategy into an empty store, the first `k`
/// tasks of a list with unique ids, in creation order, whose parents come
/// first, creates each of them, in order.
proof fn lemma_import_prefix(ts: Seq<TaskView>, k: int)
    requires
        crate::db::unique_ids(ts),
        crate::db::sorted_by_created(ts),
        parents_first(ts),
        0 <= k <= ts.len(),
    ensures
        import_all_outcome(
            DbView { tasks: Seq::empty(), attachments: Seq::empty() },
            ts.take(k),
            MergeStrategy::Skip,
        ) == (DbView { tasks: ts.take(k), attachments: Seq::<crate::models::AttachmentView>::empty() }, (
            k as nat,
            0nat,
            0nat,
        ), Ok::<(), crate::errors::ErrorView>(())),
    decreases k,
{
    if k == 0 {
        assert(ts.take(0) =~= Seq::<TaskView>::empty());
    } else {
        lemma_import_prefix(ts, k - 1);
        let pre = ts.take(k - 1);
        let t = ts[k - 1];
        lemma_prefix_admits(ts, k - 1);
        lemma_import_appends(pre, t);
        assert(ts.take(k).drop_last() =~= pre);
        assert(pre.push(t) =~= ts.take(k));
    }
}

/// The task after a prefix of a list with unique ids, in creation order,
/// whose parents come first, has a new id, a parent in the prefix and no
/// earlier creation than the prefix's last task.
proof fn lemma_prefix_admits(ts: Seq<TaskView>, k: int)
    requires
        crate::db::unique_ids(ts),
        crate::db::sorted_by_created(ts),
        parents_first(ts),
        0 <= k < ts.len(),
    ensures
        !has_task(ts.take(k), ts[k].id),
        ts[k].parent_id is Some ==> has_task(ts.take(k), ts[k].parent_id->0),
        k > 0 ==> ts.take(k).last().created_at.spec_le(ts[k].created_at),
{
    let pre = ts.take(k);
    let t = ts[k];
    assert(!has_task(pre, t.id)) by {
        if has_task(pre, t.id) {
            let j = choose|j: int| 0 <= j < pre.len() && (#[trigger] pre[j]).id == t.id;
            assert(pre[j] == ts[j]);
        }
    }
    assert(t.parent_id is Some ==> has_task(pre, t.parent_id->0));
    if k > 0 {
        assert(pre.last() == ts[k - 1]);
    }
}

/// Exporting every task with its metadata, then importing the files, in the
/// order written, into an empty store with the `skip` strategy gives back the
/// same tasks, every field included, all counted as created. (A task whose
/// parent was created after it is refused on import, since its parent is not
/// yet there; such stores are left out.)
pub proof fn law_export_then_import(db: DbView, stems: Seq<Seq<char>>)
    requires
        db.wf(),
        parents_first(db.tasks),
    ensures
        export_plan_outcome(db, None, None, true, stems) is Ok,
        ({
            let es = export_plan_outcome(db, None, None, true, stems)->Ok_0.0;
            let ts = es.map_values(|e: (TaskView, Option<Seq<char>>)| e.0);
            &&& forall|i: int| 0 <= i < es.len() ==> (#[trigger] es[i]).1 == Some(es[i].0.metadata)
            &&& import_all_outcome(
                DbView { tasks: Seq::empty(), attachments: Seq::empty() },
                ts,
                MergeStrategy::Skip,
            ) == (DbView { tasks: db.tasks, attachments: Seq::<crate::models::AttachmentView>::empty() }, (
                db.tasks.len() as nat,
                0nat,
                0nat,
            ), Ok::<(), crate::errors::ErrorView>(()))
        }),
{
    let f = FiltersView { status: None, schedule_type: None, tag: None, due_before: None, parent_id: None };
    let pred = |t: TaskView| matches_filters(t, f);
    lemma_filter_keeps_all(db.tasks, pred);
    assert(export_selection(db, None, None) == Ok::<Seq<TaskView>, crate::errors::ErrorView>(db.tasks));
    let es = export_plan_outcome(db, None, None, true, stems)->Ok_0.0;
    let ts = es.map_values(|e: (TaskView, Option<Seq<char>>)| e.0);
    assert(ts =~= db.tasks);
    lemma_import_prefix(db.tasks, db.tasks.len() as int);
    assert(db.tasks.take(db.tasks.len() as int) =~= db.tasks);
}

/// Importing with `skip` into an empty store the first `k` of some tasks
/// with unique ids, whose parents come first, creates each of them; the store
/// then holds exactly those tasks.
proof fn lemma_import_any_prefix(ts: Seq<TaskView>, k: int)
    requires
        crate::db::unique_ids(ts),
        parents_first(ts),
        0 <= k <= ts.len(),
    ensures
        import_all_outcome(DbView { tasks: Seq::empty(), attachments: Seq::empty() }, ts.take(k), MergeStrategy::Skip).1
            == (k as nat, 0nat, 0nat),
        import_all_outcome(DbView { tasks: Seq::empty(), attachments: Seq::empty() }, ts.take(k), MergeStrategy::Skip).2
            is Ok,
        import_all_outcome(
            DbView { tasks: Seq::empty(), attachments: Seq::empty() },
            ts.take(k),
            MergeStrategy::Skip,
        ).0.tasks.to_multiset() == ts.take(k).to_multiset(),
    decreases k,
{
    let e = DbView { tasks: Seq::<TaskView>::empty(), attachments: Seq::<crate::models::AttachmentView>::empty() };
    if k == 0 {
        assert(ts.take(0) =~= Seq::<TaskView>::empty());
    } else {
        lemma_import_any_prefix(ts, k - 1);
        let pre = ts.take(k - 1);
        let t = ts[k - 1];
        assert(ts.take(k).drop_last() =~= pre);
        assert(ts.take(k).last() == t);
        let d1 = import_all_outcome(e, pre, MergeStrategy::Skip).0;
        assert(!has_task(pre, t.id)) by {
            if has_task(pre, t.id) {
                let j = choose|j: int| 0 <= j < pre.len() && (#[trigger] pre[j]).id == t.id;
                assert(pre[j] == ts[j]);
            }
        }
        assert(t.parent_id is Some ==> has_task(pre, t.parent_id->0));
        crate::db::lemma_same_elements(d1.tasks, pre);
        assert(!has_task(d1.tasks, t.id));
        assert(t.parent_id is Some ==> has_task(d1.tasks, t.parent_id->0));
        let ip = insertion_point(d1.tasks, t.created_at);
        crate::db::lemma_insertion_point_bounds(d1.tasks, t.created_at);
        vstd::seq_lib::to_multiset_insert(d1.tasks, ip, t);
        vstd::seq_lib::to_multiset_build(pre, t);
        assert(pre.push(t) =~= ts.take(k));
    }
}

/// Importing the exported files in any order in which every parent comes
/// before its children, into an empty store with the `skip` strategy,
/// creates every task, counts each as created, and leaves the store holding
/// exactly the exported store's tasks, every field included. (`ts` are the
/// tasks read from the files, in the order read: the same tasks as the
/// store's, so their ids are unique too.)
pub proof fn law_import_in_any_order(db: DbView, ts: Seq<TaskView>)
    requires
        db.wf(),
        ts.to_multiset() == db.tasks.to_multiset(),
        crate::db::unique_ids(ts),
        parents_first(ts),
    ensures
        ({
            let (d, c, r) = import_all_outcome(
                DbView { tasks: Seq::empty(), attachments: Seq::empty() },
                ts,
                MergeStrategy::Skip,
            );
            &&& r is Ok
            &&& c == (db.tasks.len() as nat, 0nat, 0nat)
            &&& forall|id: Seq<char>|
                #[trigger] has_task(d.tasks, id) == has_task(db.tasks, id) && (has_task(db.tasks, id)
                    ==> task_of(d.tasks, id) == task_of(db.tasks, id))
        }),
{
    lemma_import_any_prefix(ts, ts.len() as int);
    assert(ts.take(ts.len() as int) =~= ts);
    let d = import_all_outcome(DbView { tasks: Seq::empty(), attachments: Seq::empty() }, ts, MergeStrategy::Skip).0;
    crate::db::lemma_same_elements(d.tasks, db.tasks);
    assert(ts.len() == db.tasks.len()) by {
        vstd::seq_lib::to_multiset_len(ts);
        vstd::seq_lib::to_multiset_len(db.tasks);
    }
    assert forall|id: Seq<char>| #[trigger] has_task(db.tasks, id) implies task_of(d.tasks, id) == task_of(db.tasks, id) by {
        assert(has_task(d.tasks, id));
        let i = choose|i: int| 0 <= i < d.tasks.len() && (#[trigger] d.tasks[i]).id == id;
        let x = d.tasks[i];
        assert(d.tasks.contains(x));
        assert(db.tasks.contains(x));
        let q = choose|q: int| 0 <= q < db.tasks.len() && db.tasks[q] == x;
        crate::db::lemma_unique_index(db.tasks, q, id);
    }
}

/// Importing with the `overwrite` strategy a task whose id is stored puts
/// the file's version in place of the stored task, every field included, and
/// counts it as updated; a parent that the file names but the store lacks
/// gives way to the stored task's parent. Every other task is kept as it was.
pub proof fn law_overwrite_import(db: DbView, t: TaskView)
    requires
        db.wf(),
        task_wf(t),
        has_task(db.tasks, t.id),
    ensures
        ({
            let (d, r) = import_one_outcome(db, t, MergeStrategy::Overwrite);
            &&& r == Ok::<ImportAction, crate::errors::ErrorView>(ImportAction::Updated)
            &&& d.wf()
            &&& has_task(d.tasks, t.id)
            &&& task_of(d.tasks, t.id) == (if t.parent_id is Some && !has_task(db.tasks, t.parent_id->0) {
                TaskView { parent_id: task_of(db.tasks, t.id).parent_id, ..t }
            } else {
                t
            })
            &&& (t.parent_id is None || has_task(db.tasks, t.parent_id->0) ==> task_of(d.tasks, t.id) == t)
            &&& forall|x: Seq<char>|
                x != t.id ==> #[trigger] has_task(d.tasks, x) == has_task(db.tasks, x) && (has_task(db.tasks, x)
                    ==> task_of(d.tasks, x) == task_of(db.tasks, x))
        }),
{
    let i = choose|i: int| 0 <= i < db.tasks.len() && (#[trigger] db.tasks[i]).id == t.id;
    crate::db::lemma_unique_index(db.tasks, i, t.id);
    let c = crate::db::replacement(db.tasks, t);
    let st = db.tasks[i];
    if st.parent_id is Some {
        assert(has_task(db.tasks, st.parent_id->0));
    }
    crate::db::lemma_swap_keeps_wf(db, i, c);
}

/// Filtering by a test that ignores metadata and then mapping by a function
/// that ignores metadata gives the same as doing so after stripping it.
proof fn lemma_filter_map_ignores_metadata<B>(
    s: Seq<TaskView>,
    p: spec_fn(TaskView) -> bool,
    g: spec_fn(TaskView) -> B,
)
    requires
        forall|t: TaskView| #[trigger] p(strip_metadata(t)) == p(t),
        forall|t: TaskView| #[trigger] g(strip_metadata(t)) == g(t),
    ensures
        s.filter(p).map_values(g) == s.map_values(|t: TaskView| strip_metadata(t)).filter(p).map_values(g),
    decreases s.len(),
{
    let st = |t: TaskView| strip_metadata(t);
    if s.len() == 0 {
        assert(s.filter(p) =~= Seq::<TaskView>::empty());
        assert(s.map_values(st) =~= Seq::<TaskView>::empty());
        assert(s.map_values(st).filter(p) =~= Seq::<TaskView>::empty());
        assert(s.filter(p).map_values(g) =~= s.map_values(st).filter(p).map_values(g));
    } else {
        let d = s.drop_last();
        let x = s.last();
        lemma_filter_map_ignores_metadata(d, p, g);
        assert(d.push(x) =~= s);
        assert(d.map_values(st).push(st(x)) =~= s.map_values(st));
        d.lemma_filter_push(x, p);
        d.map_values(st).lemma_filter_push(st(x), p);
        assert(p(st(x)) == p(x));
        assert(g(st(x)) == g(x));
        if p(x) {
            assert(d.filter(p).push(x).map_values(g) =~= d.filter(p).map_values(g).push(g(x)));
            assert(d.map_values(st).filter(p).push(st(x)).map_values(g) =~= d.map_values(st).filter(p).map_values(
                g,
            ).push(g(st(x))));
        }
    }
}

/// An export without metadata does not depend on the metadata: two stores
/// whose tasks differ only in their metadata plan the same files, with the
/// same contents, and remove the same files.
pub proof fn law_export_ignores_metadata(
    db1: DbView,
    db2: DbView,
    status: Option<Seq<char>>,
    tag: Option<Seq<char>>,
    stems: Seq<Seq<char>>,
)
    requires
        db1.tasks.map_values(|t: TaskView| strip_metadata(t)) == db2.tasks.map_values(
            |t: TaskView| strip_metadata(t),
        ),
    ensures
        export_plan_outcome(db1, status, tag, false, stems) == export_plan_outcome(db2, status, tag, false, stems),
{
    let st = |t: TaskView| strip_metadata(t);
    let x: Result<Option<crate::models::Status>, crate::errors::ErrorView> = match status {
        None => Ok(None),
        Some(s) => match crate::cli::status_from_text(s) {
            Ok(v) => Ok(Some(v)),
            Err(e) => Err(e),
        },
    };
    if let Ok(sv) = x {
        let f = FiltersView { status: sv, schedule_type: None, tag, due_before: None, parent_id: None };
        let p = |t: TaskView| matches_filters(t, f);
        let g = |t: TaskView| (exported_task(t, false), None::<Seq<char>>);
        assert forall|t: TaskView| #[trigger] p(strip_metadata(t)) == p(t) by {}
        assert forall|t: TaskView| #[trigger] g(strip_metadata(t)) == g(t) by {
            assert(strip_metadata(strip_metadata(t)) == strip_metadata(t));
        }
        lemma_filter_map_ignores_metadata(db1.tasks, p, g);
        lemma_filter_map_ignores_metadata(db2.tasks, p, g);
        assert(db1.tasks.filter(p).map_values(g) == db2.tasks.filter(p).map_values(g));
        let im = false;
        let g2 = |t: TaskView|
            (exported_task(t, im), if im {
                Some(t.metadata)
            } else {
                None
            });
        assert(g2 =~= g);
        assert(db1.tasks.len() == db2.tasks.len()) by {
            assert(db1.tasks.map_values(st).len() == db2.tasks.map_values(st).len());
        }
        assert forall|id: Seq<char>| #[trigger] has_task(db1.tasks, id) == has_task(db2.tasks, id) by {
            if has_task(db1.tasks, id) {
                let i = choose|i: int| 0 <= i < db1.tasks.len() && (#[trigger] db1.tasks[i]).id == id;
                assert(db1.tasks.map_values(st)[i] == db2.tasks.map_values(st)[i]);
                assert(db2.tasks[i].id == id);
            }
            if has_task(db2.tasks, id) {
                let i = choose|i: int| 0 <= i < db2.tasks.len() && (#[trigger] db2.tasks[i]).id == id;
                assert(db1.tasks.map_values(st)[i] == db2.tasks.map_values(st)[i]);
                assert(db1.tasks[i].id == id);
            }
        }
        let q1 = |s: Seq<char>| is_stale(s, db1.tasks);
        let q2 = |s: Seq<char>| is_stale(s, db2.tasks);
        assert(export_plan_outcome(db1, status, tag, im, stems) == export_plan_outcome(db1, status, tag, false, stems));
        assert(q1 =~= q2);
        assert(export_selection(db1, status, tag) == Ok::<Seq<TaskView>, crate::errors::ErrorView>(db1.tasks.filter(p)));
        assert(export_selection(db2, status, tag) == Ok::<Seq<TaskView>, crate::errors::ErrorView>(db2.tasks.filter(p)));
        assert(export_plan_outcome(db1, status, tag, false, stems) == Ok::<(Seq<(TaskView, Option<Seq<char>>)>, Seq<Seq<char>>), crate::errors::ErrorView>(
            (db1.tasks.filter(p).map_values(g2), stems.filter(q1))));
        assert(export_plan_outcome(db2, status, tag, false, stems) == Ok::<(Seq<(TaskView, Option<Seq<char>>)>, Seq<Seq<char>>), crate::errors::ErrorView>(
            (db2.tasks.filter(p).map_values(g2), stems.filter(q2))));
    }
}

/// The agenda command shows exactly what the agenda query
/// (`Database::get_agenda_tasks`) returns for the day it reads: that day's
/// agenda tasks sorted by due instant, ties in creation order. A date that
/// does not read is refused with a validation error.
pub proof fn law_agenda_is_the_query(db: DbView, date: Option<Seq<char>>, now: Instant, r: crate::cli::RunView)
    requires
        crate::cli::agenda::agenda_run(db, date, now, r),
    ensures
        match crate::cli::agenda::agenda_date(date, now) {
            Err(e) => r == crate::cli::failed(e),
            Ok(d) => r == crate::cli::succeeded(
                seq![crate::cli::OutputView::Tasks(crate::db::by_due(crate::db::agenda_tasks(db.tasks, d)))],
            ),
        },
{
    if let Ok(d) = crate::cli::agenda::agenda_date(date, now) {
        let outs = seq![crate::cli::OutputView::Tasks(crate::db::by_due(crate::db::agenda_tasks(db.tasks, d)))];
        assert(r.outputs =~= outs);
        let u: () = r.result->Ok_0;
        assert(u == ());
        assert(r.result == Ok::<(), crate::errors::ErrorView>(()));
        assert(r == crate::cli::succeeded(outs));
    }
}

/// An element is kept by a filter exactly when it is in the sequence and
/// passes the test.
proof fn lemma_filter_member<A>(s: Seq<A>, p: spec_fn(A) -> bool, x: A)
    ensures
        s.filter(p).contains(x) <==> s.contains(x) && p(x),
{
    if s.filter(p).contains(x) {
        s.lemma_filter_contains_rev(p, x);
        let i = choose|i: int| 0 <= i < s.filter(p).len() && s.filter(p)[i] == x;
        s.lemma_filter_pred(p, i);
    }
    if s.contains(x) && p(x) {
        let i = choose|i: int| 0 <= i < s.len() && s[i] == x;
        s.lemma_filter_contains(p, i);
    }
}

/// Instant `x` is no later than second `secs` (at its start).
pub open spec fn no_later_than_second(x: Instant, secs: int) -> bool {
    x.secs < secs || (x.secs == secs && x.nanos == 0)
}

/// The agenda of a day lists exactly the stored tasks that are due that day
/// (from its first instant through 23:59:59 UTC) and neither done nor
/// cancelled (blocked ones included); daily and pending or in progress;
/// weekly, pending or in progress, with the day's weekday name in their rule
/// (ignoring case); due before that day and neither done nor cancelled; or in
/// progress.
pub proof fn law_agenda_membership(db: DbView, d: crate::time::Date, t: TaskView)
    requires
        d.wf(),
    ensures
        crate::db::agenda_tasks(db.tasks, d).contains(t) <==> db.tasks.contains(t) && ({
            let start = (d.ce_day - 719163) * 86400;
            let open = t.status == Status::Pending || t.status == Status::InProgress;
            let unresolved = t.status != Status::Done && t.status != Status::Cancelled;
            ||| (t.due_at is Some && start <= t.due_at->0.secs && no_later_than_second(t.due_at->0, start + 86399)
                && unresolved)
            ||| (t.schedule_type == crate::models::ScheduleType::Daily && open)
            ||| (t.schedule_type == crate::models::ScheduleType::Weekly && open && t.recur_rule is Some
                && crate::db::contains_ci(t.recur_rule->0, crate::time::weekday_name(d.ce_day as int)))
            ||| (t.due_at is Some && t.due_at->0.secs < start && unresolved)
            ||| t.status == Status::InProgress
        }),
{
    let p = |x: TaskView|
        crate::db::agenda_pred(
            x,
            crate::db::day_start_instant(d),
            crate::db::day_end_instant(d),
            crate::time::weekday_name(d.ce_day as int),
        );
    lemma_filter_member(db.tasks, p, t);
}

/// The overdue list at `now` holds exactly the stored tasks due before `now`
/// and neither done nor cancelled (blocked ones included).
pub proof fn law_overdue_membership(db: DbView, now: Instant, t: TaskView)
    ensures
        crate::db::overdue_tasks(db.tasks, now).contains(t) <==> db.tasks.contains(t) && t.due_at is Some && (
        t.due_at->0.secs < now.secs || (t.due_at->0.secs == now.secs && t.due_at->0.nanos < now.nanos))
            && t.status != Status::Done && t.status != Status::Cancelled,
{
    let p = |x: TaskView| crate::db::overdue_pred(x, now);
    lemma_filter_member(db.tasks, p, t);
}

/// An export writes exactly the stored tasks that carry the tag asked for
/// and have the status asked for (by name); it is refused exactly when a
/// status is asked for that names none.
pub proof fn law_export_selects_by_status_and_tag(
    db: DbView,
    status: Option<Seq<char>>,
    tag: Option<Seq<char>>,
    include_metadata: bool,
    stems: Seq<Seq<char>>,
)
    ensures
        export_plan_outcome(db, status, tag, include_metadata, stems) is Err <==> (status is Some && forall|st: Status|
            st.text() != status->0),
        export_plan_outcome(db, status, tag, include_metadata, stems) is Ok ==> ({
            let es = export_plan_outcome(db, status, tag, include_metadata, stems)->Ok_0.0;
            &&& forall|i: int|
                0 <= i < es.len() ==> has_task(db.tasks, (#[trigger] es[i]).0.id) && (tag is Some
                    ==> es[i].0.tags.contains(tag->0)) && (status is Some ==> es[i].0.status.text() == status->0)
            &&& forall|t: TaskView|
                #[trigger] db.tasks.contains(t) && (tag is Some ==> t.tags.contains(tag->0)) && (status is Some
                    ==> t.status.text() == status->0) ==> exists|i: int| 0 <= i < es.len() && (#[trigger] es[i]).0.id == t.id
        }),
{
    crate::models::lemma_status_texts();
    if status is Some {
        let s0 = status->0;
        if exists|st: Status| st.text() == s0 {
            let st = choose|st: Status| st.text() == s0;
            assert(crate::cli::status_from_text(s0) == Ok::<Status, crate::errors::ErrorView>(st));
        } else {
            assert(crate::cli::status_from_text(s0) is Err);
        }
    }
    if export_plan_outcome(db, status, tag, include_metadata, stems) is Ok {
        let sel = export_selection(db, status, tag)->Ok_0;
        let sv: Option<Status> = match status {
            None => None,
            Some(s0) => Some(choose|st: Status| st.text() == s0),
        };
        let f = FiltersView { status: sv, schedule_type: None, tag, due_before: None, parent_id: None };
        let p = |x: TaskView| matches_filters(x, f);
        assert(sel == db.tasks.filter(p));
        let im = include_metadata;
        let g = |x: TaskView|
            (exported_task(x, im), if im {
                Some(x.metadata)
            } else {
                None
            });
        let es = export_plan_outcome(db, status, tag, include_metadata, stems)->Ok_0.0;
        assert(es == sel.map_values(g));
        assert forall|i: int| 0 <= i < es.len() implies has_task(db.tasks, (#[trigger] es[i]).0.id) && (tag is Some
            ==> es[i].0.tags.contains(tag->0)) && (status is Some ==> es[i].0.status.text() == status->0) by {
            let x = sel[i];
            assert(sel.contains(x));
            lemma_filter_member(db.tasks, p, x);
            let k = choose|k: int| 0 <= k < db.tasks.len() && db.tasks[k] == x;
            assert(db.tasks[k].id == es[i].0.id);
        }
        assert forall|t: TaskView|
            #[trigger] db.tasks.contains(t) && (tag is Some ==> t.tags.contains(tag->0)) && (status is Some
                ==> t.status.text() == status->0) implies exists|i: int| 0 <= i < es.len() && (#[trigger] es[i]).0.id
            == t.id by {
            assert(p(t));
            lemma_filter_member(db.tasks, p, t);
            let j = choose|j: int| 0 <= j < sel.len() && sel[j] == t;
            assert(es[j].0.id == t.id);
        }
    }
}

/// `task list` lists exactly the stored tasks that have the status and the
/// schedule type asked for (by name), carry the tag asked for, and are due
/// no later than the bound asked for (read as `parse_datetime` reads it); it
/// succeeds whenever each name given names a status or schedule type and the
/// bound reads.
pub proof fn law_list_filters(
    db: DbView,
    status: Option<Seq<char>>,
    schedule_type: Option<Seq<char>>,
    tag: Option<Seq<char>>,
    due_before: Option<Seq<char>>,
)
    ensures
        (status is None || exists|st: Status| st.text() == status->0) && (schedule_type is None
            || exists|sc: crate::models::ScheduleType| sc.text() == schedule_type->0) && (due_before is None
            || crate::db::parse_datetime_outcome(due_before->0) is Ok) ==> crate::cli::task::list_outcome(
            db,
            status,
            schedule_type,
            tag,
            due_before,
        ).result is Ok,
        crate::cli::task::list_outcome(db, status, schedule_type, tag, due_before).result is Ok ==> ({
            let r = crate::cli::task::list_outcome(db, status, schedule_type, tag, due_before);
            &&& r.outputs.len() == 1
            &&& r.outputs[0] is Tasks
            &&& forall|t: TaskView|
                #[trigger] r.outputs[0]->Tasks_0.contains(t) <==> db.tasks.contains(t) && (status is Some
                    ==> t.status.text() == status->0) && (schedule_type is Some ==> t.schedule_type.text()
                    == schedule_type->0) && (tag is Some ==> t.tags.contains(tag->0)) && (due_before is Some
                    ==> t.due_at is Some && ({
                    let b = crate::db::parse_datetime_outcome(due_before->0)->Ok_0;
                    let x = t.due_at->0;
                    x.secs < b.secs || (x.secs == b.secs && x.nanos <= b.nanos)
                }))
        }),
{
    crate::models::lemma_status_texts();
    crate::models::lemma_schedule_type_texts();
    let st: Option<Status> = match status {
        None => None,
        Some(s0) => Some(choose|x: Status| x.text() == s0),
    };
    let sc: Option<crate::models::ScheduleType> = match schedule_type {
        None => None,
        Some(s0) => Some(choose|x: crate::models::ScheduleType| x.text() == s0),
    };
    if status is Some {
        let s0 = status->0;
        if exists|x: Status| x.text() == s0 {
            let x = choose|x: Status| x.text() == s0;
            assert(crate::cli::status_from_text(s0) == Ok::<Status, crate::errors::ErrorView>(x));
        }
    }
    if schedule_type is Some {
        let s0 = schedule_type->0;
        if exists|x: crate::models::ScheduleType| x.text() == s0 {
            let x = choose|x: crate::models::ScheduleType| x.text() == s0;
            assert(crate::cli::schedule_from_text(s0) == Ok::<crate::models::ScheduleType, crate::errors::ErrorView>(x));
        }
    }
    let r = crate::cli::task::list_outcome(db, status, schedule_type, tag, due_before);
    if r.result is Ok {
        let b: Option<Instant> = match due_before {
            None => None,
            Some(s0) => Some(crate::db::parse_datetime_outcome(s0)->Ok_0),
        };
        let f = FiltersView { status: st, schedule_type: sc, tag, due_before: b, parent_id: None };
        let p = |x: TaskView| matches_filters(x, f);
        assert(r.outputs[0] == crate::cli::OutputView::Tasks(db.tasks.filter(p)));
        assert forall|t: TaskView|
            #[trigger] r.outputs[0]->Tasks_0.contains(t) <==> db.tasks.contains(t) && (status is Some
                ==> t.status.text() == status->0) && (schedule_type is Some ==> t.schedule_type.text()
                == schedule_type->0) && (tag is Some ==> t.tags.contains(tag->0)) && (due_before is Some
                ==> t.due_at is Some && ({
                let b = crate::db::parse_datetime_outcome(due_before->0)->Ok_0;
                let x = t.due_at->0;
                x.secs < b.secs || (x.secs == b.secs && x.nanos <= b.nanos)
            })) by {
            lemma_filter_member(db.tasks, p, t);
        }
    }
}

/// A successful `task update` of a stored task sets each field given and
/// keeps each field not given: the title, the status (by name), the due date
/// (read as `parse_datetime` reads it), the tags (when any are given) and
/// the metadata text; id, schedule type, rule, parent and creation are kept,
/// and when anything changes the task is stamped `now`. With a stored id,
/// names that name a status, a due date that reads and metadata that is a
/// JSON object, it succeeds.
pub proof fn law_update_sets_fields(
    db: DbView,
    id: Seq<char>,
    title: Option<Seq<char>>,
    status: Option<Seq<char>>,
    due: Option<Seq<char>>,
    tags: Seq<Seq<char>>,
    metadata: Option<Seq<char>>,
    now: Instant,
)
    requires
        db.wf(),
        now.wf(),
        due is Some && crate::db::parse_datetime_outcome(due->0) is Ok ==> crate::db::parse_datetime_outcome(
            due->0,
        )->Ok_0.wf(),
    ensures
        has_task(db.tasks, id) && (status is None || exists|st: Status| st.text() == status->0) && (due is None
            || crate::db::parse_datetime_outcome(due->0) is Ok) && (metadata is None
            || crate::cli::task::json_value_check(metadata->0) == crate::cli::task::JsonCheckView::Object)
            ==> crate::cli::task::update_cmd_outcome(db, id, title, status, due, tags, metadata, now).1.result is Ok,
        crate::cli::task::update_cmd_outcome(db, id, title, status, due, tags, metadata, now).1.result is Ok ==> ({
            let d = crate::cli::task::update_cmd_outcome(db, id, title, status, due, tags, metadata, now).0;
            let t = task_of(d.tasks, id);
            let o = task_of(db.tasks, id);
            &&& has_task(db.tasks, id)
            &&& has_task(d.tasks, id)
            &&& t.title == (if title is Some { title->0 } else { o.title })
            &&& (status is Some ==> t.status.text() == status->0)
            &&& (status is None ==> t.status == o.status)
            &&& t.due_at == (if due is Some {
                Some(crate::db::parse_datetime_outcome(due->0)->Ok_0)
            } else {
                o.due_at
            })
            &&& t.tags == (if tags.len() > 0 { tags } else { o.tags })
            &&& t.metadata == (if metadata is Some { metadata->0 } else { o.metadata })
            &&& t.id == o.id && t.schedule_type == o.schedule_type && t.recur_rule == o.recur_rule
            &&& t.parent_id == o.parent_id && t.created_at == o.created_at
            &&& (title is Some || status is Some || due is Some || tags.len() > 0 || metadata is Some ==> t.updated_at
                == now)
            &&& (title is None && status is None && due is None && tags.len() == 0 && metadata is None ==> t == o)
        }),
{
    crate::models::lemma_status_texts();
    if status is Some {
        let s0 = status->0;
        if exists|x: Status| x.text() == s0 {
            let x = choose|x: Status| x.text() == s0;
            assert(crate::cli::status_from_text(s0) == Ok::<Status, crate::errors::ErrorView>(x));
        }
    }
    let r = crate::cli::task::update_cmd_outcome(db, id, title, status, due, tags, metadata, now);
    let st: Option<Status> = match status {
        None => None,
        Some(s0) => Some(choose|x: Status| x.text() == s0),
    };
    let dd: Option<Option<Instant>> = match due {
        None => None,
        Some(s0) => Some(Some(crate::db::parse_datetime_outcome(s0)->Ok_0)),
    };
    let u = crate::db::UpdatesView {
        title,
        status: st,
        due_at: dd,
        tags: if tags.len() == 0 { None } else { Some(tags) },
        recur_rule: None,
        metadata,
    };
    if has_task(db.tasks, id) && (status is None || exists|x: Status| x.text() == status->0) && (due is None
        || crate::db::parse_datetime_outcome(due->0) is Ok) && (metadata is None
        || crate::cli::task::json_value_check(metadata->0) == crate::cli::task::JsonCheckView::Object) {
        law_get_after_update(db, id, u, now);
    }
    if r.1.result is Ok {
        assert(has_task(db.tasks, id));
        assert(crate::db::updates_wf(u));
        law_get_after_update(db, id, u, now);
        assert(r.0 == update_outcome(db, id, u, now).0);
    }
}

/// `task add` succeeds exactly when the schedule type given names one, the
/// due date given reads, a deadline has a due date, the metadata given is a
/// JSON object, the parent given is stored and the fresh id is not; the store
/// then holds one more task, under the fresh id: pending, with the title,
/// schedule type (once when none is given), due date, rule, parent, tags and
/// metadata (`{}` when none is given) given, created and updated `now`;
/// every other task is kept.
pub proof fn law_add_creates(
    db: DbView,
    title: Seq<char>,
    schedule_type: Option<Seq<char>>,
    due: Option<Seq<char>>,
    recur: Option<Seq<char>>,
    parent: Option<Seq<char>>,
    tags: Seq<Seq<char>>,
    metadata: Option<Seq<char>>,
    now: Instant,
    id: Seq<char>,
)
    requires
        db.wf(),
        now.wf(),
        due is Some && crate::db::parse_datetime_outcome(due->0) is Ok ==> crate::db::parse_datetime_outcome(
            due->0,
        )->Ok_0.wf(),
    ensures
        ({
            let (d, r) = crate::cli::task::add_outcome(db, title, schedule_type, due, recur, parent, tags, metadata, now, id);
            let stype_ok = schedule_type is None || exists|sc: crate::models::ScheduleType| sc.text() == schedule_type->0;
            let is_deadline = schedule_type is Some && schedule_type->0 == "deadline"@;
            &&& (r.result is Ok <==> stype_ok && (due is None || crate::db::parse_datetime_outcome(due->0) is Ok)
                && !(is_deadline && due is None) && (metadata is None || crate::cli::task::json_value_check(metadata->0)
                == crate::cli::task::JsonCheckView::Object) && (parent is None || has_task(db.tasks, parent->0))
                && !has_task(db.tasks, id))
            &&& (r.result is Err ==> d == db)
            &&& (r.result is Ok ==> {
                let t = task_of(d.tasks, id);
                &&& has_task(d.tasks, id)
                &&& t.id == id && t.title == title && t.status == Status::Pending
                &&& (schedule_type is Some ==> t.schedule_type.text() == schedule_type->0)
                &&& (schedule_type is None ==> t.schedule_type == crate::models::ScheduleType::Once)
                &&& t.due_at == (if due is Some {
                    Some(crate::db::parse_datetime_outcome(due->0)->Ok_0)
                } else {
                    None::<Instant>
                })
                &&& t.recur_rule == recur && t.parent_id == parent && t.tags == tags
                &&& t.metadata == (if metadata is Some { metadata->0 } else { "{}"@ })
                &&& t.created_at == now && t.updated_at == now
                &&& forall|x: Seq<char>|
                    x != id ==> #[trigger] has_task(d.tasks, x) == has_task(db.tasks, x) && (has_task(db.tasks, x)
                        ==> task_of(d.tasks, x) == task_of(db.tasks, x))
            })
        }),
{
    crate::models::lemma_schedule_type_texts();
    reveal_strlit("deadline");
    if schedule_type is Some {
        let s0 = schedule_type->0;
        if exists|x: crate::models::ScheduleType| x.text() == s0 {
            let x = choose|x: crate::models::ScheduleType| x.text() == s0;
            assert(crate::cli::schedule_from_text(s0) == Ok::<crate::models::ScheduleType, crate::errors::ErrorView>(x));
            assert(crate::models::ScheduleType::Deadline.text() == "deadline"@);
            assert(x == crate::models::ScheduleType::Deadline <==> s0 == "deadline"@);
        }
    }
    let r = crate::cli::task::add_outcome(db, title, schedule_type, due, recur, parent, tags, metadata, now, id);
    let st = match crate::cli::task::opt_schedule(schedule_type) {
        Ok(Some(x)) => x,
        _ => crate::models::ScheduleType::Once,
    };
    let due_at: Option<Instant> = match due {
        None => None,
        Some(s0) => Some(crate::db::parse_datetime_outcome(s0)->Ok_0),
    };
    let m = match metadata {
        None => "{}"@,
        Some(x) => x,
    };
    let t = TaskView {
        id,
        title,
        status: Status::Pending,
        schedule_type: st,
        due_at,
        recur_rule: recur,
        parent_id: parent,
        tags,
        metadata: m,
        created_at: now,
        updated_at: now,
    };
    if crate::cli::task::opt_schedule(schedule_type) is Ok && crate::cli::task::opt_datetime(due) is Ok
        && crate::cli::task::metadata_outcome(metadata) is Ok && !(st == crate::models::ScheduleType::Deadline
        && due_at is None) {
        assert(task_wf(t));
        if insert_outcome(db, t).1 is Ok {
            law_get_after_insert(db, t);
        }
    }
}

/// `task breakdown` of a stored task lists exactly the stored tasks that
/// name it as their parent, in creation order.
pub proof fn law_breakdown_lists_children(db: DbView, id: Seq<char>, t: TaskView)
    ensures
        children_of(db.tasks, id).contains(t) <==> db.tasks.contains(t) && t.parent_id == Some(id),
{
    let p = |x: TaskView| x.parent_id == Some(id);
    lemma_filter_member(db.tasks, p, t);
}

/// Cancelling a stored task that is not cancelled yet succeeds: the task
/// becomes cancelled, stamped `now`, its other fields kept; no task is added
/// or dropped, and no task but it and its parent changes. Cancelling a
/// cancelled task is a conflict and a missing one is not found, both
/// changing nothing.
pub proof fn law_cancel_effect(db: DbView, cid: Seq<char>, now: Instant)
    requires
        db.wf(),
        now.wf(),
    ensures
        ({
            let (d, run) = cancel_outcome(db, cid, now);
            let t = task_of(db.tasks, cid);
            &&& (!has_task(db.tasks, cid) ==> d == db && run == crate::cli::failed(
                crate::errors::ErrorView::NotFound(crate::db::task_not_found_text(cid)),
            ))
            &&& (has_task(db.tasks, cid) && t.status == Status::Cancelled ==> d == db && run.result is Err)
            &&& (has_task(db.tasks, cid) && t.status != Status::Cancelled ==> {
                &&& run.result is Ok
                &&& has_task(d.tasks, cid)
                &&& task_of(d.tasks, cid) == TaskView { status: Status::Cancelled, updated_at: now, ..t }
                &&& forall|x: Seq<char>|
                    x != cid && t.parent_id != Some(x) ==> #[trigger] has_task(d.tasks, x) == has_task(db.tasks, x)
                        && (has_task(db.tasks, x) ==> task_of(d.tasks, x) == task_of(db.tasks, x))
                &&& forall|x: Seq<char>| #[trigger] has_task(d.tasks, x) == has_task(db.tasks, x)
            })
        }),
{
    if has_task(db.tasks, cid) && task_of(db.tasks, cid).status != Status::Cancelled {
        let t = task_of(db.tasks, cid);
        let su = status_update(Status::Cancelled);
        lemma_stored_task(db, cid);
        law_get_after_update(db, cid, su, now);
        let db1 = update_outcome(db, cid, su, now).0;
        let u = task_of(db1.tasks, cid);
        let outs = seq![crate::cli::OutputView::Task(u)];
        if let Some(p) = u.parent_id {
            assert(has_task(db.tasks, p));
            if p != cid {
                assert(has_task(db1.tasks, p));
            }
        }
        lemma_parent_step_effect(db1, u, true, now, outs);
        if u.parent_id == Some(cid) {
            assert(task_of(db1.tasks, cid).status.is_resolved());
        }
        let d = parent_step(db1, u, true, now, outs).0;
        assert(task_of(d.tasks, cid) == u);
        assert forall|x: Seq<char>|
            x != cid && t.parent_id != Some(x) implies #[trigger] has_task(d.tasks, x) == has_task(db.tasks, x)
                && (has_task(db.tasks, x) ==> task_of(d.tasks, x) == task_of(db.tasks, x)) by {
            if has_task(db.tasks, x) {
                assert(task_of(db1.tasks, x) == task_of(db.tasks, x));
            }
        }
        assert forall|x: Seq<char>| #[trigger] has_task(d.tasks, x) == has_task(db.tasks, x) by {
            if x != cid {
                assert(has_task(db1.tasks, x) == has_task(db.tasks, x));
            }
        }
    }
}

/// A task's attachments are exactly the stored attachments that name it.
pub proof fn law_attachments_of_task(db: DbView, task_id: Seq<char>, a: crate::models::AttachmentView)
    ensures
        crate::db::attachments_of(db.attachments, task_id).contains(a) <==> db.attachments.contains(a) && a.task_id
            == task_id,
{
    let p = |x: crate::models::AttachmentView| x.task_id == task_id;
    lemma_filter_member(db.attachments, p, a);
}

/// Attaching succeeds exactly when the task is stored and the attachment's
/// id is new; the attachment is then among the task's attachments, and the
/// tasks and every other attachment are kept. Detaching succeeds exactly
/// when an attachment has the id; afterwards none has it, and every other
/// attachment is kept.
pub proof fn law_attach_then_detach(db: DbView, a: crate::models::AttachmentView, rid: Seq<char>)
    requires
        db.wf(),
    ensures
        ({
            let (d, r) = crate::db::add_attachment_outcome(db, a);
            &&& (r is Ok <==> has_task(db.tasks, a.task_id) && !crate::db::has_attachment(db.attachments, a.id))
            &&& (r is Ok ==> crate::db::attachments_of(d.attachments, a.task_id).contains(a) && d.tasks == db.tasks
                && forall|x: crate::models::AttachmentView| #[trigger] db.attachments.contains(x) ==> d.attachments.contains(x))
            &&& (r is Err ==> d == db)
        }),
        ({
            let (d, r) = crate::db::remove_attachment_outcome(db, rid);
            &&& (r is Ok <==> crate::db::has_attachment(db.attachments, rid))
            &&& !crate::db::has_attachment(d.attachments, rid)
            &&& d.tasks == db.tasks
            &&& forall|x: crate::models::AttachmentView|
                x.id != rid ==> (#[trigger] d.attachments.contains(x) <==> db.attachments.contains(x))
        }),
{
    let (d, r) = crate::db::add_attachment_outcome(db, a);
    if r is Ok {
        let n = db.attachments.push(a);
        assert(n[n.len() - 1] == a);
        law_attachments_of_task(d, a.task_id, a);
        assert forall|x: crate::models::AttachmentView| #[trigger] db.attachments.contains(x) implies n.contains(x) by {
            let k = choose|k: int| 0 <= k < db.attachments.len() && db.attachments[k] == x;
            assert(n[k] == x);
        }
    }
    if crate::db::has_attachment(db.attachments, rid) {
        let s = db.attachments;
        let i = choose|i: int| 0 <= i < s.len() && (#[trigger] s[i]).id == rid;
        let n = s.remove(i);
        assert(!crate::db::has_attachment(n, rid)) by {
            if crate::db::has_attachment(n, rid) {
                let k = choose|k: int| 0 <= k < n.len() && (#[trigger] n[k]).id == rid;
                let k1 = if k < i { k } else { k + 1 };
                assert(n[k] == s[k1]);
            }
        }
        assert forall|x: crate::models::AttachmentView| x.id != rid implies (#[trigger] n.contains(x) <==> s.contains(x)) by {
            if n.contains(x) {
                let k = choose|k: int| 0 <= k < n.len() && n[k] == x;
                let k1 = if k < i { k } else { k + 1 };
                assert(s[k1] == x);
            }
            if s.contains(x) {
                let k = choose|k: int| 0 <= k < s.len() && s[k] == x;
                assert(k != i);
                let k0 = if k < i { k } else { k - 1 };
                assert(n[k0] == x);
            }
        }
    }
}

} // verus!

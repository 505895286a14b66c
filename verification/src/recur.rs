//! Recurrence: reading recurrence rules and producing the next instance of
//! a completed recurring task.
use vstd::prelude::*;

use crate::db::{insert_outcome, opt_task_result_view, task_wf, Database, DbView};
use crate::errors::{clock_unread, clock_unread_text, ErrorView, FlowstateError};
use crate::models::{
    clone_opt_string, clone_strings, generate_task_id, has_id_shape, ScheduleType, Status, Task,
    TaskView,
};
use crate::text::{chars_of, has_prefix, parse_i64, parse_int, starts_with, str_eq};
use crate::time::{add_days, can_shift, now, spec_shift, Instant, MAX_SECS, MIN_SECS, SECS_PER_DAY};

verus! {

/// The interval that a recurrence rule names.
#[derive(Clone, Copy, Debug, PartialEq, Eq, Structural)]
pub enum RecurInterval {
    Days(i64),
    Weeks(i64),
}

impl RecurInterval {
    /// The interval in days.
    pub open spec fn days(self) -> int {
        match self {
            RecurInterval::Days(n) => n as int,
            RecurInterval::Weeks(n) => 7 * n,
        }
    }
}

/// The number of days between instances that a recurrence rule gives:
/// `daily` is 1, anything beginning with `weekly` is 7 (a day hint such as
/// `weekly:mon` does not change the interval), `every:Nd` is N and
/// `every:Nw` is 7N; anything else gives none.
pub open spec fn recur_rule_days(rule: Seq<char>) -> Option<int> {
    if rule == "daily"@ {
        Some(1)
    } else if has_prefix(rule, "weekly"@) {
        Some(7)
    } else if has_prefix(rule, "every:"@) {
        let body = rule.skip("every:"@.len() as int);
        if body.len() > 0 && body.last() == 'd' && parse_int(body.drop_last()) is Some {
            Some(parse_int(body.drop_last())->0)
        } else if body.len() > 0 && body.last() == 'w' && parse_int(body.drop_last()) is Some {
            Some(7 * parse_int(body.drop_last())->0)
        } else {
            None
        }
    } else {
        None
    }
}

/// Reads a recurrence rule (see `recur_rule_days`). The interval is a count
/// of days, not yet a `chrono::TimeDelta`, so a count beyond `TimeDelta`'s
/// bound reads here too; it is refused where it is applied: a step that
/// large moves any due date out of the representable range, which
/// `next_due_representable` (required by `task done`) and the check in
/// `generate_next_instance` rule out before `add_days` builds the `TimeDelta`.
pub fn parse_recur_rule(rule: &str) -> (r: Option<RecurInterval>)
    ensures
        match r {
            Some(iv) => recur_rule_days(rule@) == Some(iv.days()),
            None => recur_rule_days(rule@) is None,
        },
{
    if str_eq(rule, "daily") {
        return Some(RecurInterval::Days(1));
    }
    let v = chars_of(rule);
    if starts_with(&v, "weekly") {
        return Some(RecurInterval::Weeks(1));
    }
    if starts_with(&v, "every:") {
        let ghost body = rule@.skip("every:"@.len() as int);
        let start: usize = "every:".unicode_len();
        let n = v.len();
        if n > start {
            assert(body =~= v@.subrange(start as int, n as int));
            assert(body.drop_last() =~= v@.subrange(start as int, n - 1));
            if v[n - 1] == 'd' {
                if let Some(k) = parse_i64(&v, start, n - 1) {
                    return Some(RecurInterval::Days(k));
                }
            }
            if v[n - 1] == 'w' {
                if let Some(k) = parse_i64(&v, start, n - 1) {
                    return Some(RecurInterval::Weeks(k));
                }
            }
        }
    }
    None
}

/// The number of days after which a completed task comes round again:
/// 1 for daily, 7 for weekly, what the rule gives for recurring; none otherwise.
pub open spec fn step_days(t: TaskView) -> Option<int> {
    match t.schedule_type {
        ScheduleType::Daily => Some(1),
        ScheduleType::Weekly => Some(7),
        ScheduleType::Recurring => match t.recur_rule {
            Some(r) => recur_rule_days(r),
            None => None,
        },
        _ => None,
    }
}

/// The instant from which the next due date counts: the task's due date,
/// else `now`.
pub open spec fn due_base(t: TaskView, now: Instant) -> Instant {
    match t.due_at {
        Some(d) => d,
        None => now,
    }
}

/// The next instance's due date lies in the representable range (beyond it
/// the date arithmetic panics).
pub open spec fn next_due_representable(t: TaskView, now: Instant) -> bool {
    step_days(t) matches Some(n) ==> can_shift(due_base(t, now), n * SECS_PER_DAY)
}

/// The due date of the next instance: the base moved by the step.
pub open spec fn next_due(t: TaskView, now: Instant) -> Option<Instant> {
    match step_days(t) {
        Some(n) => {
            let (s, ns) = spec_shift(due_base(t, now), n * SECS_PER_DAY);
            Some(Instant { secs: s as i64, nanos: ns as u32 })
        },
        None => None,
    }
}

/// The next instance of a completed task, if it repeats: a pending copy with
/// the new id, due at `next_due`, created and updated at `now`.
pub open spec fn next_instance(t: TaskView, now: Instant, id: Seq<char>) -> Option<TaskView> {
    match next_due(t, now) {
        Some(d) => Some(
            TaskView {
                id: id,
                title: t.title,
                status: Status::Pending,
                schedule_type: t.schedule_type,
                due_at: Some(d),
                recur_rule: t.recur_rule,
                parent_id: t.parent_id,
                tags: t.tags,
                metadata: t.metadata,
                created_at: now,
                updated_at: now,
            },
        ),
        None => None,
    }
}

/// What generating the next instance gives: nothing for a task that does
/// not repeat; else the outcome of inserting the instance.
pub open spec fn next_instance_outcome(db: DbView, t: TaskView, now: Instant, id: Seq<char>) -> (
    DbView,
    Result<Option<TaskView>, ErrorView>,
) {
    match next_instance(t, now, id) {
        None => (db, Ok(None)),
        Some(nt) => {
            let (db2, r) = insert_outcome(db, nt);
            (
                db2,
                match r {
                    Ok(_) => Ok(Some(nt)),
                    Err(e) => Err(e),
                },
            )
        },
    }
}

/// The step of a task, as a recurrence interval.
fn step_of(t: &Task) -> (r: Option<RecurInterval>)
    ensures
        match r {
            Some(iv) => step_days(t@) == Some(iv.days()),
            None => step_days(t@) is None,
        },
{
    match t.schedule_type {
        ScheduleType::Daily => Some(RecurInterval::Days(1)),
        ScheduleType::Weekly => Some(RecurInterval::Weeks(1)),
        ScheduleType::Recurring => match &t.recur_rule {
            Some(r) => parse_recur_rule(r.as_str()),
            None => None,
        },
        _ => None,
    }
}

/// Whether the next instance's due date is representable (see
/// `next_due_representable`).
pub fn next_due_fits(t: &Task, now: Instant) -> (r: bool)
    requires
        task_wf(t@),
        now.wf(),
    ensures
        r == next_due_representable(t@, now),
{
    match step_of(t) {
        None => true,
        Some(iv) => {
            let base = match t.due_at {
                Some(d) => d,
                None => now,
            };
            let days: i128 = match iv {
                RecurInterval::Days(n) => n as i128,
                RecurInterval::Weeks(n) => 7 * (n as i128),
            };
            let delta: i128 = days * 86400;
            let secs: i128 = if base.nanos >= 1_000_000_000 && delta < 0 {
                base.secs as i128 + 1 + delta
            } else {
                base.secs as i128 + delta
            };
            MIN_SECS as i128 <= secs && secs <= MAX_SECS as i128
        },
    }
}

/// Builds the next instance of a completed task (see `next_instance`).
pub fn make_next_instance(t: &Task, now: Instant, id: String) -> (r: Option<Task>)
    requires
        task_wf(t@),
        now.wf(),
        next_due_representable(t@, now),
    ensures
        match r {
            Some(x) => next_instance(t@, now, id@) == Some(x@) && task_wf(x@),
            None => next_instance(t@, now, id@) is None,
        },
{
    let iv = match step_of(t) {
        Some(iv) => iv,
        None => {
            return None;
        },
    };
    let base = match t.due_at {
        Some(d) => d,
        None => now,
    };
    let days: i64 = match iv {
        RecurInterval::Days(n) => n,
        RecurInterval::Weeks(n) => {
            assert(can_shift(base, 7 * n * SECS_PER_DAY));
            7 * n
        },
    };
    let due = add_days(base, days);
    Some(
        Task {
            id,
            title: t.title.clone(),
            status: Status::Pending,
            schedule_type: t.schedule_type,
            due_at: Some(due),
            recur_rule: clone_opt_string(&t.recur_rule),
            parent_id: clone_opt_string(&t.parent_id),
            tags: clone_strings(&t.tags),
            metadata: t.metadata.clone(),
            created_at: now,
            updated_at: now,
        },
    )
}

/// Stores the next instance of a completed task under the given id (see
/// `next_instance_outcome`).
pub fn generate_next_instance_at(completed: &Task, db: &mut Database, now: Instant, id: String) -> (r:
    Result<Option<Task>, FlowstateError>)
    requires
        old(db)@.wf(),
        task_wf(completed@),
        now.wf(),
        next_due_representable(completed@, now),
    ensures
        (final(db)@, opt_task_result_view(r)) == next_instance_outcome(old(db)@, completed@, now, id@),
        final(db)@.wf(),
{
    match make_next_instance(completed, now, id) {
        None => Ok(None),
        Some(nt) => match db.insert_task(&nt) {
            Ok(()) => Ok(Some(nt)),
            Err(e) => Err(e),
        },
    }
}

/// The complaint when the next due date falls outside the representable range.
pub open spec fn due_out_of_range_text() -> Seq<char> {
    "the next due date is out of range"@
}

/// Stores the next instance of a completed recurring task, with a fresh id
/// and the clock's current time; returns it, or nothing when the task does
/// not repeat, without reading the clock. Refused, with the store unchanged,
/// when the clock gives no reading or the next due date counted from that
/// reading is out of range.
pub fn generate_next_instance(completed: &Task, db: &mut Database) -> (r: Result<Option<Task>, FlowstateError>)
    requires
        old(db)@.wf(),
        task_wf(completed@),
    ensures
        final(db)@.wf(),
        step_days(completed@) is None ==> final(db)@ == old(db)@ && opt_task_result_view(r) == Ok::<
            Option<TaskView>,
            ErrorView,
        >(None),
        step_days(completed@) is Some ==> ({
        ||| (final(db)@ == old(db)@ && opt_task_result_view(r) == Err::<Option<TaskView>, ErrorView>(
            ErrorView::Other(clock_unread_text()),
        ))
        ||| exists|now: Instant|
            now.wf() && !next_due_representable(completed@, now) && final(db)@ == old(db)@
                && opt_task_result_view(r) == Err::<Option<TaskView>, ErrorView>(
                ErrorView::Other(due_out_of_range_text()),
            )
        ||| exists|now: Instant, id: Seq<char>|
            now.wf() && next_due_representable(completed@, now) && has_id_shape(id, "tk_"@) && (
            final(db)@,
            opt_task_result_view(r),
        ) == next_instance_outcome(old(db)@, completed@, now, id)
        }),
{
    if step_of(completed).is_none() {
        return Ok(None);
    }
    let now = match now() {
        Some(t) => t,
        None => {
            return Err(clock_unread());
        },
    };
    if !next_due_fits(completed, now) {
        return Err(FlowstateError::Other(String::from_str("the next due date is out of range")));
    }
    let id = generate_task_id();
    let ghost idv = id@;
    let r = generate_next_instance_at(completed, db, now, id);
    assert(has_id_shape(idv, "tk_"@));
    r
}

} // verus!

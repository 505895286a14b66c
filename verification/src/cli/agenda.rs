//! The `agenda` and `overdue` commands.
use vstd::prelude::*;

use super::{failed, run_failed, run_one, Env, Output, OutputView, Run, RunView};
use crate::db::{agenda_sorted, agenda_tasks, by_due, overdue_tasks, Database, DbView};
use crate::errors::{ErrorView, FlowstateError};
use crate::models::TaskView;
use crate::time::{date_of, date_parsed_with_format, parse_date_with_format, spec_date_of, Date, Instant};

verus! {

/// `invalid date: <text> (expected YYYY-MM-DD)`
pub open spec fn invalid_date_text(s: Seq<char>) -> Seq<char> {
    "invalid date: "@ + s + " (expected YYYY-MM-DD)"@
}

/// The day an agenda is for: the given `YYYY-MM-DD` date, or the current UTC day.
pub open spec fn agenda_date(date: Option<Seq<char>>, now: Instant) -> Result<Date, ErrorView> {
    match date {
        Some(s) => match date_parsed_with_format(s, "%Y-%m-%d"@) {
            Some(d) => Ok(d),
            None => Err(ErrorView::Validation(invalid_date_text(s))),
        },
        None => Ok(spec_date_of(now)),
    }
}

/// A run that reports one list of tasks: these tasks sorted by due instant
/// (`by_due`), so each as often, in agenda order.
pub open spec fn reports_in_agenda_order(r: RunView, tasks: Seq<TaskView>) -> bool {
    &&& r.result is Ok
    &&& r.outputs.len() == 1
    &&& r.outputs[0] matches OutputView::Tasks(v) && v == by_due(tasks) && v.to_multiset()
        == tasks.to_multiset() && agenda_sorted(v)
}

/// What `agenda` gives: the date is read (a wrong one is a validation error);
/// then the day's agenda (see `agenda_tasks`), by due instant, none last.
pub open spec fn agenda_run(db: DbView, date: Option<Seq<char>>, now: Instant, r: RunView) -> bool {
    match agenda_date(date, now) {
        Err(e) => r == failed(e),
        Ok(d) => reports_in_agenda_order(r, agenda_tasks(db.tasks, d)),
    }
}

/// Shows the agenda of a day (see `agenda_run`).
pub fn handle_agenda(db: &Database, date: Option<String>, env: &Env) -> (r: Run)
    requires
        db@.wf(),
        env.wf(),
    ensures
        agenda_run(db@, date.deep_view(), env.now, r@),
{
    let target = match &date {
        Some(d) => match parse_date_with_format(d.as_str(), "%Y-%m-%d") {
            Some(x) => x,
            None => {
                return run_failed(
                    FlowstateError::Validation(
                        String::from_str("invalid date: ").concat(d.as_str()).concat(" (expected YYYY-MM-DD)"),
                    ),
                );
            },
        },
        None => date_of(env.now),
    };
    match db.get_agenda_tasks(target) {
        Ok(v) => run_one(Output::Tasks(v)),
        Err(e) => run_failed(e),
    }
}

/// Shows the tasks overdue at the current time, by due instant.
pub fn handle_overdue(db: &Database, env: &Env) -> (r: Run)
    requires
        db@.wf(),
        env.wf(),
    ensures
        reports_in_agenda_order(r@, overdue_tasks(db@.tasks, env.now)),
{
    match db.get_overdue_tasks_at(env.now) {
        Ok(v) => run_one(Output::Tasks(v)),
        Err(e) => run_failed(e),
    }
}

} // verus!

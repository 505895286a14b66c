# flowstate

A task store for agents — one-time, daily, weekly, recurring and deadline
tasks, parent/child breakdowns, attachments and a daily agenda — whose logic
is verified with Verus.

## Layout

- `src/` — the verified library.
  - `models.rs`: statuses, schedule types, tasks, attachments, identifiers.
  - `db.rs`: the task store (insert, get, list, update, auto-completion of
    parents, agenda and overdue queries, attachments) and its invariant.
  - `recur.rs`: recurrence rules and next instances of repeating tasks.
  - `time.rs`, `text.rs`: instants, calendar days, and character helpers,
    with the calls into `chrono`.
  - `row.rs`: the stored form of tasks and attachments.
  - `cli/`: the commands, as functions from a store and a captured
    environment (clock reading, fresh ids) to a new store and outputs.
  - `output.rs`: the plain-text lines that commands print.
  - `laws.rs`: properties that span several operations.
- `app/` — the program around it: argument parsing, the SQLite file,
  JSON printing, and the export/import files.
- `tests/` — tests of the library.

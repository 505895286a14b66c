//! Flowstate: a task store for agents, with one-time, daily, weekly,
//! recurring and deadline tasks, parent/child breakdowns and an agenda.
use vstd::prelude::*;

pub mod text;
pub mod time;
pub mod models;
pub mod errors;
pub mod recur;
pub mod db;
pub mod cli;
pub mod output;
pub mod row;
pub mod laws;

verus! {

/// The default location of the task database, relative to the working directory.
pub fn db_path() -> (r: String)
    ensures
        r@ == ".flowstate.db"@,
{
    String::from_str(".flowstate.db")
}

} // verus!

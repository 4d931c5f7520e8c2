//! Plain rows of the three tables, and the helpers their contracts share.
//!
//! Timestamps are UTC seconds relative to the Unix epoch, restricted to the
//! ten-thousand-year window the engine represents (year 0 through year 9999).
//! A zone offset travels with each time entry for display only; durations are
//! computed in UTC and are zone-independent.

use vstd::prelude::*;

use crate::status::TaskStatus;

verus! {

/// Earliest representable instant: 0000-01-01T00:00:00 UTC.
pub const TS_MIN: i64 = -62167219200;

/// Latest representable instant: 9999-12-31T23:59:59 UTC.
pub const TS_MAX: i64 = 253402300799;

/// A timestamp the engine can store.
pub open spec fn valid_ts(t: i64) -> bool {
    TS_MIN <= t <= TS_MAX
}

/// Zone offsets are strictly less than a day in either direction.
pub open spec fn valid_offset(offset_seconds: i32) -> bool {
    -86400 < offset_seconds < 86400
}

/// A project row: the top-level grouping of tasks.
#[derive(Debug, PartialEq, Eq)]
pub struct ProjectRecord {
    pub id: i64,
    pub name: String,
    pub description: Option<String>,
    pub created_at: i64,
    pub updated_at: i64,
}

/// A task row: one unit of trackable work under a project.
#[derive(Debug, PartialEq, Eq)]
pub struct TaskRecord {
    pub id: i64,
    pub project_id: i64,
    pub name: String,
    pub description: Option<String>,
    pub status: TaskStatus,
    pub created_at: i64,
    pub updated_at: i64,
}

/// A time entry row: one interval of work on a task. The entry is open while
/// `end_time` is `None`; `duration` holds whole seconds once closed and is
/// zero while open.
#[derive(Clone, Copy, Debug, PartialEq, Eq, Structural)]
pub struct TimeEntryRecord {
    pub id: i64,
    pub task_id: i64,
    pub start_time: i64,
    pub offset_seconds: i32,
    pub end_time: Option<i64>,
    pub duration: i64,
    pub created_at: i64,
    pub updated_at: i64,
}

impl TimeEntryRecord {
    /// An entry is open while its end time is null.
    pub open spec fn is_open(self) -> bool {
        self.end_time is None
    }
}

/// The view of an optional borrowed text, for contracts over descriptions.
pub open spec fn opt_text(o: Option<&str>) -> Option<Seq<char>> {
    match o {
        Some(s) => Some(s@),
        None => None,
    }
}

/// Whether a stored optional string carries exactly the given optional text.
pub open spec fn opt_string_is(o: Option<String>, t: Option<Seq<char>>) -> bool {
    match (o, t) {
        (Some(s), Some(u)) => s@ == u,
        (None, None) => true,
        _ => false,
    }
}

/// The text displayed for an optional description: the description itself, or
/// empty when absent.
pub open spec fn display_description(o: Option<String>) -> Seq<char> {
    match o {
        Some(s) => s@,
        None => Seq::<char>::empty(),
    }
}

/// Clones an optional string, keeping its value.
pub fn clone_opt_string(o: &Option<String>) -> (r: Option<String>)
    ensures
        r == *o,
{
    match o {
        Some(s) => Some(s.clone()),
        None => None,
    }
}

/// Renders an optional description the way listings show it: the text itself,
/// or the empty string when absent.
pub fn description_text(o: &Option<String>) -> (r: String)
    ensures
        r@ == display_description(*o),
{
    match o {
        Some(s) => s.clone(),
        None => String::new(),
    }
}

impl Clone for ProjectRecord {
    fn clone(&self) -> (r: Self)
        ensures
            r == *self,
    {
        ProjectRecord {
            id: self.id,
            name: self.name.clone(),
            description: clone_opt_string(&self.description),
            created_at: self.created_at,
            updated_at: self.updated_at,
        }
    }
}

impl Clone for TaskRecord {
    fn clone(&self) -> (r: Self)
        ensures
            r == *self,
    {
        TaskRecord {
            id: self.id,
            project_id: self.project_id,
            name: self.name.clone(),
            description: clone_opt_string(&self.description),
            status: self.status,
            created_at: self.created_at,
            updated_at: self.updated_at,
        }
    }
}

/// A listing row for a project: its identity and how many tasks it owns.
#[derive(Debug)]
pub struct ProjectSummary {
    pub id: i64,
    pub name: String,
    pub description: String,
    pub tasks: usize,
}

/// A listing row for a task: its identity, status, and how many time entries
/// it owns.
#[derive(Debug)]
pub struct TaskSummary {
    pub id: i64,
    pub name: String,
    pub description: String,
    pub status: TaskStatus,
    pub time_entries: usize,
}

} // verus!

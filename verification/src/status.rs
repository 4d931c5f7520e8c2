//! The closed set of task lifecycle states and the transition rules.

use vstd::prelude::*;

verus! {

/// Lifecycle state of a task. The store transports it as text (`"pending"`,
/// `"in_progress"`, `"completed"`, `"cancelled"`); inside the engine it is a
/// closed enumeration so that illegal states are unrepresentable.
#[derive(Clone, Copy, Debug, PartialEq, Eq, Structural)]
pub enum TaskStatus {
    Pending,
    InProgress,
    Completed,
    Cancelled,
}

impl TaskStatus {
    /// `completed` and `cancelled` are terminal: a terminal task is never
    /// started or stopped again.
    pub open spec fn is_terminal(self) -> bool {
        self == TaskStatus::Completed || self == TaskStatus::Cancelled
    }

    /// A task may be started exactly when its status is not terminal.
    pub fn can_start(self) -> (r: bool)
        ensures
            r == !self.is_terminal(),
    {
        match self {
            TaskStatus::Completed => false,
            TaskStatus::Cancelled => false,
            _ => true,
        }
    }

    /// A task may be stopped exactly when it is currently in progress.
    pub fn can_stop(self) -> (r: bool)
        ensures
            r == (self == TaskStatus::InProgress),
    {
        match self {
            TaskStatus::InProgress => true,
            _ => false,
        }
    }

    /// The textual form under which a status is persisted.
    pub open spec fn spec_text(self) -> Seq<char> {
        match self {
            TaskStatus::Pending => "pending"@,
            TaskStatus::InProgress => "in_progress"@,
            TaskStatus::Completed => "completed"@,
            TaskStatus::Cancelled => "cancelled"@,
        }
    }

    /// Renders the status as the text the store persists.
    pub fn as_text(self) -> (r: &'static str)
        ensures
            r@ == self.spec_text(),
    {
        match self {
            TaskStatus::Pending => "pending",
            TaskStatus::InProgress => "in_progress",
            TaskStatus::Completed => "completed",
            TaskStatus::Cancelled => "cancelled",
        }
    }
}

/// The status a text names, if any.
pub open spec fn spec_status_of_text(s: Seq<char>) -> Option<TaskStatus> {
    if s == "pending"@ {
        Some(TaskStatus::Pending)
    } else if s == "in_progress"@ {
        Some(TaskStatus::InProgress)
    } else if s == "completed"@ {
        Some(TaskStatus::Completed)
    } else if s == "cancelled"@ {
        Some(TaskStatus::Cancelled)
    } else {
        None
    }
}

/// Parses the persisted textual form of a status; any other text is `None`.
pub fn status_from_text(s: &str) -> (r: Option<TaskStatus>)
    ensures
        r == spec_status_of_text(s@),
{
    let key: String = s.to_owned();
    if key == "pending".to_owned() {
        Some(TaskStatus::Pending)
    } else if key == "in_progress".to_owned() {
        Some(TaskStatus::InProgress)
    } else if key == "completed".to_owned() {
        Some(TaskStatus::Completed)
    } else if key == "cancelled".to_owned() {
        Some(TaskStatus::Cancelled)
    } else {
        None
    }
}

/// The status a stop operation assigns: `completed` when the task is reported
/// finished, else `cancelled` when it is reported cancelled, else the current
/// status is kept unchanged (the time entries are closed regardless).
pub open spec fn spec_stop_status(finished: bool, cancelled: bool, current: TaskStatus) -> TaskStatus {
    if finished {
        TaskStatus::Completed
    } else if cancelled {
        TaskStatus::Cancelled
    } else {
        current
    }
}

/// Decides the status a successful stop leaves behind.
pub fn stop_status(finished: bool, cancelled: bool, current: TaskStatus) -> (r: TaskStatus)
    ensures
        r == spec_stop_status(finished, cancelled, current),
{
    if finished {
        TaskStatus::Completed
    } else if cancelled {
        TaskStatus::Cancelled
    } else {
        current
    }
}

/// The status a freshly created task receives: `in_progress` when it is
/// started immediately, else `pending`.
pub open spec fn spec_initial_status(start_immediately: bool) -> TaskStatus {
    if start_immediately {
        TaskStatus::InProgress
    } else {
        TaskStatus::Pending
    }
}

/// Decides the status of a task at creation.
pub fn initial_status(start_immediately: bool) -> (r: TaskStatus)
    ensures
        r == spec_initial_status(start_immediately),
{
    if start_immediately {
        TaskStatus::InProgress
    } else {
        TaskStatus::Pending
    }
}

} // verus!

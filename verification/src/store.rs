//! The transactional store model: three tables under referential integrity,
//! cascading deletes, and the task lifecycle operations that keep a task's
//! status and its open time entries in lockstep.
//!
//! Every lifecycle operation either performs its whole row-change set or
//! leaves the store untouched and reports a typed failure, mirroring one
//! atomic transaction per operation.

use vstd::prelude::*;

use crate::error::EngineError;
use crate::records::ProjectRecord;
use crate::records::TaskRecord;
use crate::records::TimeEntryRecord;
use crate::records::ProjectSummary;
use crate::records::TaskSummary;
use crate::records::description_text;
use crate::records::display_description;
use crate::records::opt_text;
use crate::records::opt_string_is;
use crate::records::valid_offset;
use crate::records::valid_ts;
use crate::records::TS_MAX;
use crate::records::TS_MIN;
use crate::status::TaskStatus;
use crate::status::spec_initial_status;
use crate::status::spec_stop_status;

verus! {

/// Some project row carries the given name.
pub open spec fn has_project_named(projects: Seq<ProjectRecord>, name: Seq<char>) -> bool {
    exists|i: int| 0 <= i < projects.len() && projects[i].name@ == name
}

/// Row `i` is the earliest project row with the given name: the row a lookup
/// by name selects (duplicate names are permitted; lookups take the earliest).
pub open spec fn is_first_project_named(projects: Seq<ProjectRecord>, name: Seq<char>, i: int) -> bool {
    &&& 0 <= i < projects.len()
    &&& projects[i].name@ == name
    &&& forall|k: int| 0 <= k < i ==> projects[k].name@ != name
}

/// Some task row carries the given name.
pub open spec fn has_task_named(tasks: Seq<TaskRecord>, name: Seq<char>) -> bool {
    exists|i: int| 0 <= i < tasks.len() && tasks[i].name@ == name
}

/// Row `i` is the earliest task row with the given name.
pub open spec fn is_first_task_named(tasks: Seq<TaskRecord>, name: Seq<char>, i: int) -> bool {
    &&& 0 <= i < tasks.len()
    &&& tasks[i].name@ == name
    &&& forall|k: int| 0 <= k < i ==> tasks[k].name@ != name
}

/// Some project row carries the given id.
pub open spec fn has_project_id(projects: Seq<ProjectRecord>, id: i64) -> bool {
    exists|i: int| 0 <= i < projects.len() && projects[i].id == id
}

/// Some task row carries the given id.
pub open spec fn has_task_id(tasks: Seq<TaskRecord>, id: i64) -> bool {
    exists|i: int| 0 <= i < tasks.len() && tasks[i].id == id
}

/// The given task currently has an open time entry.
pub open spec fn has_open_entry(entries: Seq<TimeEntryRecord>, task_id: i64) -> bool {
    exists|i: int| 0 <= i < entries.len() && entries[i].task_id == task_id && entries[i].is_open()
}

/// The predicate a task-level cascade keeps: entries of other tasks.
pub open spec fn entry_not_of_task(task_id: i64) -> spec_fn(TimeEntryRecord) -> bool {
    |e: TimeEntryRecord| e.task_id != task_id
}

/// The predicate a project-level cascade keeps on tasks: tasks of other
/// projects.
pub open spec fn task_not_of_project(pid: i64) -> spec_fn(TaskRecord) -> bool {
    |t: TaskRecord| t.project_id != pid
}

/// The task with the given id belongs to the given project.
pub open spec fn task_of_project(tasks: Seq<TaskRecord>, task_id: i64, pid: i64) -> bool {
    exists|i: int| 0 <= i < tasks.len() && tasks[i].id == task_id && tasks[i].project_id == pid
}

/// The predicate a project-level cascade keeps on entries: entries whose task
/// does not belong to the removed project.
pub open spec fn entry_not_under_project(tasks: Seq<TaskRecord>, pid: i64) -> spec_fn(
    TimeEntryRecord,
) -> bool {
    |e: TimeEntryRecord| !task_of_project(tasks, e.task_id, pid)
}

/// The predicate a listing keeps: tasks of the given project.
pub open spec fn task_in_project(pid: i64) -> spec_fn(TaskRecord) -> bool {
    |t: TaskRecord| t.project_id == pid
}

/// How many tasks belong to the given project.
pub open spec fn count_tasks_of(tasks: Seq<TaskRecord>, pid: i64) -> int
    decreases tasks.len(),
{
    if tasks.len() == 0 {
        0
    } else {
        count_tasks_of(tasks.drop_last(), pid) + if tasks.last().project_id == pid {
            1int
        } else {
            0int
        }
    }
}

/// How many time entries belong to the given task.
pub open spec fn count_entries_of(entries: Seq<TimeEntryRecord>, tid: i64) -> int
    decreases entries.len(),
{
    if entries.len() == 0 {
        0
    } else {
        count_entries_of(entries.drop_last(), tid) + if entries.last().task_id == tid {
            1int
        } else {
            0int
        }
    }
}

/// The listing row a project produces: its identity, its description shown as
/// text, and how many tasks it owns.
pub open spec fn project_summary_matches(
    row: ProjectSummary,
    p: ProjectRecord,
    tasks: Seq<TaskRecord>,
) -> bool {
    &&& row.id == p.id
    &&& row.name@ == p.name@
    &&& row.description@ == display_description(p.description)
    &&& row.tasks == count_tasks_of(tasks, p.id)
}

/// The listing row a task produces: its identity, status, its description
/// shown as text, and how many time entries it owns.
pub open spec fn task_summary_matches(
    row: TaskSummary,
    t: TaskRecord,
    entries: Seq<TimeEntryRecord>,
) -> bool {
    &&& row.id == t.id
    &&& row.name@ == t.name@
    &&& row.description@ == display_description(t.description)
    &&& row.status == t.status
    &&& row.time_entries == count_entries_of(entries, t.id)
}

/// The given entry closed at `now`: end time set, duration the whole-second
/// UTC difference.
pub open spec fn spec_close_entry(e: TimeEntryRecord, now: i64) -> TimeEntryRecord {
    TimeEntryRecord { end_time: Some(now), duration: (now - e.start_time) as i64, ..e }
}

/// What a stop at `now` makes of an entry: entries of the stopped task that
/// are open get closed; every other entry is untouched.
pub open spec fn spec_close_if_open_for(e: TimeEntryRecord, task_id: i64, now: i64) -> TimeEntryRecord {
    if e.task_id == task_id && e.is_open() {
        spec_close_entry(e, now)
    } else {
        e
    }
}

/// Closes one time entry at `now`: the end time is set and the duration
/// becomes the whole-second UTC difference. Fails with `InternalError` when a
/// moment lies outside the representable window.
pub fn close_entry(e: &TimeEntryRecord, now: i64) -> (r: Result<TimeEntryRecord, EngineError>)
    ensures
        match r {
            Ok(c) => {
                &&& valid_ts(now) && valid_ts(e.start_time)
                &&& c == spec_close_entry(*e, now)
            },
            Err(err) => {
                &&& err == EngineError::InternalError
                &&& !(valid_ts(now) && valid_ts(e.start_time))
            },
        },
{
    if now < TS_MIN || now > TS_MAX || e.start_time < TS_MIN || e.start_time > TS_MAX {
        return Err(EngineError::InternalError);
    }
    let mut c = *e;
    c.end_time = Some(now);
    c.duration = now - e.start_time;
    Ok(c)
}

/// The relational store: projects, tasks and time entries, plus the next
/// surrogate id of each table.
#[derive(Debug)]
pub struct Store {
    pub projects: Vec<ProjectRecord>,
    pub tasks: Vec<TaskRecord>,
    pub entries: Vec<TimeEntryRecord>,
    pub next_project_id: i64,
    pub next_task_id: i64,
    pub next_entry_id: i64,
}

/// Project rows carry unique positive ids below the id counter.
pub open spec fn projects_table_wf(projects: Seq<ProjectRecord>, next_project_id: i64) -> bool {
    &&& 1 <= next_project_id
    &&& forall|i: int, j: int| 0 <= i < j < projects.len() ==> projects[i].id != projects[j].id
    &&& forall|i: int|
        0 <= i < projects.len() ==> 1 <= #[trigger] projects[i].id < next_project_id
}

/// Task rows carry unique positive ids below the id counter, and each belongs
/// to an existing project.
pub open spec fn tasks_table_wf(
    projects: Seq<ProjectRecord>,
    tasks: Seq<TaskRecord>,
    next_task_id: i64,
) -> bool {
    &&& 1 <= next_task_id
    &&& forall|i: int, j: int| 0 <= i < j < tasks.len() ==> tasks[i].id != tasks[j].id
    &&& forall|i: int| 0 <= i < tasks.len() ==> 1 <= #[trigger] tasks[i].id < next_task_id
    &&& forall|i: int|
        0 <= i < tasks.len() ==> has_project_id(projects, #[trigger] tasks[i].project_id)
}

/// Entry rows carry unique positive ids below the id counter, each belongs to
/// an existing task, timestamps and offsets lie in the representable window,
/// and the stored duration is the whole-second UTC difference once closed and
/// zero while open.
pub open spec fn entries_table_wf(
    tasks: Seq<TaskRecord>,
    entries: Seq<TimeEntryRecord>,
    next_entry_id: i64,
) -> bool {
    &&& 1 <= next_entry_id
    &&& forall|i: int, j: int| 0 <= i < j < entries.len() ==> entries[i].id != entries[j].id
    &&& forall|i: int| 0 <= i < entries.len() ==> 1 <= #[trigger] entries[i].id < next_entry_id
    &&& forall|i: int|
        0 <= i < entries.len() ==> has_task_id(tasks, #[trigger] entries[i].task_id)
    &&& forall|i: int| 0 <= i < entries.len() ==> valid_ts(#[trigger] entries[i].start_time)
    &&& forall|i: int| 0 <= i < entries.len() ==> valid_offset(#[trigger] entries[i].offset_seconds)
    &&& forall|i: int|
        0 <= i < entries.len() ==> match #[trigger] entries[i].end_time {
            Some(end) => valid_ts(end) && entries[i].duration == end - entries[i].start_time,
            None => entries[i].duration == 0,
        }
}

/// A task has at most one open time entry at any moment.
pub open spec fn entries_single_open(entries: Seq<TimeEntryRecord>) -> bool {
    forall|i: int, j: int|
        0 <= i < j < entries.len() && #[trigger] entries[i].task_id == #[trigger] entries[j].task_id
            ==> !(entries[i].is_open() && entries[j].is_open())
}

impl Store {
    /// Project rows carry unique positive ids below the id counter.
    pub open spec fn projects_wf(self) -> bool {
        projects_table_wf(self.projects@, self.next_project_id)
    }

    /// Task rows carry unique positive ids below the id counter, and each
    /// belongs to an existing project.
    pub open spec fn tasks_wf(self) -> bool {
        tasks_table_wf(self.projects@, self.tasks@, self.next_task_id)
    }

    /// Entry rows carry unique positive ids below the id counter, each belongs
    /// to an existing task, timestamps and offsets lie in the representable
    /// window, and the stored duration is the whole-second UTC difference once
    /// closed and zero while open.
    pub open spec fn entries_wf(self) -> bool {
        entries_table_wf(self.tasks@, self.entries@, self.next_entry_id)
    }

    /// A task has at most one open time entry at any moment.
    pub open spec fn at_most_one_open(self) -> bool {
        entries_single_open(self.entries@)
    }

    /// The store invariant: well-formed tables, referential integrity, and at
    /// most one open entry per task.
    pub open spec fn inv(self) -> bool {
        &&& self.projects_wf()
        &&& self.tasks_wf()
        &&& self.entries_wf()
        &&& self.at_most_one_open()
    }

    /// An empty store.
    pub fn new() -> (s: Store)
        ensures
            s.inv(),
            s.projects@.len() == 0,
            s.tasks@.len() == 0,
            s.entries@.len() == 0,
            s.next_project_id == 1,
            s.next_task_id == 1,
            s.next_entry_id == 1,
    {
        Store {
            projects: Vec::new(),
            tasks: Vec::new(),
            entries: Vec::new(),
            next_project_id: 1,
            next_task_id: 1,
            next_entry_id: 1,
        }
    }

    /// Index of the earliest project with the given name, if any.
    pub(crate) fn find_project(&self, name: &str) -> (r: Option<usize>)
        ensures
            match r {
                Some(i) => is_first_project_named(self.projects@, name@, i as int),
                None => !has_project_named(self.projects@, name@),
            },
    {
        let key: String = name.to_owned();
        let mut i: usize = 0;
        while i < self.projects.len()
            invariant
                i <= self.projects@.len(),
                key@ == name@,
                forall|k: int| 0 <= k < i ==> self.projects@[k].name@ != name@,
            decreases self.projects@.len() - i,
        {
            if self.projects[i].name == key {
                return Some(i);
            }
            i += 1;
        }
        None
    }

    /// Index of the earliest task with the given name, if any.
    fn find_task(&self, name: &str) -> (r: Option<usize>)
        ensures
            match r {
                Some(i) => is_first_task_named(self.tasks@, name@, i as int),
                None => !has_task_named(self.tasks@, name@),
            },
    {
        let key: String = name.to_owned();
        let mut i: usize = 0;
        while i < self.tasks.len()
            invariant
                i <= self.tasks@.len(),
                key@ == name@,
                forall|k: int| 0 <= k < i ==> self.tasks@[k].name@ != name@,
            decreases self.tasks@.len() - i,
        {
            if self.tasks[i].name == key {
                return Some(i);
            }
            i += 1;
        }
        None
    }

    /// The given task currently has an open time entry.
    fn any_open_entry(&self, task_id: i64) -> (r: bool)
        ensures
            r == has_open_entry(self.entries@, task_id),
    {
        let mut i: usize = 0;
        while i < self.entries.len()
            invariant
                i <= self.entries@.len(),
                forall|k: int|
                    0 <= k < i ==> !(#[trigger] self.entries@[k].task_id == task_id
                        && self.entries@[k].is_open()),
            decreases self.entries@.len() - i,
        {
            if self.entries[i].task_id == task_id && self.entries[i].end_time.is_none() {
                return true;
            }
            i += 1;
        }
        false
    }

    /// Creates a project named `name`, with `now` as its creation and update
    /// time. Duplicate names are permitted, as lookups select the earliest
    /// row. Fails only when the id space is exhausted.
    pub fn create_project(&mut self, name: &str, description: Option<&str>, now: i64) -> (r:
        Result<ProjectRecord, EngineError>)
        requires
            old(self).inv(),
        ensures
            final(self).inv(),
            match r {
                Ok(p) => {
                    &&& old(self).next_project_id < i64::MAX
                    &&& p.id == old(self).next_project_id
                    &&& p.name@ == name@
                    &&& opt_string_is(p.description, opt_text(description))
                    &&& p.created_at == now
                    &&& p.updated_at == now
                    &&& final(self).projects@ == old(self).projects@.push(p)
                    &&& final(self).tasks@ == old(self).tasks@
                    &&& final(self).entries@ == old(self).entries@
                    &&& final(self).next_project_id == old(self).next_project_id + 1
                    &&& final(self).next_task_id == old(self).next_task_id
                    &&& final(self).next_entry_id == old(self).next_entry_id
                },
                Err(e) => {
                    &&& e == EngineError::InternalError
                    &&& old(self).next_project_id == i64::MAX
                    &&& *final(self) == *old(self)
                },
            },
    {
        if self.next_project_id == i64::MAX {
            return Err(EngineError::InternalError);
        }
        let p = ProjectRecord {
            id: self.next_project_id,
            name: name.to_owned(),
            description: match description {
                Some(d) => Some(d.to_owned()),
                None => None,
            },
            created_at: now,
            updated_at: now,
        };
        let out = p.clone();
        self.projects.push(p);
        self.next_project_id = self.next_project_id + 1;
        proof {
            let pre = *old(self);
            let post = *self;
            assert forall|i: int| 0 <= i < post.tasks@.len() implies has_project_id(
                post.projects@,
                #[trigger] post.tasks@[i].project_id,
            ) by {
                let j = choose|j: int|
                    0 <= j < pre.projects@.len() && pre.projects@[j].id
                        == post.tasks@[i].project_id;
                assert(post.projects@[j].id == post.tasks@[i].project_id);
            }
        }
        Ok(out)
    }

    /// Creates a task under the project named `project_name`, with status
    /// `pending`, or `in_progress` together with one open time entry starting
    /// at `now` when `start_immediately` is set. The whole insert set lands or
    /// nothing does. Fails with `NotFound` when the project is absent, and
    /// with `InternalError` when an id space is exhausted or `now` lies
    /// outside the representable window an entry can store.
    pub fn create_task(
        &mut self,
        name: &str,
        description: Option<&str>,
        project_name: &str,
        start_immediately: bool,
        now: i64,
    ) -> (r: Result<TaskRecord, EngineError>)
        requires
            old(self).inv(),
        ensures
            final(self).inv(),
            match r {
                Ok(t) => {
                    &&& has_project_named(old(self).projects@, project_name@)
                    &&& exists|pi: int|
                        is_first_project_named(old(self).projects@, project_name@, pi)
                            && t.project_id == old(self).projects@[pi].id
                    &&& t.id == old(self).next_task_id
                    &&& t.name@ == name@
                    &&& opt_string_is(t.description, opt_text(description))
                    &&& t.status == spec_initial_status(start_immediately)
                    &&& t.created_at == now
                    &&& t.updated_at == now
                    &&& final(self).projects@ == old(self).projects@
                    &&& final(self).tasks@ == old(self).tasks@.push(t)
                    &&& final(self).next_project_id == old(self).next_project_id
                    &&& final(self).next_task_id == old(self).next_task_id + 1
                    &&& if start_immediately {
                        &&& valid_ts(now)
                        &&& final(self).entries@ == old(self).entries@.push(
                            (TimeEntryRecord {
                                id: old(self).next_entry_id,
                                task_id: t.id,
                                start_time: now,
                                offset_seconds: 0,
                                end_time: None,
                                duration: 0,
                                created_at: now,
                                updated_at: now,
                            }),
                        )
                        &&& final(self).next_entry_id == old(self).next_entry_id + 1
                    } else {
                        &&& final(self).entries@ == old(self).entries@
                        &&& final(self).next_entry_id == old(self).next_entry_id
                    }
                },
                Err(e) => {
                    &&& *final(self) == *old(self)
                    &&& if e == EngineError::NotFound {
                        !has_project_named(old(self).projects@, project_name@)
                    } else {
                        &&& e == EngineError::InternalError
                        &&& has_project_named(old(self).projects@, project_name@)
                        &&& (old(self).next_task_id == i64::MAX || (start_immediately && (
                        !valid_ts(now) || old(self).next_entry_id == i64::MAX)))
                    }
                },
            },
    {
        let pi = match self.find_project(project_name) {
            None => {
                return Err(EngineError::NotFound);
            },
            Some(i) => i,
        };
        let pid = self.projects[pi].id;
        if self.next_task_id == i64::MAX {
            return Err(EngineError::InternalError);
        }
        if start_immediately && (now < TS_MIN || now > TS_MAX || self.next_entry_id == i64::MAX) {
            return Err(EngineError::InternalError);
        }
        let t = TaskRecord {
            id: self.next_task_id,
            project_id: pid,
            name: name.to_owned(),
            description: match description {
                Some(d) => Some(d.to_owned()),
                None => None,
            },
            status: crate::status::initial_status(start_immediately),
            created_at: now,
            updated_at: now,
        };
        let out = t.clone();
        self.tasks.push(t);
        self.next_task_id = self.next_task_id + 1;
        if start_immediately {
            let e = TimeEntryRecord {
                id: self.next_entry_id,
                task_id: out.id,
                start_time: now,
                offset_seconds: 0,
                end_time: None,
                duration: 0,
                created_at: now,
                updated_at: now,
            };
            self.entries.push(e);
            self.next_entry_id = self.next_entry_id + 1;
        }
        proof {
            let pre = *old(self);
            let post = *self;
            assert forall|i: int| 0 <= i < post.tasks@.len() implies has_project_id(
                post.projects@,
                #[trigger] post.tasks@[i].project_id,
            ) by {
                if i < pre.tasks@.len() {
                    assert(has_project_id(pre.projects@, pre.tasks@[i].project_id));
                } else {
                    assert(post.projects@[pi as int].id == pid);
                }
            }
            assert forall|i: int| 0 <= i < post.entries@.len() implies has_task_id(
                post.tasks@,
                #[trigger] post.entries@[i].task_id,
            ) by {
                if i < pre.entries@.len() {
                    let j = choose|j: int|
                        0 <= j < pre.tasks@.len() && pre.tasks@[j].id == pre.entries@[i].task_id;
                    assert(post.tasks@[j].id == post.entries@[i].task_id);
                } else {
                    assert(post.tasks@[pre.tasks@.len() as int].id == post.entries@[i].task_id);
                }
            }
            assert forall|k: int| 0 <= k < pre.entries@.len() implies #[trigger] pre.entries@[k].task_id
                != out.id by {
                let j = choose|j: int|
                    0 <= j < pre.tasks@.len() && pre.tasks@[j].id == pre.entries@[k].task_id;
                assert(pre.tasks@[j].id < pre.next_task_id);
            }
        }
        Ok(out)
    }

    /// Starts the task named `name`: sets its status to `in_progress` and
    /// opens one new time entry starting at `now`. Fails with `NotFound` when
    /// the task is absent, with `InvalidTransition` when its status is
    /// terminal, with `ConflictingOpenEntry` when an open entry already exists
    /// (a defensive guard: reported rather than opening a second entry), and
    /// with `InternalError` when `now` is unrepresentable or the entry id
    /// space is exhausted. On failure the store is untouched.
    pub fn start_task(&mut self, name: &str, now: i64) -> (r: Result<TaskRecord, EngineError>)
        requires
            old(self).inv(),
        ensures
            final(self).inv(),
            match r {
                Ok(t) => {
                    &&& exists|ti: int|
                        {
                            &&& is_first_task_named(old(self).tasks@, name@, ti)
                            &&& !old(self).tasks@[ti].status.is_terminal()
                            &&& t == (TaskRecord {
                                status: TaskStatus::InProgress,
                                ..old(self).tasks@[ti]
                            })
                            &&& final(self).tasks@ == old(self).tasks@.update(ti, t)
                        }
                    &&& !has_open_entry(old(self).entries@, t.id)
                    &&& valid_ts(now)
                    &&& old(self).next_entry_id < i64::MAX
                    &&& final(self).entries@ == old(self).entries@.push(
                        (TimeEntryRecord {
                            id: old(self).next_entry_id,
                            task_id: t.id,
                            start_time: now,
                            offset_seconds: 0,
                            end_time: None,
                            duration: 0,
                            created_at: now,
                            updated_at: now,
                        }),
                    )
                    &&& final(self).projects@ == old(self).projects@
                    &&& final(self).next_project_id == old(self).next_project_id
                    &&& final(self).next_task_id == old(self).next_task_id
                    &&& final(self).next_entry_id == old(self).next_entry_id + 1
                },
                Err(e) => {
                    &&& *final(self) == *old(self)
                    &&& if e == EngineError::NotFound {
                        !has_task_named(old(self).tasks@, name@)
                    } else if e == EngineError::InvalidTransition {
                        exists|ti: int|
                            is_first_task_named(old(self).tasks@, name@, ti)
                                && old(self).tasks@[ti].status.is_terminal()
                    } else if e == EngineError::ConflictingOpenEntry {
                        exists|ti: int|
                            {
                                &&& is_first_task_named(old(self).tasks@, name@, ti)
                                &&& !old(self).tasks@[ti].status.is_terminal()
                                &&& has_open_entry(old(self).entries@, old(self).tasks@[ti].id)
                            }
                    } else {
                        &&& e == EngineError::InternalError
                        &&& exists|ti: int|
                            {
                                &&& is_first_task_named(old(self).tasks@, name@, ti)
                                &&& !old(self).tasks@[ti].status.is_terminal()
                                &&& !has_open_entry(old(self).entries@, old(self).tasks@[ti].id)
                            }
                        &&& (!valid_ts(now) || old(self).next_entry_id == i64::MAX)
                    }
                },
            },
    {
        let ti = match self.find_task(name) {
            None => {
                return Err(EngineError::NotFound);
            },
            Some(i) => i,
        };
        if !self.tasks[ti].status.can_start() {
            return Err(EngineError::InvalidTransition);
        }
        let tid = self.tasks[ti].id;
        if self.any_open_entry(tid) {
            return Err(EngineError::ConflictingOpenEntry);
        }
        if now < TS_MIN || now > TS_MAX || self.next_entry_id == i64::MAX {
            return Err(EngineError::InternalError);
        }
        let mut t = self.tasks[ti].clone();
        t.status = TaskStatus::InProgress;
        let out = t.clone();
        self.tasks.set(ti, t);
        let e = TimeEntryRecord {
            id: self.next_entry_id,
            task_id: tid,
            start_time: now,
            offset_seconds: 0,
            end_time: None,
            duration: 0,
            created_at: now,
            updated_at: now,
        };
        self.entries.push(e);
        self.next_entry_id = self.next_entry_id + 1;
        proof {
            let pre = *old(self);
            let post = *self;
            assert forall|i: int| 0 <= i < post.tasks@.len() implies has_project_id(
                post.projects@,
                #[trigger] post.tasks@[i].project_id,
            ) by {
                assert(post.tasks@[i].project_id == pre.tasks@[i].project_id);
                assert(has_project_id(pre.projects@, pre.tasks@[i].project_id));
            }
            assert forall|i: int| 0 <= i < post.entries@.len() implies has_task_id(
                post.tasks@,
                #[trigger] post.entries@[i].task_id,
            ) by {
                if i < pre.entries@.len() {
                    let j = choose|j: int|
                        0 <= j < pre.tasks@.len() && pre.tasks@[j].id == pre.entries@[i].task_id;
                    assert(post.tasks@[j].id == post.entries@[i].task_id);
                } else {
                    assert(post.tasks@[ti as int].id == post.entries@[i].task_id);
                }
            }
        }
        Ok(out)
    }

    /// Stops the task named `name`: closes every open time entry of the task
    /// at `now` (expected: exactly one, but all that match are closed), with
    /// `duration` the whole-second UTC difference, and sets the status to
    /// `completed` when `finished`, else `cancelled` when `cancelled`, else
    /// leaves it unchanged. Fails with `NotFound` when the task is absent,
    /// with `InvalidTransition` when the task is not `in_progress`, and with
    /// `InternalError` when `now` is unrepresentable. On failure the store is
    /// untouched.
    pub fn stop_task(&mut self, name: &str, finished: bool, cancelled: bool, now: i64) -> (r:
        Result<TaskRecord, EngineError>)
        requires
            old(self).inv(),
        ensures
            final(self).inv(),
            match r {
                Ok(t) => {
                    &&& exists|ti: int|
                        {
                            &&& is_first_task_named(old(self).tasks@, name@, ti)
                            &&& old(self).tasks@[ti].status == TaskStatus::InProgress
                            &&& t == (TaskRecord {
                                status: spec_stop_status(
                                    finished,
                                    cancelled,
                                    TaskStatus::InProgress,
                                ),
                                ..old(self).tasks@[ti]
                            })
                            &&& final(self).tasks@ == old(self).tasks@.update(ti, t)
                        }
                    &&& valid_ts(now)
                    &&& final(self).entries@.len() == old(self).entries@.len()
                    &&& forall|k: int|
                        0 <= k < old(self).entries@.len() ==> final(self).entries@[k]
                            == spec_close_if_open_for(#[trigger] old(self).entries@[k], t.id, now)
                    &&& forall|k: int|
                        0 <= k < final(self).entries@.len()
                            && (#[trigger] final(self).entries@[k]).task_id == t.id
                            ==> !(final(self).entries@[k].is_open())
                    &&& final(self).projects@ == old(self).projects@
                    &&& final(self).next_project_id == old(self).next_project_id
                    &&& final(self).next_task_id == old(self).next_task_id
                    &&& final(self).next_entry_id == old(self).next_entry_id
                },
                Err(e) => {
                    &&& *final(self) == *old(self)
                    &&& if e == EngineError::NotFound {
                        !has_task_named(old(self).tasks@, name@)
                    } else if e == EngineError::InvalidTransition {
                        exists|ti: int|
                            is_first_task_named(old(self).tasks@, name@, ti)
                                && old(self).tasks@[ti].status != TaskStatus::InProgress
                    } else {
                        &&& e == EngineError::InternalError
                        &&& exists|ti: int|
                            is_first_task_named(old(self).tasks@, name@, ti)
                                && old(self).tasks@[ti].status == TaskStatus::InProgress
                        &&& !valid_ts(now)
                    }
                },
            },
    {
        let ti = match self.find_task(name) {
            None => {
                return Err(EngineError::NotFound);
            },
            Some(i) => i,
        };
        if !self.tasks[ti].status.can_stop() {
            return Err(EngineError::InvalidTransition);
        }
        if now < TS_MIN || now > TS_MAX {
            return Err(EngineError::InternalError);
        }
        let tid = self.tasks[ti].id;
        let n = self.entries.len();
        let mut k: usize = 0;
        while k < n
            invariant
                old(self).inv(),
                k <= n,
                n == old(self).entries@.len(),
                self.entries@.len() == n,
                self.projects@ == old(self).projects@,
                self.tasks@ == old(self).tasks@,
                self.next_project_id == old(self).next_project_id,
                self.next_task_id == old(self).next_task_id,
                self.next_entry_id == old(self).next_entry_id,
                ti < self.tasks@.len(),
                tid == old(self).tasks@[ti as int].id,
                valid_ts(now),
                forall|m: int|
                    0 <= m < k ==> self.entries@[m] == spec_close_if_open_for(
                        #[trigger] old(self).entries@[m],
                        tid,
                        now,
                    ),
                forall|m: int| k <= m < n ==> self.entries@[m] == #[trigger] old(self).entries@[m],
            decreases n - k,
        {
            if self.entries[k].task_id == tid && self.entries[k].end_time.is_none() {
                let mut e = self.entries[k];
                proof {
                    assert(e == old(self).entries@[k as int]);
                    assert(valid_ts(e.start_time));
                }
                e.end_time = Some(now);
                e.duration = now - e.start_time;
                self.entries.set(k, e);
            }
            k += 1;
        }
        let mut t = self.tasks[ti].clone();
        t.status = crate::status::stop_status(finished, cancelled, t.status);
        let out = t.clone();
        self.tasks.set(ti, t);
        proof {
            let pre = *old(self);
            let post = *self;
            assert forall|i: int| 0 <= i < post.tasks@.len() implies has_project_id(
                post.projects@,
                #[trigger] post.tasks@[i].project_id,
            ) by {
                assert(post.tasks@[i].project_id == pre.tasks@[i].project_id);
                assert(has_project_id(pre.projects@, pre.tasks@[i].project_id));
            }
            assert forall|i: int| 0 <= i < post.entries@.len() implies has_task_id(
                post.tasks@,
                #[trigger] post.entries@[i].task_id,
            ) by {
                assert(post.entries@[i].task_id == pre.entries@[i].task_id);
                let j = choose|j: int|
                    0 <= j < pre.tasks@.len() && pre.tasks@[j].id == pre.entries@[i].task_id;
                assert(post.tasks@[j].id == post.entries@[i].task_id);
            }
            assert forall|i: int, j: int|
                0 <= i < j < post.entries@.len() && #[trigger] post.entries@[i].task_id
                    == #[trigger] post.entries@[j].task_id implies !(post.entries@[i].is_open()
                && post.entries@[j].is_open()) by {
                assert(post.entries@[i] == spec_close_if_open_for(pre.entries@[i], tid, now));
                assert(post.entries@[j] == spec_close_if_open_for(pre.entries@[j], tid, now));
            }
            assert forall|i: int, j: int|
                0 <= i < j < post.entries@.len() implies post.entries@[i].id
                    != post.entries@[j].id by {
                assert(post.entries@[i].id == pre.entries@[i].id);
                assert(post.entries@[j].id == pre.entries@[j].id);
            }
            assert forall|i: int| 0 <= i < post.entries@.len() implies {
                &&& 1 <= (#[trigger] post.entries@[i]).id < post.next_entry_id
                &&& valid_ts(post.entries@[i].start_time)
                &&& valid_offset(post.entries@[i].offset_seconds)
                &&& match post.entries@[i].end_time {
                    Some(end) => valid_ts(end) && post.entries@[i].duration == end
                        - post.entries@[i].start_time,
                    None => post.entries@[i].duration == 0,
                }
            } by {
                assert(post.entries@[i] == spec_close_if_open_for(pre.entries@[i], tid, now));
            }
            assert(is_first_task_named(pre.tasks@, name@, ti as int));
            assert(out == (TaskRecord {
                status: spec_stop_status(finished, cancelled, TaskStatus::InProgress),
                ..pre.tasks@[ti as int]
            }));
            assert(post.tasks@ == pre.tasks@.update(ti as int, out));
            assert forall|m: int| 0 <= m < pre.entries@.len() implies post.entries@[m]
                == spec_close_if_open_for(#[trigger] pre.entries@[m], out.id, now) by {
                assert(post.entries@[m] == spec_close_if_open_for(pre.entries@[m], tid, now));
            }
            assert forall|m: int|
                0 <= m < post.entries@.len() && (#[trigger] post.entries@[m]).task_id == out.id
                    implies !(post.entries@[m].is_open()) by {
                assert(post.entries@[m] == spec_close_if_open_for(pre.entries@[m], tid, now));
            }
        }
        Ok(out)
    }

    /// Edits the task named `name`, applying only the fields supplied: an
    /// omitted field is left untouched, and an explicit empty string is a
    /// valid way to clear the description. A single-row update with no
    /// cross-table effects. Fails with `NotFound` when the task is absent.
    pub fn edit_task(&mut self, name: &str, new_name: Option<&str>, new_description: Option<&str>)
        -> (r: Result<TaskRecord, EngineError>)
        requires
            old(self).inv(),
        ensures
            final(self).inv(),
            match r {
                Ok(t) => {
                    &&& exists|ti: int|
                        {
                            &&& is_first_task_named(old(self).tasks@, name@, ti)
                            &&& t.id == old(self).tasks@[ti].id
                            &&& t.project_id == old(self).tasks@[ti].project_id
                            &&& t.status == old(self).tasks@[ti].status
                            &&& t.created_at == old(self).tasks@[ti].created_at
                            &&& t.updated_at == old(self).tasks@[ti].updated_at
                            &&& match new_name {
                                Some(n) => t.name@ == n@,
                                None => t.name == old(self).tasks@[ti].name,
                            }
                            &&& match new_description {
                                Some(d) => opt_string_is(t.description, Some(d@)),
                                None => t.description == old(self).tasks@[ti].description,
                            }
                            &&& final(self).tasks@ == old(self).tasks@.update(ti, t)
                        }
                    &&& final(self).projects@ == old(self).projects@
                    &&& final(self).entries@ == old(self).entries@
                    &&& final(self).next_project_id == old(self).next_project_id
                    &&& final(self).next_task_id == old(self).next_task_id
                    &&& final(self).next_entry_id == old(self).next_entry_id
                },
                Err(e) => {
                    &&& e == EngineError::NotFound
                    &&& !has_task_named(old(self).tasks@, name@)
                    &&& *final(self) == *old(self)
                },
            },
    {
        let ti = match self.find_task(name) {
            None => {
                return Err(EngineError::NotFound);
            },
            Some(i) => i,
        };
        let mut t = self.tasks[ti].clone();
        if let Some(n) = new_name {
            t.name = n.to_owned();
        }
        if let Some(d) = new_description {
            t.description = Some(d.to_owned());
        }
        let out = t.clone();
        self.tasks.set(ti, t);
        proof {
            let pre = *old(self);
            let post = *self;
            assert forall|i: int| 0 <= i < post.tasks@.len() implies has_project_id(
                post.projects@,
                #[trigger] post.tasks@[i].project_id,
            ) by {
                assert(post.tasks@[i].project_id == pre.tasks@[i].project_id);
                assert(has_project_id(pre.projects@, pre.tasks@[i].project_id));
            }
            assert forall|i: int| 0 <= i < post.entries@.len() implies has_task_id(
                post.tasks@,
                #[trigger] post.entries@[i].task_id,
            ) by {
                let j = choose|j: int|
                    0 <= j < pre.tasks@.len() && pre.tasks@[j].id == pre.entries@[i].task_id;
                assert(post.tasks@[j].id == post.entries@[i].task_id);
            }
        }
        Ok(out)
    }

    /// Removes the task named `name` (the earliest row under that name), and
    /// with it, cascading, every time entry that belonged to it. Fails with
    /// `NotFound` when the task is absent.
    pub fn remove_task(&mut self, name: &str) -> (r: Result<TaskRecord, EngineError>)
        requires
            old(self).inv(),
        ensures
            final(self).inv(),
            match r {
                Ok(t) => {
                    &&& exists|ti: int|
                        {
                            &&& is_first_task_named(old(self).tasks@, name@, ti)
                            &&& t == old(self).tasks@[ti]
                            &&& final(self).tasks@ == old(self).tasks@.remove(ti)
                        }
                    &&& final(self).entries@ == old(self).entries@.filter(entry_not_of_task(t.id))
                    &&& final(self).projects@ == old(self).projects@
                    &&& final(self).next_project_id == old(self).next_project_id
                    &&& final(self).next_task_id == old(self).next_task_id
                    &&& final(self).next_entry_id == old(self).next_entry_id
                },
                Err(e) => {
                    &&& e == EngineError::NotFound
                    &&& !has_task_named(old(self).tasks@, name@)
                    &&& *final(self) == *old(self)
                },
            },
    {
        let ti = match self.find_task(name) {
            None => {
                return Err(EngineError::NotFound);
            },
            Some(i) => i,
        };
        let t = self.tasks.remove(ti);
        let tid = t.id;
        let ghost pred = entry_not_of_task(tid);
        let mut kept: Vec<TimeEntryRecord> = Vec::new();
        let n = self.entries.len();
        let mut k: usize = 0;
        while k < n
            invariant
                old(self).inv(),
                k <= n,
                n == old(self).entries@.len(),
                self.entries@ == old(self).entries@,
                pred == entry_not_of_task(tid),
                kept@ == old(self).entries@.take(k as int).filter(pred),
                forall|idx: int|
                    #![trigger kept@[idx]]
                    0 <= idx < kept@.len() ==> exists|m: int|
                        0 <= m < k && kept@[idx] == old(self).entries@[m],
            decreases n - k,
        {
            proof {
                reveal(Seq::filter);
                let prefix = old(self).entries@.take(k + 1);
                assert(prefix.drop_last() =~= old(self).entries@.take(k as int));
                assert(prefix.last() == old(self).entries@[k as int]);
                if pred(old(self).entries@[k as int]) {
                    assert(prefix.filter(pred) == prefix.drop_last().filter(pred).push(
                        prefix.last(),
                    ));
                } else {
                    assert(prefix.filter(pred) == prefix.drop_last().filter(pred));
                }
            }
            if self.entries[k].task_id != tid {
                kept.push(self.entries[k]);
                proof {
                    let m = k as int;
                    assert(kept@[kept@.len() - 1] == old(self).entries@[m]);
                }
            }
            k += 1;
        }
        let ghost kept_view = kept@;
        self.entries = kept;
        proof {
            let pre = *old(self);
            let post = *self;
            assert(pre.entries@.take(n as int) =~= pre.entries@);
            assert(post.entries@ == pre.entries@.filter(pred));
            // Each kept entry is one of the old entries; its task survives the
            // removal because task ids are unique.
            assert forall|i: int| 0 <= i < post.entries@.len() implies exists|m: int|
                0 <= m < pre.entries@.len() && #[trigger] post.entries@[i]
                    == pre.entries@[m] by {
                assert(post.entries@[i] == kept_view[i]);
            }
            assert forall|a: int, b: int| 0 <= a < b < pre.entries@.len() implies pre.entries@[a]
                != pre.entries@[b] by {
                assert(pre.entries@[a].id != pre.entries@[b].id);
            }
            assert forall|i: int, j: int|
                0 <= i < j < post.entries@.len() implies post.entries@[i].id
                    != post.entries@[j].id by {
                let mi = choose|m: int|
                    0 <= m < pre.entries@.len() && post.entries@[i] == pre.entries@[m];
                let mj = choose|m: int|
                    0 <= m < pre.entries@.len() && post.entries@[j] == pre.entries@[m];
                if mi == mj {
                    lemma_filter_distinct(pre.entries@, pred, i, j);
                } else {
                    assert(pre.entries@[mi].id != pre.entries@[mj].id);
                }
            }
            assert forall|i: int, j: int|
                0 <= i < j < post.entries@.len() && #[trigger] post.entries@[i].task_id
                    == #[trigger] post.entries@[j].task_id implies !(post.entries@[i].is_open()
                && post.entries@[j].is_open()) by {
                let mi = choose|m: int|
                    0 <= m < pre.entries@.len() && post.entries@[i] == pre.entries@[m];
                let mj = choose|m: int|
                    0 <= m < pre.entries@.len() && post.entries@[j] == pre.entries@[m];
                if mi == mj {
                    lemma_filter_distinct(pre.entries@, pred, i, j);
                } else if mi < mj {
                    assert(!(pre.entries@[mi].is_open() && pre.entries@[mj].is_open()));
                } else {
                    assert(!(pre.entries@[mj].is_open() && pre.entries@[mi].is_open()));
                }
            }
            assert forall|i: int| 0 <= i < post.entries@.len() implies {
                &&& 1 <= (#[trigger] post.entries@[i]).id < post.next_entry_id
                &&& has_task_id(post.tasks@, post.entries@[i].task_id)
                &&& valid_ts(post.entries@[i].start_time)
                &&& valid_offset(post.entries@[i].offset_seconds)
                &&& match post.entries@[i].end_time {
                    Some(end) => valid_ts(end) && post.entries@[i].duration == end
                        - post.entries@[i].start_time,
                    None => post.entries@[i].duration == 0,
                }
            } by {
                let m = choose|m: int|
                    0 <= m < pre.entries@.len() && post.entries@[i] == pre.entries@[m];
                assert(pred(post.entries@[i]));
                let j = choose|j: int|
                    0 <= j < pre.tasks@.len() && pre.tasks@[j].id == pre.entries@[m].task_id;
                assert(pre.tasks@[j].id != tid);
                assert(j != ti);
                if j < ti {
                    assert(post.tasks@[j].id == post.entries@[i].task_id);
                } else {
                    assert(post.tasks@[j - 1].id == post.entries@[i].task_id);
                }
            }
            assert forall|i: int| 0 <= i < post.tasks@.len() implies has_project_id(
                post.projects@,
                #[trigger] post.tasks@[i].project_id,
            ) by {
                if i < ti {
                    assert(post.tasks@[i].project_id == pre.tasks@[i].project_id);
                    assert(has_project_id(pre.projects@, pre.tasks@[i].project_id));
                } else {
                    assert(post.tasks@[i].project_id == pre.tasks@[i + 1].project_id);
                    assert(has_project_id(pre.projects@, pre.tasks@[i + 1].project_id));
                }
            }
        }
        Ok(t)
    }
}

impl Store {
    /// Some project row carries the given id.
    fn has_project_with_id(&self, pid: i64) -> (r: bool)
        ensures
            r == has_project_id(self.projects@, pid),
    {
        let mut w: usize = 0;
        while w < self.projects.len()
            invariant
                w <= self.projects@.len(),
                forall|b: int| 0 <= b < w ==> self.projects@[b].id != pid,
            decreases self.projects@.len() - w,
        {
            if self.projects[w].id == pid {
                return true;
            }
            w += 1;
        }
        false
    }

    /// Some task row carries the given id.
    fn has_task_with_id(&self, tid: i64) -> (r: bool)
        ensures
            r == has_task_id(self.tasks@, tid),
    {
        let mut w: usize = 0;
        while w < self.tasks.len()
            invariant
                w <= self.tasks@.len(),
                forall|b: int| 0 <= b < w ==> self.tasks@[b].id != tid,
            decreases self.tasks@.len() - w,
        {
            if self.tasks[w].id == tid {
                return true;
            }
            w += 1;
        }
        false
    }

    /// Decides whether the project table is well formed.
    fn projects_ok(&self) -> (r: bool)
        ensures
            r == self.projects_wf(),
    {
        if self.next_project_id < 1 {
            return false;
        }
        let n = self.projects.len();
        let mut i: usize = 0;
        while i < n
            invariant
                i <= n,
                n == self.projects@.len(),
                1 <= self.next_project_id,
                forall|a: int, b: int|
                    0 <= a < b < n && a < i ==> self.projects@[a].id != self.projects@[b].id,
                forall|a: int|
                    0 <= a < i ==> 1 <= #[trigger] self.projects@[a].id < self.next_project_id,
            decreases n - i,
        {
            if self.projects[i].id < 1 || self.projects[i].id >= self.next_project_id {
                return false;
            }
            let mut j: usize = i + 1;
            while j < n
                invariant
                    i < j <= n,
                    n == self.projects@.len(),
                    forall|b: int| i < b < j ==> self.projects@[i as int].id != self.projects@[b].id,
                decreases n - j,
            {
                if self.projects[i].id == self.projects[j].id {
                    return false;
                }
                j += 1;
            }
            i += 1;
        }
        true
    }

    /// Decides whether the task table is well formed against the project
    /// table.
    fn tasks_ok(&self) -> (r: bool)
        ensures
            r == self.tasks_wf(),
    {
        if self.next_task_id < 1 {
            return false;
        }
        let n = self.tasks.len();
        let mut i: usize = 0;
        while i < n
            invariant
                i <= n,
                n == self.tasks@.len(),
                1 <= self.next_task_id,
                forall|a: int, b: int|
                    0 <= a < b < n && a < i ==> self.tasks@[a].id != self.tasks@[b].id,
                forall|a: int|
                    0 <= a < i ==> 1 <= #[trigger] self.tasks@[a].id < self.next_task_id,
                forall|a: int|
                    0 <= a < i ==> has_project_id(self.projects@, #[trigger] self.tasks@[a].project_id),
            decreases n - i,
        {
            if self.tasks[i].id < 1 || self.tasks[i].id >= self.next_task_id {
                return false;
            }
            let pid = self.tasks[i].project_id;
            if !self.has_project_with_id(pid) {
                return false;
            }
            let mut j: usize = i + 1;
            while j < n
                invariant
                    i < j <= n,
                    n == self.tasks@.len(),
                    forall|b: int| i < b < j ==> self.tasks@[i as int].id != self.tasks@[b].id,
                decreases n - j,
            {
                if self.tasks[i].id == self.tasks[j].id {
                    return false;
                }
                j += 1;
            }
            i += 1;
        }
        true
    }

    /// Decides whether the entry table is well formed against the task table.
    fn entries_ok(&self) -> (r: bool)
        ensures
            r == self.entries_wf(),
    {
        if self.next_entry_id < 1 {
            return false;
        }
        let n = self.entries.len();
        let mut i: usize = 0;
        while i < n
            invariant
                i <= n,
                n == self.entries@.len(),
                1 <= self.next_entry_id,
                forall|a: int, b: int|
                    0 <= a < b < n && a < i ==> self.entries@[a].id != self.entries@[b].id,
                forall|a: int|
                    0 <= a < i ==> 1 <= #[trigger] self.entries@[a].id < self.next_entry_id,
                forall|a: int|
                    0 <= a < i ==> has_task_id(self.tasks@, #[trigger] self.entries@[a].task_id),
                forall|a: int| 0 <= a < i ==> valid_ts(#[trigger] self.entries@[a].start_time),
                forall|a: int|
                    0 <= a < i ==> valid_offset(#[trigger] self.entries@[a].offset_seconds),
                forall|a: int|
                    0 <= a < i ==> match #[trigger] self.entries@[a].end_time {
                        Some(end) => valid_ts(end) && self.entries@[a].duration == end
                            - self.entries@[a].start_time,
                        None => self.entries@[a].duration == 0,
                    },
            decreases n - i,
        {
            let e = self.entries[i];
            if e.id < 1 || e.id >= self.next_entry_id {
                return false;
            }
            if e.start_time < TS_MIN || e.start_time > TS_MAX {
                return false;
            }
            if e.offset_seconds <= -86400 || e.offset_seconds >= 86400 {
                return false;
            }
            match e.end_time {
                Some(end) => {
                    if end < TS_MIN || end > TS_MAX {
                        return false;
                    }
                    if e.duration != end - e.start_time {
                        return false;
                    }
                },
                None => {
                    if e.duration != 0 {
                        return false;
                    }
                },
            }
            if !self.has_task_with_id(e.task_id) {
                return false;
            }
            let mut j: usize = i + 1;
            while j < n
                invariant
                    i < j <= n,
                    n == self.entries@.len(),
                    forall|b: int| i < b < j ==> self.entries@[i as int].id != self.entries@[b].id,
                decreases n - j,
            {
                if self.entries[i].id == self.entries[j].id {
                    return false;
                }
                j += 1;
            }
            i += 1;
        }
        true
    }

    /// Decides whether every task has at most one open time entry.
    fn single_open_ok(&self) -> (r: bool)
        ensures
            r == self.at_most_one_open(),
    {
        let n = self.entries.len();
        let mut i: usize = 0;
        while i < n
            invariant
                i <= n,
                n == self.entries@.len(),
                forall|a: int, b: int|
                    0 <= a < b < n && a < i && #[trigger] self.entries@[a].task_id
                        == #[trigger] self.entries@[b].task_id ==> !(self.entries@[a].is_open()
                        && self.entries@[b].is_open()),
            decreases n - i,
        {
            if self.entries[i].end_time.is_none() {
                let mut j: usize = i + 1;
                while j < n
                    invariant
                        i < j <= n,
                        n == self.entries@.len(),
                        self.entries@[i as int].is_open(),
                        forall|b: int|
                            i < b < j && #[trigger] self.entries@[b].task_id
                                == self.entries@[i as int].task_id ==> !self.entries@[b].is_open(),
                    decreases n - j,
                {
                    if self.entries[j].task_id == self.entries[i].task_id
                        && self.entries[j].end_time.is_none() {
                        return false;
                    }
                    j += 1;
                }
            }
            i += 1;
        }
        true
    }

    /// Decides whether the whole store invariant holds: the check a loader
    /// runs on rows read back from an untrusted copy of the tables.
    pub fn check_invariant(&self) -> (r: bool)
        ensures
            r == self.inv(),
    {
        self.projects_ok() && self.tasks_ok() && self.entries_ok() && self.single_open_ok()
    }

    /// Assembles a store from raw rows, accepting it exactly when the rows
    /// satisfy the store invariant; rows from a damaged or foreign copy of the
    /// tables are rejected as a store failure.
    pub fn from_rows(
        projects: Vec<ProjectRecord>,
        tasks: Vec<TaskRecord>,
        entries: Vec<TimeEntryRecord>,
        next_project_id: i64,
        next_task_id: i64,
        next_entry_id: i64,
    ) -> (r: Result<Store, EngineError>)
        ensures
            match r {
                Ok(s) => {
                    &&& s.inv()
                    &&& s.projects@ == projects@
                    &&& s.tasks@ == tasks@
                    &&& s.entries@ == entries@
                    &&& s.next_project_id == next_project_id
                    &&& s.next_task_id == next_task_id
                    &&& s.next_entry_id == next_entry_id
                },
                Err(e) => {
                    &&& e == EngineError::StoreFailure
                    &&& !{
                        &&& projects_table_wf(projects@, next_project_id)
                        &&& tasks_table_wf(projects@, tasks@, next_task_id)
                        &&& entries_table_wf(tasks@, entries@, next_entry_id)
                        &&& entries_single_open(entries@)
                    }
                },
            },
    {
        let s = Store { projects, tasks, entries, next_project_id, next_task_id, next_entry_id };
        if s.check_invariant() {
            Ok(s)
        } else {
            Err(EngineError::StoreFailure)
        }
    }

    /// How many tasks belong to the given project.
    fn count_tasks_for(&self, pid: i64) -> (c: usize)
        ensures
            c == count_tasks_of(self.tasks@, pid),
    {
        let n = self.tasks.len();
        let mut c: usize = 0;
        let mut k: usize = 0;
        while k < n
            invariant
                k <= n,
                n == self.tasks@.len(),
                c <= k,
                c == count_tasks_of(self.tasks@.take(k as int), pid),
            decreases n - k,
        {
            proof {
                let prefix = self.tasks@.take(k + 1);
                assert(prefix.drop_last() =~= self.tasks@.take(k as int));
                assert(prefix.last() == self.tasks@[k as int]);
            }
            if self.tasks[k].project_id == pid {
                c += 1;
            }
            k += 1;
        }
        proof {
            assert(self.tasks@.take(n as int) =~= self.tasks@);
        }
        c
    }

    /// How many time entries belong to the given task.
    fn count_entries_for(&self, tid: i64) -> (c: usize)
        ensures
            c == count_entries_of(self.entries@, tid),
    {
        let n = self.entries.len();
        let mut c: usize = 0;
        let mut k: usize = 0;
        while k < n
            invariant
                k <= n,
                n == self.entries@.len(),
                c <= k,
                c == count_entries_of(self.entries@.take(k as int), tid),
            decreases n - k,
        {
            proof {
                let prefix = self.entries@.take(k + 1);
                assert(prefix.drop_last() =~= self.entries@.take(k as int));
                assert(prefix.last() == self.entries@[k as int]);
            }
            if self.entries[k].task_id == tid {
                c += 1;
            }
            k += 1;
        }
        proof {
            assert(self.entries@.take(n as int) =~= self.entries@);
        }
        c
    }

    /// Lists every project in row order, each with its description shown as
    /// text and the number of tasks it owns.
    pub fn project_summaries(&self) -> (r: Vec<ProjectSummary>)
        ensures
            r@.len() == self.projects@.len(),
            forall|i: int|
                0 <= i < r@.len() ==> project_summary_matches(
                    #[trigger] r@[i],
                    self.projects@[i],
                    self.tasks@,
                ),
    {
        let n = self.projects.len();
        let mut rows: Vec<ProjectSummary> = Vec::new();
        let mut k: usize = 0;
        while k < n
            invariant
                k <= n,
                n == self.projects@.len(),
                rows@.len() == k,
                forall|i: int|
                    0 <= i < k ==> project_summary_matches(
                        #[trigger] rows@[i],
                        self.projects@[i],
                        self.tasks@,
                    ),
            decreases n - k,
        {
            let tasks = self.count_tasks_for(self.projects[k].id);
            rows.push(ProjectSummary {
                id: self.projects[k].id,
                name: self.projects[k].name.clone(),
                description: description_text(&self.projects[k].description),
                tasks,
            });
            k += 1;
        }
        rows
    }

    /// Lists the tasks of the project named `project_name`, in row order, each
    /// with its status and the number of time entries it owns. Fails with
    /// `NotFound` when the project is absent.
    pub fn task_summaries(&self, project_name: &str) -> (r: Result<
        Vec<TaskSummary>,
        EngineError,
    >)
        ensures
            match r {
                Ok(rows) => exists|pi: int|
                    {
                        &&& is_first_project_named(self.projects@, project_name@, pi)
                        &&& rows@.len() == self.tasks@.filter(
                            task_in_project(self.projects@[pi].id),
                        ).len()
                        &&& forall|i: int|
                            0 <= i < rows@.len() ==> task_summary_matches(
                                #[trigger] rows@[i],
                                self.tasks@.filter(task_in_project(self.projects@[pi].id))[i],
                                self.entries@,
                            )
                    },
                Err(e) => {
                    &&& e == EngineError::NotFound
                    &&& !has_project_named(self.projects@, project_name@)
                },
            },
    {
        let pi = match self.find_project(project_name) {
            None => {
                return Err(EngineError::NotFound);
            },
            Some(i) => i,
        };
        let pid = self.projects[pi].id;
        let ghost pred = task_in_project(pid);
        let n = self.tasks.len();
        let mut rows: Vec<TaskSummary> = Vec::new();
        let mut k: usize = 0;
        while k < n
            invariant
                k <= n,
                n == self.tasks@.len(),
                pred == task_in_project(pid),
                pi < self.projects@.len(),
                pid == self.projects@[pi as int].id,
                is_first_project_named(self.projects@, project_name@, pi as int),
                rows@.len() == self.tasks@.take(k as int).filter(pred).len(),
                forall|i: int|
                    0 <= i < rows@.len() ==> task_summary_matches(
                        #[trigger] rows@[i],
                        self.tasks@.take(k as int).filter(pred)[i],
                        self.entries@,
                    ),
            decreases n - k,
        {
            proof {
                reveal(Seq::filter);
                let prefix = self.tasks@.take(k + 1);
                assert(prefix.drop_last() =~= self.tasks@.take(k as int));
                assert(prefix.last() == self.tasks@[k as int]);
                if pred(self.tasks@[k as int]) {
                    assert(prefix.filter(pred) == prefix.drop_last().filter(pred).push(
                        prefix.last(),
                    ));
                } else {
                    assert(prefix.filter(pred) == prefix.drop_last().filter(pred));
                }
            }
            if self.tasks[k].project_id == pid {
                let time_entries = self.count_entries_for(self.tasks[k].id);
                rows.push(TaskSummary {
                    id: self.tasks[k].id,
                    name: self.tasks[k].name.clone(),
                    description: description_text(&self.tasks[k].description),
                    status: self.tasks[k].status,
                    time_entries,
                });
            }
            k += 1;
        }
        proof {
            assert(self.tasks@.take(n as int) =~= self.tasks@);
        }
        Ok(rows)
    }

    /// The task with the given id belongs to the given project.
    pub(crate) fn task_id_under_project(&self, task_id: i64, pid: i64) -> (r: bool)
        ensures
            r == task_of_project(self.tasks@, task_id, pid),
    {
        let mut i: usize = 0;
        while i < self.tasks.len()
            invariant
                i <= self.tasks@.len(),
                forall|k: int|
                    0 <= k < i ==> !(#[trigger] self.tasks@[k].id == task_id
                        && self.tasks@[k].project_id == pid),
            decreases self.tasks@.len() - i,
        {
            if self.tasks[i].id == task_id && self.tasks[i].project_id == pid {
                return true;
            }
            i += 1;
        }
        false
    }

    /// Removes the project named `name` (the earliest row under that name),
    /// and with it, cascading, every task of the project and every time entry
    /// under those tasks. Fails with `NotFound` when the project is absent.
    pub fn remove_project(&mut self, name: &str) -> (r: Result<ProjectRecord, EngineError>)
        requires
            old(self).inv(),
        ensures
            final(self).inv(),
            match r {
                Ok(p) => {
                    &&& exists|pi: int|
                        {
                            &&& is_first_project_named(old(self).projects@, name@, pi)
                            &&& p == old(self).projects@[pi]
                            &&& final(self).projects@ == old(self).projects@.remove(pi)
                        }
                    &&& final(self).tasks@ == old(self).tasks@.filter(task_not_of_project(p.id))
                    &&& final(self).entries@ == old(self).entries@.filter(
                        entry_not_under_project(old(self).tasks@, p.id),
                    )
                    &&& forall|i: int|
                        0 <= i < final(self).tasks@.len()
                            ==> (#[trigger] final(self).tasks@[i]).project_id != p.id
                    &&& forall|i: int|
                        0 <= i < final(self).entries@.len() ==> !task_of_project(
                            old(self).tasks@,
                            (#[trigger] final(self).entries@[i]).task_id,
                            p.id,
                        )
                    &&& final(self).next_project_id == old(self).next_project_id
                    &&& final(self).next_task_id == old(self).next_task_id
                    &&& final(self).next_entry_id == old(self).next_entry_id
                },
                Err(e) => {
                    &&& e == EngineError::NotFound
                    &&& !has_project_named(old(self).projects@, name@)
                    &&& *final(self) == *old(self)
                },
            },
    {
        let pi = match self.find_project(name) {
            None => {
                return Err(EngineError::NotFound);
            },
            Some(i) => i,
        };
        let p = self.projects.remove(pi);
        let pid = p.id;
        // Cascade over the entries first, while the task table still holds
        // every task of the removed project.
        let ghost epred = entry_not_under_project(old(self).tasks@, pid);
        let mut ekept: Vec<TimeEntryRecord> = Vec::new();
        let n = self.entries.len();
        let mut k: usize = 0;
        while k < n
            invariant
                old(self).inv(),
                k <= n,
                n == old(self).entries@.len(),
                self.entries@ == old(self).entries@,
                self.tasks@ == old(self).tasks@,
                epred == entry_not_under_project(old(self).tasks@, pid),
                ekept@ == old(self).entries@.take(k as int).filter(epred),
                forall|idx: int|
                    #![trigger ekept@[idx]]
                    0 <= idx < ekept@.len() ==> exists|m: int|
                        0 <= m < k && ekept@[idx] == old(self).entries@[m],
            decreases n - k,
        {
            proof {
                reveal(Seq::filter);
                let prefix = old(self).entries@.take(k + 1);
                assert(prefix.drop_last() =~= old(self).entries@.take(k as int));
                assert(prefix.last() == old(self).entries@[k as int]);
                if epred(old(self).entries@[k as int]) {
                    assert(prefix.filter(epred) == prefix.drop_last().filter(epred).push(
                        prefix.last(),
                    ));
                } else {
                    assert(prefix.filter(epred) == prefix.drop_last().filter(epred));
                }
            }
            let under = self.task_id_under_project(self.entries[k].task_id, pid);
            if !under {
                ekept.push(self.entries[k]);
                proof {
                    let m = k as int;
                    assert(ekept@[ekept@.len() - 1] == old(self).entries@[m]);
                }
            }
            k += 1;
        }
        let ghost ekept_view = ekept@;
        self.entries = ekept;
        // Cascade over the tasks.
        let ghost tpred = task_not_of_project(pid);
        let mut tkept: Vec<TaskRecord> = Vec::new();
        let tn = self.tasks.len();
        let mut j: usize = 0;
        while j < tn
            invariant
                old(self).inv(),
                j <= tn,
                tn == old(self).tasks@.len(),
                self.tasks@ == old(self).tasks@,
                tpred == task_not_of_project(pid),
                tkept@ == old(self).tasks@.take(j as int).filter(tpred),
                forall|idx: int|
                    #![trigger tkept@[idx]]
                    0 <= idx < tkept@.len() ==> exists|m: int|
                        0 <= m < j && tkept@[idx] == old(self).tasks@[m],
            decreases tn - j,
        {
            proof {
                reveal(Seq::filter);
                let prefix = old(self).tasks@.take(j + 1);
                assert(prefix.drop_last() =~= old(self).tasks@.take(j as int));
                assert(prefix.last() == old(self).tasks@[j as int]);
                if tpred(old(self).tasks@[j as int]) {
                    assert(prefix.filter(tpred) == prefix.drop_last().filter(tpred).push(
                        prefix.last(),
                    ));
                } else {
                    assert(prefix.filter(tpred) == prefix.drop_last().filter(tpred));
                }
            }
            if self.tasks[j].project_id != pid {
                let kept_task = self.tasks[j].clone();
                tkept.push(kept_task);
                proof {
                    let m = j as int;
                    assert(tkept@[tkept@.len() - 1] == old(self).tasks@[m]);
                }
            }
            j += 1;
        }
        let ghost tkept_view = tkept@;
        self.tasks = tkept;
        proof {
            let pre = *old(self);
            let post = *self;
            assert(pre.entries@.take(n as int) =~= pre.entries@);
            assert(pre.tasks@.take(tn as int) =~= pre.tasks@);
            assert(post.entries@ == pre.entries@.filter(epred));
            assert(post.tasks@ == pre.tasks@.filter(tpred));
            assert forall|a: int, b: int| 0 <= a < b < pre.entries@.len() implies pre.entries@[a]
                != pre.entries@[b] by {
                assert(pre.entries@[a].id != pre.entries@[b].id);
            }
            assert forall|a: int, b: int| 0 <= a < b < pre.tasks@.len() implies pre.tasks@[a]
                != pre.tasks@[b] by {
                assert(pre.tasks@[a].id != pre.tasks@[b].id);
            }
            // Provenance of the kept rows.
            assert forall|i: int| 0 <= i < post.entries@.len() implies exists|m: int|
                0 <= m < pre.entries@.len() && #[trigger] post.entries@[i]
                    == pre.entries@[m] by {
                assert(post.entries@[i] == ekept_view[i]);
            }
            assert forall|i: int| 0 <= i < post.tasks@.len() implies exists|m: int|
                0 <= m < pre.tasks@.len() && #[trigger] post.tasks@[i] == pre.tasks@[m] by {
                assert(post.tasks@[i] == tkept_view[i]);
            }
            // Pairwise-distinct ids survive the filters.
            assert forall|a: int, b: int|
                0 <= a < b < post.entries@.len() implies post.entries@[a].id
                    != post.entries@[b].id by {
                let ma = choose|m: int|
                    0 <= m < pre.entries@.len() && post.entries@[a] == pre.entries@[m];
                let mb = choose|m: int|
                    0 <= m < pre.entries@.len() && post.entries@[b] == pre.entries@[m];
                if ma == mb {
                    lemma_filter_distinct(pre.entries@, epred, a, b);
                } else {
                    assert(pre.entries@[ma].id != pre.entries@[mb].id);
                }
            }
            assert forall|a: int, b: int|
                0 <= a < b < post.tasks@.len() implies post.tasks@[a].id != post.tasks@[b].id by {
                let ma = choose|m: int|
                    0 <= m < pre.tasks@.len() && post.tasks@[a] == pre.tasks@[m];
                let mb = choose|m: int|
                    0 <= m < pre.tasks@.len() && post.tasks@[b] == pre.tasks@[m];
                if ma == mb {
                    lemma_filter_distinct(pre.tasks@, tpred, a, b);
                } else {
                    assert(pre.tasks@[ma].id != pre.tasks@[mb].id);
                }
            }
            // Each kept task still points at an existing project.
            assert forall|i: int| 0 <= i < post.tasks@.len() implies has_project_id(
                post.projects@,
                #[trigger] post.tasks@[i].project_id,
            ) by {
                let m = choose|m: int|
                    0 <= m < pre.tasks@.len() && post.tasks@[i] == pre.tasks@[m];
                pre.tasks@.lemma_filter_pred(tpred, i);
                assert(post.tasks@[i].project_id != pid);
                let w = choose|w: int|
                    0 <= w < pre.projects@.len() && pre.projects@[w].id
                        == pre.tasks@[m].project_id;
                assert(pre.projects@[w].id != pid);
                assert(w != pi);
                if w < pi {
                    assert(post.projects@[w].id == post.tasks@[i].project_id);
                } else {
                    assert(post.projects@[w - 1].id == post.tasks@[i].project_id);
                }
            }
            // Each kept entry still points at an existing task: its task is
            // not under the removed project, so the task filter keeps it.
            assert forall|i: int| 0 <= i < post.entries@.len() implies has_task_id(
                post.tasks@,
                (#[trigger] post.entries@[i]).task_id,
            ) by {
                let m = choose|m: int|
                    0 <= m < pre.entries@.len() && post.entries@[i] == pre.entries@[m];
                pre.entries@.lemma_filter_pred(epred, i);
                assert(!task_of_project(pre.tasks@, post.entries@[i].task_id, pid));
                let w = choose|w: int|
                    0 <= w < pre.tasks@.len() && pre.tasks@[w].id == pre.entries@[m].task_id;
                assert(pre.tasks@[w].project_id != pid);
                assert(tpred(pre.tasks@[w]));
                pre.tasks@.lemma_filter_contains(tpred, w);
                assert(post.tasks@.contains(pre.tasks@[w]));
                let idx = choose|idx: int|
                    0 <= idx < post.tasks@.len() && post.tasks@[idx] == pre.tasks@[w];
                assert(post.tasks@[idx].id == post.entries@[i].task_id);
            }
            // The remaining well-formedness facts of the kept entries.
            assert forall|i: int| 0 <= i < post.entries@.len() implies {
                &&& 1 <= (#[trigger] post.entries@[i]).id < post.next_entry_id
                &&& valid_ts(post.entries@[i].start_time)
                &&& valid_offset(post.entries@[i].offset_seconds)
                &&& match post.entries@[i].end_time {
                    Some(end) => valid_ts(end) && post.entries@[i].duration == end
                        - post.entries@[i].start_time,
                    None => post.entries@[i].duration == 0,
                }
            } by {
                let m = choose|m: int|
                    0 <= m < pre.entries@.len() && post.entries@[i] == pre.entries@[m];
            }
            assert forall|i: int| 0 <= i < post.tasks@.len() implies 1 <= (
            #[trigger] post.tasks@[i]).id < post.next_task_id by {
                let m = choose|m: int|
                    0 <= m < pre.tasks@.len() && post.tasks@[i] == pre.tasks@[m];
            }
            // At most one open entry per task, inherited through provenance.
            assert forall|a: int, b: int|
                0 <= a < b < post.entries@.len() && #[trigger] post.entries@[a].task_id
                    == #[trigger] post.entries@[b].task_id implies !(post.entries@[a].is_open()
                && post.entries@[b].is_open()) by {
                let ma = choose|m: int|
                    0 <= m < pre.entries@.len() && post.entries@[a] == pre.entries@[m];
                let mb = choose|m: int|
                    0 <= m < pre.entries@.len() && post.entries@[b] == pre.entries@[m];
                if ma == mb {
                    lemma_filter_distinct(pre.entries@, epred, a, b);
                } else if ma < mb {
                    assert(!(pre.entries@[ma].is_open() && pre.entries@[mb].is_open()));
                } else {
                    assert(!(pre.entries@[mb].is_open() && pre.entries@[ma].is_open()));
                }
            }
            // The stated cascade consequences.
            assert forall|i: int| 0 <= i < post.tasks@.len() implies (#[trigger] post.tasks@[i]).project_id
                != pid by {
                pre.tasks@.lemma_filter_pred(tpred, i);
            }
            assert forall|i: int| 0 <= i < post.entries@.len() implies !task_of_project(
                pre.tasks@,
                (#[trigger] post.entries@[i]).task_id,
                pid,
            ) by {
                pre.entries@.lemma_filter_pred(epred, i);
            }
        }
        Ok(p)
    }
}

/// In a sequence of pairwise-distinct values, a filtered view keeps distinct
/// values at distinct positions.
proof fn lemma_filter_distinct<A>(s: Seq<A>, pred: spec_fn(A) -> bool, i: int, j: int)
    requires
        forall|a: int, b: int| 0 <= a < b < s.len() ==> s[a] != s[b],
        0 <= i < j < s.filter(pred).len(),
    ensures
        s.filter(pred)[i] != s.filter(pred)[j],
    decreases s.len(),
{
    reveal(Seq::filter);
    if s.len() == 0 {
    } else {
        let sub = s.drop_last();
        if pred(s.last()) {
            if j < s.filter(pred).len() - 1 {
                lemma_filter_distinct(sub, pred, i, j);
            } else {
                // `j` points at the source's last element; `i` points into the
                // filtered prefix, whose elements all come from the prefix and
                // so differ from the last.
                lemma_filter_provenance(sub, pred, i);
                let m = choose|m: int| 0 <= m < sub.len() && sub.filter(pred)[i] == sub[m];
                assert(s[m] != s[s.len() - 1]);
            }
        } else {
            lemma_filter_distinct(sub, pred, i, j);
        }
    }
}

/// Every element of a filtered sequence occurs in the source.
proof fn lemma_filter_provenance<A>(s: Seq<A>, pred: spec_fn(A) -> bool, i: int)
    requires
        0 <= i < s.filter(pred).len(),
    ensures
        exists|m: int| 0 <= m < s.len() && s.filter(pred)[i] == s[m],
    decreases s.len(),
{
    reveal(Seq::filter);
    if s.len() == 0 {
    } else {
        let sub = s.drop_last();
        if pred(s.last()) && i == s.filter(pred).len() - 1 {
            assert(s.filter(pred)[i] == s[s.len() - 1]);
        } else {
            lemma_filter_provenance(sub, pred, i);
            let m = choose|m: int| 0 <= m < sub.len() && sub.filter(pred)[i] == sub[m];
            assert(s.filter(pred)[i] == s[m]);
        }
    }
}

} // verus!

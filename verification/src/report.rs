//! Read-only reporting: per-project and per-task totals over time entries,
//! optionally restricted to one calendar day. Reports never mutate the store.

use vstd::prelude::*;

use crate::date::Date;
use crate::date::day_start_seconds;
use crate::date::next_day;
use crate::date::spec_epoch_day;
use crate::error::EngineError;
use crate::records::ProjectRecord;
use crate::records::TaskRecord;
use crate::records::TimeEntryRecord;
use crate::records::description_text;
use crate::records::valid_ts;
use crate::records::display_description;
use crate::render::format_hours;
use crate::render::format_minutes;
use crate::render::spec_hours_display;
use crate::render::spec_minutes_display;
use crate::store::Store;
use crate::store::has_project_named;
use crate::store::is_first_project_named;
use crate::store::task_of_project;

verus! {

/// Which time entries a report covers, judged by their start time.
#[derive(Clone, Copy, Debug, PartialEq, Eq, Structural)]
pub enum ReportFilter {
    /// No restriction.
    All,
    /// Start time within the half-open window `[start, end)` of UTC seconds.
    Within { start: i64, end: i64 },
}

/// The filter covers the entry: always under `All`, and within the half-open
/// window otherwise.
pub open spec fn entry_matches(e: TimeEntryRecord, f: ReportFilter) -> bool {
    match f {
        ReportFilter::All => true,
        ReportFilter::Within { start, end } => start <= e.start_time < end,
    }
}

/// Decides whether the filter covers the entry.
pub fn entry_in_filter(e: &TimeEntryRecord, f: ReportFilter) -> (r: bool)
    ensures
        r == entry_matches(*e, f),
{
    match f {
        ReportFilter::All => true,
        ReportFilter::Within { start, end } => start <= e.start_time && e.start_time < end,
    }
}

/// The report window of one calendar day: from the day's first second to the
/// next day's first second. Fails with `InternalError` when adding one day
/// overflows the representable calendar (only at its very end).
pub fn filter_for_date(d: Date) -> (r: Result<ReportFilter, EngineError>)
    requires
        d.is_valid(),
    ensures
        match r {
            Ok(f) => {
                &&& !(d.year == 9999 && d.month == 12 && d.day == 31)
                &&& f == (ReportFilter::Within {
                    start: (spec_epoch_day(d) * 86400) as i64,
                    end: (spec_epoch_day(d) * 86400 + 86400) as i64,
                })
            },
            Err(e) => {
                &&& e == EngineError::InternalError
                &&& d.year == 9999 && d.month == 12 && d.day == 31
            },
        },
{
    match next_day(d) {
        None => Err(EngineError::InternalError),
        Some(_) => {
            let start = day_start_seconds(d);
            Ok(ReportFilter::Within { start, end: start + 86400 })
        },
    }
}

/// The report window of the day that holds the given moment (UTC). The moment
/// must not precede the epoch, as a clock reading never does.
pub fn filter_for_today(now: i64) -> (r: ReportFilter)
    requires
        0 <= now <= crate::records::TS_MAX,
    ensures
        r == (ReportFilter::Within {
            start: ((now / 86400) * 86400) as i64,
            end: ((now / 86400) * 86400 + 86400) as i64,
        }),
        r matches ReportFilter::Within { start, end } && start <= now < end && start % 86400 == 0,
{
    let day = now / 86400;
    let start = day * 86400;
    proof {
        vstd::arithmetic::div_mod::lemma_fundamental_div_mod(now as int, 86400);
        vstd::arithmetic::div_mod::lemma_div_pos_is_pos(now as int, 86400);
        vstd::arithmetic::div_mod::lemma_div_is_ordered(now as int, i64::MAX as int, 86400);
        assert((now as int / 86400) * 86400 % 86400 == 0) by {
            vstd::arithmetic::div_mod::lemma_mod_multiples_basic(now as int / 86400, 86400);
        }
    }
    ReportFilter::Within { start, end: start + 86400 }
}

/// How many entries of the given task the filter covers.
pub open spec fn count_matched(entries: Seq<TimeEntryRecord>, tid: i64, f: ReportFilter) -> int
    decreases entries.len(),
{
    if entries.len() == 0 {
        0
    } else {
        count_matched(entries.drop_last(), tid, f) + if entries.last().task_id == tid
            && entry_matches(entries.last(), f) {
            1int
        } else {
            0int
        }
    }
}

/// The sum of the stored durations of the task's covered entries. An entry
/// still open contributes nothing, as its duration is not finalized.
pub open spec fn sum_matched_duration(
    entries: Seq<TimeEntryRecord>,
    tid: i64,
    f: ReportFilter,
) -> int
    decreases entries.len(),
{
    if entries.len() == 0 {
        0
    } else {
        sum_matched_duration(entries.drop_last(), tid, f) + if entries.last().task_id == tid
            && entry_matches(entries.last(), f) {
            entries.last().duration as int
        } else {
            0int
        }
    }
}

/// Some covered entry of the task is still open.
pub open spec fn any_matched_open(entries: Seq<TimeEntryRecord>, tid: i64, f: ReportFilter) -> bool {
    exists|i: int|
        0 <= i < entries.len() && entries[i].task_id == tid && entry_matches(entries[i], f)
            && entries[i].is_open()
}

/// The filter covers at least one entry of the task.
pub open spec fn task_has_match(entries: Seq<TimeEntryRecord>, tid: i64, f: ReportFilter) -> bool {
    exists|i: int| 0 <= i < entries.len() && entries[i].task_id == tid && entry_matches(entries[i], f)
}

/// How many entries under the whole project the filter covers.
pub open spec fn project_matched_entries(
    tasks: Seq<TaskRecord>,
    entries: Seq<TimeEntryRecord>,
    pid: i64,
    f: ReportFilter,
) -> int
    decreases entries.len(),
{
    if entries.len() == 0 {
        0
    } else {
        project_matched_entries(tasks, entries.drop_last(), pid, f) + if task_of_project(
            tasks,
            entries.last().task_id,
            pid,
        ) && entry_matches(entries.last(), f) {
            1int
        } else {
            0int
        }
    }
}

/// The sum of the stored durations of the project's covered entries.
pub open spec fn project_duration(
    tasks: Seq<TaskRecord>,
    entries: Seq<TimeEntryRecord>,
    pid: i64,
    f: ReportFilter,
) -> int
    decreases entries.len(),
{
    if entries.len() == 0 {
        0
    } else {
        project_duration(tasks, entries.drop_last(), pid, f) + if task_of_project(
            tasks,
            entries.last().task_id,
            pid,
        ) && entry_matches(entries.last(), f) {
            entries.last().duration as int
        } else {
            0int
        }
    }
}

/// Some covered entry under the project is still open.
pub open spec fn project_any_open(
    tasks: Seq<TaskRecord>,
    entries: Seq<TimeEntryRecord>,
    pid: i64,
    f: ReportFilter,
) -> bool {
    exists|i: int|
        0 <= i < entries.len() && task_of_project(tasks, entries[i].task_id, pid) && entry_matches(
            entries[i],
            f,
        ) && entries[i].is_open()
}

/// How many of the project's tasks the report shows: under `All` every task
/// of the project, under a day window only tasks with at least one covered
/// entry (a task with none contributes nothing to the count).
pub open spec fn project_matched_tasks(
    tasks: Seq<TaskRecord>,
    entries: Seq<TimeEntryRecord>,
    pid: i64,
    f: ReportFilter,
) -> int
    decreases tasks.len(),
{
    if tasks.len() == 0 {
        0
    } else {
        project_matched_tasks(tasks.drop_last(), entries, pid, f) + if tasks.last().project_id
            == pid && (f is All || task_has_match(entries, tasks.last().id, f)) {
            1int
        } else {
            0int
        }
    }
}

/// A report row for one project.
#[derive(Debug)]
pub struct ProjectReportRow {
    pub id: i64,
    pub name: String,
    pub description: String,
    pub time_spent_min: String,
    pub time_spent_hours: String,
    pub tasks: usize,
    pub time_entries: usize,
    pub open_time_entries: bool,
}

/// A report row for one task.
#[derive(Debug)]
pub struct TaskReportRow {
    pub id: i64,
    pub name: String,
    pub description: String,
    pub time_spent_min: String,
    pub time_spent_hours: String,
    pub time_entries: usize,
    pub open_time_entries: bool,
}

/// The row a project produces under a filter.
pub open spec fn project_report_row_matches(
    row: ProjectReportRow,
    p: ProjectRecord,
    tasks: Seq<TaskRecord>,
    entries: Seq<TimeEntryRecord>,
    f: ReportFilter,
) -> bool {
    &&& row.id == p.id
    &&& row.name@ == p.name@
    &&& row.description@ == display_description(p.description)
    &&& row.tasks == project_matched_tasks(tasks, entries, p.id, f)
    &&& row.time_entries == project_matched_entries(tasks, entries, p.id, f)
    &&& row.open_time_entries == project_any_open(tasks, entries, p.id, f)
    &&& row.time_spent_min@ == spec_minutes_display(project_duration(tasks, entries, p.id, f))
    &&& row.time_spent_hours@ == spec_hours_display(project_duration(tasks, entries, p.id, f))
}

/// The row a task produces under a filter.
pub open spec fn task_report_row_matches(
    row: TaskReportRow,
    t: TaskRecord,
    entries: Seq<TimeEntryRecord>,
    f: ReportFilter,
) -> bool {
    &&& row.id == t.id
    &&& row.name@ == t.name@
    &&& row.description@ == display_description(t.description)
    &&& row.time_entries == count_matched(entries, t.id, f)
    &&& row.open_time_entries == any_matched_open(entries, t.id, f)
    &&& row.time_spent_min@ == spec_minutes_display(sum_matched_duration(entries, t.id, f))
    &&& row.time_spent_hours@ == spec_hours_display(sum_matched_duration(entries, t.id, f))
}

/// Which tasks a task report lists: the project's tasks, and under a day
/// window only those with at least one covered entry.
pub open spec fn task_in_report(
    entries: Seq<TimeEntryRecord>,
    pid: i64,
    f: ReportFilter,
) -> spec_fn(TaskRecord) -> bool {
    |t: TaskRecord| t.project_id == pid && (f is All || task_has_match(entries, t.id, f))
}

/// A value representable in a signed 64-bit total.
pub open spec fn fits_i64(x: int) -> bool {
    i64::MIN <= x <= i64::MAX
}

impl Store {
    /// Covered-entry statistics of one task: how many entries the filter
    /// covers, whether one of them is open, and the sum of their durations.
    fn task_filter_stats(&self, tid: i64, f: ReportFilter) -> (r: (usize, bool, i128))
        requires
            self.inv(),
        ensures
            r.0 == count_matched(self.entries@, tid, f),
            r.1 == any_matched_open(self.entries@, tid, f),
            r.2 == sum_matched_duration(self.entries@, tid, f),
    {
        let n = self.entries.len();
        let mut count: usize = 0;
        let mut open = false;
        let mut sum: i128 = 0;
        let mut k: usize = 0;
        while k < n
            invariant
                self.inv(),
                k <= n,
                n == self.entries@.len(),
                count <= k,
                count == count_matched(self.entries@.take(k as int), tid, f),
                open == any_matched_open(self.entries@.take(k as int), tid, f),
                sum == sum_matched_duration(self.entries@.take(k as int), tid, f),
                -(k as int) * 315569520000 <= sum <= (k as int) * 315569520000,
            decreases n - k,
        {
            proof {
                let prefix = self.entries@.take(k + 1);
                assert(prefix.drop_last() =~= self.entries@.take(k as int));
                assert(prefix.last() == self.entries@[k as int]);
                let le = self.entries@[k as int];
                assert(valid_ts(le.start_time));
                assert(match le.end_time {
                    Some(end) => valid_ts(end) && le.duration == end - le.start_time,
                    None => le.duration == 0,
                });
                assert(-315569520000 <= le.duration <= 315569520000);
            }
            let e = self.entries[k];
            let matched = e.task_id == tid && entry_in_filter(&e, f);
            if matched {
                count += 1;
                if e.end_time.is_none() {
                    open = true;
                }
                sum = sum + (e.duration as i128);
            }
            proof {
                let prefix = self.entries@.take(k + 1);
                assert forall|i: int|
                    0 <= i < prefix.len() && prefix[i].task_id == tid && entry_matches(
                        prefix[i],
                        f,
                    ) && prefix[i].is_open() implies open by {
                    if i < k as int {
                        assert(self.entries@.take(k as int)[i] == prefix[i]);
                        assert(any_matched_open(self.entries@.take(k as int), tid, f));
                    }
                }
                if open {
                    if any_matched_open(self.entries@.take(k as int), tid, f) {
                        let w = choose|i: int|
                            0 <= i < k && self.entries@.take(k as int)[i].task_id == tid
                                && entry_matches(self.entries@.take(k as int)[i], f)
                                && self.entries@.take(k as int)[i].is_open();
                        assert(prefix[w].task_id == tid && entry_matches(prefix[w], f)
                            && prefix[w].is_open());
                    } else {
                        assert(prefix[k as int].task_id == tid && entry_matches(prefix[k as int], f)
                            && prefix[k as int].is_open());
                    }
                }
            }
            k += 1;
        }
        proof {
            assert(self.entries@.take(n as int) =~= self.entries@);
        }
        (count, open, sum)
    }

    /// Covered-entry statistics of a whole project: how many entries under
    /// its tasks the filter covers, whether one of them is open, and the sum
    /// of their durations.
    fn project_entry_stats(&self, pid: i64, f: ReportFilter) -> (r: (usize, bool, i128))
        requires
            self.inv(),
        ensures
            r.0 == project_matched_entries(self.tasks@, self.entries@, pid, f),
            r.1 == project_any_open(self.tasks@, self.entries@, pid, f),
            r.2 == project_duration(self.tasks@, self.entries@, pid, f),
    {
        let n = self.entries.len();
        let mut count: usize = 0;
        let mut open = false;
        let mut sum: i128 = 0;
        let mut k: usize = 0;
        while k < n
            invariant
                self.inv(),
                k <= n,
                n == self.entries@.len(),
                count <= k,
                count == project_matched_entries(self.tasks@, self.entries@.take(k as int), pid, f),
                open == project_any_open(self.tasks@, self.entries@.take(k as int), pid, f),
                sum == project_duration(self.tasks@, self.entries@.take(k as int), pid, f),
                -(k as int) * 315569520000 <= sum <= (k as int) * 315569520000,
            decreases n - k,
        {
            proof {
                let prefix = self.entries@.take(k + 1);
                assert(prefix.drop_last() =~= self.entries@.take(k as int));
                assert(prefix.last() == self.entries@[k as int]);
                let le = self.entries@[k as int];
                assert(valid_ts(le.start_time));
                assert(match le.end_time {
                    Some(end) => valid_ts(end) && le.duration == end - le.start_time,
                    None => le.duration == 0,
                });
                assert(-315569520000 <= le.duration <= 315569520000);
            }
            let e = self.entries[k];
            let matched = self.task_id_under_project(e.task_id, pid) && entry_in_filter(&e, f);
            if matched {
                count += 1;
                if e.end_time.is_none() {
                    open = true;
                }
                sum = sum + (e.duration as i128);
            }
            proof {
                let prefix = self.entries@.take(k + 1);
                assert forall|i: int|
                    0 <= i < prefix.len() && task_of_project(self.tasks@, prefix[i].task_id, pid)
                        && entry_matches(prefix[i], f) && prefix[i].is_open() implies open by {
                    if i < k as int {
                        assert(self.entries@.take(k as int)[i] == prefix[i]);
                        assert(project_any_open(self.tasks@, self.entries@.take(k as int), pid, f));
                    }
                }
                if open {
                    if project_any_open(self.tasks@, self.entries@.take(k as int), pid, f) {
                        let w = choose|i: int|
                            0 <= i < k && task_of_project(
                                self.tasks@,
                                self.entries@.take(k as int)[i].task_id,
                                pid,
                            ) && entry_matches(self.entries@.take(k as int)[i], f)
                                && self.entries@.take(k as int)[i].is_open();
                        assert(task_of_project(self.tasks@, prefix[w].task_id, pid)
                            && entry_matches(prefix[w], f) && prefix[w].is_open());
                    } else {
                        assert(task_of_project(self.tasks@, prefix[k as int].task_id, pid)
                            && entry_matches(prefix[k as int], f) && prefix[k as int].is_open());
                    }
                }
            }
            k += 1;
        }
        proof {
            assert(self.entries@.take(n as int) =~= self.entries@);
        }
        (count, open, sum)
    }

    /// The filter covers at least one entry of the given task.
    fn task_matches_filter(&self, tid: i64, f: ReportFilter) -> (r: bool)
        ensures
            r == task_has_match(self.entries@, tid, f),
    {
        let mut k: usize = 0;
        while k < self.entries.len()
            invariant
                k <= self.entries@.len(),
                forall|i: int|
                    0 <= i < k ==> !(#[trigger] self.entries@[i].task_id == tid && entry_matches(
                        self.entries@[i],
                        f,
                    )),
            decreases self.entries@.len() - k,
        {
            let e = self.entries[k];
            if e.task_id == tid && entry_in_filter(&e, f) {
                return true;
            }
            k += 1;
        }
        false
    }

    /// How many of the project's tasks the report shows under the filter.
    fn project_task_count(&self, pid: i64, f: ReportFilter) -> (c: usize)
        ensures
            c == project_matched_tasks(self.tasks@, self.entries@, pid, f),
    {
        let n = self.tasks.len();
        let mut c: usize = 0;
        let mut k: usize = 0;
        while k < n
            invariant
                k <= n,
                n == self.tasks@.len(),
                c <= k,
                c == project_matched_tasks(self.tasks@.take(k as int), self.entries@, pid, f),
            decreases n - k,
        {
            proof {
                let prefix = self.tasks@.take(k + 1);
                assert(prefix.drop_last() =~= self.tasks@.take(k as int));
                assert(prefix.last() == self.tasks@[k as int]);
            }
            if self.tasks[k].project_id == pid {
                let shown = match f {
                    ReportFilter::All => true,
                    _ => self.task_matches_filter(self.tasks[k].id, f),
                };
                if shown {
                    c += 1;
                }
            }
            k += 1;
        }
        proof {
            assert(self.tasks@.take(n as int) =~= self.tasks@);
        }
        c
    }

    /// The per-project report: one row per project, in row order, aggregating
    /// the covered time entries under each project. Fails with
    /// `InternalError` when some project's total duration overflows a 64-bit
    /// count of seconds.
    pub fn project_report(&self, f: ReportFilter) -> (r: Result<Vec<ProjectReportRow>, EngineError>)
        requires
            self.inv(),
        ensures
            match r {
                Ok(rows) => {
                    &&& rows@.len() == self.projects@.len()
                    &&& forall|i: int|
                        0 <= i < rows@.len() ==> project_report_row_matches(
                            #[trigger] rows@[i],
                            self.projects@[i],
                            self.tasks@,
                            self.entries@,
                            f,
                        )
                },
                Err(e) => {
                    &&& e == EngineError::InternalError
                    &&& exists|i: int|
                        0 <= i < self.projects@.len() && !fits_i64(
                            project_duration(
                                self.tasks@,
                                self.entries@,
                                (#[trigger] self.projects@[i]).id,
                                f,
                            ),
                        )
                },
            },
    {
        let n = self.projects.len();
        let mut rows: Vec<ProjectReportRow> = Vec::new();
        let mut k: usize = 0;
        while k < n
            invariant
                self.inv(),
                k <= n,
                n == self.projects@.len(),
                rows@.len() == k,
                forall|i: int|
                    0 <= i < k ==> project_report_row_matches(
                        #[trigger] rows@[i],
                        self.projects@[i],
                        self.tasks@,
                        self.entries@,
                        f,
                    ),
            decreases n - k,
        {
            let pid = self.projects[k].id;
            let (ecount, open, sum) = self.project_entry_stats(pid, f);
            if sum < i64::MIN as i128 || sum > i64::MAX as i128 {
                return Err(EngineError::InternalError);
            }
            let total = sum as i64;
            let tcount = self.project_task_count(pid, f);
            rows.push(ProjectReportRow {
                id: pid,
                name: self.projects[k].name.clone(),
                description: description_text(&self.projects[k].description),
                time_spent_min: format_minutes(total),
                time_spent_hours: format_hours(total),
                tasks: tcount,
                time_entries: ecount,
                open_time_entries: open,
            });
            k += 1;
        }
        Ok(rows)
    }

    /// The per-task report of one project: one row per shown task, in row
    /// order, aggregating that task's covered time entries. Fails with
    /// `NotFound` when the project is absent and with `InternalError` when a
    /// shown task's total duration overflows a 64-bit count of seconds.
    pub fn task_report(&self, project_name: &str, f: ReportFilter) -> (r: Result<
        Vec<TaskReportRow>,
        EngineError,
    >)
        requires
            self.inv(),
        ensures
            match r {
                Ok(rows) => exists|pi: int|
                    {
                        &&& is_first_project_named(self.projects@, project_name@, pi)
                        &&& rows@.len() == self.tasks@.filter(
                            task_in_report(self.entries@, self.projects@[pi].id, f),
                        ).len()
                        &&& forall|i: int|
                            0 <= i < rows@.len() ==> task_report_row_matches(
                                #[trigger] rows@[i],
                                self.tasks@.filter(
                                    task_in_report(self.entries@, self.projects@[pi].id, f),
                                )[i],
                                self.entries@,
                                f,
                            )
                    },
                Err(e) => {
                    if e == EngineError::NotFound {
                        !has_project_named(self.projects@, project_name@)
                    } else {
                        &&& e == EngineError::InternalError
                        &&& exists|pi: int|
                            {
                                &&& is_first_project_named(self.projects@, project_name@, pi)
                                &&& exists|j: int|
                                    0 <= j < self.tasks@.len() && task_in_report(
                                        self.entries@,
                                        self.projects@[pi].id,
                                        f,
                                    )(#[trigger] self.tasks@[j]) && !fits_i64(
                                        sum_matched_duration(self.entries@, self.tasks@[j].id, f),
                                    )
                            }
                    }
                },
            },
    {
        let pi = match self.find_project(project_name) {
            None => {
                return Err(EngineError::NotFound);
            },
            Some(i) => i,
        };
        let pid = self.projects[pi].id;
        let ghost pred = task_in_report(self.entries@, pid, f);
        let n = self.tasks.len();
        let mut rows: Vec<TaskReportRow> = Vec::new();
        let mut k: usize = 0;
        while k < n
            invariant
                self.inv(),
                k <= n,
                n == self.tasks@.len(),
                pred == task_in_report(self.entries@, pid, f),
                pi < self.projects@.len(),
                pid == self.projects@[pi as int].id,
                is_first_project_named(self.projects@, project_name@, pi as int),
                rows@.len() == self.tasks@.take(k as int).filter(pred).len(),
                forall|i: int|
                    0 <= i < rows@.len() ==> task_report_row_matches(
                        #[trigger] rows@[i],
                        self.tasks@.take(k as int).filter(pred)[i],
                        self.entries@,
                        f,
                    ),
            decreases n - k,
        {
            proof {
                reveal(Seq::filter);
                let prefix = self.tasks@.take(k + 1);
                assert(prefix.drop_last() =~= self.tasks@.take(k as int));
                assert(prefix.last() == self.tasks@[k as int]);
                if pred(self.tasks@[k as int]) {
                    assert(prefix.filter(pred) == prefix.drop_last().filter(pred).push(
                        prefix.last(),
                    ));
                } else {
                    assert(prefix.filter(pred) == prefix.drop_last().filter(pred));
                }
            }
            let shown = self.tasks[k].project_id == pid && (match f {
                ReportFilter::All => true,
                _ => self.task_matches_filter(self.tasks[k].id, f),
            });
            if shown {
                let tid = self.tasks[k].id;
                let (ecount, open, sum) = self.task_filter_stats(tid, f);
                if sum < i64::MIN as i128 || sum > i64::MAX as i128 {
                    return Err(EngineError::InternalError);
                }
                let total = sum as i64;
                rows.push(TaskReportRow {
                    id: tid,
                    name: self.tasks[k].name.clone(),
                    description: description_text(&self.tasks[k].description),
                    time_spent_min: format_minutes(total),
                    time_spent_hours: format_hours(total),
                    time_entries: ecount,
                    open_time_entries: open,
                });
            }
            k += 1;
        }
        proof {
            assert(self.tasks@.take(n as int) =~= self.tasks@);
        }
        Ok(rows)
    }
}

} // verus!

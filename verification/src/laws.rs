//! Engine-level laws, stated once over the store model and proved.

use vstd::prelude::*;

use crate::records::TaskRecord;
use crate::records::TimeEntryRecord;
use crate::store::Store;
use crate::store::count_tasks_of;
use crate::store::entries_single_open;
use crate::store::has_project_id;

verus! {

/// How many open time entries the given task has.
pub open spec fn count_open_for(entries: Seq<TimeEntryRecord>, tid: i64) -> int
    decreases entries.len(),
{
    if entries.len() == 0 {
        0
    } else {
        count_open_for(entries.drop_last(), tid) + if entries.last().task_id == tid
            && entries.last().is_open() {
            1int
        } else {
            0int
        }
    }
}

/// A positive open count is witnessed by some row.
proof fn lemma_count_open_witness(entries: Seq<TimeEntryRecord>, tid: i64)
    requires
        count_open_for(entries, tid) > 0,
    ensures
        exists|i: int|
            0 <= i < entries.len() && (#[trigger] entries[i]).task_id == tid
                && entries[i].is_open(),
    decreases entries.len(),
{
    if entries.len() == 0 {
    } else {
        let sub = entries.drop_last();
        if entries.last().task_id == tid && entries.last().is_open() {
            assert(entries[entries.len() - 1].task_id == tid && entries[entries.len()
                - 1].is_open());
        } else {
            lemma_count_open_witness(sub, tid);
            let i = choose|i: int|
                0 <= i < sub.len() && (#[trigger] sub[i]).task_id == tid && sub[i].is_open();
            assert(entries[i].task_id == tid && entries[i].is_open());
        }
    }
}

/// In an entry table where no two rows of one task are both open, the open
/// count of every task is at most one.
pub proof fn lemma_single_open_count(entries: Seq<TimeEntryRecord>, tid: i64)
    requires
        entries_single_open(entries),
    ensures
        count_open_for(entries, tid) <= 1,
    decreases entries.len(),
{
    if entries.len() == 0 {
    } else {
        let sub = entries.drop_last();
        assert forall|i: int, j: int|
            0 <= i < j < sub.len() && #[trigger] sub[i].task_id == #[trigger] sub[j].task_id
                implies !(sub[i].is_open() && sub[j].is_open()) by {
            assert(sub[i] == entries[i]);
            assert(sub[j] == entries[j]);
        }
        lemma_single_open_count(sub, tid);
        if entries.last().task_id == tid && entries.last().is_open() {
            if count_open_for(sub, tid) > 0 {
                lemma_count_open_witness(sub, tid);
                let i = choose|i: int|
                    0 <= i < sub.len() && (#[trigger] sub[i]).task_id == tid && sub[i].is_open();
                assert(entries[i].task_id == entries[entries.len() - 1].task_id);
                assert(false);
            }
        }
    }
}

/// Law: under the store invariant, a task never has more than one open time
/// entry at any point — the central consistency guarantee the lifecycle
/// operations maintain.
pub proof fn lemma_at_most_one_open_entry(s: Store, tid: i64)
    requires
        s.inv(),
    ensures
        count_open_for(s.entries@, tid) <= 1,
{
    lemma_single_open_count(s.entries@, tid);
}

/// A task table that never names a project contributes no tasks to it.
pub proof fn lemma_count_tasks_zero(tasks: Seq<TaskRecord>, pid: i64)
    requires
        forall|i: int| 0 <= i < tasks.len() ==> (#[trigger] tasks[i]).project_id != pid,
    ensures
        count_tasks_of(tasks, pid) == 0,
    decreases tasks.len(),
{
    if tasks.len() == 0 {
    } else {
        let sub = tasks.drop_last();
        assert forall|i: int| 0 <= i < sub.len() implies (#[trigger] sub[i]).project_id != pid by {
            assert(sub[i] == tasks[i]);
        }
        lemma_count_tasks_zero(sub, pid);
    }
}

/// Law: the project id a creation will assign next owns no tasks yet, so a
/// freshly created project always lists with a task count of zero.
pub proof fn lemma_new_project_owns_no_tasks(s: Store)
    requires
        s.inv(),
    ensures
        count_tasks_of(s.tasks@, s.next_project_id) == 0,
{
    assert forall|i: int| 0 <= i < s.tasks@.len() implies (#[trigger] s.tasks@[i]).project_id
        != s.next_project_id by {
        assert(has_project_id(s.projects@, s.tasks@[i].project_id));
        let w = choose|w: int|
            0 <= w < s.projects@.len() && s.projects@[w].id == s.tasks@[i].project_id;
        assert(s.projects@[w].id < s.next_project_id);
    }
    lemma_count_tasks_zero(s.tasks@, s.next_project_id);
}

} // verus!

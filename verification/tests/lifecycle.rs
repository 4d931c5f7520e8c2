use clog::error::EngineError;
use clog::status::TaskStatus;
use clog::store::Store;

fn open_entry_count(s: &Store, tid: i64) -> usize {
    s.entries.iter().filter(|e| e.task_id == tid && e.end_time.is_none()).count()
}

#[test]
fn create_task_starts_pending() {
    let mut s = Store::new();
    s.create_project("p1", None, 10).unwrap();
    let t = s.create_task("t1", Some("work"), "p1", false, 20).unwrap();
    assert_eq!(t.status, TaskStatus::Pending);
    assert_eq!(t.id, 1);
    assert_eq!(t.project_id, 1);
    assert_eq!(s.entries.len(), 0);
}

#[test]
fn create_task_start_immediately_opens_one_entry() {
    let mut s = Store::new();
    s.create_project("p1", None, 10).unwrap();
    let t = s.create_task("t1", None, "p1", true, 20).unwrap();
    assert_eq!(t.status, TaskStatus::InProgress);
    assert_eq!(s.entries.len(), 1);
    assert_eq!(s.entries[0].task_id, t.id);
    assert!(s.entries[0].end_time.is_none());
    assert_eq!(s.entries[0].start_time, 20);
    assert_eq!(s.entries[0].duration, 0);
    assert_eq!(open_entry_count(&s, t.id), 1);
}

#[test]
fn create_task_missing_project_not_found() {
    let mut s = Store::new();
    assert_eq!(s.create_task("t1", None, "nope", false, 20), Err(EngineError::NotFound));
    assert_eq!(s.tasks.len(), 0);
}

#[test]
fn start_task_never_opens_second_entry() {
    let mut s = Store::new();
    s.create_project("p1", None, 10).unwrap();
    let t = s.create_task("t1", None, "p1", true, 20).unwrap();
    // The task is already in progress with an open entry: the guard trips and
    // nothing changes.
    assert_eq!(s.start_task("t1", 30), Err(EngineError::ConflictingOpenEntry));
    assert_eq!(open_entry_count(&s, t.id), 1);
    assert_eq!(s.entries.len(), 1);
}

#[test]
fn start_task_on_completed_fails_invalid_transition() {
    let mut s = Store::new();
    s.create_project("p1", None, 10).unwrap();
    s.create_task("t1", None, "p1", true, 20).unwrap();
    s.stop_task("t1", true, false, 30).unwrap();
    let before_tasks = s.tasks.clone();
    let before_entries = s.entries.clone();
    assert_eq!(s.start_task("t1", 40), Err(EngineError::InvalidTransition));
    assert_eq!(s.tasks.len(), before_tasks.len());
    assert_eq!(s.tasks[0].status, before_tasks[0].status);
    assert_eq!(s.entries, before_entries);
}

#[test]
fn start_task_on_cancelled_fails_invalid_transition() {
    let mut s = Store::new();
    s.create_project("p1", None, 10).unwrap();
    s.create_task("t1", None, "p1", true, 20).unwrap();
    s.stop_task("t1", false, true, 30).unwrap();
    assert_eq!(s.tasks[0].status, TaskStatus::Cancelled);
    assert_eq!(s.start_task("t1", 40), Err(EngineError::InvalidTransition));
}

#[test]
fn start_task_from_pending_opens_entry() {
    let mut s = Store::new();
    s.create_project("p1", None, 10).unwrap();
    s.create_task("t1", None, "p1", false, 20).unwrap();
    let t = s.start_task("t1", 25).unwrap();
    assert_eq!(t.status, TaskStatus::InProgress);
    assert_eq!(s.entries.len(), 1);
    assert_eq!(s.entries[0].start_time, 25);
    assert!(s.entries[0].end_time.is_none());
}

#[test]
fn stop_task_not_in_progress_fails_invalid_transition() {
    let mut s = Store::new();
    s.create_project("p1", None, 10).unwrap();
    s.create_task("t1", None, "p1", false, 20).unwrap();
    let before = s.tasks[0].status;
    assert_eq!(s.stop_task("t1", true, false, 30), Err(EngineError::InvalidTransition));
    assert_eq!(s.tasks[0].status, before);
    assert_eq!(s.entries.len(), 0);
}

#[test]
fn stop_task_finished_closes_entries_with_utc_duration() {
    let mut s = Store::new();
    s.create_project("p1", None, 10).unwrap();
    s.create_task("t1", None, "p1", true, 100).unwrap();
    let t = s.stop_task("t1", true, false, 250).unwrap();
    assert_eq!(t.status, TaskStatus::Completed);
    assert_eq!(s.tasks[0].status, TaskStatus::Completed);
    assert_eq!(s.entries[0].end_time, Some(250));
    assert_eq!(s.entries[0].duration, 150);
    assert_eq!(open_entry_count(&s, t.id), 0);
}

#[test]
fn stop_task_cancelled_sets_cancelled() {
    let mut s = Store::new();
    s.create_project("p1", None, 10).unwrap();
    s.create_task("t1", None, "p1", true, 100).unwrap();
    let t = s.stop_task("t1", false, true, 160).unwrap();
    assert_eq!(t.status, TaskStatus::Cancelled);
    assert_eq!(s.entries[0].duration, 60);
}

#[test]
fn stop_task_without_flags_keeps_status_but_closes_entry() {
    let mut s = Store::new();
    s.create_project("p1", None, 10).unwrap();
    s.create_task("t1", None, "p1", true, 100).unwrap();
    let t = s.stop_task("t1", false, false, 130).unwrap();
    assert_eq!(t.status, TaskStatus::InProgress);
    assert_eq!(s.entries[0].end_time, Some(130));
    assert_eq!(s.entries[0].duration, 30);
}

#[test]
fn edit_task_partial_update() {
    let mut s = Store::new();
    s.create_project("p1", None, 10).unwrap();
    s.create_task("t1", Some("old"), "p1", false, 20).unwrap();
    let t = s.edit_task("t1", Some("t2"), None).unwrap();
    assert_eq!(t.name, "t2");
    assert_eq!(t.description.as_deref(), Some("old"));
    let t = s.edit_task("t2", None, Some("")).unwrap();
    assert_eq!(t.name, "t2");
    assert_eq!(t.description.as_deref(), Some(""));
    assert_eq!(s.edit_task("t1", None, None), Err(EngineError::NotFound));
}

#[test]
fn remove_task_cascades_entries() {
    let mut s = Store::new();
    s.create_project("p1", None, 10).unwrap();
    s.create_task("t1", None, "p1", true, 20).unwrap();
    s.create_task("t2", None, "p1", true, 25).unwrap();
    let removed = s.remove_task("t1").unwrap();
    assert_eq!(removed.name, "t1");
    assert_eq!(s.tasks.len(), 1);
    assert_eq!(s.tasks[0].name, "t2");
    assert_eq!(s.entries.len(), 1);
    assert_eq!(s.entries[0].task_id, s.tasks[0].id);
    assert_eq!(s.remove_task("t1"), Err(EngineError::NotFound));
}

#[test]
fn remove_project_cascades_tasks_and_entries() {
    let mut s = Store::new();
    s.create_project("p1", None, 10).unwrap();
    s.create_project("p2", None, 11).unwrap();
    s.create_task("a1", None, "p1", true, 20).unwrap();
    s.create_task("a2", None, "p1", false, 21).unwrap();
    s.create_task("b1", None, "p2", true, 22).unwrap();
    let removed = s.remove_project("p1").unwrap();
    assert_eq!(removed.name, "p1");
    assert_eq!(s.projects.len(), 1);
    assert_eq!(s.projects[0].name, "p2");
    assert_eq!(s.tasks.len(), 1);
    assert_eq!(s.tasks[0].name, "b1");
    assert_eq!(s.entries.len(), 1);
    assert_eq!(s.entries[0].task_id, s.tasks[0].id);
    assert_eq!(s.remove_project("p1"), Err(EngineError::NotFound));
}

#[test]
fn at_most_one_open_entry_across_lifecycle() {
    let mut s = Store::new();
    s.create_project("p1", None, 10).unwrap();
    let t = s.create_task("t1", None, "p1", true, 20).unwrap();
    assert_eq!(open_entry_count(&s, t.id), 1);
    s.stop_task("t1", false, false, 30).unwrap();
    assert_eq!(open_entry_count(&s, t.id), 0);
    s.start_task("t1", 40).unwrap();
    assert_eq!(open_entry_count(&s, t.id), 1);
    // A further start is rejected rather than opening a second entry.
    assert_eq!(s.start_task("t1", 50), Err(EngineError::ConflictingOpenEntry));
    assert_eq!(open_entry_count(&s, t.id), 1);
    assert!(s.check_invariant());
}

#[test]
fn full_scenario_create_start_stop_stop() {
    let mut s = Store::new();
    s.create_project("p1", None, 1000).unwrap();
    let t = s.create_task("t1", None, "p1", true, 1000).unwrap();
    assert_eq!(t.status, TaskStatus::InProgress);
    assert_eq!(open_entry_count(&s, t.id), 1);
    let stopped = s.stop_task("t1", true, false, 1500).unwrap();
    assert_eq!(stopped.status, TaskStatus::Completed);
    assert!(s.entries[0].end_time.is_some());
    assert!(s.entries[0].duration >= 0);
    assert_eq!(s.stop_task("t1", true, false, 1600), Err(EngineError::InvalidTransition));
}

#[test]
fn duplicate_names_resolve_to_earliest_row() {
    let mut s = Store::new();
    s.create_project("p", Some("first"), 10).unwrap();
    s.create_project("p", Some("second"), 11).unwrap();
    let removed = s.remove_project("p").unwrap();
    assert_eq!(removed.description.as_deref(), Some("first"));
    assert_eq!(s.projects.len(), 1);
    assert_eq!(s.projects[0].description.as_deref(), Some("second"));
}

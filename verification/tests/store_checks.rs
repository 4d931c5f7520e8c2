use clog::error::EngineError;
use clog::records::TimeEntryRecord;
use clog::status::TaskStatus;
use clog::store::Store;

fn entry(id: i64, task_id: i64, start: i64, end: Option<i64>) -> TimeEntryRecord {
    TimeEntryRecord {
        id,
        task_id,
        start_time: start,
        offset_seconds: 0,
        end_time: end,
        duration: match end {
            Some(e) => e - start,
            None => 0,
        },
        created_at: start,
        updated_at: start,
    }
}

fn small_store() -> Store {
    let mut s = Store::new();
    s.create_project("p", None, 10).unwrap();
    s.create_task("t", None, "p", false, 20).unwrap();
    s
}

#[test]
fn from_rows_accepts_consistent_tables() {
    let base = small_store();
    let s = Store::from_rows(
        base.projects,
        base.tasks,
        vec![entry(1, 1, 100, Some(160))],
        2,
        2,
        2,
    )
    .unwrap();
    assert!(s.check_invariant());
    assert_eq!(s.entries.len(), 1);
}

#[test]
fn from_rows_rejects_two_open_entries_for_one_task() {
    let base = small_store();
    let r = Store::from_rows(
        base.projects,
        base.tasks,
        vec![entry(1, 1, 100, None), entry(2, 1, 200, None)],
        2,
        2,
        3,
    );
    assert_eq!(r.unwrap_err(), EngineError::StoreFailure);
}

#[test]
fn from_rows_rejects_orphan_entries() {
    let base = small_store();
    let r = Store::from_rows(base.projects, base.tasks, vec![entry(1, 99, 100, None)], 2, 2, 2);
    assert_eq!(r.unwrap_err(), EngineError::StoreFailure);
}

#[test]
fn from_rows_rejects_duplicate_ids() {
    let mut a = small_store();
    let b = small_store();
    a.projects[0].id = 1;
    let mut projects = a.projects;
    projects.extend(b.projects);
    let r = Store::from_rows(projects, Vec::new(), Vec::new(), 3, 1, 1);
    assert_eq!(r.unwrap_err(), EngineError::StoreFailure);
}

#[test]
fn from_rows_rejects_wrong_duration() {
    let base = small_store();
    let mut e = entry(1, 1, 100, Some(160));
    e.duration = 61;
    let r = Store::from_rows(base.projects, base.tasks, vec![e], 2, 2, 2);
    assert_eq!(r.unwrap_err(), EngineError::StoreFailure);
}

#[test]
fn from_rows_rejects_orphan_tasks() {
    let base = small_store();
    let r = Store::from_rows(Vec::new(), base.tasks, Vec::new(), 2, 2, 1);
    assert_eq!(r.unwrap_err(), EngineError::StoreFailure);
}

#[test]
fn status_text_round_trip() {
    for st in [
        TaskStatus::Pending,
        TaskStatus::InProgress,
        TaskStatus::Completed,
        TaskStatus::Cancelled,
    ] {
        assert_eq!(clog::status::status_from_text(st.as_text()), Some(st));
    }
    assert_eq!(clog::status::status_from_text("pending"), Some(TaskStatus::Pending));
    assert_eq!(clog::status::status_from_text("in_progress"), Some(TaskStatus::InProgress));
    assert_eq!(clog::status::status_from_text("done"), None);
    assert_eq!(clog::status::status_from_text(""), None);
}

#[test]
fn create_project_stores_given_fields() {
    let mut s = Store::new();
    let p = s.create_project("demo", Some("A demo project"), 42).unwrap();
    assert_eq!(p.id, 1);
    assert_eq!(p.name, "demo");
    assert_eq!(p.description.as_deref(), Some("A demo project"));
    assert_eq!(p.created_at, 42);
    assert_eq!(p.updated_at, 42);
    assert_eq!(s.projects.len(), 1);
    assert_eq!(s.projects[0], p);
}

#[test]
fn unrepresentable_clock_reading_is_internal_error() {
    let mut s = Store::new();
    s.create_project("p", None, 10).unwrap();
    // A start time beyond the year 9999 cannot be stored.
    let r = s.create_task("t", None, "p", true, clog::records::TS_MAX + 1);
    assert_eq!(r.unwrap_err(), EngineError::InternalError);
    assert_eq!(s.tasks.len(), 0);
    // Without an immediate start no entry is created and the time is only
    // recorded as metadata, so the insert succeeds.
    let r = s.create_task("t", None, "p", false, clog::records::TS_MAX + 1);
    assert!(r.is_ok());
}

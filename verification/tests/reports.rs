use clog::report::ReportFilter;
use clog::report::filter_for_today;
use clog::store::Store;

// A store with one project, one task, and two closed entries around a day
// boundary: one the second before midnight, one the second after.
fn boundary_store(day: i64) -> Store {
    let mut s = Store::new();
    s.create_project("p1", Some("around midnight"), 10).unwrap();
    // Yesterday 23:59:59, closed after 60 seconds.
    s.create_task("t1", None, "p1", true, day * 86400 - 1).unwrap();
    s.stop_task("t1", false, false, day * 86400 + 59).unwrap();
    // Today 00:00:01, closed after 120 seconds.
    s.start_task("t1", day * 86400 + 1).unwrap();
    s.stop_task("t1", false, false, day * 86400 + 121).unwrap();
    s
}

#[test]
fn today_filter_excludes_yesterday_last_second() {
    let day = 20000;
    let s = boundary_store(day);
    let f = filter_for_today(day * 86400 + 3600);
    let rows = s.project_report(f).unwrap();
    assert_eq!(rows.len(), 1);
    // Only the entry started at 00:00:01 is covered.
    assert_eq!(rows[0].time_entries, 1);
    assert_eq!(rows[0].tasks, 1);
    assert_eq!(rows[0].time_spent_min, "2.00 mins");
    assert!(!rows[0].open_time_entries);
}

#[test]
fn today_filter_includes_midnight_itself() {
    let day = 20000;
    let mut s = Store::new();
    s.create_project("p1", None, 10).unwrap();
    // An entry starting exactly at midnight belongs to the day that begins
    // there: the window is closed at its start and open at its end.
    s.create_task("t1", None, "p1", true, day * 86400).unwrap();
    let f = filter_for_today(day * 86400 + 3600);
    let rows = s.project_report(f).unwrap();
    assert_eq!(rows[0].time_entries, 1);
    let f = filter_for_today((day - 1) * 86400 + 3600);
    let rows = s.project_report(f).unwrap();
    assert_eq!(rows[0].time_entries, 0);
}

#[test]
fn all_filter_covers_both_entries() {
    let day = 20000;
    let s = boundary_store(day);
    let rows = s.project_report(ReportFilter::All).unwrap();
    assert_eq!(rows.len(), 1);
    assert_eq!(rows[0].time_entries, 2);
    assert_eq!(rows[0].tasks, 1);
    // 60 + 120 seconds in all.
    assert_eq!(rows[0].time_spent_min, "3.00 mins");
    assert_eq!(rows[0].time_spent_hours, "0.05 hours");
}

#[test]
fn project_report_row_shape() {
    let mut s = Store::new();
    s.create_project("empty", None, 10).unwrap();
    s.create_project("busy", Some("has work"), 11).unwrap();
    s.create_task("w1", None, "busy", true, 100).unwrap();
    let rows = s.project_report(ReportFilter::All).unwrap();
    assert_eq!(rows.len(), 2);
    assert_eq!(rows[0].name, "empty");
    assert_eq!(rows[0].description, "");
    assert_eq!(rows[0].tasks, 0);
    assert_eq!(rows[0].time_entries, 0);
    assert_eq!(rows[0].time_spent_min, "0.00 mins");
    assert!(!rows[0].open_time_entries);
    assert_eq!(rows[1].name, "busy");
    assert_eq!(rows[1].description, "has work");
    assert_eq!(rows[1].tasks, 1);
    assert_eq!(rows[1].time_entries, 1);
    // The entry is still open: its duration is not finalized and counts as 0.
    assert_eq!(rows[1].time_spent_min, "0.00 mins");
    assert!(rows[1].open_time_entries);
}

#[test]
fn task_report_scopes_to_one_project() {
    let mut s = Store::new();
    s.create_project("p1", None, 10).unwrap();
    s.create_project("p2", None, 11).unwrap();
    s.create_task("a", None, "p1", true, 100).unwrap();
    s.stop_task("a", true, false, 160).unwrap();
    s.create_task("b", None, "p1", false, 101).unwrap();
    s.create_task("c", None, "p2", true, 102).unwrap();
    let rows = s.task_report("p1", ReportFilter::All).unwrap();
    assert_eq!(rows.len(), 2);
    assert_eq!(rows[0].name, "a");
    assert_eq!(rows[0].time_entries, 1);
    assert_eq!(rows[0].time_spent_min, "1.00 mins");
    assert!(!rows[0].open_time_entries);
    assert_eq!(rows[1].name, "b");
    assert_eq!(rows[1].time_entries, 0);
    assert_eq!(
        s.task_report("missing", ReportFilter::All).unwrap_err(),
        clog::error::EngineError::NotFound
    );
}

#[test]
fn task_report_day_window_drops_tasks_without_covered_entries() {
    let day = 20000;
    let mut s = Store::new();
    s.create_project("p1", None, 10).unwrap();
    // One task worked yesterday, one worked today.
    s.create_task("old", None, "p1", true, day * 86400 - 7200).unwrap();
    s.stop_task("old", true, false, day * 86400 - 3600).unwrap();
    s.create_task("new", None, "p1", true, day * 86400 + 60).unwrap();
    s.stop_task("new", true, false, day * 86400 + 120).unwrap();
    let f = filter_for_today(day * 86400 + 3600);
    let rows = s.task_report("p1", f).unwrap();
    assert_eq!(rows.len(), 1);
    assert_eq!(rows[0].name, "new");
    let rows = s.task_report("p1", ReportFilter::All).unwrap();
    assert_eq!(rows.len(), 2);
}

#[test]
fn listing_round_trip_one_project() {
    let mut s = Store::new();
    s.create_project("demo", Some("A demo project"), 10).unwrap();
    let rows = s.project_summaries();
    assert_eq!(rows.len(), 1);
    assert_eq!(rows[0].name, "demo");
    assert_eq!(rows[0].description, "A demo project");
    assert_eq!(rows[0].tasks, 0);
}

#[test]
fn task_listing_counts_entries() {
    let mut s = Store::new();
    s.create_project("demo", None, 10).unwrap();
    s.create_task("t1", Some("d"), "demo", true, 20).unwrap();
    s.stop_task("t1", false, false, 30).unwrap();
    s.start_task("t1", 40).unwrap();
    s.create_task("t2", None, "demo", false, 21).unwrap();
    let rows = s.task_summaries("demo").unwrap();
    assert_eq!(rows.len(), 2);
    assert_eq!(rows[0].name, "t1");
    assert_eq!(rows[0].time_entries, 2);
    assert_eq!(rows[0].description, "d");
    assert_eq!(rows[1].name, "t2");
    assert_eq!(rows[1].time_entries, 0);
    assert_eq!(
        s.task_summaries("missing").unwrap_err(),
        clog::error::EngineError::NotFound
    );
}

#[test]
fn clock_window_is_one_day() {
    let f = clog::clock::today_filter().unwrap();
    match f {
        ReportFilter::Within { start, end } => {
            assert_eq!(end - start, 86400);
            assert_eq!(start % 86400, 0);
            assert!(start >= 0);
        },
        ReportFilter::All => panic!("expected a day window"),
    }
}

#[test]
fn clock_reads_a_recent_moment() {
    let t = clog::clock::current_timestamp().unwrap();
    // Any run of this suite happens well after 2020-01-01 and the reading is
    // confined to the representable window.
    assert!(t > 1577836800);
    assert!(t <= clog::records::TS_MAX);
}

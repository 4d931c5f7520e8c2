use clog::date::Date;
use clog::date::epoch_day;
use clog::date::next_day;
use clog::date::parse_date;
use clog::error::EngineError;
use clog::report::ReportFilter;
use clog::report::filter_for_date;
use clog::report::filter_for_today;

#[test]
fn parse_date_accepts_plain_dates() {
    let d = parse_date("2024-01-15").unwrap();
    assert_eq!((d.year, d.month, d.day), (2024, 1, 15));
    let d = parse_date("0000-01-01").unwrap();
    assert_eq!((d.year, d.month, d.day), (0, 1, 1));
    let d = parse_date("9999-12-31").unwrap();
    assert_eq!((d.year, d.month, d.day), (9999, 12, 31));
}

#[test]
fn parse_date_knows_leap_years() {
    assert!(parse_date("2020-02-29").is_ok());
    assert_eq!(parse_date("2021-02-29"), Err(EngineError::InvalidInput));
    assert!(parse_date("2000-02-29").is_ok());
    assert_eq!(parse_date("1900-02-29"), Err(EngineError::InvalidInput));
}

#[test]
fn parse_date_rejects_malformed_text() {
    for bad in [
        "",
        "2024",
        "2024-1-15",
        "2024-01-5",
        "24-01-15",
        "2024/01/15",
        "2024-13-01",
        "2024-00-10",
        "2024-04-31",
        "2024-01-00",
        "abcd-ef-gh",
        "2024-01-150",
    ] {
        assert_eq!(parse_date(bad), Err(EngineError::InvalidInput), "accepted {:?}", bad);
    }
}

#[test]
fn epoch_day_of_known_dates() {
    assert_eq!(epoch_day(Date { year: 1970, month: 1, day: 1 }), 0);
    assert_eq!(epoch_day(Date { year: 1969, month: 12, day: 31 }), -1);
    assert_eq!(epoch_day(Date { year: 2024, month: 3, day: 1 }), 19783);
    assert_eq!(epoch_day(Date { year: 2000, month: 1, day: 1 }), 10957);
    assert_eq!(epoch_day(Date { year: 0, month: 1, day: 1 }), -719528);
    assert_eq!(epoch_day(Date { year: 9999, month: 12, day: 31 }), 2932896);
}

#[test]
fn next_day_steps_over_month_and_year_ends() {
    let n = next_day(Date { year: 2024, month: 1, day: 31 }).unwrap();
    assert_eq!((n.year, n.month, n.day), (2024, 2, 1));
    let n = next_day(Date { year: 2024, month: 2, day: 28 }).unwrap();
    assert_eq!((n.year, n.month, n.day), (2024, 2, 29));
    let n = next_day(Date { year: 2023, month: 2, day: 28 }).unwrap();
    assert_eq!((n.year, n.month, n.day), (2023, 3, 1));
    let n = next_day(Date { year: 2023, month: 12, day: 31 }).unwrap();
    assert_eq!((n.year, n.month, n.day), (2024, 1, 1));
    assert_eq!(next_day(Date { year: 9999, month: 12, day: 31 }), None);
}

#[test]
fn filter_for_date_covers_one_day() {
    let d = parse_date("1970-01-01").unwrap();
    assert_eq!(filter_for_date(d), Ok(ReportFilter::Within { start: 0, end: 86400 }));
    let d = parse_date("2024-03-01").unwrap();
    assert_eq!(
        filter_for_date(d),
        Ok(ReportFilter::Within { start: 19783 * 86400, end: 19784 * 86400 })
    );
}

#[test]
fn filter_for_date_overflows_only_at_calendar_end() {
    let d = parse_date("9999-12-31").unwrap();
    assert_eq!(filter_for_date(d), Err(EngineError::InternalError));
    let d = parse_date("9999-12-30").unwrap();
    assert!(filter_for_date(d).is_ok());
}

#[test]
fn filter_for_today_brackets_the_moment() {
    let now = 20000 * 86400 + 3600;
    match filter_for_today(now) {
        ReportFilter::Within { start, end } => {
            assert_eq!(start, 20000 * 86400);
            assert_eq!(end, 20001 * 86400);
            assert!(start <= now && now < end);
        },
        ReportFilter::All => panic!("expected a day window"),
    }
}

//! The system clock, read through the chrono crate.

use vstd::prelude::*;

use crate::error::EngineError;
use crate::records::TS_MAX;
use crate::report::ReportFilter;
use crate::report::filter_for_today;

verus! {

/// Relies on `chrono::Utc::now` and `chrono::DateTime::timestamp`: the
/// current moment as whole seconds since the Unix epoch. chrono builds the
/// moment from the system time's non-negative distance to the epoch (and
/// panics on a clock set before the epoch), so a returned reading is never
/// negative; nothing more is assumed of it.
#[verifier::external_body]
fn now_utc_seconds() -> (t: i64)
    ensures
        0 <= t,
{
    chrono::Utc::now().timestamp()
}

/// The report window of the current day in UTC calendar terms: the clock is
/// read once, and the window runs from the midnight no later than that moment
/// to the midnight after it. Fails with `InternalError` only when the clock
/// reads outside the representable window (past the year 9999).
pub fn today_filter() -> (r: Result<ReportFilter, EngineError>)
    ensures
        match r {
            Ok(f) => f matches ReportFilter::Within { start, end } && 0 <= start && end == start
                + 86400 && start % 86400 == 0,
            Err(e) => e == EngineError::InternalError,
        },
{
    let now = now_utc_seconds();
    if now > TS_MAX {
        return Err(EngineError::InternalError);
    }
    Ok(filter_for_today(now))
}

/// The current moment as whole seconds since the Unix epoch, confined to the
/// representable timestamp window: what the lifecycle operations take as
/// `now`. Fails with `InternalError` only when the clock reads outside the
/// window (past the year 9999).
pub fn current_timestamp() -> (r: Result<i64, EngineError>)
    ensures
        match r {
            Ok(t) => 0 <= t <= TS_MAX,
            Err(e) => e == EngineError::InternalError,
        },
{
    let now = now_utc_seconds();
    if now > TS_MAX {
        return Err(EngineError::InternalError);
    }
    Ok(now)
}

} // verus!

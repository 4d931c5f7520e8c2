//! Proleptic Gregorian calendar dates, their `YYYY-MM-DD` text form, and the
//! day arithmetic the report filters rest on.
//!
//! A date maps to an epoch day: whole days relative to 1970-01-01 UTC,
//! negative before the epoch. The representable window runs from year 0
//! through year 9999, matching the timestamp window of the records.

use vstd::prelude::*;

use crate::error::EngineError;
use vstd::string::StrSliceExecFns;

verus! {

/// A calendar date. Valid dates lie in years 0 through 9999, with the day
/// bounded by the month's length (leap years per the Gregorian rule).
#[derive(Clone, Copy, Debug, PartialEq, Eq, Structural)]
pub struct Date {
    pub year: u16,
    pub month: u8,
    pub day: u8,
}

/// The Gregorian leap-year rule.
pub open spec fn spec_is_leap_year(y: int) -> bool {
    (y % 4 == 0 && y % 100 != 0) || y % 400 == 0
}

/// How many days the given month has in the given year.
pub open spec fn spec_days_in_month(y: int, m: int) -> int {
    if m == 2 {
        if spec_is_leap_year(y) {
            29
        } else {
            28
        }
    } else if m == 4 || m == 6 || m == 9 || m == 11 {
        30
    } else {
        31
    }
}

/// Days from 0000-01-01 to the first day of year `y` (year 0 is a leap year).
pub open spec fn spec_days_before_year(y: int) -> int {
    if y == 0 {
        0
    } else {
        366 + 365 * (y - 1) + (y - 1) / 4 - (y - 1) / 100 + (y - 1) / 400
    }
}

/// Days from the first of January to the first day of month `m` in year `y`.
pub open spec fn spec_days_before_month(y: int, m: int) -> int {
    let base: int = if m == 1 {
        0
    } else if m == 2 {
        31
    } else if m == 3 {
        59
    } else if m == 4 {
        90
    } else if m == 5 {
        120
    } else if m == 6 {
        151
    } else if m == 7 {
        181
    } else if m == 8 {
        212
    } else if m == 9 {
        243
    } else if m == 10 {
        273
    } else if m == 11 {
        304
    } else {
        334
    };
    if m > 2 && spec_is_leap_year(y) {
        base + 1
    } else {
        base
    }
}

/// The date's whole-day distance from 1970-01-01 (719528 days after
/// 0000-01-01), negative before the epoch.
pub open spec fn spec_epoch_day(d: Date) -> int {
    spec_days_before_year(d.year as int) + spec_days_before_month(d.year as int, d.month as int)
        + d.day - 1 - 719528
}

impl Date {
    /// A representable date: year 0 through 9999, month and day within the
    /// calendar.
    pub open spec fn is_valid(self) -> bool {
        &&& self.year <= 9999
        &&& 1 <= self.month <= 12
        &&& 1 <= self.day <= spec_days_in_month(self.year as int, self.month as int)
    }
}

/// Decides the Gregorian leap-year rule.
pub fn is_leap_year(y: u16) -> (r: bool)
    ensures
        r == spec_is_leap_year(y as int),
{
    (y % 4 == 0 && y % 100 != 0) || y % 400 == 0
}

/// The length of the given month.
pub fn days_in_month(y: u16, m: u8) -> (r: u8)
    ensures
        r == spec_days_in_month(y as int, m as int),
{
    if m == 2 {
        if is_leap_year(y) {
            29
        } else {
            28
        }
    } else if m == 4 || m == 6 || m == 9 || m == 11 {
        30
    } else {
        31
    }
}

/// Days from 0000-01-01 to the first day of year `y`.
fn days_before_year(y: u16) -> (r: i64)
    requires
        y <= 9999,
    ensures
        r == spec_days_before_year(y as int),
        0 <= r <= 3652159,
{
    if y == 0 {
        0
    } else {
        let yy: i64 = (y - 1) as i64;
        proof {
            lemma_days_before_year_bounds(y as int);
        }
        366 + 365 * yy + yy / 4 - yy / 100 + yy / 400
    }
}

/// Bounds on the day count before a representable year.
proof fn lemma_days_before_year_bounds(y: int)
    requires
        0 <= y <= 9999,
    ensures
        0 <= spec_days_before_year(y) <= 3652159,
        y <= 9998 ==> spec_days_before_year(y) <= 3651794,
        y == 9999 ==> spec_days_before_year(y) == 3652060,
{
    if y >= 1 {
        let yy = y - 1;
        vstd::arithmetic::div_mod::lemma_div_pos_is_pos(yy, 4);
        vstd::arithmetic::div_mod::lemma_div_pos_is_pos(yy, 100);
        vstd::arithmetic::div_mod::lemma_div_pos_is_pos(yy, 400);
        vstd::arithmetic::div_mod::lemma_div_nonincreasing(yy, 100);
        vstd::arithmetic::div_mod::lemma_div_is_ordered(yy, 9998, 4);
        vstd::arithmetic::div_mod::lemma_div_is_ordered(yy, 9998, 400);
        if y <= 9998 {
            vstd::arithmetic::div_mod::lemma_div_is_ordered(yy, 9997, 4);
            vstd::arithmetic::div_mod::lemma_div_is_ordered(yy, 9997, 400);
        }
    }
}

/// Days from the first of January to the first day of month `m` in year `y`.
fn days_before_month(y: u16, m: u8) -> (r: i64)
    requires
        1 <= m <= 12,
    ensures
        r == spec_days_before_month(y as int, m as int),
        0 <= r <= 335,
{
    let base: i64 = if m == 1 {
        0
    } else if m == 2 {
        31
    } else if m == 3 {
        59
    } else if m == 4 {
        90
    } else if m == 5 {
        120
    } else if m == 6 {
        151
    } else if m == 7 {
        181
    } else if m == 8 {
        212
    } else if m == 9 {
        243
    } else if m == 10 {
        273
    } else if m == 11 {
        304
    } else {
        334
    };
    if m > 2 && is_leap_year(y) {
        base + 1
    } else {
        base
    }
}

/// The date's whole-day distance from 1970-01-01.
pub fn epoch_day(d: Date) -> (r: i64)
    requires
        d.is_valid(),
    ensures
        r == spec_epoch_day(d),
        -719528 <= r <= 2932896,
{
    let by = days_before_year(d.year);
    let bm = days_before_month(d.year, d.month);
    proof {
        lemma_days_before_year_bounds(d.year as int);
        if d.year == 9999 {
            // Year 9999 is no leap year, so at most 334 days precede its last
            // month, and the calendar ends exactly 2932896 days past the
            // epoch.
            assert(!spec_is_leap_year(9999));
            assert(spec_days_before_month(9999, d.month as int) <= 334);
        }
    }
    by + bm + (d.day as i64) - 1 - 719528
}

/// The UTC second at which the date's day begins.
pub fn day_start_seconds(d: Date) -> (s: i64)
    requires
        d.is_valid(),
    ensures
        s == spec_epoch_day(d) * 86400,
        crate::records::valid_ts(s),
{
    let ed = epoch_day(d);
    ed * 86400
}

/// A decimal digit.
pub open spec fn spec_is_digit(c: char) -> bool {
    48 <= c as u32 <= 57
}

/// The value of a decimal digit.
pub open spec fn spec_digit_val(c: char) -> int {
    c as u32 - 48
}

/// The text is exactly `YYYY-MM-DD` with a valid calendar date behind it.
pub open spec fn spec_is_date_text(s: Seq<char>) -> bool {
    &&& s.len() == 10
    &&& spec_is_digit(s[0]) && spec_is_digit(s[1]) && spec_is_digit(s[2]) && spec_is_digit(s[3])
    &&& s[4] == '-'
    &&& spec_is_digit(s[5]) && spec_is_digit(s[6])
    &&& s[7] == '-'
    &&& spec_is_digit(s[8]) && spec_is_digit(s[9])
    &&& 1 <= spec_text_month(s) <= 12
    &&& 1 <= spec_text_day(s) <= spec_days_in_month(spec_text_year(s), spec_text_month(s))
}

/// The year the text names.
pub open spec fn spec_text_year(s: Seq<char>) -> int {
    1000 * spec_digit_val(s[0]) + 100 * spec_digit_val(s[1]) + 10 * spec_digit_val(s[2])
        + spec_digit_val(s[3])
}

/// The month the text names.
pub open spec fn spec_text_month(s: Seq<char>) -> int {
    10 * spec_digit_val(s[5]) + spec_digit_val(s[6])
}

/// The day the text names.
pub open spec fn spec_text_day(s: Seq<char>) -> int {
    10 * spec_digit_val(s[8]) + spec_digit_val(s[9])
}

/// The value of a digit character, or `None` when the character is no digit.
fn digit_of(c: char) -> (r: Option<u16>)
    ensures
        match r {
            Some(v) => spec_is_digit(c) && v == spec_digit_val(c),
            None => !spec_is_digit(c),
        },
{
    let u = c as u32;
    if 48 <= u && u <= 57 {
        Some((u - 48) as u16)
    } else {
        None
    }
}

/// Parses `YYYY-MM-DD` into a date: exactly four digits, a dash, two digits,
/// a dash, two digits, naming a valid calendar date. Anything else fails as
/// invalid input.
pub fn parse_date(s: &str) -> (r: Result<Date, EngineError>)
    ensures
        match r {
            Ok(d) => {
                &&& spec_is_date_text(s@)
                &&& d.is_valid()
                &&& d.year == spec_text_year(s@)
                &&& d.month == spec_text_month(s@)
                &&& d.day == spec_text_day(s@)
            },
            Err(e) => {
                &&& e == EngineError::InvalidInput
                &&& !spec_is_date_text(s@)
            },
        },
{
    if s.unicode_len() != 10 {
        return Err(EngineError::InvalidInput);
    }
    if s.get_char(4) != '-' || s.get_char(7) != '-' {
        return Err(EngineError::InvalidInput);
    }
    let y0 = match digit_of(s.get_char(0)) {
        Some(v) => v,
        None => {
            return Err(EngineError::InvalidInput);
        },
    };
    let y1 = match digit_of(s.get_char(1)) {
        Some(v) => v,
        None => {
            return Err(EngineError::InvalidInput);
        },
    };
    let y2 = match digit_of(s.get_char(2)) {
        Some(v) => v,
        None => {
            return Err(EngineError::InvalidInput);
        },
    };
    let y3 = match digit_of(s.get_char(3)) {
        Some(v) => v,
        None => {
            return Err(EngineError::InvalidInput);
        },
    };
    let m0 = match digit_of(s.get_char(5)) {
        Some(v) => v,
        None => {
            return Err(EngineError::InvalidInput);
        },
    };
    let m1 = match digit_of(s.get_char(6)) {
        Some(v) => v,
        None => {
            return Err(EngineError::InvalidInput);
        },
    };
    let d0 = match digit_of(s.get_char(8)) {
        Some(v) => v,
        None => {
            return Err(EngineError::InvalidInput);
        },
    };
    let d1 = match digit_of(s.get_char(9)) {
        Some(v) => v,
        None => {
            return Err(EngineError::InvalidInput);
        },
    };
    let year: u16 = 1000 * y0 + 100 * y1 + 10 * y2 + y3;
    let month: u8 = (10 * m0 + m1) as u8;
    let day: u8 = (10 * d0 + d1) as u8;
    if month < 1 || month > 12 {
        return Err(EngineError::InvalidInput);
    }
    if day < 1 || day > days_in_month(year, month) {
        return Err(EngineError::InvalidInput);
    }
    Ok(Date { year, month, day })
}

/// The date of the day after, defined while the calendar end (9999-12-31) is
/// not reached.
pub open spec fn spec_next_day(d: Date) -> Date {
    if d.day < spec_days_in_month(d.year as int, d.month as int) {
        Date { day: (d.day + 1) as u8, ..d }
    } else if d.month < 12 {
        Date { month: (d.month + 1) as u8, day: 1, ..d }
    } else {
        Date { year: (d.year + 1) as u16, month: 1, day: 1 }
    }
}

/// The day after the given date, or `None` when adding one day overflows the
/// representable calendar (only at 9999-12-31).
pub fn next_day(d: Date) -> (r: Option<Date>)
    requires
        d.is_valid(),
    ensures
        match r {
            Some(n) => {
                &&& !(d.year == 9999 && d.month == 12 && d.day == 31)
                &&& n == spec_next_day(d)
                &&& n.is_valid()
            },
            None => d.year == 9999 && d.month == 12 && d.day == 31,
        },
{
    if d.day < days_in_month(d.year, d.month) {
        Some(Date { year: d.year, month: d.month, day: d.day + 1 })
    } else if d.month < 12 {
        Some(Date { year: d.year, month: d.month + 1, day: 1 })
    } else if d.year < 9999 {
        Some(Date { year: d.year + 1, month: 1, day: 1 })
    } else {
        None
    }
}

/// Law: stepping to the next day advances the epoch day by exactly one, so
/// the half-open window of a date's day ends where the next day's begins.
pub proof fn lemma_next_day_advances_epoch_day(d: Date)
    requires
        d.is_valid(),
        !(d.year == 9999 && d.month == 12 && d.day == 31),
    ensures
        spec_epoch_day(spec_next_day(d)) == spec_epoch_day(d) + 1,
{
    let y = d.year as int;
    let m = d.month as int;
    if d.day < spec_days_in_month(y, m) {
    } else if d.month < 12 {
        assert(spec_days_before_month(y, m + 1) == spec_days_before_month(y, m)
            + spec_days_in_month(y, m));
    } else {
        assert(spec_days_before_month(y, 12) + 31 == 365 + if spec_is_leap_year(y) {
            1int
        } else {
            0int
        });
        lemma_days_before_next_year(y);
    }
}

/// Law: a year holds 365 days, or 366 in a leap year.
proof fn lemma_days_before_next_year(y: int)
    requires
        0 <= y <= 9998,
    ensures
        spec_days_before_year(y + 1) == spec_days_before_year(y) + 365 + if spec_is_leap_year(y) {
            1int
        } else {
            0int
        },
{
    if y == 0 {
    } else {
        assert(y % 4 == 0 ==> y / 4 == (y - 1) / 4 + 1 && y % 400 == 0 ==> y / 400 == (y - 1)
            / 400 + 1);
        assert(spec_days_before_year(y + 1) - spec_days_before_year(y) == 365 + y / 4 - (y - 1) / 4
            - (y / 100 - (y - 1) / 100) + y / 400 - (y - 1) / 400);
    }
}

} // verus!

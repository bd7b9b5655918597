//! Calendar dates, and the periods that reports cover. What the calendar
//! itself has to say (which weekday a date falls on, which date lies a number
//! of days before another, how many days lie between two dates, how a date is
//! written) is asked of `chrono`.

use std::fmt::Write;
use chrono::{Datelike, Days, NaiveDate};
use vstd::prelude::*;

verus! {

/// The weekday number of Monday, counted in days from Monday.
pub const MONDAY: u32 = 0;

/// Number of days that a weekly report looks back.
pub const WEEK_DAYS: u64 = 7;

/// The pattern that writes a date as year, month and day with hyphens.
pub const ISO_PATTERN: &'static str = "%F";

/// The pattern that writes a date as eight digits.
pub const STAMP_PATTERN: &'static str = "%Y%m%d";

/// A calendar date.
#[derive(Clone, Copy, Debug, PartialEq, Eq, Structural)]
pub struct Date {
    pub year: i32,
    pub month: u32,
    pub day: u32,
}

/// The days from `start`, inclusive, to `end`, exclusive.
#[derive(Clone, Copy, Debug, PartialEq, Eq, Structural)]
pub struct Period {
    pub start: Date,
    pub end: Date,
    /// The number of days in the period: at least one.
    pub days: u32,
}

/// The weekday of a date, in days from Monday; `None` where the calendar has
/// no such date.
pub uninterp spec fn weekday_of(year: int, month: int, day: int) -> Option<int>;

/// The date that lies `days` days before a date; `None` where the calendar
/// has no such date, or none that far back.
pub uninterp spec fn date_before(year: int, month: int, day: int, days: int) -> Option<(int, int, int)>;

/// The number of days from one date to another, negative where the second
/// is the earlier; `None` where the calendar lacks either date.
pub uninterp spec fn days_from_to(
    year: int,
    month: int,
    day: int,
    to_year: int,
    to_month: int,
    to_day: int,
) -> Option<int>;

/// A date written after a `strftime` pattern; `None` where the calendar has
/// no such date or the pattern is malformed.
pub uninterp spec fn formatted_date(year: int, month: int, day: int, pattern: Seq<char>) -> Option<Seq<char>>;

/// The weekday of `date`, in days from Monday: `NaiveDate::weekday` and
/// `Weekday::num_days_from_monday`, on the date that
/// `NaiveDate::from_ymd_opt` makes of year, month and day. The number is
/// below seven. `None` where `from_ymd_opt` knows no such date.
#[verifier::external_body]
fn weekday(date: Date) -> (w: Option<u32>)
    ensures
        w is Some <==> weekday_of(date.year as int, date.month as int, date.day as int) is Some,
        w matches Some(n) ==> n < 7 && weekday_of(date.year as int, date.month as int, date.day as int)
            == Some(n as int),
{
    match NaiveDate::from_ymd_opt(date.year, date.month, date.day) {
        Some(d) => Some(d.weekday().num_days_from_monday()),
        None => None,
    }
}

/// The date `days` days before `date`: `NaiveDate::checked_sub_days`, on the
/// date that `NaiveDate::from_ymd_opt` makes of year, month and day. `None`
/// where there is no such date or the result is out of the calendar's range.
#[verifier::external_body]
fn days_before(date: Date, days: u64) -> (r: Option<Date>)
    ensures
        r is Some <==> date_before(date.year as int, date.month as int, date.day as int, days as int)
            is Some,
        r matches Some(d) ==> date_before(date.year as int, date.month as int, date.day as int, days as int)
            == Some((d.year as int, d.month as int, d.day as int)),
{
    match NaiveDate::from_ymd_opt(date.year, date.month, date.day) {
        Some(d) => match d.checked_sub_days(Days::new(days)) {
            Some(b) => Some(Date { year: b.year(), month: b.month(), day: b.day() }),
            None => None,
        },
        None => None,
    }
}

/// The number of whole days from `start` to `end`:
/// `NaiveDate::signed_duration_since` and `TimeDelta::num_days`, on the dates
/// that `NaiveDate::from_ymd_opt` makes of the two. `None` where either is no
/// date.
#[verifier::external_body]
fn days_between(start: Date, end: Date) -> (r: Option<i64>)
    ensures
        r is Some <==> days_from_to(
            start.year as int,
            start.month as int,
            start.day as int,
            end.year as int,
            end.month as int,
            end.day as int,
        ) is Some,
        r matches Some(n) ==> days_from_to(
            start.year as int,
            start.month as int,
            start.day as int,
            end.year as int,
            end.month as int,
            end.day as int,
        ) == Some(n as int),
{
    match NaiveDate::from_ymd_opt(start.year, start.month, start.day) {
        Some(s) => match NaiveDate::from_ymd_opt(end.year, end.month, end.day) {
            Some(e) => Some(e.signed_duration_since(s).num_days()),
            None => None,
        },
        None => None,
    }
}

/// `date` written after `pattern`: `NaiveDate::format`, on the date that
/// `NaiveDate::from_ymd_opt` makes of year, month and day. `None` where there
/// is no such date, or where the pattern is malformed and formatting fails.
#[verifier::external_body]
fn format_date(date: Date, pattern: &str) -> (r: Option<String>)
    ensures
        r is Some <==> formatted_date(date.year as int, date.month as int, date.day as int, pattern@)
            is Some,
        r matches Some(s) ==> formatted_date(date.year as int, date.month as int, date.day as int, pattern@)
            == Some(s@),
{
    match NaiveDate::from_ymd_opt(date.year, date.month, date.day) {
        Some(d) => {
            let mut out = String::new();
            match write!(out, "{}", d.format(pattern)) {
                Ok(()) => Some(out),
                Err(_) => None,
            }
        },
        None => None,
    }
}

/// The period from `start` to `end` of `days` days: there is one where the
/// start is known and the number of days is known, at least one, and fits.
pub open spec fn spec_period(start: Option<Date>, end: Date, days: Option<i64>) -> Option<Period> {
    match (start, days) {
        (Some(s), Some(n)) => if 1 <= n <= u32::MAX {
            Some(Period { start: s, end, days: n as u32 })
        } else {
            None
        },
        _ => None,
    }
}

/// The period from `start` to `end` of `days` days.
pub fn period(start: Option<Date>, end: Date, days: Option<i64>) -> (p: Option<Period>)
    ensures
        p == spec_period(start, end, days),
{
    match (start, days) {
        (Some(s), Some(n)) => {
            if 1 <= n && n <= u32::MAX as i64 {
                Some(Period { start: s, end, days: n as u32 })
            } else {
                None
            }
        },
        _ => None,
    }
}

/// The first day of the month before that of `today`; `None` where the year
/// before has no number.
pub open spec fn spec_previous_month(today: Date) -> Option<Date> {
    if today.month == 1 {
        if today.year > i32::MIN {
            Some(Date { year: (today.year - 1) as i32, month: 12, day: 1 })
        } else {
            None
        }
    } else if today.month >= 2 {
        Some(Date { year: today.year, month: (today.month - 1) as u32, day: 1 })
    } else {
        None
    }
}

/// The first day of the month before that of `today`.
pub fn previous_month(today: Date) -> (d: Option<Date>)
    ensures
        d == spec_previous_month(today),
{
    if today.month == 1 {
        if today.year > i32::MIN {
            Some(Date { year: today.year - 1, month: 12, day: 1 })
        } else {
            None
        }
    } else if today.month >= 2 {
        Some(Date { year: today.year, month: today.month - 1, day: 1 })
    } else {
        None
    }
}

/// The days between two dates, where the first is known.
pub open spec fn spec_days_since(start: Option<Date>, end: Date) -> Option<i64> {
    match start {
        Some(s) => match days_from_to(
            s.year as int,
            s.month as int,
            s.day as int,
            end.year as int,
            end.month as int,
            end.day as int,
        ) {
            Some(n) => if i64::MIN <= n <= i64::MAX {
                Some(n as i64)
            } else {
                None
            },
            None => None,
        },
        None => None,
    }
}

/// The date `days` days before `date`, as a `Date`.
pub open spec fn spec_days_before(date: Date, days: u64) -> Option<Date> {
    match date_before(date.year as int, date.month as int, date.day as int, days as int) {
        Some((y, m, d)) => if i32::MIN <= y <= i32::MAX && 0 <= m <= u32::MAX && 0 <= d <= u32::MAX {
            Some(Date { year: y as i32, month: m as u32, day: d as u32 })
        } else {
            None
        },
        None => None,
    }
}

/// Whether a weekday number is that of Monday.
pub fn is_monday(weekday: Option<u32>) -> (b: bool)
    ensures
        b == (weekday == Some(MONDAY)),
{
    match weekday {
        Some(n) => n == MONDAY,
        None => false,
    }
}

/// The period of the weekly report that is due on `today`: the seven days
/// before a Monday. No report is due on any other day.
pub open spec fn spec_week_period(today: Date) -> Option<Period> {
    if weekday_of(today.year as int, today.month as int, today.day as int) == Some(MONDAY as int) {
        let start = spec_days_before(today, WEEK_DAYS);
        spec_period(start, today, spec_days_since(start, today))
    } else {
        None
    }
}

/// The period of the weekly report that is due on `today`.
pub fn week_period(today: Date) -> (p: Option<Period>)
    ensures
        p == spec_week_period(today),
{
    if !is_monday(weekday(today)) {
        return None;
    }
    let start = days_before(today, WEEK_DAYS);
    let days = match start {
        Some(s) => days_between(s, today),
        None => None,
    };
    period(start, today, days)
}

/// The period of the monthly report that is due on `today`: the month
/// before, on the first day of a month. No report is due on any other day.
pub open spec fn spec_month_period(today: Date) -> Option<Period> {
    if today.day == 1 {
        let start = spec_previous_month(today);
        spec_period(start, today, spec_days_since(start, today))
    } else {
        None
    }
}

/// The period of the monthly report that is due on `today`.
pub fn month_period(today: Date) -> (p: Option<Period>)
    ensures
        p == spec_month_period(today),
{
    if today.day != 1 {
        return None;
    }
    let start = previous_month(today);
    let days = match start {
        Some(s) => days_between(s, today),
        None => None,
    };
    period(start, today, days)
}

/// `date` written as year, month and day with hyphens, as queries take it.
pub fn iso_text(date: Date) -> (t: Option<String>)
    ensures
        t is Some <==> formatted_date(date.year as int, date.month as int, date.day as int, ISO_PATTERN@)
            is Some,
        t matches Some(s) ==> formatted_date(
            date.year as int,
            date.month as int,
            date.day as int,
            ISO_PATTERN@,
        ) == Some(s@),
{
    format_date(date, ISO_PATTERN)
}

/// `date` written as eight digits, as file names carry it.
pub fn stamp_text(date: Date) -> (t: Option<String>)
    ensures
        t is Some <==> formatted_date(date.year as int, date.month as int, date.day as int, STAMP_PATTERN@)
            is Some,
        t matches Some(s) ==> formatted_date(
            date.year as int,
            date.month as int,
            date.day as int,
            STAMP_PATTERN@,
        ) == Some(s@),
{
    format_date(date, STAMP_PATTERN)
}

} // verus!

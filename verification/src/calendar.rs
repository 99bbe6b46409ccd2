//! Dates and times.

use chrono::{DateTime, Datelike, Duration, NaiveDate, NaiveTime, Timelike, Utc};
use vstd::prelude::*;

use crate::text;

verus! {

/// A calendar date.
#[derive(Debug, PartialEq, Eq, Clone, Copy)]
pub struct Date {
    pub year: i32,
    pub month: u32,
    pub day: u32,
}

/// A time of day on a date, in UTC.
#[derive(Debug, PartialEq, Eq, Clone, Copy)]
pub struct Moment {
    pub date: Date,
    /// The seconds since midnight.
    pub second: u32,
}

/// The year, the month and the day of the date `days` days after the given one;
/// nothing where there is no such date.
pub uninterp spec fn later_date(year: int, month: int, day: int, days: int) -> Option<
    (int, int, int),
>;

/// How a date is written in the given format; nothing where there is no such date.
pub uninterp spec fn date_text(year: int, month: int, day: int, format: Seq<char>) -> Option<
    Seq<char>,
>;

/// The year, the month, the day and the second of the day `seconds` seconds after the
/// given second of the given date; nothing where there is no such time.
pub uninterp spec fn later_time(year: int, month: int, day: int, second: int, seconds: int) -> Option<
    (int, int, int, int),
>;

/// How a second of a date, in UTC, is written in RFC 3339; nothing where there is no
/// such time.
pub uninterp spec fn time_text(year: int, month: int, day: int, second: int) -> Option<Seq<char>>;

/// The milliseconds since the epoch that an RFC 3339 text stands for.
pub uninterp spec fn rfc3339_millis(s: Seq<char>) -> Option<int>;

/// The parts of a date.
pub open spec fn date_parts(o: Option<Date>) -> Option<(int, int, int)> {
    match o {
        Some(d) => Some((d.year as int, d.month as int, d.day as int)),
        None => None,
    }
}

/// The parts of a time.
pub open spec fn moment_parts(o: Option<Moment>) -> Option<(int, int, int, int)> {
    match o {
        Some(m) => Some(
            (m.date.year as int, m.date.month as int, m.date.day as int, m.second as int),
        ),
        None => None,
    }
}

impl Date {
    /// The date `days` days later, as `YYYY-MM-DD`.
    pub open spec fn plus_days(self, days: int) -> Option<Seq<char>> {
        match later_date(self.year as int, self.month as int, self.day as int, days) {
            Some((year, month, day)) => date_text(year, month, day, "%Y-%m-%d"@),
            None => None,
        }
    }

    /// The time `seconds` seconds after midnight, as RFC 3339.
    pub open spec fn plus_seconds(self, seconds: int) -> Option<Seq<char>> {
        match later_time(self.year as int, self.month as int, self.day as int, 0, seconds) {
            Some((year, month, day, second)) => time_text(year, month, day, second),
            None => None,
        }
    }
}

/// `NaiveDate::checked_add_signed`: a function of the date and the number of days, with
/// nothing where one of them is out of range.
#[verifier::external_body]
fn date_later(d: &Date, days: i64) -> (r: Option<Date>)
    ensures
        date_parts(r) == later_date(d.year as int, d.month as int, d.day as int, days as int),
{
    let start = NaiveDate::from_ymd_opt(d.year, d.month, d.day)?;
    let date = start.checked_add_signed(Duration::try_days(days)?)?;
    Some(Date { year: date.year(), month: date.month(), day: date.day() })
}

/// `NaiveDate::format`: a function of the date and the format, with nothing where there
/// is no such date. Other formats may panic.
#[verifier::external_body]
fn write_date(d: &Date, format: &str) -> (r: Option<String>)
    requires
        format@ == "%Y-%m-%d"@,
    ensures
        text::opt_text(r) == date_text(d.year as int, d.month as int, d.day as int, format@),
{
    Some(NaiveDate::from_ymd_opt(d.year, d.month, d.day)?.format(format).to_string())
}

/// `DateTime::checked_add_signed`: a function of the time and the number of seconds,
/// with nothing where one of them is out of range.
#[verifier::external_body]
fn time_later(m: &Moment, seconds: i64) -> (r: Option<Moment>)
    ensures
        moment_parts(r) == later_time(
            m.date.year as int,
            m.date.month as int,
            m.date.day as int,
            m.second as int,
            seconds as int,
        ),
{
    let day = NaiveDate::from_ymd_opt(m.date.year, m.date.month, m.date.day)?;
    let clock = NaiveTime::from_num_seconds_from_midnight_opt(m.second, 0)?;
    let t = day.and_time(clock).and_utc().checked_add_signed(Duration::try_seconds(seconds)?)?;
    let date = Date { year: t.year(), month: t.month(), day: t.day() };
    Some(Moment { date, second: t.num_seconds_from_midnight() })
}

/// `DateTime::to_rfc3339`: a function of the time, with nothing where there is no such
/// time.
#[verifier::external_body]
fn write_time(m: &Moment) -> (r: Option<String>)
    ensures
        text::opt_text(r) == time_text(
            m.date.year as int,
            m.date.month as int,
            m.date.day as int,
            m.second as int,
        ),
{
    let day = NaiveDate::from_ymd_opt(m.date.year, m.date.month, m.date.day)?;
    let clock = NaiveTime::from_num_seconds_from_midnight_opt(m.second, 0)?;
    Some(day.and_time(clock).and_utc().to_rfc3339())
}

/// The date `days` days later, as `YYYY-MM-DD`.
pub fn add_days(d: &Date, days: i64) -> (r: Option<String>)
    ensures
        text::opt_text(r) == d.plus_days(days as int),
{
    match date_later(d, days) {
        Some(later) => write_date(&later, "%Y-%m-%d"),
        None => None,
    }
}

/// The time `seconds` seconds after midnight UTC of a date, as RFC 3339.
pub fn add_seconds(d: &Date, seconds: i64) -> (r: Option<String>)
    ensures
        text::opt_text(r) == d.plus_seconds(seconds as int),
{
    let midnight = Moment { date: *d, second: 0 };
    match time_later(&midnight, seconds) {
        Some(later) => write_time(&later),
        None => None,
    }
}

/// `DateTime::parse_from_rfc3339` and `timestamp_millis`: a function of the text,
/// with nothing where it is no RFC 3339 time.
#[verifier::external_body]
pub(crate) fn parse_rfc3339_millis(s: &str) -> (r: Option<i64>)
    ensures
        text::opt_i64(r) == rfc3339_millis(s@),
{
    DateTime::parse_from_rfc3339(s).ok().map(|t| t.timestamp_millis())
}

/// Whether a text and a number of milliseconds since the epoch are one instant. A year that
/// has not four digits is not written as RFC 3339.
pub open spec fn one_instant(s: Seq<char>, millis: int) -> bool {
    0 <= millis < 253_402_300_800_000 ==> rfc3339_millis(s) == Some(millis)
}

/// `Utc::now`: the current time as RFC 3339 and in milliseconds since the epoch, read
/// once. Nothing is said of which time it is.
#[verifier::external_body]
pub(crate) fn now() -> (r: (String, i64))
    ensures
        one_instant(r.0@, r.1 as int),
{
    let t = Utc::now();
    (t.to_rfc3339(), t.timestamp_millis())
}

} // verus!

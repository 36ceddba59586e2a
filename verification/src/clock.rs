//! Calendar dates, times of day and the timestamps composed of them.
//!
//! A timestamp of an inventory event takes its date from the user and its
//! time of day from the server's clock, so that several events of one day
//! stay distinguishable and ordered.

use vstd::prelude::*;
use chrono::Datelike;
use chrono::Timelike;
use crate::error::{is_error, AppError, ErrorKind};

verus! {

/// A day of the proleptic Gregorian calendar.
#[derive(Clone, Copy, Debug, PartialEq, Eq, Structural)]
pub struct CalendarDate {
    pub year: i32,
    pub month: u32,
    pub day: u32,
}

/// A time of day with nanosecond resolution. A leap second is written as
/// second 59 with a nanosecond count of one billion or more.
#[derive(Clone, Copy, Debug, PartialEq, Eq, Structural)]
pub struct TimeOfDay {
    pub hour: u32,
    pub minute: u32,
    pub second: u32,
    pub nano: u32,
}

/// A date together with a time of day, without a time zone.
#[derive(Clone, Copy, Debug, PartialEq, Eq, Structural)]
pub struct Timestamp {
    pub date: CalendarDate,
    pub time: TimeOfDay,
}

/// Whether `year` has a 29th of February.
pub open spec fn is_leap_year(year: int) -> bool {
    year % 4 == 0 && (year % 100 != 0 || year % 400 == 0)
}

/// The number of days of the given month, or 0 if there is no such month.
pub open spec fn days_in_month(year: int, month: int) -> int {
    if month == 2 {
        if is_leap_year(year) {
            29
        } else {
            28
        }
    } else if month == 4 || month == 6 || month == 9 || month == 11 {
        30
    } else if 1 <= month <= 12 {
        31
    } else {
        0
    }
}

/// The exclusive upper bound of the nanosecond field.
pub const NANOS_LIMIT: u32 = 2_000_000_000;

impl CalendarDate {
    /// Whether this is a day that exists in the calendar.
    pub open spec fn valid(self) -> bool {
        1 <= self.month <= 12 && 1 <= self.day <= days_in_month(self.year as int, self.month as int)
    }

    /// The date with the given fields, if there is such a day.
    pub fn new(year: i32, month: u32, day: u32) -> (date: Option<CalendarDate>)
        ensures
            date == (if (CalendarDate { year, month, day }).valid() {
                Some(CalendarDate { year, month, day })
            } else {
                None
            }),
    {
        if month < 1 || month > 12 || day < 1 {
            return None;
        }
        let leap = year % 4 == 0 && (year % 100 != 0 || year % 400 == 0);
        let days: u32 = if month == 2 {
            if leap {
                29
            } else {
                28
            }
        } else if month == 4 || month == 6 || month == 9 || month == 11 {
            30
        } else {
            31
        };
        if day <= days {
            Some(CalendarDate { year, month, day })
        } else {
            None
        }
    }
}

impl TimeOfDay {
    /// Whether every field is within its range.
    pub open spec fn valid(self) -> bool {
        self.hour < 24 && self.minute < 60 && self.second < 60 && self.nano < NANOS_LIMIT
    }

    /// The time of day with the given fields, if each is within its range.
    pub fn new(hour: u32, minute: u32, second: u32, nano: u32) -> (time: Option<TimeOfDay>)
        ensures
            time == (if (TimeOfDay { hour, minute, second, nano }).valid() {
                Some(TimeOfDay { hour, minute, second, nano })
            } else {
                None
            }),
    {
        if hour < 24 && minute < 60 && second < 60 && nano < NANOS_LIMIT {
            Some(TimeOfDay { hour, minute, second, nano })
        } else {
            None
        }
    }
}

impl Timestamp {
    /// Whether both the date and the time of day are valid.
    pub open spec fn valid(self) -> bool {
        self.date.valid() && self.time.valid()
    }

    /// Whether `self` comes strictly before `other`: fields are compared
    /// from the year down to the nanosecond, the first difference deciding.
    pub open spec fn before(self, other: Timestamp) -> bool {
        let a = self;
        let b = other;
        if a.date.year != b.date.year {
            a.date.year < b.date.year
        } else if a.date.month != b.date.month {
            a.date.month < b.date.month
        } else if a.date.day != b.date.day {
            a.date.day < b.date.day
        } else if a.time.hour != b.time.hour {
            a.time.hour < b.time.hour
        } else if a.time.minute != b.time.minute {
            a.time.minute < b.time.minute
        } else if a.time.second != b.time.second {
            a.time.second < b.time.second
        } else {
            a.time.nano < b.time.nano
        }
    }

    /// The timestamp of an event: the day named by the user at the time of
    /// day at which the server handles the request.
    pub fn compose(date: CalendarDate, now: Timestamp) -> (at: Timestamp)
        ensures
            at == (Timestamp { date, time: now.time }),
    {
        Timestamp { date, time: now.time }
    }

    /// Whether `self` comes strictly before `other`.
    pub fn precedes(&self, other: &Timestamp) -> (earlier: bool)
        ensures
            earlier == self.before(*other),
    {
        if self.date.year != other.date.year {
            self.date.year < other.date.year
        } else if self.date.month != other.date.month {
            self.date.month < other.date.month
        } else if self.date.day != other.date.day {
            self.date.day < other.date.day
        } else if self.time.hour != other.time.hour {
            self.time.hour < other.time.hour
        } else if self.time.minute != other.time.minute {
            self.time.minute < other.time.minute
        } else if self.time.second != other.time.second {
            self.time.second < other.time.second
        } else {
            self.time.nano < other.time.nano
        }
    }
}

/// No timestamp comes before itself, and of two different timestamps exactly
/// one comes before the other.
pub proof fn lemma_before_total(a: Timestamp, b: Timestamp)
    ensures
        !a.before(a),
        a != b ==> (a.before(b) != b.before(a)),
        a == b ==> !a.before(b),
{
}

/// Coming before is transitive, also through a timestamp that is merely not
/// later.
pub proof fn lemma_before_transitive(a: Timestamp, b: Timestamp, c: Timestamp)
    ensures
        a.before(b) && b.before(c) ==> a.before(c),
        !b.before(a) && !c.before(b) ==> !c.before(a),
{
}

/// What `chrono::NaiveDate::parse_from_str` with the format `%Y-%m-%d` makes
/// of a text: the year, month and day of the date it reads, or `None` where
/// it reports an error.
pub uninterp spec fn parsed_date(text: Seq<char>) -> Option<(i32, u32, u32)>;

/// The date that the fields read from a text stand for.
pub open spec fn date_of(parts: Option<(i32, u32, u32)>) -> Option<CalendarDate> {
    match parts {
        Some((year, month, day)) => Some(CalendarDate { year, month, day }),
        None => None,
    }
}

/// Calls `chrono::NaiveDate::parse_from_str(text, "%Y-%m-%d")`.
///
/// Trusted: the result is a function of the text alone, named `parsed_date`,
/// and a date that chrono hands out is a day that exists in the calendar.
#[verifier::external_body]
fn chrono_parse_date(text: &str) -> (date: Option<CalendarDate>)
    ensures
        date == date_of(parsed_date(text@)),
        date matches Some(d) ==> d.valid(),
{
    match chrono::NaiveDate::parse_from_str(text, "%Y-%m-%d") {
        Ok(d) => Some(CalendarDate { year: d.year(), month: d.month(), day: d.day() }),
        Err(_) => None,
    }
}

/// Calls `chrono::Local::now` and takes the local date and time of day.
///
/// Trusted: the fields that chrono reports are within their ranges. Nothing
/// is said about which moment it is.
#[verifier::external_body]
fn chrono_local_now() -> (now: Timestamp)
    ensures
        now.valid(),
{
    let t = chrono::Local::now().naive_local();
    Timestamp {
        date: CalendarDate { year: t.year(), month: t.month(), day: t.day() },
        time: TimeOfDay { hour: t.hour(), minute: t.minute(), second: t.second(), nano: t.nanosecond() },
    }
}

/// The result of reading a date, given what the parser made of the text.
pub open spec fn date_or_error(parts: Option<(i32, u32, u32)>, r: Result<CalendarDate, AppError>) -> bool {
    match parts {
        Some((year, month, day)) => r == Ok::<CalendarDate, AppError>(CalendarDate { year, month, day }),
        None => r matches Err(e) && is_error(e, ErrorKind::InvalidInput, "bad date format"@),
    }
}

/// Turns the parser's answer into the result handed to the caller: the date,
/// or an invalid-input error where the text was not a date.
pub fn checked_date(date: Option<CalendarDate>) -> (r: Result<CalendarDate, AppError>)
    ensures
        match date {
            Some(d) => r == Ok::<CalendarDate, AppError>(d),
            None => r matches Err(e) && is_error(e, ErrorKind::InvalidInput, "bad date format"@),
        },
{
    match date {
        Some(d) => Ok(d),
        None => Err(AppError::bad_request("bad date format")),
    }
}

/// Reads a calendar date written as year, month and day separated by
/// hyphens, as a date field of a form submits it.
pub fn parse_date(text: &str) -> (r: Result<CalendarDate, AppError>)
    ensures
        date_or_error(parsed_date(text@), r),
        r matches Ok(d) ==> d.valid(),
{
    checked_date(chrono_parse_date(text))
}

/// The server's local date and time at the moment of the call.
pub fn now() -> (t: Timestamp)
    ensures
        t.valid(),
{
    chrono_local_now()
}

} // verus!

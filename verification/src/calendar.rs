//! Calendar dates with a four-digit year and times of day to the second.
//!
//! Whether a date exists and how dates and times are written out is left to
//! `chrono`; this module states what it relies on and keeps the values as
//! plain numbers.

use crate::decimal::digit_char;
use chrono::{Datelike, NaiveDate, NaiveTime, Timelike};
use vstd::prelude::*;

verus! {

/// A year with a 29th of February.
pub open spec fn is_leap_year(year: int) -> bool {
    year % 4 == 0 && (year % 100 != 0 || year % 400 == 0)
}

/// The number of days of a month of the Gregorian calendar.
pub open spec fn days_in_month(year: int, month: int) -> int {
    if month == 2 {
        if is_leap_year(year) {
            29
        } else {
            28
        }
    } else if month == 4 || month == 6 || month == 9 || month == 11 {
        30
    } else {
        31
    }
}

/// A day that exists in the Gregorian calendar, in a year of four digits.
pub open spec fn is_calendar_date(year: int, month: int, day: int) -> bool {
    &&& 0 <= year <= 9999
    &&& 1 <= month <= 12
    &&& 1 <= day <= days_in_month(year, month)
}

/// An hour, minute and second that a clock can show.
pub open spec fn is_clock_time(hour: int, minute: int, second: int) -> bool {
    &&& 0 <= hour < 24
    &&& 0 <= minute < 60
    &&& 0 <= second < 60
}

/// `n` in two digits, with a leading zero where it needs one.
pub open spec fn two_digits(n: int) -> Seq<char> {
    seq![digit_char((n / 10) as nat), digit_char((n % 10) as nat)]
}

/// `n` in four digits, with leading zeros where it needs them.
pub open spec fn four_digits(n: int) -> Seq<char> {
    seq![
        digit_char((n / 1000) as nat),
        digit_char((n / 100 % 10) as nat),
        digit_char((n / 10 % 10) as nat),
        digit_char((n % 10) as nat),
    ]
}

/// What a date is: its year, month and day.
pub struct DateView {
    pub year: int,
    pub month: int,
    pub day: int,
}

impl DateView {
    /// The date exists, in a year from 0 to 9999.
    pub open spec fn is_valid(self) -> bool {
        is_calendar_date(self.year, self.month, self.day)
    }

    /// The date as `YYYYMMDD`.
    pub open spec fn compact(self) -> Seq<char> {
        four_digits(self.year) + two_digits(self.month) + two_digits(self.day)
    }
}

/// What a time of day is: its hour, minute and second.
pub struct TimeView {
    pub hour: int,
    pub minute: int,
    pub second: int,
}

impl TimeView {
    /// A clock can show the time.
    pub open spec fn is_valid(self) -> bool {
        is_clock_time(self.hour, self.minute, self.second)
    }

    /// The time as `HHMM`; the seconds are not written.
    pub open spec fn compact(self) -> Seq<char> {
        two_digits(self.hour) + two_digits(self.minute)
    }
}

/// Asks `chrono` whether a day exists.
///
/// Trusted: for a year from 0 to 9999, `NaiveDate::from_ymd_opt` returns a
/// date exactly when the month is 1 to 12 and the day is 1 to the length of
/// that month in that year, and the date's `year`, `month` and `day` are the
/// numbers it was made from.
#[verifier::external_body]
fn chrono_date(year: i32, month: u32, day: u32) -> (r: Option<(i32, u32, u32)>)
    requires
        0 <= year <= 9999,
    ensures
        r == if is_calendar_date(year as int, month as int, day as int) {
            Some((year, month, day))
        } else {
            None::<(i32, u32, u32)>
        },
{
    match NaiveDate::from_ymd_opt(year, month, day) {
        Some(d) => Some((d.year(), d.month(), d.day())),
        None => None,
    }
}

/// Has `chrono` write a date with the pattern `%Y%m%d`.
///
/// Trusted: for a year from 0 to 9999 the pattern gives the year in four
/// digits and the month and the day in two digits each, all padded with
/// zeros.
#[verifier::external_body]
fn chrono_date_text(year: i32, month: u32, day: u32) -> (s: String)
    requires
        is_calendar_date(year as int, month as int, day as int),
    ensures
        s@ == (DateView { year: year as int, month: month as int, day: day as int }).compact(),
{
    match NaiveDate::from_ymd_opt(year, month, day) {
        Some(d) => d.format("%Y%m%d").to_string(),
        None => String::new(),
    }
}

/// Asks `chrono` whether a clock can show a time.
///
/// Trusted: `NaiveTime::from_hms_opt` returns a time exactly when the hour
/// is below 24 and the minute and the second are below 60, and the time's
/// `hour`, `minute` and `second` are the numbers it was made from.
#[verifier::external_body]
fn chrono_time(hour: u32, minute: u32, second: u32) -> (r: Option<(u32, u32, u32)>)
    ensures
        r == if is_clock_time(hour as int, minute as int, second as int) {
            Some((hour, minute, second))
        } else {
            None::<(u32, u32, u32)>
        },
{
    match NaiveTime::from_hms_opt(hour, minute, second) {
        Some(t) => Some((t.hour(), t.minute(), t.second())),
        None => None,
    }
}

/// Has `chrono` write a time with the pattern `%H%M`.
///
/// Trusted: the pattern gives the hour and the minute in two digits each,
/// padded with zeros, and nothing of the second.
#[verifier::external_body]
fn chrono_time_text(hour: u32, minute: u32, second: u32) -> (s: String)
    requires
        is_clock_time(hour as int, minute as int, second as int),
    ensures
        s@ == (TimeView { hour: hour as int, minute: minute as int, second: second as int })
            .compact(),
{
    match NaiveTime::from_hms_opt(hour, minute, second) {
        Some(t) => t.format("%H%M").to_string(),
        None => String::new(),
    }
}

/// A calendar date between the years 0 and 9999.
#[derive(Clone, Copy, Debug, PartialEq, Eq)]
pub struct Date {
    year: i32,
    month: u32,
    day: u32,
}

impl View for Date {
    type V = DateView;

    closed spec fn view(&self) -> DateView {
        DateView { year: self.year as int, month: self.month as int, day: self.day as int }
    }
}

impl Date {
    #[verifier::type_invariant]
    closed spec fn exists_in_calendar(self) -> bool {
        is_calendar_date(self.year as int, self.month as int, self.day as int)
    }

    /// The date of the given year, month and day, if there is such a day.
    pub fn from_ymd_opt(year: i32, month: u32, day: u32) -> (r: Option<Date>)
        ensures
            r is Some <==> is_calendar_date(year as int, month as int, day as int),
            r matches Some(d) ==> d@ == (DateView {
                year: year as int,
                month: month as int,
                day: day as int,
            }),
    {
        if year < 0 || year > 9999 {
            return None;
        }
        match chrono_date(year, month, day) {
            Some((y, m, d)) => Some(Date { year: y, month: m, day: d }),
            None => None,
        }
    }

    pub fn year(&self) -> (y: i32)
        ensures
            y == self@.year,
            self@.is_valid(),
    {
        proof {
            use_type_invariant(self);
        }
        self.year
    }

    pub fn month(&self) -> (m: u32)
        ensures
            m == self@.month,
            self@.is_valid(),
    {
        proof {
            use_type_invariant(self);
        }
        self.month
    }

    pub fn day(&self) -> (d: u32)
        ensures
            d == self@.day,
            self@.is_valid(),
    {
        proof {
            use_type_invariant(self);
        }
        self.day
    }

    /// The date as `YYYYMMDD`.
    pub fn compact(&self) -> (s: String)
        ensures
            s@ == self@.compact(),
            self@.is_valid(),
    {
        proof {
            use_type_invariant(self);
        }
        chrono_date_text(self.year, self.month, self.day)
    }
}

/// A time of day, to the second.
#[derive(Clone, Copy, Debug, PartialEq, Eq)]
pub struct Time {
    hour: u32,
    minute: u32,
    second: u32,
}

impl View for Time {
    type V = TimeView;

    closed spec fn view(&self) -> TimeView {
        TimeView { hour: self.hour as int, minute: self.minute as int, second: self.second as int }
    }
}

impl Time {
    #[verifier::type_invariant]
    closed spec fn on_the_clock(self) -> bool {
        is_clock_time(self.hour as int, self.minute as int, self.second as int)
    }

    /// The time of the given hour, minute and second, if a clock can show it.
    pub fn from_hms_opt(hour: u32, minute: u32, second: u32) -> (r: Option<Time>)
        ensures
            r is Some <==> is_clock_time(hour as int, minute as int, second as int),
            r matches Some(t) ==> t@ == (TimeView {
                hour: hour as int,
                minute: minute as int,
                second: second as int,
            }),
    {
        match chrono_time(hour, minute, second) {
            Some((h, m, s)) => Some(Time { hour: h, minute: m, second: s }),
            None => None,
        }
    }

    pub fn hour(&self) -> (h: u32)
        ensures
            h == self@.hour,
            self@.is_valid(),
    {
        proof {
            use_type_invariant(self);
        }
        self.hour
    }

    pub fn minute(&self) -> (m: u32)
        ensures
            m == self@.minute,
            self@.is_valid(),
    {
        proof {
            use_type_invariant(self);
        }
        self.minute
    }

    pub fn second(&self) -> (s: u32)
        ensures
            s == self@.second,
            self@.is_valid(),
    {
        proof {
            use_type_invariant(self);
        }
        self.second
    }

    /// The time as `HHMM`.
    pub fn compact(&self) -> (s: String)
        ensures
            s@ == self@.compact(),
            self@.is_valid(),
    {
        proof {
            use_type_invariant(self);
        }
        chrono_time_text(self.hour, self.minute, self.second)
    }
}

} // verus!

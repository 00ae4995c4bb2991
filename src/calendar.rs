use chrono::{Datelike, NaiveDate};
use vstd::prelude::*;

verus! {

/// Earliest year that a calendar date may carry.
pub const MIN_YEAR: i32 = -262143;

/// Latest year that a calendar date may carry.
pub const MAX_YEAR: i32 = 262142;

/// Leap years of the proleptic Gregorian calendar.
pub open spec fn is_leap_year(year: int) -> bool {
    year % 4 == 0 && (year % 100 != 0 || year % 400 == 0)
}

/// Number of days in the given month (1 to 12) of the given year.
pub open spec fn days_in_month(year: int, month: int) -> int {
    if month == 2 {
        if is_leap_year(year) {
            29
        } else {
            28
        }
    } else if month == 4 || month == 6 || month == 9 || month == 11 {
        30
    } else {
        31
    }
}

/// Days of the year that lie before the first day of `month`.
pub open spec fn days_before_month(year: int, month: int) -> int
    decreases month,
{
    if month <= 1 {
        0
    } else {
        days_before_month(year, month - 1) + days_in_month(year, month - 1)
    }
}

/// Days of all the years before `year`, counted from the start of year 1
/// (negative for earlier years).
pub open spec fn days_before_year(year: int) -> int {
    let y = year - 1;
    365 * y + y / 4 - y / 100 + y / 400
}

/// Whether year, month and day name a day of the calendar in the supported range.
pub open spec fn is_valid_ymd(year: int, month: int, day: int) -> bool {
    &&& MIN_YEAR <= year <= MAX_YEAR
    &&& 1 <= month <= 12
    &&& 1 <= day <= days_in_month(year, month)
}

/// A day of the proleptic Gregorian calendar, with no time of day and no time zone.
#[derive(Clone, Copy, Debug, PartialEq, Eq, Structural)]
pub struct CalendarDate {
    pub year: i32,
    pub month: u32,
    pub day: u32,
}

impl CalendarDate {
    /// The fields name an existing day in the supported range of years.
    pub open spec fn wf(self) -> bool {
        is_valid_ymd(self.year as int, self.month as int, self.day as int)
    }

    /// Position of the day on a continuous day count: 0001-01-01 is day 1.
    pub open spec fn day_number(self) -> int {
        days_before_year(self.year as int) + days_before_month(self.year as int, self.month as int)
            + self.day
    }

    /// The first day of the same month.
    pub open spec fn first_of_month_spec(self) -> CalendarDate {
        CalendarDate { year: self.year, month: self.month, day: 1 }
    }

    /// The last day of the same month.
    pub open spec fn last_of_month_spec(self) -> CalendarDate {
        CalendarDate {
            year: self.year,
            month: self.month,
            day: days_in_month(self.year as int, self.month as int) as u32,
        }
    }

    /// The day before this one.
    pub open spec fn previous_spec(self) -> CalendarDate {
        if self.day > 1 {
            CalendarDate { year: self.year, month: self.month, day: (self.day - 1) as u32 }
        } else if self.month > 1 {
            CalendarDate {
                year: self.year,
                month: (self.month - 1) as u32,
                day: days_in_month(self.year as int, self.month - 1) as u32,
            }
        } else {
            CalendarDate { year: (self.year - 1) as i32, month: 12, day: 31 }
        }
    }

    /// Builds the date of the given year, month and day, or `None` where no such
    /// day exists in the supported range.
    pub fn new(year: i32, month: u32, day: u32) -> (r: Option<CalendarDate>)
        ensures
            r is Some <==> is_valid_ymd(year as int, month as int, day as int),
            r is Some ==> r->Some_0 == (CalendarDate { year, month, day }),
    {
        if chrono_accepts(year, month, day) {
            Some(CalendarDate { year, month, day })
        } else {
            None
        }
    }

    /// The first day of the same month.
    pub fn first_of_month(&self) -> (r: CalendarDate)
        requires
            self.wf(),
        ensures
            r == self.first_of_month_spec(),
            r.wf(),
    {
        CalendarDate { year: self.year, month: self.month, day: 1 }
    }
}

/// Relies on chrono's `NaiveDate::from_ymd_opt`, which returns `Some` exactly
/// for an existing day with a year from `MIN_YEAR` to `MAX_YEAR`.
#[verifier::external_body]
fn chrono_accepts(year: i32, month: u32, day: u32) -> (r: bool)
    ensures
        r == is_valid_ymd(year as int, month as int, day as int),
{
    NaiveDate::from_ymd_opt(year, month, day).is_some()
}

/// Relies on chrono's `NaiveDate::pred_opt`: the previous calendar day, which
/// exists for every date but the first of year `MIN_YEAR`.
#[verifier::external_body]
fn chrono_previous_day(d: CalendarDate) -> (r: CalendarDate)
    requires
        d.wf(),
        !(d.year == MIN_YEAR && d.month == 1 && d.day == 1),
    ensures
        r == d.previous_spec(),
{
    let n = NaiveDate::from_ymd_opt(d.year, d.month, d.day).unwrap().pred_opt().unwrap();
    CalendarDate { year: n.year(), month: n.month(), day: n.day() }
}

/// Relies on chrono's `NaiveDate::signed_duration_since` and
/// `TimeDelta::num_days`: the signed number of days from `start` to `end`.
#[verifier::external_body]
pub(crate) fn chrono_days_between(start: CalendarDate, end: CalendarDate) -> (r: i64)
    requires
        start.wf(),
        end.wf(),
    ensures
        r == end.day_number() - start.day_number(),
{
    let s = NaiveDate::from_ymd_opt(start.year, start.month, start.day).unwrap();
    let e = NaiveDate::from_ymd_opt(end.year, end.month, end.day).unwrap();
    e.signed_duration_since(s).num_days()
}

/// The last day of the month that `date` lies in: the day before the first of
/// the following month.
pub fn last_day_of_month(date: CalendarDate) -> (r: CalendarDate)
    requires
        date.wf(),
    ensures
        r == date.last_of_month_spec(),
        r.wf(),
{
    if date.month == 12 {
        if date.year == MAX_YEAR {
            // the following January lies beyond the supported range
            CalendarDate { year: date.year, month: 12, day: 31 }
        } else {
            let next = CalendarDate { year: date.year + 1, month: 1, day: 1 };
            chrono_previous_day(next)
        }
    } else {
        let next = CalendarDate { year: date.year, month: date.month + 1, day: 1 };
        chrono_previous_day(next)
    }
}

/// The last day of a month is the last day of its own month.
pub proof fn lemma_last_day_of_month_idempotent(d: CalendarDate)
    requires
        d.wf(),
    ensures
        d.last_of_month_spec().wf(),
        d.last_of_month_spec().last_of_month_spec() == d.last_of_month_spec(),
{
}

} // verus!

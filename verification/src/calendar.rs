//! The proleptic Gregorian calendar as a mathematical model.

use vstd::prelude::*;

verus! {

/// The first year of the supported range of dates: the least year that the
/// representation of a `chrono::NaiveDate` can hold.
pub const MIN_YEAR: i32 = -262_144;

/// The last year of the supported range of dates: the greatest year that the
/// representation of a `chrono::NaiveDate` can hold.
pub const MAX_YEAR: i32 = 262_143;

/// The year of `chrono::NaiveDate::MIN`, the first date that chrono makes on
/// request. It is one year inside the supported range.
pub const MIN_NAIVE_YEAR: i32 = -262_143;

/// The year of `chrono::NaiveDate::MAX`, the last date that chrono makes on
/// request. It is one year inside the supported range.
pub const MAX_NAIVE_YEAR: i32 = 262_142;

/// A year, month and day as unbounded integers. Not every value is a date of
/// the calendar: see [`Ymd::is_valid`].
pub struct Ymd {
    pub year: int,
    pub month: int,
    pub day: int,
}

/// Whether `year` has a 29 February in the proleptic Gregorian calendar.
pub open spec fn is_leap_year(year: int) -> bool {
    year % 4 == 0 && (year % 100 != 0 || year % 400 == 0)
}

/// The number of days of month `month` (1 to 12) in `year`.
pub open spec fn days_in_month(year: int, month: int) -> int {
    if month == 2 {
        if is_leap_year(year) {
            29
        } else {
            28
        }
    } else if month == 4 || month == 6 || month == 9 || month == 11 {
        30
    } else {
        31
    }
}

impl Ymd {
    /// The value names a day that exists in the proleptic Gregorian calendar.
    pub open spec fn is_valid(self) -> bool {
        &&& 1 <= self.month <= 12
        &&& 1 <= self.day <= days_in_month(self.year, self.month)
    }

    /// The value names a day of the calendar in the supported range of years,
    /// [`MIN_YEAR`] to [`MAX_YEAR`].
    pub open spec fn is_supported(self) -> bool {
        &&& self.is_valid()
        &&& MIN_YEAR <= self.year <= MAX_YEAR
    }

    /// The value names a day of the calendar from `chrono::NaiveDate::MIN` to
    /// `chrono::NaiveDate::MAX`: a day that can be made into a `NaiveDate`.
    pub open spec fn fits_naive_date(self) -> bool {
        &&& self.is_valid()
        &&& MIN_NAIVE_YEAR <= self.year <= MAX_NAIVE_YEAR
    }

    /// Chronological order: `self` is strictly earlier than `other`.
    pub open spec fn precedes(self, other: Ymd) -> bool {
        ||| self.year < other.year
        ||| self.year == other.year && self.month < other.month
        ||| self.year == other.year && self.month == other.month && self.day < other.day
    }

    /// The day after `self`.
    pub open spec fn next(self) -> Ymd {
        if self.day < days_in_month(self.year, self.month) {
            Ymd { year: self.year, month: self.month, day: self.day + 1 }
        } else if self.month < 12 {
            Ymd { year: self.year, month: self.month + 1, day: 1 }
        } else {
            Ymd { year: self.year + 1, month: 1, day: 1 }
        }
    }
}

/// A date of the proleptic Gregorian calendar in the supported range of
/// years. Every value is a day that exists: the fields are private, and the
/// constructors check them.
#[derive(Clone, Copy, Debug, PartialEq, Eq, Structural)]
pub struct CalendarDate {
    year: i32,
    month: u32,
    day: u32,
}

impl View for CalendarDate {
    type V = Ymd;

    closed spec fn view(&self) -> Ymd {
        Ymd { year: self.year as int, month: self.month as int, day: self.day as int }
    }
}

impl CalendarDate {
    /// What holds of every value of the type.
    #[verifier::type_invariant]
    pub open spec fn is_supported(self) -> bool {
        self@.is_supported()
    }

    /// The date `year`-`month`-`day`, or `None` where there is no such day in
    /// the calendar or the year is out of the supported range.
    pub fn new(year: i32, month: u32, day: u32) -> (date: Option<CalendarDate>)
        ensures
            date.is_some() <==> (Ymd {
                year: year as int,
                month: month as int,
                day: day as int,
            }).is_supported(),
            date matches Some(d) ==> d@ == (Ymd {
                year: year as int,
                month: month as int,
                day: day as int,
            }),
    {
        if year < MIN_YEAR || year > MAX_YEAR || month < 1 || month > 12 {
            return None;
        }
        if day < 1 || day > month_length(year, month) {
            return None;
        }
        Some(CalendarDate { year, month, day })
    }

    /// The date `year`-`month`-`day`, known to be in the supported range.
    pub(crate) fn from_supported(year: i32, month: u32, day: u32) -> (date: CalendarDate)
        requires
            (Ymd { year: year as int, month: month as int, day: day as int }).is_supported(),
        ensures
            date@ == (Ymd { year: year as int, month: month as int, day: day as int }),
    {
        CalendarDate { year, month, day }
    }

    /// The year of the date.
    pub fn year(&self) -> (year: i32)
        ensures
            year == self@.year,
            self@.is_supported(),
    {
        proof {
            use_type_invariant(self);
        }
        self.year
    }

    /// The month of the date, from 1 to 12.
    pub fn month(&self) -> (month: u32)
        ensures
            month == self@.month,
            self@.is_supported(),
    {
        proof {
            use_type_invariant(self);
        }
        self.month
    }

    /// The day of the month, from 1.
    pub fn day(&self) -> (day: u32)
        ensures
            day == self@.day,
            self@.is_supported(),
    {
        proof {
            use_type_invariant(self);
        }
        self.day
    }
}

// Whether `year` is a leap year.
fn leap_year(year: i32) -> (leap: bool)
    ensures
        leap == is_leap_year(year as int),
{
    // 2_147_484_000 is a multiple of 400 that lifts every `i32` above zero.
    let lifted: i64 = year as i64 + 2_147_484_000;
    assert(lifted % 4 == year as int % 4);
    assert(lifted % 100 == year as int % 100);
    assert(lifted % 400 == year as int % 400);
    lifted % 4 == 0 && (lifted % 100 != 0 || lifted % 400 == 0)
}

// The number of days of month `month` in `year`.
fn month_length(year: i32, month: u32) -> (days: u32)
    ensures
        days == days_in_month(year as int, month as int),
{
    if month == 2 {
        if leap_year(year) {
            29
        } else {
            28
        }
    } else if month == 4 || month == 6 || month == 9 || month == 11 {
        30
    } else {
        31
    }
}

} // verus!

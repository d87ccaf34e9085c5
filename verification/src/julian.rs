//! The Julian Day: a count of days that runs through the whole calendar.

use vstd::prelude::*;
use vstd::arithmetic::div_mod::lemma_fundamental_div_mod_converse;
use vstd::std_specs::convert::FromSpecImpl;
use chrono::NaiveDate;
use crate::calendar::{CalendarDate, Ymd};
use crate::day_number::{
    date_of_julian_day, is_date_of_julian_day, julian_day_number, lemma_century_split,
    lemma_date_round_trip, lemma_julian_day_round_trip, lemma_month_split,
    lemma_naive_date_range, lemma_next_day, lemma_supported_range, lemma_year_split,
    MAX_JULIAN_DAY, MAX_NAIVE_JULIAN_DAY, MIN_JULIAN_DAY, MIN_NAIVE_JULIAN_DAY,
};
use crate::naive::naive_date_view;

verus! {

/// A Julian Day Number. Any integer is one. The conversion to a
/// [`CalendarDate`] takes those of the supported range, [`MIN_JULIAN_DAY`] to
/// [`MAX_JULIAN_DAY`]; the conversion to a `NaiveDate` takes those from
/// [`MIN_NAIVE_JULIAN_DAY`] to [`MAX_NAIVE_JULIAN_DAY`].
#[derive(Clone, Copy, Debug, PartialEq, Eq, Structural)]
pub struct JulianDay(pub i32);

impl View for JulianDay {
    type V = int;

    open spec fn view(&self) -> int {
        self.0 as int
    }
}

impl JulianDay {
    /// The day is that of a date in the supported range of years.
    pub open spec fn is_supported(self) -> bool {
        MIN_JULIAN_DAY <= self.0 <= MAX_JULIAN_DAY
    }

    /// The day is that of a date from `chrono::NaiveDate::MIN` to
    /// `chrono::NaiveDate::MAX`: a date that can be made into a `NaiveDate`.
    pub open spec fn fits_naive_date(self) -> bool {
        MIN_NAIVE_JULIAN_DAY <= self.0 <= MAX_NAIVE_JULIAN_DAY
    }

    /// The Julian Day of a supported `date`: what the conversions from a date
    /// return.
    pub open spec fn of_date(date: Ymd) -> JulianDay {
        JulianDay(julian_day_number(date) as i32)
    }

    /// The date of the day: what the conversions to a date return for a
    /// supported day.
    pub open spec fn date(self) -> Ymd {
        date_of_julian_day(self@)
    }

    /// Construct a new JulianDay.
    pub fn new(day: i32) -> (julian: JulianDay)
        ensures
            julian == JulianDay(day),
    {
        JulianDay(day)
    }

    /// Get the value of JulianDay as i32.
    pub fn inner(self) -> (day: i32)
        ensures
            day == self.0,
    {
        self.0
    }

    /// Convert a JulianDay to a calendar date.
    pub fn to_calendar_date(self) -> (date: CalendarDate)
        requires
            self.is_supported(),
        ensures
            date@ == self.date(),
            is_date_of_julian_day(date@, self@),
    {
        // 95_839_632 days are 656 periods of 400 years, or 2624 centuries:
        // counted from there, no day of the supported range is negative.
        let a: i64 = self.0 as i64 + 32044 + 95_839_632;
        let b: i64 = (4 * a + 3) / 146097;
        proof {
            lemma_day_count_shift(self@ + 32044);
            lemma_century_split(self@ + 32044);
            assert(0 <= b <= 5_294);
        }
        let c: i64 = a - (146097 * b) / 4;
        let d: i64 = (4 * c + 3) / 1461;
        proof {
            lemma_year_split(c as int);
        }
        let e: i64 = c - (1461 * d) / 4;
        let m: i64 = (5 * e + 2) / 153;
        proof {
            lemma_month_split(e as int);
        }
        let day: i64 = e - (153 * m + 2) / 5 + 1;
        let month: i64 = m + 3 - 12 * (m / 10);
        let year: i64 = 100 * b + d - 4800 + m / 10 - 262_400;
        proof {
            let date = self.date();
            assert(date.day == day);
            assert(date.month == month);
            assert(date.year == year);
            lemma_julian_day_round_trip(self@);
            lemma_supported_range(date);
        }
        CalendarDate::from_supported(year as i32, month as u32, day as u32)
    }

    /// Convert a JulianDay to a NaiveDate.
    pub fn to_date(self) -> (date: NaiveDate)
        requires
            self.fits_naive_date(),
        ensures
            naive_date_view(date) == self.date(),
            is_date_of_julian_day(naive_date_view(date), self@),
    {
        let date: CalendarDate = self.to_calendar_date();
        proof {
            lemma_julian_day_round_trip(self@);
            lemma_naive_date_range(self.date());
        }
        date.to_naive_date().unwrap()
    }
}

impl From<CalendarDate> for JulianDay {
    /// Get a JulianDay from a calendar date.
    fn from(date: CalendarDate) -> (julian: JulianDay)
        ensures
            julian@ == julian_day_number(date@),
            julian.is_supported(),
    {
        let year: i64 = date.year() as i64;
        let month: i64 = date.month() as i64;
        let day: i64 = date.day() as i64;
        proof {
            lemma_lifted_day_number(date@);
        }
        let a: i64 = (14 - month) / 12;
        // 262_400 years are 656 periods of 400 years, or 95_839_632 days:
        // counted from there, no year of the supported range is negative.
        let y: i64 = year + 4800 - a + 262_400;
        let m: i64 = month + 12 * a - 3;
        let lifted: i64 = day + (153 * m + 2) / 5 + 365 * y + y / 4 - y / 100 + y / 400;
        JulianDay((lifted - 32045 - 95_839_632) as i32)
    }
}

impl FromSpecImpl<CalendarDate> for JulianDay {
    open spec fn obeys_from_spec() -> bool {
        true
    }

    open spec fn from_spec(date: CalendarDate) -> JulianDay {
        JulianDay::of_date(date@)
    }
}

impl From<NaiveDate> for JulianDay {
    /// Get a JulianDay from a NaiveDate.
    fn from(date: NaiveDate) -> (julian: JulianDay)
        ensures
            julian@ == julian_day_number(naive_date_view(date)),
            julian.is_supported(),
            naive_date_view(date).is_supported(),
            julian.fits_naive_date() <==> naive_date_view(date).fits_naive_date(),
    {
        let own: CalendarDate = CalendarDate::from_naive_date(date);
        proof {
            lemma_julian_day_keeps_date(own@);
        }
        JulianDay::from(own)
    }
}

impl FromSpecImpl<NaiveDate> for JulianDay {
    open spec fn obeys_from_spec() -> bool {
        true
    }

    open spec fn from_spec(date: NaiveDate) -> JulianDay {
        JulianDay::of_date(naive_date_view(date))
    }
}

/// A supported date has a supported Julian Day, and the date of that day is
/// the date again. The day can be converted to a `NaiveDate` exactly where
/// the date can be made into one.
pub proof fn lemma_julian_day_keeps_date(date: Ymd)
    requires
        date.is_supported(),
    ensures
        JulianDay::of_date(date).is_supported(),
        JulianDay::of_date(date).date() == date,
        JulianDay::of_date(date).fits_naive_date() <==> date.fits_naive_date(),
{
    lemma_supported_range(date);
    lemma_naive_date_range(date);
    lemma_date_round_trip(date);
}

/// A supported Julian Day has a supported date, and the Julian Day of that
/// date is the day again. The date can be made into a `NaiveDate` exactly
/// where the day can be converted to one.
pub proof fn lemma_date_keeps_julian_day(julian: JulianDay)
    requires
        julian.is_supported(),
    ensures
        julian.date().is_supported(),
        JulianDay::of_date(julian.date()) == julian,
        julian.date().fits_naive_date() <==> julian.fits_naive_date(),
{
    lemma_julian_day_round_trip(julian@);
    lemma_supported_range(julian.date());
    lemma_naive_date_range(julian.date());
}

/// Where a supported date is followed by a supported date, the Julian Day of
/// the second is that of the first and one more.
pub proof fn lemma_next_date_next_julian_day(date: Ymd)
    requires
        date.is_supported(),
        date.next().is_supported(),
    ensures
        JulianDay::of_date(date.next())@ == JulianDay::of_date(date)@ + 1,
{
    lemma_next_day(date);
    lemma_supported_range(date);
    lemma_supported_range(date.next());
}

// The formula with the year moved by 262_400 years: no operand is negative,
// and the number is greater by 95_839_632.
proof fn lemma_lifted_day_number(date: Ymd)
    requires
        date.is_supported(),
    ensures
        ({
            let a = (14 - date.month) / 12;
            let y = date.year + 4800 - a + 262_400;
            let m = date.month + 12 * a - 3;
            &&& 1 <= date.month <= 12
            &&& 1 <= date.day <= 31
            &&& 0 <= a <= 1
            &&& 0 <= m <= 11
            &&& 0 <= y <= 600_000
            &&& date.day + (153 * m + 2) / 5 + 365 * y + y / 4 - y / 100 + y / 400 - 32045
                - 95_839_632 == julian_day_number(date)
            &&& MIN_JULIAN_DAY <= julian_day_number(date) <= MAX_JULIAN_DAY
        }),
{
    let a = (14 - date.month) / 12;
    lemma_march_years_shift(date.year + 4800 - a);
    lemma_supported_range(date);
}

// Moving a year that begins in March by 262_400 years moves its first day by
// 95_839_632 days.
proof fn lemma_march_years_shift(y: int)
    ensures
        (y + 262_400) / 4 == y / 4 + 65_600,
        (y + 262_400) / 100 == y / 100 + 2_624,
        (y + 262_400) / 400 == y / 400 + 656,
{
    lemma_fundamental_div_mod_converse(y + 262_400, 4, y / 4 + 65_600, y % 4);
    lemma_fundamental_div_mod_converse(y + 262_400, 100, y / 100 + 2_624, y % 100);
    lemma_fundamental_div_mod_converse(y + 262_400, 400, y / 400 + 656, y % 400);
}

// Moving a day count by 95_839_632 days moves its century by 2624 and leaves
// the day of the century.
proof fn lemma_day_count_shift(a: int)
    ensures
        ({
            let b = (4 * a + 3) / 146097;
            let lifted = (4 * (a + 95_839_632) + 3) / 146097;
            &&& lifted == b + 2_624
            &&& (146097 * lifted) / 4 == (146097 * b) / 4 + 95_839_632
        }),
{
    let b = (4 * a + 3) / 146097;
    let r = (4 * a + 3) % 146097;
    lemma_fundamental_div_mod_converse(4 * (a + 95_839_632) + 3, 146097, b + 2_624, r);
    let q = (146097 * b) / 4;
    let s = (146097 * b) % 4;
    lemma_fundamental_div_mod_converse(146097 * (b + 2_624), 4, q + 95_839_632, s);
}

} // verus!

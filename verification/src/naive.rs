//! `chrono::NaiveDate` as the calendar date that callers hand in and get back.
//!
//! The contracts of the four private functions that call `chrono` are not
//! proved: they state what the library relies on from `chrono`, and the rest
//! of the library is proved from them.
//!
//! A `NaiveDate` holds its year in the upper 19 bits of an `i32`. On request
//! chrono makes the dates from `NaiveDate::MIN` to `NaiveDate::MAX` only, but
//! it keeps the year before and the year after for its own intermediate
//! values, and such a value can reach a caller (a `TimeZone` of the caller's
//! own is handed one). So a date is taken with any year that fits, and a
//! date is made only from `NaiveDate::MIN` to `NaiveDate::MAX`.

use vstd::prelude::*;
use chrono::{Datelike, NaiveDate};
use crate::calendar::{days_in_month, CalendarDate, Ymd, MAX_YEAR, MIN_YEAR};

verus! {

/// `chrono::NaiveDate`, carried through as an opaque value.
#[verifier::external_type_specification]
#[verifier::external_body]
pub struct ExNaiveDate(chrono::NaiveDate);

/// The year that `chrono::Datelike::year` returns for `date`.
pub uninterp spec fn naive_date_year(date: NaiveDate) -> i32;

/// The month that `chrono::Datelike::month` returns for `date`.
pub uninterp spec fn naive_date_month(date: NaiveDate) -> u32;

/// The day of the month that `chrono::Datelike::day` returns for `date`.
pub uninterp spec fn naive_date_day(date: NaiveDate) -> u32;

/// The year, month and day of `date` as `chrono` reports them.
pub open spec fn naive_date_view(date: NaiveDate) -> Ymd {
    Ymd {
        year: naive_date_year(date) as int,
        month: naive_date_month(date) as int,
        day: naive_date_day(date) as int,
    }
}

/// `chrono::Datelike::year` on a `NaiveDate`. Claimed: the result is the
/// date's year, and it lies between -262144 and 262143. The year is the
/// date's `i32` shifted right by 13 bits, so no other value can come out;
/// nothing is claimed of `NaiveDate::MIN` and `NaiveDate::MAX`.
#[verifier::external_body]
fn year_of(date: &NaiveDate) -> (year: i32)
    ensures
        year == naive_date_year(*date),
        MIN_YEAR <= year <= MAX_YEAR,
{
    date.year()
}

/// `chrono::Datelike::month` on a `NaiveDate`. Claimed: the result is the
/// date's month, from 1 to 12.
#[verifier::external_body]
fn month_of(date: &NaiveDate) -> (month: u32)
    ensures
        month == naive_date_month(*date),
        1 <= month <= 12,
{
    date.month()
}

/// `chrono::Datelike::day` on a `NaiveDate`. Claimed: the result is the
/// date's day of the month, and that day exists in the date's month and year.
#[verifier::external_body]
fn day_of(date: &NaiveDate) -> (day: u32)
    ensures
        day == naive_date_day(*date),
        1 <= day <= days_in_month(naive_date_year(*date) as int, naive_date_month(*date) as int),
{
    date.day()
}

/// `chrono::NaiveDate::from_ymd_opt`. Claimed: the result is `None` exactly
/// where the day does not exist in the calendar or the year is outside the
/// years of `NaiveDate::MIN` and `NaiveDate::MAX`; otherwise it is a date with
/// the year, month and day given.
#[verifier::external_body]
fn from_ymd_opt(year: i32, month: u32, day: u32) -> (date: Option<NaiveDate>)
    ensures
        date.is_some() <==> (Ymd {
            year: year as int,
            month: month as int,
            day: day as int,
        }).fits_naive_date(),
        date matches Some(d) ==> naive_date_view(d) == (Ymd {
            year: year as int,
            month: month as int,
            day: day as int,
        }),
{
    NaiveDate::from_ymd_opt(year, month, day)
}

impl CalendarDate {
    /// The date that `date` holds. Every `NaiveDate` is in the supported
    /// range; not every one is between `NaiveDate::MIN` and `NaiveDate::MAX`.
    pub fn from_naive_date(date: NaiveDate) -> (result: CalendarDate)
        ensures
            result@ == naive_date_view(date),
            naive_date_view(date).is_supported(),
    {
        let year: i32 = year_of(&date);
        let month: u32 = month_of(&date);
        let day: u32 = day_of(&date);
        CalendarDate::from_supported(year, month, day)
    }

    /// The same date as a `chrono::NaiveDate`, or `None` where the date is
    /// before `NaiveDate::MIN` or after `NaiveDate::MAX`.
    pub fn to_naive_date(self) -> (date: Option<NaiveDate>)
        ensures
            date.is_some() <==> self@.fits_naive_date(),
            date matches Some(d) ==> naive_date_view(d) == self@,
    {
        from_ymd_opt(self.year(), self.month(), self.day())
    }
}

} // verus!

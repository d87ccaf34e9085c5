//! The Modified Julian Day: the Julian Day counted from 17 November 1858.
//!
//! Both counts are of whole days from midnight, so they differ by the
//! integer 2 400 001 and not, as the astronomical counts from noon do, by
//! 2 400 000.5.

use vstd::prelude::*;
use vstd::std_specs::convert::FromSpecImpl;
use chrono::NaiveDate;
use crate::calendar::{CalendarDate, Ymd};
use crate::day_number::{
    date_of_julian_day, is_date_of_julian_day, julian_day_number, lemma_date_round_trip,
    lemma_julian_day_round_trip, lemma_naive_date_range, lemma_supported_range,
};
use crate::julian::JulianDay;
use crate::naive::naive_date_view;

verus! {

/// The Julian Day Number of the day whose Modified Julian Day is 0.
pub const MODIFIED_EPOCH: i32 = 2_400_001;

/// The Modified Julian Day of the first supported day.
pub const MIN_MODIFIED_JULIAN_DAY: i32 = -96_425_071;

/// The Modified Julian Day of the last supported day.
pub const MAX_MODIFIED_JULIAN_DAY: i32 = 95_067_188;

/// The Modified Julian Day of `chrono::NaiveDate::MIN`.
pub const MIN_NAIVE_MODIFIED_JULIAN_DAY: i32 = -96_424_705;

/// The Modified Julian Day of `chrono::NaiveDate::MAX`.
pub const MAX_NAIVE_MODIFIED_JULIAN_DAY: i32 = 95_066_823;

/// A Modified Julian Day. Any integer is one. The conversion to a
/// [`CalendarDate`] takes those of the supported range,
/// [`MIN_MODIFIED_JULIAN_DAY`] to [`MAX_MODIFIED_JULIAN_DAY`]; the conversion
/// to a `NaiveDate` takes those from [`MIN_NAIVE_MODIFIED_JULIAN_DAY`] to
/// [`MAX_NAIVE_MODIFIED_JULIAN_DAY`].
#[derive(Clone, Copy, Debug, PartialEq, Eq, Structural)]
pub struct ModifiedJulianDay(pub i32);

impl View for ModifiedJulianDay {
    type V = int;

    open spec fn view(&self) -> int {
        self.0 as int
    }
}

impl ModifiedJulianDay {
    /// The day is that of a date in the supported range of years.
    pub open spec fn is_supported(self) -> bool {
        MIN_MODIFIED_JULIAN_DAY <= self.0 <= MAX_MODIFIED_JULIAN_DAY
    }

    /// The day is that of a date from `chrono::NaiveDate::MIN` to
    /// `chrono::NaiveDate::MAX`: a date that can be made into a `NaiveDate`.
    pub open spec fn fits_naive_date(self) -> bool {
        MIN_NAIVE_MODIFIED_JULIAN_DAY <= self.0 <= MAX_NAIVE_MODIFIED_JULIAN_DAY
    }

    /// The Modified Julian Day of a supported `date`: what the conversions
    /// from a date return.
    pub open spec fn of_date(date: Ymd) -> ModifiedJulianDay {
        ModifiedJulianDay((julian_day_number(date) - MODIFIED_EPOCH) as i32)
    }

    /// The date of the day: what the conversions to a date return for a
    /// supported day.
    pub open spec fn date(self) -> Ymd {
        date_of_julian_day(self@ + MODIFIED_EPOCH)
    }

    /// Construct a new ModifiedJulianDay.
    pub fn new(day: i32) -> (modified: ModifiedJulianDay)
        ensures
            modified == ModifiedJulianDay(day),
    {
        ModifiedJulianDay(day)
    }

    /// Get the value of ModifiedJulianDay as i32.
    pub fn inner(self) -> (day: i32)
        ensures
            day == self.0,
    {
        self.0
    }

    /// Convert a ModifiedJulianDay to a calendar date.
    pub fn to_calendar_date(self) -> (date: CalendarDate)
        requires
            self.is_supported(),
        ensures
            date@ == self.date(),
            is_date_of_julian_day(date@, self@ + MODIFIED_EPOCH),
    {
        let julian = JulianDay::new(self.inner() + MODIFIED_EPOCH);
        julian.to_calendar_date()
    }

    /// Convert a ModifiedJulianDay to a NaiveDate.
    pub fn to_date(self) -> (date: NaiveDate)
        requires
            self.fits_naive_date(),
        ensures
            naive_date_view(date) == self.date(),
            is_date_of_julian_day(naive_date_view(date), self@ + MODIFIED_EPOCH),
    {
        let julian = JulianDay::new(self.inner() + MODIFIED_EPOCH);
        julian.to_date()
    }
}

impl From<CalendarDate> for ModifiedJulianDay {
    /// Get a ModifiedJulianDay from a calendar date.
    fn from(date: CalendarDate) -> (modified: ModifiedJulianDay)
        ensures
            modified@ == julian_day_number(date@) - MODIFIED_EPOCH,
            modified.is_supported(),
    {
        let julian: JulianDay = date.into();
        ModifiedJulianDay(julian.inner() - MODIFIED_EPOCH)
    }
}

impl FromSpecImpl<CalendarDate> for ModifiedJulianDay {
    open spec fn obeys_from_spec() -> bool {
        true
    }

    open spec fn from_spec(date: CalendarDate) -> ModifiedJulianDay {
        ModifiedJulianDay::of_date(date@)
    }
}

impl From<NaiveDate> for ModifiedJulianDay {
    /// Get a ModifiedJulianDay from a NaiveDate.
    fn from(date: NaiveDate) -> (modified: ModifiedJulianDay)
        ensures
            modified@ == julian_day_number(naive_date_view(date)) - MODIFIED_EPOCH,
            modified.is_supported(),
            naive_date_view(date).is_supported(),
            modified.fits_naive_date() <==> naive_date_view(date).fits_naive_date(),
    {
        let julian: JulianDay = date.into();
        ModifiedJulianDay(julian.inner() - MODIFIED_EPOCH)
    }
}

impl FromSpecImpl<NaiveDate> for ModifiedJulianDay {
    open spec fn obeys_from_spec() -> bool {
        true
    }

    open spec fn from_spec(date: NaiveDate) -> ModifiedJulianDay {
        ModifiedJulianDay::of_date(naive_date_view(date))
    }
}

/// The Modified Julian Day of a supported date is its Julian Day less
/// [`MODIFIED_EPOCH`].
pub proof fn lemma_modified_is_julian_less_epoch(date: Ymd)
    requires
        date.is_supported(),
    ensures
        ModifiedJulianDay::of_date(date)@ == JulianDay::of_date(date)@ - MODIFIED_EPOCH,
{
    lemma_supported_range(date);
}

/// A supported date has a supported Modified Julian Day, and the date of
/// that day is the date again. The day can be converted to a `NaiveDate`
/// exactly where the date can be made into one.
pub proof fn lemma_modified_julian_day_keeps_date(date: Ymd)
    requires
        date.is_supported(),
    ensures
        ModifiedJulianDay::of_date(date).is_supported(),
        ModifiedJulianDay::of_date(date).date() == date,
        ModifiedJulianDay::of_date(date).fits_naive_date() <==> date.fits_naive_date(),
{
    lemma_supported_range(date);
    lemma_naive_date_range(date);
    lemma_date_round_trip(date);
}

/// A supported Modified Julian Day has a supported date, and the Modified
/// Julian Day of that date is the day again. The date can be made into a
/// `NaiveDate` exactly where the day can be converted to one.
pub proof fn lemma_date_keeps_modified_julian_day(modified: ModifiedJulianDay)
    requires
        modified.is_supported(),
    ensures
        modified.date().is_supported(),
        ModifiedJulianDay::of_date(modified.date()) == modified,
        modified.date().fits_naive_date() <==> modified.fits_naive_date(),
{
    lemma_julian_day_round_trip(modified@ + MODIFIED_EPOCH);
    lemma_supported_range(modified.date());
    lemma_naive_date_range(modified.date());
}

} // verus!

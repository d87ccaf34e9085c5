//! Julian day is the continuous count of days since the beginning of the
//! Julian Period. This crate converts a [`JulianDay`] to and from a date of
//! the proleptic Gregorian calendar, given as chrono's `NaiveDate` or as the
//! crate's own [`CalendarDate`].
//!
//! Modified Julian Days are Julian Days counted anew, starting on November 17
//! 1858 at midnight: see [`ModifiedJulianDay`].
//!
//! All arithmetic is on integers, with floor division. A date is a whole day:
//! there is no time of day and no time zone.
//!
//! # Supported range
//!
//! The supported dates are those of the years -262144 to 262143, which are
//! the Julian Days -94 025 070 to 97 467 189: every year that the
//! representation of a `NaiveDate` can hold. Every `NaiveDate` and every
//! [`CalendarDate`] has a day number, and the conversion from a day number to
//! a [`CalendarDate`] requires a number of that range.
//!
//! A `NaiveDate` is made only from `NaiveDate::MIN` to `NaiveDate::MAX`, which
//! are 1 January of the year -262143 and 31 December of the year 262142, the
//! Julian Days -94 024 704 to 97 466 824. The conversions from a day number to
//! a `NaiveDate` require a number of that range. A `NaiveDate` of the year
//! before or the year after, which chrono can hand to a caller, has a day
//! number outside it.
//!
//! # What is proved
//!
//! [`day_number`] defines both directions as functions of unbounded integers
//! and proves that they are inverse to each other on the dates of the
//! calendar, that the number grows by one from a day to the next, and that an
//! earlier date has a smaller number. The conversions of [`julian`] and
//! [`modified`] are proved to compute those functions without overflow.
//! [`naive`] holds what is taken from chrono without proof.

pub mod calendar;
pub mod day_number;
pub mod julian;
pub mod modified;
pub mod naive;

pub use calendar::CalendarDate;
pub use julian::JulianDay;
pub use modified::ModifiedJulianDay;

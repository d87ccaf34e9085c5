//! The Julian Day Number of a calendar date and its inverse.

use vstd::prelude::*;
use vstd::arithmetic::div_mod::lemma_fundamental_div_mod_converse;
use crate::calendar::{
    days_in_month, is_leap_year, Ymd, MAX_NAIVE_YEAR, MAX_YEAR, MIN_NAIVE_YEAR, MIN_YEAR,
};

verus! {

/// The Julian Day Number of 1 January of [`MIN_YEAR`], the first supported
/// day.
pub const MIN_JULIAN_DAY: i32 = -94_025_070;

/// The Julian Day Number of 31 December of [`MAX_YEAR`], the last supported
/// day.
pub const MAX_JULIAN_DAY: i32 = 97_467_189;

/// The Julian Day Number of `chrono::NaiveDate::MIN`, 1 January of
/// [`MIN_NAIVE_YEAR`].
pub const MIN_NAIVE_JULIAN_DAY: i32 = -94_024_704;

/// The Julian Day Number of `chrono::NaiveDate::MAX`, 31 December of
/// [`MAX_NAIVE_YEAR`].
pub const MAX_NAIVE_JULIAN_DAY: i32 = 97_466_824;

/// Days from the start of year 0 to the start of year `y`, both counted from
/// 1 March, so that a leap day is the last day of its year.
pub open spec fn days_before_march_year(y: int) -> int {
    365 * y + y / 4 - y / 100 + y / 400
}

/// Days from 1 March to the first day of the month `m`, where March is 0 and
/// February is 11.
pub open spec fn days_before_march_month(m: int) -> int {
    (153 * m + 2) / 5
}

/// The Julian Day Number of `date`, by the formula of Fliegel and Van Flandern
/// with floor division.
pub open spec fn julian_day_number(date: Ymd) -> int {
    let a = (14 - date.month) / 12;
    let y = date.year + 4800 - a;
    let m = date.month + 12 * a - 3;
    date.day + days_before_march_month(m) + days_before_march_year(y) - 32045
}

/// The calendar date with Julian Day Number `jdn`, by the inverse formula with
/// floor division.
pub open spec fn date_of_julian_day(jdn: int) -> Ymd {
    let a = jdn + 32044;
    let b = (4 * a + 3) / 146097;
    let c = a - (146097 * b) / 4;
    let d = (4 * c + 3) / 1461;
    let e = c - (1461 * d) / 4;
    let m = (5 * e + 2) / 153;
    Ymd {
        year: 100 * b + d - 4800 + m / 10,
        month: m + 3 - 12 * (m / 10),
        day: e - days_before_march_month(m) + 1,
    }
}

/// `date` is the date of the calendar whose Julian Day Number is `jdn`. There
/// is one such date for every `jdn`: see [`lemma_julian_day_round_trip`] and
/// [`lemma_julian_day_number_injective`].
///
/// Not unfolded unless revealed: the quotients of both formulas in one
/// context are costly to reason about.
#[verifier::opaque]
pub open spec fn is_date_of_julian_day(date: Ymd, jdn: int) -> bool {
    date.is_valid() && julian_day_number(date) == jdn
}

/// Every integer is the Julian Day Number of a date of the calendar: of the
/// one that the inverse formula gives.
pub proof fn lemma_julian_day_round_trip(jdn: int)
    ensures
        date_of_julian_day(jdn).is_valid(),
        julian_day_number(date_of_julian_day(jdn)) == jdn,
        is_date_of_julian_day(date_of_julian_day(jdn), jdn),
{
    reveal(is_date_of_julian_day);
    let a = jdn + 32044;
    let b = (4 * a + 3) / 146097;
    let c = a - (146097 * b) / 4;
    let d = (4 * c + 3) / 1461;
    let e = c - (1461 * d) / 4;
    let m = (5 * e + 2) / 153;
    let day = e - days_before_march_month(m) + 1;
    lemma_century_split(a);
    lemma_year_split(c);
    lemma_month_split(e);
    lemma_days_before_century_year(b, d);
    lemma_march_based(100 * b + d, m, day);
    let date = date_of_julian_day(jdn);
    assert(date == Ymd { year: 100 * b + d - 4800 + m / 10, month: m + 3 - 12 * (m / 10), day });
    if m == 11 && day == 29 {
        lemma_leap_day_year(b, d);
    }
}

/// The inverse formula gives back the date of the calendar from which a Julian
/// Day Number was computed.
pub proof fn lemma_date_round_trip(date: Ymd)
    requires
        date.is_valid(),
    ensures
        date_of_julian_day(julian_day_number(date)) == date,
{
    let jdn = julian_day_number(date);
    lemma_julian_day_round_trip(jdn);
    lemma_julian_day_number_injective(date_of_julian_day(jdn), date);
}

/// The count starts on 24 November of the year -4713, which is 1 January
/// of 4713 BCE in the Julian calendar: that day has the number 0. With
/// [`lemma_next_day`] this fixes the number of every date of the calendar.
pub proof fn lemma_julian_day_zero()
    ensures
        julian_day_number(Ymd { year: -4713, month: 11, day: 24 }) == 0,
{
}

/// The day after a date of the calendar is a date of the calendar, and its
/// Julian Day Number is greater by exactly one.
pub proof fn lemma_next_day(date: Ymd)
    requires
        date.is_valid(),
    ensures
        date.next().is_valid(),
        julian_day_number(date.next()) == julian_day_number(date) + 1,
{
    lemma_number_by_month(date);
    lemma_number_by_month(date.next());
    lemma_month_length(date);
}

/// The Julian Day Number grows with the date: of two dates of the calendar
/// the earlier has the smaller number.
pub proof fn lemma_julian_day_number_monotonic(earlier: Ymd, later: Ymd)
    requires
        earlier.is_valid(),
        later.is_valid(),
        earlier.precedes(later),
    ensures
        julian_day_number(earlier) < julian_day_number(later),
{
    lemma_number_by_month(earlier);
    lemma_number_by_month(later);
    let k1 = month_index(earlier);
    let k2 = month_index(later);
    if k1 < k2 {
        lemma_month_length(earlier);
        lemma_months_apart(k1 + 1, k2);
    }
}

/// No two dates of the calendar have the same Julian Day Number.
pub proof fn lemma_julian_day_number_injective(first: Ymd, second: Ymd)
    requires
        first.is_valid(),
        second.is_valid(),
        julian_day_number(first) == julian_day_number(second),
    ensures
        first == second,
{
    if first.precedes(second) {
        lemma_julian_day_number_monotonic(first, second);
    } else if second.precedes(first) {
        lemma_julian_day_number_monotonic(second, first);
    }
}

/// A date of the calendar lies in the supported range of years exactly where
/// its Julian Day Number lies between [`MIN_JULIAN_DAY`] and
/// [`MAX_JULIAN_DAY`].
pub proof fn lemma_supported_range(date: Ymd)
    requires
        date.is_valid(),
    ensures
        date.is_supported() <==> MIN_JULIAN_DAY <= julian_day_number(date) <= MAX_JULIAN_DAY,
{
    lemma_years_range(date, MIN_YEAR as int, MAX_YEAR as int);
    assert(julian_day_number(Ymd { year: MIN_YEAR as int, month: 1, day: 1 }) == MIN_JULIAN_DAY);
    assert(julian_day_number(Ymd { year: MAX_YEAR as int, month: 12, day: 31 }) == MAX_JULIAN_DAY);
}

/// A date of the calendar lies between `chrono::NaiveDate::MIN` and
/// `chrono::NaiveDate::MAX` exactly where its Julian Day Number lies between
/// [`MIN_NAIVE_JULIAN_DAY`] and [`MAX_NAIVE_JULIAN_DAY`].
pub proof fn lemma_naive_date_range(date: Ymd)
    requires
        date.is_valid(),
    ensures
        date.fits_naive_date() <==> MIN_NAIVE_JULIAN_DAY <= julian_day_number(date)
            <= MAX_NAIVE_JULIAN_DAY,
{
    lemma_years_range(date, MIN_NAIVE_YEAR as int, MAX_NAIVE_YEAR as int);
    assert(julian_day_number(Ymd { year: MIN_NAIVE_YEAR as int, month: 1, day: 1 })
        == MIN_NAIVE_JULIAN_DAY);
    assert(julian_day_number(Ymd { year: MAX_NAIVE_YEAR as int, month: 12, day: 31 })
        == MAX_NAIVE_JULIAN_DAY);
}

// A date of the calendar lies in the years from `first_year` to `last_year`
// exactly where its Julian Day Number lies between those of 1 January of the
// one and 31 December of the other.
proof fn lemma_years_range(date: Ymd, first_year: int, last_year: int)
    requires
        date.is_valid(),
    ensures
        first_year <= date.year <= last_year <==> julian_day_number(
            Ymd { year: first_year, month: 1, day: 1 },
        ) <= julian_day_number(date) <= julian_day_number(
            Ymd { year: last_year, month: 12, day: 31 },
        ),
{
    let first = Ymd { year: first_year, month: 1, day: 1 };
    let last = Ymd { year: last_year, month: 12, day: 31 };
    if date.precedes(first) {
        lemma_julian_day_number_monotonic(date, first);
    } else if first.precedes(date) {
        lemma_julian_day_number_monotonic(first, date);
    }
    if date.precedes(last) {
        lemma_julian_day_number_monotonic(date, last);
    } else if last.precedes(date) {
        lemma_julian_day_number_monotonic(last, date);
    }
}

// The first days of the twelve months of a year that begins in March.
proof fn lemma_march_month_starts(m: int)
    requires
        0 <= m <= 11,
    ensures
        m == 0 ==> days_before_march_month(m) == 0,
        m == 1 ==> days_before_march_month(m) == 31,
        m == 2 ==> days_before_march_month(m) == 61,
        m == 3 ==> days_before_march_month(m) == 92,
        m == 4 ==> days_before_march_month(m) == 122,
        m == 5 ==> days_before_march_month(m) == 153,
        m == 6 ==> days_before_march_month(m) == 184,
        m == 7 ==> days_before_march_month(m) == 214,
        m == 8 ==> days_before_march_month(m) == 245,
        m == 9 ==> days_before_march_month(m) == 275,
        m == 10 ==> days_before_march_month(m) == 306,
        m == 11 ==> days_before_march_month(m) == 337,
{
}

// A day count `a` splits into `b` whole centuries and a day `c` of the
// century; only the last century of four has the day 36524.
pub(crate) proof fn lemma_century_split(a: int)
    ensures
        ({
            let b = (4 * a + 3) / 146097;
            let c = a - (146097 * b) / 4;
            &&& 0 <= c <= 36524
            &&& c == 36524 ==> b % 4 == 3
            &&& a == 36524 * b + b / 4 + c
        }),
{
    let b = (4 * a + 3) / 146097;
    let r = (4 * a + 3) % 146097;
    let q = b / 4;
    let s = b % 4;
    let c = a - (146097 * b) / 4;
    assert(4 * a + 3 == 146097 * b + r);
    assert(b == 4 * q + s);
    lemma_fundamental_div_mod_converse(146097 * b, 4, 36524 * b + q, s);
    assert(4 * c == s + r - 3);
}

// A day `c` of a century splits into `d` whole years and a day `e` of the
// year; only the last year of four has the day 365.
pub(crate) proof fn lemma_year_split(c: int)
    requires
        0 <= c <= 36524,
    ensures
        ({
            let d = (4 * c + 3) / 1461;
            let e = c - (1461 * d) / 4;
            &&& 0 <= d <= 99
            &&& 0 <= e <= 365
            &&& e == 365 ==> d % 4 == 3
            &&& d == 99 && e == 365 ==> c == 36524
            &&& c == 365 * d + d / 4 + e
        }),
{
    let d = (4 * c + 3) / 1461;
    let r = (4 * c + 3) % 1461;
    let q = d / 4;
    let s = d % 4;
    let e = c - (1461 * d) / 4;
    assert(4 * c + 3 == 1461 * d + r);
    assert(d == 4 * q + s);
    lemma_fundamental_div_mod_converse(1461 * d, 4, 365 * d + q, s);
    assert(4 * e == s + r - 3);
    assert(0 <= d <= 99);
    if d == 99 {
        assert(q == 24);
    }
}

// A day `e` of a year that begins in March splits into a month `m` and a day
// of the month.
pub(crate) proof fn lemma_month_split(e: int)
    requires
        0 <= e <= 365,
    ensures
        ({
            let m = (5 * e + 2) / 153;
            let day = e - days_before_march_month(m) + 1;
            &&& 0 <= m <= 11
            &&& 1 <= day <= 31
            &&& (m == 1 || m == 3 || m == 6 || m == 8) ==> day <= 30
            &&& m == 11 ==> day <= 29
            &&& m == 11 && day == 29 ==> e == 365
        }),
{
    let m = (5 * e + 2) / 153;
    let r = (5 * e + 2) % 153;
    assert(5 * e + 2 == 153 * m + r);
    assert(0 <= m <= 11);
    lemma_march_month_starts(m);
}

// The first day of the year `d` of century `b`, counted by centuries and by
// years of the century.
proof fn lemma_days_before_century_year(b: int, d: int)
    requires
        0 <= d <= 99,
    ensures
        days_before_march_year(100 * b + d) == 36524 * b + b / 4 + 365 * d + d / 4,
{
    let y = 100 * b + d;
    lemma_fundamental_div_mod_converse(y, 100, b, d);
    lemma_fundamental_div_mod_converse(y, 4, 25 * b + d / 4, d % 4);
    lemma_fundamental_div_mod_converse(y, 400, b / 4, 100 * (b % 4) + d);
}

// The year after the year `d` of century `b` is a leap year where `d` is the
// last of four years, unless it ends a century that is not the last of four.
proof fn lemma_leap_day_year(b: int, d: int)
    requires
        0 <= d <= 99,
        d % 4 == 3,
        d == 99 ==> b % 4 == 3,
    ensures
        is_leap_year(100 * b + d - 4799),
{
}

// What the formula makes of a date given by its year and month counted from
// March.
proof fn lemma_march_based(y: int, m: int, day: int)
    requires
        0 <= m <= 11,
    ensures
        ({
            let date = Ymd { year: y - 4800 + m / 10, month: m + 3 - 12 * (m / 10), day };
            &&& 1 <= date.month <= 12
            &&& date.month == 2 <==> m == 11
            &&& (date.month == 4 || date.month == 6 || date.month == 9 || date.month == 11) <==> (m
                == 1 || m == 3 || m == 6 || m == 8)
            &&& m == 11 ==> date.year == y - 4799
            &&& julian_day_number(date) == day + days_before_march_month(m)
                + days_before_march_year(y) - 32045
        }),
{
    if m >= 10 {
        assert(m / 10 == 1);
    } else {
        assert(m / 10 == 0);
    }
}

// The number of the month of `date` in the count of all months, where the
// months of a year that begins in March have the same quotient by 12.
spec fn month_index(date: Ymd) -> int {
    12 * (date.year + 4800) + date.month - 3
}

// Days from the start of the count to the first day of the month `k`.
spec fn days_before_month(k: int) -> int {
    days_before_march_year(k / 12) + days_before_march_month(k % 12)
}

// Division by 12 of a number given by its quotient and remainder.
proof fn lemma_twelfths(q: int, r: int)
    requires
        0 <= r < 12,
    ensures
        (12 * q + r) / 12 == q,
        (12 * q + r) % 12 == r,
{
    lemma_fundamental_div_mod_converse(12 * q + r, 12, q, r);
}

// The leap years repeat every 400 years.
proof fn lemma_leap_year_shift(year: int)
    ensures
        is_leap_year(year + 4800) == is_leap_year(year),
{
    lemma_fundamental_div_mod_converse(year + 4800, 4, year / 4 + 1200, year % 4);
    lemma_fundamental_div_mod_converse(year + 4800, 100, year / 100 + 48, year % 100);
    lemma_fundamental_div_mod_converse(year + 4800, 400, year / 400 + 12, year % 400);
}

// The quotient and remainder of a month's index by 12 are the year and month
// counted from March that the formula computes.
proof fn lemma_month_index(date: Ymd)
    requires
        1 <= date.month <= 12,
    ensures
        ({
            let a = (14 - date.month) / 12;
            &&& a == if date.month <= 2 { 1int } else { 0int }
            &&& month_index(date) / 12 == date.year + 4800 - a
            &&& month_index(date) % 12 == date.month + 12 * a - 3
        }),
{
    if date.month <= 2 {
        lemma_twelfths(date.year + 4799, date.month + 9);
    } else {
        lemma_twelfths(date.year + 4800, date.month - 3);
    }
}

// The formula counts the days before the month and the days of the month.
proof fn lemma_number_by_month(date: Ymd)
    requires
        1 <= date.month <= 12,
    ensures
        julian_day_number(date) == date.day + days_before_month(month_index(date)) - 32045,
{
    lemma_month_index(date);
}

// A year that begins in March has 366 days where the next calendar year is a
// leap year, and 365 otherwise.
proof fn lemma_march_year_length(y: int)
    ensures
        days_before_march_year(y + 1) == days_before_march_year(y) + if is_leap_year(y + 1) {
            366int
        } else {
            365int
        },
{
    let z = y + 1;
    assert(z / 4 == y / 4 + if z % 4 == 0 { 1int } else { 0int });
    assert(z / 100 == y / 100 + if z % 100 == 0 { 1int } else { 0int });
    assert(z / 400 == y / 400 + if z % 400 == 0 { 1int } else { 0int });
    assert(z % 400 == 0 ==> z % 100 == 0);
    assert(z % 100 == 0 ==> z % 4 == 0);
}

// The lengths of the months from March to January.
proof fn lemma_march_month_length(m: int)
    requires
        0 <= m <= 10,
    ensures
        days_before_march_month(m + 1) == days_before_march_month(m) + if m == 1 || m == 3 || m
            == 6 || m == 8 {
            30int
        } else {
            31int
        },
        days_before_march_month(0) == 0,
        days_before_march_month(11) == 337,
{
    lemma_march_month_starts(m);
    lemma_march_month_starts(m + 1);
    lemma_march_month_starts(0);
    lemma_march_month_starts(11);
}

// From the first day of a month to the first day of the next it is as many
// days as the month has.
proof fn lemma_month_length(date: Ymd)
    requires
        1 <= date.month <= 12,
    ensures
        days_before_month(month_index(date) + 1) == days_before_month(month_index(date))
            + days_in_month(date.year, date.month),
{
    let k = month_index(date);
    let y = k / 12;
    let m = k % 12;
    lemma_month_index(date);
    if date.month == 2 {
        lemma_twelfths(y + 1, 0);
        lemma_march_year_length(y);
        lemma_march_month_length(0);
        lemma_leap_year_shift(date.year);
    } else {
        lemma_twelfths(y, m + 1);
        lemma_march_month_length(m);
    }
}

// No month has fewer than 28 days.
proof fn lemma_month_step(k: int)
    ensures
        days_before_month(k + 1) >= days_before_month(k) + 28,
{
    let y = k / 12;
    let m = k % 12;
    if m == 11 {
        lemma_twelfths(y + 1, 0);
        lemma_march_year_length(y);
        lemma_march_month_length(0);
    } else {
        lemma_twelfths(y, m + 1);
        lemma_march_month_length(m);
    }
}

// A later month begins later.
proof fn lemma_months_apart(k1: int, k2: int)
    requires
        k1 <= k2,
    ensures
        days_before_month(k2) >= days_before_month(k1) + 28 * (k2 - k1),
    decreases k2 - k1,
{
    if k1 < k2 {
        lemma_months_apart(k1, k2 - 1);
        lemma_month_step(k2 - 1);
    }
}

} // verus!

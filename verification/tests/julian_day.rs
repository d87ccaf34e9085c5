use chrono::{Datelike, NaiveDate};
use julianday::calendar::{MAX_NAIVE_YEAR, MAX_YEAR, MIN_NAIVE_YEAR, MIN_YEAR};
use julianday::day_number::{
    MAX_JULIAN_DAY, MAX_NAIVE_JULIAN_DAY, MIN_JULIAN_DAY, MIN_NAIVE_JULIAN_DAY,
};
use julianday::{CalendarDate, JulianDay};

fn date(year: i32, month: u32, day: u32) -> CalendarDate {
    CalendarDate::new(year, month, day).unwrap()
}

#[test]
fn new_and_inner_keep_the_number() {
    for day in [i32::MIN, -1, 0, 1, 2458898, i32::MAX] {
        assert_eq!(JulianDay::new(day).inner(), day);
        assert_eq!(JulianDay::new(day), JulianDay(day));
    }
    assert_ne!(JulianDay::new(1), JulianDay::new(2));
}

#[test]
fn julian_day_of_known_dates() {
    assert_eq!(JulianDay::from(date(2020, 2, 18)), JulianDay(2458898));
    assert_eq!(JulianDay::from(date(1858, 11, 17)), JulianDay(2400001));
    assert_eq!(JulianDay::from(date(2000, 1, 1)), JulianDay(2451545));
    assert_eq!(JulianDay::from(date(1970, 1, 1)), JulianDay(2440588));
    assert_eq!(JulianDay::from(date(1582, 10, 15)), JulianDay(2299161));
    assert_eq!(JulianDay::from(date(1, 1, 1)), JulianDay(1721426));
    assert_eq!(JulianDay::from(date(2014, 12, 14)), JulianDay(2457006));
}

#[test]
fn julian_day_of_dates_before_year_one() {
    assert_eq!(JulianDay::from(date(0, 12, 31)), JulianDay(1721425));
    assert_eq!(JulianDay::from(date(0, 3, 1)), JulianDay(1721120));
    assert_eq!(JulianDay::from(date(0, 2, 29)), JulianDay(1721119));
    assert_eq!(JulianDay::from(date(-4713, 11, 24)), JulianDay(0));
    assert_eq!(JulianDay::from(date(-4713, 11, 23)), JulianDay(-1));
    assert_eq!(JulianDay::from(date(-4800, 3, 1)), JulianDay(-32044));
    assert_eq!(JulianDay::from(date(-4800, 2, 29)), JulianDay(-32045));
    assert_eq!(JulianDay::from(date(-4801, 12, 31)), JulianDay(-32105));
}

#[test]
fn date_of_known_julian_days() {
    assert_eq!(JulianDay(2458898).to_calendar_date(), date(2020, 2, 18));
    assert_eq!(JulianDay(2400001).to_calendar_date(), date(1858, 11, 17));
    assert_eq!(JulianDay(2451545).to_calendar_date(), date(2000, 1, 1));
    assert_eq!(JulianDay(1721426).to_calendar_date(), date(1, 1, 1));
    assert_eq!(JulianDay(1721425).to_calendar_date(), date(0, 12, 31));
    assert_eq!(JulianDay(0).to_calendar_date(), date(-4713, 11, 24));
    assert_eq!(JulianDay(-1).to_calendar_date(), date(-4713, 11, 23));
    assert_eq!(JulianDay(-32044).to_calendar_date(), date(-4800, 3, 1));
    assert_eq!(JulianDay(-32045).to_calendar_date(), date(-4800, 2, 29));
}

#[test]
fn the_supported_range_ends_with_the_supported_years() {
    assert_eq!(MIN_JULIAN_DAY, -94_025_070);
    assert_eq!(MAX_JULIAN_DAY, 97_467_189);
    assert_eq!(JulianDay::from(date(MIN_YEAR, 1, 1)), JulianDay(MIN_JULIAN_DAY));
    assert_eq!(JulianDay::from(date(MAX_YEAR, 12, 31)), JulianDay(MAX_JULIAN_DAY));
    assert_eq!(JulianDay(MIN_JULIAN_DAY).to_calendar_date(), date(MIN_YEAR, 1, 1));
    assert_eq!(JulianDay(MAX_JULIAN_DAY).to_calendar_date(), date(MAX_YEAR, 12, 31));
}

#[test]
fn the_naive_range_ends_with_the_first_and_last_naive_date() {
    assert_eq!(MIN_NAIVE_JULIAN_DAY, -94_024_704);
    assert_eq!(MAX_NAIVE_JULIAN_DAY, 97_466_824);
    assert_eq!(JulianDay::from(date(MIN_NAIVE_YEAR, 1, 1)), JulianDay(MIN_NAIVE_JULIAN_DAY));
    assert_eq!(JulianDay::from(date(MAX_NAIVE_YEAR, 12, 31)), JulianDay(MAX_NAIVE_JULIAN_DAY));
    assert_eq!(JulianDay(MIN_NAIVE_JULIAN_DAY).to_date(), NaiveDate::MIN);
    assert_eq!(JulianDay(MAX_NAIVE_JULIAN_DAY).to_date(), NaiveDate::MAX);
    assert_eq!(JulianDay::from(NaiveDate::MIN), JulianDay(MIN_NAIVE_JULIAN_DAY));
    assert_eq!(JulianDay::from(NaiveDate::MAX), JulianDay(MAX_NAIVE_JULIAN_DAY));
}

#[test]
fn the_days_next_to_the_naive_range_are_of_the_outer_years() {
    assert_eq!(JulianDay(MIN_NAIVE_JULIAN_DAY - 1).to_calendar_date(), date(MIN_YEAR, 12, 31));
    assert_eq!(JulianDay(MAX_NAIVE_JULIAN_DAY + 1).to_calendar_date(), date(MAX_YEAR, 1, 1));
    assert_eq!(JulianDay::from(date(MIN_YEAR, 12, 31)), JulianDay(-94_024_705));
    assert_eq!(JulianDay::from(date(MAX_YEAR, 1, 1)), JulianDay(97_466_825));
    assert_eq!(JulianDay(MIN_NAIVE_JULIAN_DAY - 1).to_calendar_date().to_naive_date(), None);
    assert_eq!(JulianDay(MAX_NAIVE_JULIAN_DAY + 1).to_calendar_date().to_naive_date(), None);
}

#[test]
fn date_to_julian_day_and_back_is_the_same_date() {
    let years = [
        MIN_YEAR, MIN_NAIVE_YEAR, -4801, -4800, -401, -400, -1, 0, 1, 1600, 1900, 2000, 2023, 2024,
        MAX_NAIVE_YEAR, MAX_YEAR,
    ];
    for year in years {
        for month in 1..=12 {
            for day in 1..=31 {
                if let Some(date) = CalendarDate::new(year, month, day) {
                    let julian = JulianDay::from(date);
                    assert!(MIN_JULIAN_DAY <= julian.inner() && julian.inner() <= MAX_JULIAN_DAY);
                    assert_eq!(julian.to_calendar_date(), date);
                    let fits = MIN_NAIVE_JULIAN_DAY <= julian.inner()
                        && julian.inner() <= MAX_NAIVE_JULIAN_DAY;
                    assert_eq!(fits, MIN_NAIVE_YEAR <= year && year <= MAX_NAIVE_YEAR);
                    assert_eq!(date.to_naive_date().is_some(), fits);
                    if let Some(naive) = date.to_naive_date() {
                        assert_eq!(JulianDay::from(naive), julian);
                        assert_eq!(julian.to_date(), naive);
                        assert_eq!(JulianDay::from(naive).to_date(), naive);
                    }
                }
            }
        }
    }
}

#[test]
fn julian_day_to_date_and_back_is_the_same_day() {
    let starts = [
        MIN_JULIAN_DAY, MIN_NAIVE_JULIAN_DAY - 400, -32_500, -400, 1_721_000, 2_299_000, 2_451_000,
        MAX_NAIVE_JULIAN_DAY - 400, MAX_JULIAN_DAY - 800,
    ];
    for start in starts {
        for day in start..=start + 800 {
            let julian = JulianDay::new(day);
            assert_eq!(JulianDay::from(julian.to_calendar_date()), julian);
            if MIN_NAIVE_JULIAN_DAY <= day && day <= MAX_NAIVE_JULIAN_DAY {
                assert_eq!(JulianDay::from(julian.to_date()), julian);
            }
        }
    }
}

#[test]
fn the_next_day_has_the_next_julian_day() {
    let pairs = [
        ((2020, 2, 18), (2020, 2, 19)),
        ((2020, 2, 28), (2020, 2, 29)),
        ((2020, 2, 29), (2020, 3, 1)),
        ((2021, 2, 28), (2021, 3, 1)),
        ((1900, 2, 28), (1900, 3, 1)),
        ((2000, 2, 29), (2000, 3, 1)),
        ((2021, 4, 30), (2021, 5, 1)),
        ((2021, 12, 31), (2022, 1, 1)),
        ((-1, 12, 31), (0, 1, 1)),
        ((0, 12, 31), (1, 1, 1)),
        ((-4801, 12, 31), (-4800, 1, 1)),
        ((MIN_YEAR, 12, 31), (MIN_NAIVE_YEAR, 1, 1)),
        ((MAX_NAIVE_YEAR, 12, 31), (MAX_YEAR, 1, 1)),
    ];
    for ((y1, m1, d1), (y2, m2, d2)) in pairs {
        let today = JulianDay::from(date(y1, m1, d1)).inner();
        let tomorrow = JulianDay::from(date(y2, m2, d2)).inner();
        assert_eq!(tomorrow, today + 1);
    }
}

#[test]
fn every_day_of_four_centuries_follows_the_last() {
    let mut day = NaiveDate::from_ymd_opt(1799, 12, 31).unwrap();
    let mut julian = JulianDay::from(day).inner();
    assert_eq!(julian, 2_378_496);
    for _ in 0..146_097 {
        day = day.succ_opt().unwrap();
        let next = JulianDay::from(day).inner();
        assert_eq!(next, julian + 1);
        julian = next;
    }
    assert_eq!(day, NaiveDate::from_ymd_opt(2199, 12, 31).unwrap());
}

#[test]
fn an_earlier_date_has_a_smaller_julian_day() {
    let dates = [
        date(MIN_YEAR, 1, 1),
        date(MIN_NAIVE_YEAR, 1, 1),
        date(-4800, 2, 29),
        date(-4800, 3, 1),
        date(-1, 12, 31),
        date(0, 1, 1),
        date(1999, 12, 31),
        date(2000, 1, 1),
        date(2000, 1, 31),
        date(2000, 2, 1),
        date(2000, 2, 29),
        date(2000, 3, 1),
        date(2000, 12, 31),
        date(2001, 1, 1),
        date(MAX_NAIVE_YEAR, 12, 31),
        date(MAX_YEAR, 12, 31),
    ];
    for pair in dates.windows(2) {
        assert!(JulianDay::from(pair[0]).inner() < JulianDay::from(pair[1]).inner());
    }
}

#[test]
fn julian_day_counts_as_chrono_counts_days() {
    // 1 January of year 1 is day 1 of chrono's count and Julian Day 1_721_426.
    for year in [MIN_NAIVE_YEAR, -4800, -1, 0, 1, 1858, 2020, MAX_NAIVE_YEAR] {
        for (month, day) in [(1, 1), (2, 28), (3, 1), (7, 4), (12, 31)] {
            let naive = NaiveDate::from_ymd_opt(year, month, day).unwrap();
            let julian = JulianDay::from(naive);
            assert_eq!(julian.inner(), naive.num_days_from_ce() + 1_721_425);
            assert_eq!(julian.to_date(), naive);
        }
    }
}

#[test]
fn to_date_gives_year_month_and_day() {
    let naive = JulianDay::new(2457006).to_date();
    assert_eq!((naive.year(), naive.month(), naive.day()), (2014, 12, 14));
    let own = JulianDay::new(2457006).to_calendar_date();
    assert_eq!((own.year(), own.month(), own.day()), (2014, 12, 14));
}

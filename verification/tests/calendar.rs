use birthday_reminder::calendar::{Date, MAX_YEAR, MIN_YEAR};
use chrono::{Datelike, NaiveDate};

fn date(year: i32, month: u32, day: u32) -> Date {
    match Date::from_ymd_opt(year, month, day) {
        Some(date) => date,
        None => panic!("{}-{}-{} is no date", year, month, day),
    }
}

#[test]
fn date_keeps_year_month_and_day() {
    let day = date(2024, 3, 15);
    assert_eq!(day.year(), 2024);
    assert_eq!(day.month(), 3);
    assert_eq!(day.day(), 15);
    let early = date(-44, 12, 1);
    assert_eq!((early.year(), early.month(), early.day()), (-44, 12, 1));
}

#[test]
fn months_have_their_lengths() {
    let lengths = [31, 28, 31, 30, 31, 30, 31, 31, 30, 31, 30, 31];
    for (index, length) in lengths.iter().enumerate() {
        let month = index as u32 + 1;
        assert!(Date::from_ymd_opt(2023, month, *length).is_some());
        assert!(Date::from_ymd_opt(2023, month, *length + 1).is_none());
        assert!(Date::from_ymd_opt(2023, month, 1).is_some());
        assert!(Date::from_ymd_opt(2023, month, 0).is_none());
    }
}

#[test]
fn february_follows_the_leap_year_rule() {
    assert!(Date::from_ymd_opt(2024, 2, 29).is_some());
    assert!(Date::from_ymd_opt(2024, 2, 30).is_none());
    assert!(Date::from_ymd_opt(2023, 2, 29).is_none());
    assert!(Date::from_ymd_opt(2000, 2, 29).is_some());
    assert!(Date::from_ymd_opt(1900, 2, 29).is_none());
    assert!(Date::from_ymd_opt(2100, 2, 29).is_none());
    assert!(Date::from_ymd_opt(0, 2, 29).is_some());
    assert!(Date::from_ymd_opt(-4, 2, 29).is_some());
    assert!(Date::from_ymd_opt(-1, 2, 29).is_none());
    assert!(Date::from_ymd_opt(-100, 2, 29).is_none());
    assert!(Date::from_ymd_opt(-400, 2, 29).is_some());
}

#[test]
fn month_and_day_have_bounds() {
    assert!(Date::from_ymd_opt(2024, 0, 1).is_none());
    assert!(Date::from_ymd_opt(2024, 13, 1).is_none());
    assert!(Date::from_ymd_opt(2024, 12, 32).is_none());
    assert!(Date::from_ymd_opt(2024, u32::MAX, 1).is_none());
    assert!(Date::from_ymd_opt(2024, 1, u32::MAX).is_none());
    assert!(Date::from_ymd_opt(2024, 4, 31).is_none());
}

#[test]
fn years_have_bounds() {
    assert_eq!(MIN_YEAR, -262143);
    assert_eq!(MAX_YEAR, 262142);
    assert!(Date::from_ymd_opt(MAX_YEAR, 12, 31).is_some());
    assert!(Date::from_ymd_opt(MAX_YEAR + 1, 1, 1).is_none());
    assert!(Date::from_ymd_opt(MIN_YEAR, 1, 1).is_some());
    assert!(Date::from_ymd_opt(MIN_YEAR - 1, 12, 31).is_none());
    assert!(Date::from_ymd_opt(i32::MAX, 1, 1).is_none());
    assert!(Date::from_ymd_opt(i32::MIN, 1, 1).is_none());
    assert_eq!(Date::earliest(), date(MIN_YEAR, 1, 1));
}

#[test]
fn dates_are_ordered_by_year_month_day() {
    let days = [
        date(MIN_YEAR, 1, 1),
        date(-1, 12, 31),
        date(0, 1, 1),
        date(2023, 12, 31),
        date(2024, 1, 1),
        date(2024, 1, 31),
        date(2024, 2, 1),
        date(2024, 2, 29),
        date(2024, 3, 1),
        date(MAX_YEAR, 12, 31),
    ];
    for (i, a) in days.iter().enumerate() {
        for (j, b) in days.iter().enumerate() {
            assert_eq!(a.is_on_or_before(b), i <= j, "{:?} and {:?}", a, b);
        }
    }
}

#[test]
fn stepping_back_counts_calendar_days() {
    let day = date(2024, 3, 15);
    assert_eq!(day.minus_days(0), Some(day));
    assert_eq!(day.minus_days(1), Some(date(2024, 3, 14)));
    assert_eq!(day.minus_days(5), Some(date(2024, 3, 10)));
    assert_eq!(day.minus_days(15), Some(date(2024, 2, 29)));
    assert_eq!(day.minus_days(75), Some(date(2023, 12, 31)));
    assert_eq!(day.minus_days(366), Some(date(2023, 3, 15)));
    assert_eq!(day.minus_days(146097), Some(date(1624, 3, 15)));
    assert_eq!(date(2023, 3, 1).minus_days(1), Some(date(2023, 2, 28)));
    assert_eq!(date(1900, 3, 1).minus_days(1), Some(date(1900, 2, 28)));
    assert_eq!(date(2000, 3, 1).minus_days(1), Some(date(2000, 2, 29)));
    assert_eq!(date(1, 1, 1).minus_days(1), Some(date(0, 12, 31)));
    assert_eq!(date(1, 1, 1).minus_days(366), Some(date(0, 1, 1)));
    assert_eq!(date(1, 1, 1).minus_days(367), Some(date(-1, 12, 31)));
}

#[test]
fn stepping_back_stops_at_the_earliest_date() {
    let first = Date::earliest();
    assert_eq!(first.minus_days(0), Some(first));
    assert_eq!(first.minus_days(1), None);
    assert_eq!(date(MIN_YEAR, 1, 31).minus_days(30), Some(first));
    assert_eq!(date(MIN_YEAR, 1, 31).minus_days(31), None);
    let day = date(2024, 3, 15);
    assert_eq!(day.minus_days(96_485_089), Some(first));
    assert_eq!(day.minus_days(96_485_090), None);
    assert_eq!(day.minus_days(i32::MAX as u64), None);
    assert_eq!(day.minus_days(i32::MAX as u64 + 1), None);
    assert_eq!(day.minus_days(u64::MAX), None);
}

#[test]
fn saturating_step_back_lands_on_the_earliest_date() {
    let day = date(2024, 3, 15);
    assert_eq!(day.minus_days_saturating(5), date(2024, 3, 10));
    assert_eq!(day.minus_days_saturating(0), day);
    assert_eq!(day.minus_days_saturating(96_485_089), Date::earliest());
    assert_eq!(day.minus_days_saturating(96_485_090), Date::earliest());
    assert_eq!(day.minus_days_saturating(u64::MAX), Date::earliest());
    assert_eq!(Date::earliest().minus_days_saturating(1), Date::earliest());
}

#[test]
fn date_of_the_clock_is_a_date_of_the_calendar() {
    let now = chrono::Local::now().naive_local().date();
    let today = date(now.year(), now.month(), now.day());
    assert_eq!(today.day_number(), now.num_days_from_ce() as i64);
    assert!(date(2020, 1, 1).is_on_or_before(&today));
    assert!(today.is_on_or_before(&date(MAX_YEAR, 12, 31)));
}

#[test]
fn day_numbers_count_from_the_first_day_of_year_one() {
    assert_eq!(date(1, 1, 1).day_number(), 1);
    assert_eq!(date(0, 12, 31).day_number(), 0);
    assert_eq!(date(0, 1, 1).day_number(), -365);
    assert_eq!(date(-1, 12, 31).day_number(), -366);
    assert_eq!(date(1600, 2, 29).day_number(), 584_082);
    assert_eq!(date(1970, 1, 1).day_number(), 719_163);
    assert_eq!(date(2024, 3, 15).day_number(), 738_960);
    assert_eq!(Date::earliest().day_number(), -95_746_129);
    assert_eq!(date(MAX_YEAR, 12, 31).day_number(), 95_745_399);
}

#[test]
fn day_numbers_are_those_that_chrono_counts() {
    let mut years: Vec<i32> = (-802..=802).collect();
    years.extend([MIN_YEAR - 1, MIN_YEAR, MIN_YEAR + 1, -100_000, -4_000, 1582, 1899, 1900, 1901]);
    years.extend([1999, 2000, 2001, 2023, 2024, 2025, 2100, 9_999, 100_000]);
    years.extend([MAX_YEAR - 1, MAX_YEAR, MAX_YEAR + 1]);
    for year in years {
        for month in 0..=13 {
            for day in 0..=32 {
                let ours = Date::from_ymd_opt(year, month, day);
                let theirs = NaiveDate::from_ymd_opt(year, month, day);
                match (ours, theirs) {
                    (Some(ours), Some(theirs)) => {
                        assert_eq!(ours.day_number(), theirs.num_days_from_ce() as i64);
                    }
                    (None, None) => {}
                    _ => panic!("{}-{}-{} is a date to one and not to the other", year, month, day),
                }
            }
        }
    }
}

#[test]
fn stepping_back_lowers_the_day_number_by_the_step() {
    let days = [
        date(2024, 3, 15),
        date(2024, 2, 29),
        date(2023, 1, 1),
        date(2000, 12, 31),
        date(1, 1, 1),
        date(0, 3, 1),
        date(-262_000, 6, 30),
        date(MIN_YEAR, 1, 1),
        date(MIN_YEAR, 12, 31),
        date(MAX_YEAR, 12, 31),
    ];
    let steps: [u64; 24] = [
        0, 1, 2, 27, 28, 29, 30, 31, 59, 60, 364, 365, 366, 367, 1_460, 1_461, 36_524, 36_525,
        146_096, 146_097, 146_098, 52_000, 95_000_000, 191_491_528,
    ];
    let earliest = Date::earliest().day_number();
    for day in days.iter() {
        for step in steps.iter() {
            let expected = day.day_number() - *step as i64;
            match day.minus_days(*step) {
                Some(earlier) => {
                    assert_eq!(earlier.day_number(), expected);
                    assert!(earlier.is_on_or_before(day));
                    assert_eq!(day.minus_days_saturating(*step), earlier);
                }
                None => {
                    assert!(expected < earliest, "{:?} less {}", day, step);
                    assert_eq!(day.minus_days_saturating(*step), Date::earliest());
                }
            }
        }
    }
    assert_eq!(date(MAX_YEAR, 12, 31).minus_days(191_491_528), Some(Date::earliest()));
    assert_eq!(date(MAX_YEAR, 12, 31).minus_days(191_491_529), None);
}

#[test]
fn each_day_follows_the_day_before_it() {
    let mut day = date(2025, 1, 1);
    let mut steps: u32 = 0;
    while day != date(2022, 12, 31) {
        let before = match day.minus_days(1) {
            Some(before) => before,
            None => panic!("no day before {:?}", day),
        };
        assert_eq!(before.day_number() + 1, day.day_number());
        assert!(before.is_on_or_before(&day));
        assert!(!day.is_on_or_before(&before));
        let same_month = before.year() == day.year() && before.month() == day.month();
        if same_month {
            assert_eq!(before.day() + 1, day.day());
        } else {
            assert_eq!(day.day(), 1);
            assert!(Date::from_ymd_opt(before.year(), before.month(), before.day() + 1).is_none());
        }
        day = before;
        steps += 1;
    }
    assert_eq!(steps, 366 + 365 + 1);
}

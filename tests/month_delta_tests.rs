use month_delta::calendar::{last_day_of_month, CalendarDate, MAX_YEAR, MIN_YEAR};
use month_delta::month_delta::{impl_month_delta, month_delta, MonthDeltaError};

fn date(year: i32, month: u32, day: u32) -> CalendarDate {
    CalendarDate::new(year, month, day).unwrap()
}

#[test]
fn same_day_two_months_apart() {
    assert_eq!(month_delta(date(2024, 1, 15), date(2024, 3, 15)), 2);
}

#[test]
fn month_end_into_leap_february() {
    assert_eq!(month_delta(date(2024, 1, 31), date(2024, 2, 29)), 1);
}

#[test]
fn month_end_into_common_february() {
    assert_eq!(month_delta(date(2023, 1, 31), date(2023, 2, 28)), 1);
}

#[test]
fn less_than_a_full_month() {
    assert_eq!(month_delta(date(2024, 1, 15), date(2024, 2, 10)), 0);
}

#[test]
fn end_before_start_is_negative() {
    assert_eq!(month_delta(date(2024, 3, 1), date(2024, 1, 1)), -2);
}

#[test]
fn batch_with_an_absent_entry() {
    let starts = vec![Some(date(2024, 1, 1)), None];
    let ends = vec![Some(date(2024, 2, 1)), Some(date(2024, 5, 1))];
    assert_eq!(impl_month_delta(&starts, &ends), Ok(vec![Some(1), None]));
}

#[test]
fn absent_on_either_side_gives_absent() {
    let starts = vec![None, Some(date(2020, 6, 30)), None];
    let ends = vec![Some(date(2021, 6, 30)), None, None];
    assert_eq!(impl_month_delta(&starts, &ends), Ok(vec![None, None, None]));
}

#[test]
fn empty_batch() {
    assert_eq!(impl_month_delta(&vec![], &vec![]), Ok(vec![]));
}

#[test]
fn lengths_differ() {
    let starts = vec![Some(date(2024, 1, 1))];
    let ends = vec![Some(date(2024, 2, 1)), None];
    assert_eq!(impl_month_delta(&starts, &ends), Err(MonthDeltaError::InvalidInput));
}

#[test]
fn a_date_against_itself() {
    for d in [date(2024, 2, 29), date(1, 1, 1), date(MAX_YEAR, 12, 31), date(MIN_YEAR, 1, 1)] {
        assert_eq!(month_delta(d, d), 0);
    }
}

#[test]
fn swapping_negates() {
    let pairs = [
        (date(2024, 1, 15), date(2024, 2, 10)),
        (date(2023, 1, 31), date(2023, 2, 28)),
        (date(2019, 11, 30), date(2024, 2, 29)),
        (date(2024, 1, 20), date(2024, 1, 3)),
    ];
    for (s, e) in pairs {
        assert_eq!(month_delta(s, e), -month_delta(e, s));
    }
}

#[test]
fn aligned_days_count_plain_months() {
    assert_eq!(month_delta(date(1999, 12, 5), date(2001, 3, 5)), 15);
    assert_eq!(month_delta(date(2001, 3, 5), date(1999, 12, 5)), -15);
    assert_eq!(month_delta(date(2020, 7, 31), date(2020, 7, 31)), 0);
}

#[test]
fn both_conditions_at_month_ends() {
    // April 30 to June 30: same day of the month, plain count
    assert_eq!(month_delta(date(2023, 4, 30), date(2023, 6, 30)), 2);
    // February 28 to March 31 of a common year: both dates end their months
    assert_eq!(month_delta(date(2023, 2, 28), date(2023, 3, 31)), 2);
}

#[test]
fn within_one_month() {
    assert_eq!(month_delta(date(2024, 1, 3), date(2024, 1, 20)), 0);
    assert_eq!(month_delta(date(2024, 1, 20), date(2024, 1, 3)), 0);
}

#[test]
fn last_day_of_each_kind_of_month() {
    assert_eq!(last_day_of_month(date(2024, 2, 10)), date(2024, 2, 29));
    assert_eq!(last_day_of_month(date(2023, 2, 1)), date(2023, 2, 28));
    assert_eq!(last_day_of_month(date(1900, 2, 1)), date(1900, 2, 28));
    assert_eq!(last_day_of_month(date(2000, 2, 1)), date(2000, 2, 29));
    assert_eq!(last_day_of_month(date(2024, 4, 1)), date(2024, 4, 30));
    assert_eq!(last_day_of_month(date(2024, 12, 25)), date(2024, 12, 31));
    assert_eq!(last_day_of_month(date(MAX_YEAR, 12, 1)), date(MAX_YEAR, 12, 31));
    assert_eq!(last_day_of_month(date(MIN_YEAR, 1, 1)), date(MIN_YEAR, 1, 31));
}

#[test]
fn last_day_of_month_twice() {
    for d in [date(2024, 2, 10), date(2023, 11, 30), date(2023, 12, 1)] {
        let once = last_day_of_month(d);
        assert_eq!(last_day_of_month(once), once);
    }
}

#[test]
fn construction_checks_the_calendar() {
    assert!(CalendarDate::new(2023, 2, 29).is_none());
    assert!(CalendarDate::new(2024, 2, 29).is_some());
    assert!(CalendarDate::new(2024, 13, 1).is_none());
    assert!(CalendarDate::new(2024, 0, 1).is_none());
    assert!(CalendarDate::new(2024, 4, 31).is_none());
    assert!(CalendarDate::new(2024, 4, 0).is_none());
    assert!(CalendarDate::new(MAX_YEAR + 1, 1, 1).is_none());
    assert!(CalendarDate::new(MIN_YEAR - 1, 12, 31).is_none());
    assert_eq!(
        CalendarDate::new(-4, 2, 29),
        Some(CalendarDate { year: -4, month: 2, day: 29 })
    );
}

#[test]
fn across_years_and_far_apart() {
    assert_eq!(month_delta(date(2023, 12, 31), date(2024, 1, 1)), 0);
    assert_eq!(month_delta(date(MIN_YEAR, 1, 1), date(MAX_YEAR, 12, 1)), 6_291_431);
}

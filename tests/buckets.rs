use lazytodo::{is_valid_bucket, Bucket, Date};

const TODAY: i32 = 739_000;

fn day(offset: i32) -> Date {
    Date { day: TODAY + offset }
}

#[test]
fn all_bucket_holds_every_past_date() {
    for off in [0, -1, -7, -30, -31, -400] {
        assert!(is_valid_bucket(day(off), Bucket::ALL, day(0)));
    }
}

#[test]
fn today_is_in_every_bucket() {
    for b in [Bucket::TODAY, Bucket::WEEK, Bucket::MONTH, Bucket::ALL] {
        assert!(is_valid_bucket(day(0), b, day(0)));
    }
}

#[test]
fn today_bucket_only_today() {
    assert!(!is_valid_bucket(day(-1), Bucket::TODAY, day(0)));
    assert!(!is_valid_bucket(day(1), Bucket::TODAY, day(0)));
}

#[test]
fn week_boundary_is_inclusive() {
    assert!(!is_valid_bucket(day(-8), Bucket::WEEK, day(0)));
    assert!(is_valid_bucket(day(-7), Bucket::WEEK, day(0)));
}

#[test]
fn month_boundary_is_inclusive() {
    assert!(!is_valid_bucket(day(-31), Bucket::MONTH, day(0)));
    assert!(is_valid_bucket(day(-30), Bucket::MONTH, day(0)));
}

#[test]
fn future_dates_pass_week_and_month() {
    assert!(is_valid_bucket(day(5), Bucket::WEEK, day(0)));
    assert!(is_valid_bucket(day(5), Bucket::MONTH, day(0)));
}

#[test]
fn extreme_day_numbers_do_not_overflow() {
    assert!(is_valid_bucket(Date { day: i32::MIN }, Bucket::ALL, Date { day: i32::MAX }));
    assert!(!is_valid_bucket(Date { day: i32::MIN }, Bucket::WEEK, Date { day: i32::MAX }));
    assert!(is_valid_bucket(Date { day: i32::MAX }, Bucket::MONTH, Date { day: i32::MIN }));
}

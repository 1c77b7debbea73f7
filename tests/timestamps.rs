use nanotime::NanoTime;

#[test]
fn test_epoch_zero() {
    let nt = NanoTime::from_epoch(0);
    assert_eq!(nt, NanoTime::new(1970, 1, 1, 0, 0, 0, 0).unwrap());
}

#[test]
fn test_epoch_one_billion() {
    let nt = NanoTime::from_epoch(1_000_000_000);
    assert_eq!(nt, NanoTime::new(2001, 9, 9, 1, 46, 40, 0).unwrap());
}

#[test]
fn test_epoch_leap_year_feb29() {
    let nt = NanoTime::from_epoch(951_782_400);
    assert_eq!(nt.year(), 2000);
    assert_eq!(nt.month(), 2);
    assert_eq!(nt.day(), 29);
}

#[test]
fn test_display_zero_padding() {
    let nt = NanoTime::new(2026, 2, 22, 9, 5, 3, 0).unwrap();
    assert_eq!(nt.to_string(), "09:05:03.000");
}

#[test]
fn test_date_formatting() {
    let nt = NanoTime::new(2026, 2, 22, 0, 0, 0, 0).unwrap();
    assert_eq!(nt.date(), "2026-02-22");
}

#[test]
fn test_datetime_formatting() {
    let nt = NanoTime::new(2026, 2, 22, 9, 5, 3, 0).unwrap();
    assert_eq!(nt.datetime(), "2026-02-22 09:05:03.000");
}

#[test]
fn test_to_epoch_secs_zero() {
    let nt = NanoTime::from_epoch(0);
    assert_eq!(nt.to_epoch_secs(), 0);
}

#[test]
fn test_to_epoch_secs_one_billion() {
    let nt = NanoTime::from_epoch(1_000_000_000);
    assert_eq!(nt.to_epoch_secs(), 1_000_000_000);
}

#[test]
fn test_to_epoch_secs_leap_year() {
    let nt = NanoTime::from_epoch(951_782_400);
    assert_eq!(nt.to_epoch_secs(), 951_782_400);
}

#[test]
fn test_relative_to_just_now() {
    let t = NanoTime::from_epoch(1_000_000);
    assert_eq!(t.relative_to(&t), "just now");
}

#[test]
fn test_relative_to_seconds_ago() {
    let t1 = NanoTime::from_epoch(1_000_000);
    let t2 = NanoTime::from_epoch(1_000_030);
    assert_eq!(t1.relative_to(&t2), "30s ago");
}

#[test]
fn test_relative_to_minutes_ago() {
    let t1 = NanoTime::from_epoch(1_000_000);
    let t2 = NanoTime::from_epoch(1_000_150);
    assert_eq!(t1.relative_to(&t2), "2m ago");
}

#[test]
fn test_relative_to_hours_ago() {
    let t1 = NanoTime::from_epoch(1_000_000);
    let t2 = NanoTime::from_epoch(1_007_200);
    assert_eq!(t1.relative_to(&t2), "2h ago");
}

#[test]
fn test_relative_to_days_ago() {
    let t1 = NanoTime::from_epoch(1_000_000);
    let t2 = NanoTime::from_epoch(1_172_800);
    assert_eq!(t1.relative_to(&t2), "2d ago");
}

#[test]
fn test_relative_to_future() {
    let base = NanoTime::from_epoch(1_000_000);
    assert_eq!(NanoTime::from_epoch(1_000_030).relative_to(&base), "in 30s");
    assert_eq!(NanoTime::from_epoch(1_000_150).relative_to(&base), "in 2m");
    assert_eq!(NanoTime::from_epoch(1_007_200).relative_to(&base), "in 2h");
    assert_eq!(NanoTime::from_epoch(1_172_800).relative_to(&base), "in 2d");
}

#[test]
fn test_relative_to_bucket_boundaries() {
    let base = NanoTime::from_epoch(1_000_000);
    assert_eq!(
        NanoTime::from_epoch(1_000_000 - 59).relative_to(&base),
        "59s ago"
    );
    assert_eq!(
        NanoTime::from_epoch(1_000_000 - 60).relative_to(&base),
        "1m ago"
    );
    assert_eq!(
        NanoTime::from_epoch(1_000_000 - 3599).relative_to(&base),
        "59m ago"
    );
    assert_eq!(
        NanoTime::from_epoch(1_000_000 - 3600).relative_to(&base),
        "1h ago"
    );
    assert_eq!(
        NanoTime::from_epoch(1_000_000 - 86399).relative_to(&base),
        "23h ago"
    );
    assert_eq!(
        NanoTime::from_epoch(1_000_000 - 86400).relative_to(&base),
        "1d ago"
    );
    assert_eq!(
        NanoTime::from_epoch(1_000_000 + 59).relative_to(&base),
        "in 59s"
    );
    assert_eq!(
        NanoTime::from_epoch(1_000_000 + 60).relative_to(&base),
        "in 1m"
    );
    assert_eq!(
        NanoTime::from_epoch(1_000_000 + 3600).relative_to(&base),
        "in 1h"
    );
    assert_eq!(
        NanoTime::from_epoch(1_000_000 + 86400).relative_to(&base),
        "in 1d"
    );
}

#[test]
fn test_from_epoch_zero() {
    let nt = NanoTime::from_epoch(0);
    assert_eq!(nt, NanoTime::new(1970, 1, 1, 0, 0, 0, 0).unwrap());
}

#[test]
fn test_diff_secs_identical() {
    let a = NanoTime::from_epoch(1_000_000);
    assert_eq!(a.diff_secs(&a), 0);
}

#[test]
fn test_diff_secs_known_values() {
    let a = NanoTime::from_epoch(1_000_100);
    let b = NanoTime::from_epoch(1_000_000);
    assert_eq!(a.diff_secs(&b), 100);
    assert_eq!(b.diff_secs(&a), -100);
}

#[test]
fn test_new_valid() {
    assert!(NanoTime::new(2026, 2, 22, 14, 30, 0, 0).is_some());
}

#[test]
fn test_new_invalid_month_zero() {
    assert!(NanoTime::new(2026, 0, 1, 0, 0, 0, 0).is_none());
}

#[test]
fn test_new_invalid_month_13() {
    assert!(NanoTime::new(2026, 13, 1, 0, 0, 0, 0).is_none());
}

#[test]
fn test_new_invalid_day_zero() {
    assert!(NanoTime::new(2026, 1, 0, 0, 0, 0, 0).is_none());
}

#[test]
fn test_new_invalid_day_32() {
    assert!(NanoTime::new(2026, 1, 32, 0, 0, 0, 0).is_none());
}

#[test]
fn test_new_feb29_leap_year() {
    assert!(NanoTime::new(2024, 2, 29, 0, 0, 0, 0).is_some());
}

#[test]
fn test_new_feb29_non_leap_year() {
    assert!(NanoTime::new(2025, 2, 29, 0, 0, 0, 0).is_none());
}

#[test]
fn test_new_feb29_century_leap() {
    assert!(NanoTime::new(2000, 2, 29, 0, 0, 0, 0).is_some());
}

#[test]
fn test_new_feb29_century_non_leap() {
    assert!(NanoTime::new(1900, 2, 29, 0, 0, 0, 0).is_none());
}

#[test]
fn test_new_invalid_hour() {
    assert!(NanoTime::new(2026, 1, 1, 24, 0, 0, 0).is_none());
}

#[test]
fn test_new_invalid_minute() {
    assert!(NanoTime::new(2026, 1, 1, 0, 60, 0, 0).is_none());
}

#[test]
fn test_new_invalid_second() {
    assert!(NanoTime::new(2026, 1, 1, 0, 0, 60, 0).is_none());
}

#[test]
fn test_new_invalid_nanosecond() {
    assert!(NanoTime::new(2026, 1, 1, 0, 0, 0, 1_000_000_000).is_none());
}

#[test]
fn test_new_max_valid_nanosecond() {
    assert!(NanoTime::new(2026, 1, 1, 0, 0, 0, 999_999_999).is_some());
}

#[test]
fn test_millisecond() {
    let nt = NanoTime::new(2026, 1, 1, 0, 0, 0, 123_456_789).unwrap();
    assert_eq!(nt.millisecond(), 123);
}

#[test]
fn test_microsecond() {
    let nt = NanoTime::new(2026, 1, 1, 0, 0, 0, 123_456_789).unwrap();
    assert_eq!(nt.microsecond(), 123_456);
}

#[test]
fn test_from_epoch_ms_known() {
    let nt = NanoTime::from_epoch_ms(1_000_000_000_042);
    assert_eq!(nt.to_epoch_secs(), 1_000_000_000);
    assert_eq!(nt.millisecond(), 42);
}

#[test]
fn test_from_epoch_us_known() {
    let nt = NanoTime::from_epoch_us(1_000_000_000_042_000);
    assert_eq!(nt.to_epoch_secs(), 1_000_000_000);
    assert_eq!(nt.microsecond(), 42_000);
}

#[test]
fn test_from_epoch_nanos_known() {
    let nt = NanoTime::from_epoch_nanos(1_000_000_000_123_456_789);
    assert_eq!(nt.to_epoch_secs(), 1_000_000_000);
    assert_eq!(nt.nanosecond(), 123_456_789);
}

#[test]
fn test_to_epoch_ms() {
    let nt = NanoTime::new(2001, 9, 9, 1, 46, 40, 42_000_000).unwrap();
    assert_eq!(nt.to_epoch_ms(), 1_000_000_000_042);
}

#[test]
fn test_to_epoch_us() {
    let nt = NanoTime::new(2001, 9, 9, 1, 46, 40, 42_000_000).unwrap();
    assert_eq!(nt.to_epoch_us(), 1_000_000_000_042_000);
}

#[test]
fn test_to_epoch_nanos() {
    let nt = NanoTime::new(2001, 9, 9, 1, 46, 40, 123_456_789).unwrap();
    assert_eq!(nt.to_epoch_nanos(), 1_000_000_000_123_456_789);
}

#[test]
fn test_diff_ms_known() {
    let a = NanoTime::new(2001, 9, 9, 1, 46, 40, 100_000_000).unwrap();
    let b = NanoTime::new(2001, 9, 9, 1, 46, 40, 0).unwrap();
    assert_eq!(a.diff_ms(&b), 100);
    assert_eq!(b.diff_ms(&a), -100);
}

#[test]
fn test_diff_us_known() {
    let a = NanoTime::new(2001, 9, 9, 1, 46, 40, 100_000_000).unwrap();
    let b = NanoTime::new(2001, 9, 9, 1, 46, 40, 0).unwrap();
    assert_eq!(a.diff_us(&b), 100_000);
}

#[test]
fn test_diff_nanos_known() {
    let a = NanoTime::new(2001, 9, 9, 1, 46, 40, 100_000_000).unwrap();
    let b = NanoTime::new(2001, 9, 9, 1, 46, 40, 0).unwrap();
    assert_eq!(a.diff_nanos(&b), 100_000_000);
}

#[test]
fn test_datetime_fmt_precision_0() {
    let nt = NanoTime::new(2026, 2, 22, 14, 30, 5, 123_456_789).unwrap();
    assert_eq!(nt.datetime_fmt(0), "2026-02-22 14:30:05");
}

#[test]
fn test_datetime_fmt_precision_3() {
    let nt = NanoTime::new(2026, 2, 22, 14, 30, 5, 123_456_789).unwrap();
    assert_eq!(nt.datetime_fmt(3), "2026-02-22 14:30:05.123");
}

#[test]
fn test_datetime_fmt_precision_6() {
    let nt = NanoTime::new(2026, 2, 22, 14, 30, 5, 123_456_789).unwrap();
    assert_eq!(nt.datetime_fmt(6), "2026-02-22 14:30:05.123456");
}

#[test]
fn test_datetime_fmt_precision_9() {
    let nt = NanoTime::new(2026, 2, 22, 14, 30, 5, 123_456_789).unwrap();
    assert_eq!(nt.datetime_fmt(9), "2026-02-22 14:30:05.123456789");
}

#[test]
fn test_datetime_fmt_precision_clamped() {
    let nt = NanoTime::new(2026, 2, 22, 14, 30, 5, 123_456_789).unwrap();
    assert_eq!(nt.datetime_fmt(15), nt.datetime_fmt(9));
}

#[test]
fn test_ordering() {
    let a = NanoTime::new(2026, 1, 1, 0, 0, 0, 0).unwrap();
    let b = NanoTime::new(2026, 1, 1, 0, 0, 1, 0).unwrap();
    assert!(a < b);
    assert!(b > a);
}

#[test]
fn test_ordering_nanoseconds() {
    let a = NanoTime::new(2026, 1, 1, 0, 0, 0, 100).unwrap();
    let b = NanoTime::new(2026, 1, 1, 0, 0, 0, 200).unwrap();
    assert!(a < b);
}

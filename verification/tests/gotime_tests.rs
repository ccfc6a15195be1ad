//! Go's `time` semantics: durations as wrapping `int64` nanosecond counts, their
//! text, UTC dates and the instants' nanosecond counts.

use sonyflake::gotime::{
    add, after, date, hour, microsecond, millisecond, minute, nanosecond, now, second, sub, unix,
    unix_nano, Duration,
};
use sonyflake::SONYFLAKE_TIME_UNIT;

/// Go's `time.Duration` is an `int64` nanosecond count, so the unit constants are
/// exact multiples and the accessors are lossless.
#[test]
fn duration_units_match_go() {
    assert_eq!(nanosecond().nanoseconds(), 1);
    assert_eq!(microsecond().nanoseconds(), 1_000);
    assert_eq!(millisecond().nanoseconds(), 1_000_000);
    assert_eq!(second().nanoseconds(), 1_000_000_000);
    assert_eq!(minute().nanoseconds(), 60 * 1_000_000_000);
    assert_eq!(hour().nanoseconds(), 3_600 * 1_000_000_000);
    assert_eq!(Duration::from_nanos(42).nanoseconds(), 42);
    assert_eq!(Duration::default(), Duration(0));
}

/// Go's duration arithmetic is `int64` arithmetic: it wraps rather than panicking,
/// and a duration may be negative.
#[test]
fn duration_arithmetic_matches_go() {
    assert_eq!(second() + millisecond(), Duration(1_001_000_000));
    assert_eq!(second() - millisecond(), Duration(999_000_000));
    assert_eq!(-second(), Duration(-1_000_000_000));
    assert_eq!(millisecond() - second(), Duration(-999_000_000));

    // Go allows the count on either side of the unit.
    assert_eq!(3 * second(), Duration(3_000_000_000));
    assert_eq!(second() * 3, Duration(3_000_000_000));

    assert_eq!(Duration(1_234) % 1_000, Duration(234));

    // int64 wrap, not overflow panic.
    assert_eq!(Duration(i64::MAX) + Duration(1), Duration(i64::MIN));
    assert_eq!(Duration(i64::MIN) - Duration(1), Duration(i64::MAX));
}

/// More wrapping: negation and multiplication of the extremes, and a negative
/// remainder, which keeps the sign of the dividend as in Go.
#[test]
fn duration_wrapping_edges() {
    assert_eq!(-Duration(i64::MIN), Duration(i64::MIN));
    assert_eq!(Duration(i64::MAX) * 2, Duration(-2));
    assert_eq!(Duration(-1_234) % 1_000, Duration(-234));
    assert_eq!(Duration(1_234) % -1_000, Duration(234));
}

/// Go's `time.Date` with a UTC location, and `Time.UnixNano` against it.
#[test]
fn date_and_unix_nano_match_go() {
    assert_eq!(unix_nano(date(1970, 1, 1, 0, 0, 0, 0)), 0);
    assert_eq!(unix_nano(date(1970, 1, 1, 0, 0, 1, 0)), 1_000_000_000);
    assert_eq!(unix_nano(date(1969, 12, 31, 23, 59, 59, 0)), -1_000_000_000);

    // The Sonyflake v1 epoch.
    assert_eq!(unix_nano(date(2014, 9, 1, 0, 0, 0, 0)), 1_409_529_600_000_000_000);
    // The Sonyflake v2 epoch.
    assert_eq!(unix_nano(date(2025, 1, 1, 0, 0, 0, 0)), 1_735_689_600_000_000_000);

    assert_eq!(unix_nano(date(2014, 9, 1, 0, 0, 0, 123_456_789)) % 1_000_000_000, 123_456_789);
}

/// Go lets `UnixNano` wrap outside 1678-2262.
#[test]
fn unix_nano_wraps_past_2262_like_go() {
    let far_future = unix_nano(date(2400, 1, 1, 0, 0, 0, 0));
    assert!(far_future < 0, "expected the int64 to wrap negative, got {far_future}");

    let in_range = unix_nano(date(2200, 1, 1, 0, 0, 0, 0));
    assert!(in_range > 0, "year 2200 is still in range, got {in_range}");
}

/// Go's `time.Unix`, including a nanosecond argument outside `[0, 1e9)`.
#[test]
fn unix_matches_go() {
    assert_eq!(unix_nano(unix(0, 0)), 0);
    assert_eq!(unix_nano(unix(1, 500_000_000)), 1_500_000_000);
    assert_eq!(unix_nano(unix(0, 1_500_000_000)), 1_500_000_000);
    assert_eq!(unix_nano(unix(2, -500_000_000)), 1_500_000_000);
    assert_eq!(unix_nano(unix(-1, 0)), -1_000_000_000);
}

/// Go's `Time.Add`, `Time.Sub` and `Time.After`.
#[test]
fn time_arithmetic_matches_go() {
    let base = date(2025, 1, 1, 0, 0, 0, 0);

    assert_eq!(add(base, hour()), date(2025, 1, 1, 1, 0, 0, 0));
    assert_eq!(add(base, -hour()), date(2024, 12, 31, 23, 0, 0, 0));

    assert_eq!(sub(add(base, hour()), base), hour());
    assert_eq!(sub(base, add(base, hour())), -hour());
    assert_eq!(sub(base, base), Duration(0));

    assert!(after(add(base, nanosecond()), base));
    assert!(!after(base, base));
    assert!(!after(base, add(base, nanosecond())));
}

/// `now` is a real clock: it does not run backwards and it is past 2020.
#[test]
fn now_reads_a_real_clock() {
    let first = now();
    let second = now();
    assert!(after(second, first) || second == first);
    assert!(after(first, date(2020, 1, 1, 0, 0, 0, 0)));
}

/// Leap days exist only in leap years, and the end of a month rolls over.
#[test]
fn calendar_edges() {
    assert_eq!(unix_nano(date(2024, 2, 29, 0, 0, 0, 0)), 1_709_164_800_000_000_000);
    assert_eq!(sub(date(2024, 3, 1, 0, 0, 0, 0), date(2024, 2, 28, 0, 0, 0, 0)), 48 * hour());
    assert_eq!(sub(date(2023, 3, 1, 0, 0, 0, 0), date(2023, 2, 28, 0, 0, 0, 0)), 24 * hour());
}

/// The Sonyflake time unit is 10 msec.
#[test]
fn test_sonyflake_time_unit() {
    if Duration(SONYFLAKE_TIME_UNIT) != 10 * millisecond() {
        panic!("unexpected time unit");
    }
}

/// Go's `time.Duration.String`.
#[test]
fn test_duration_display() {
    assert_eq!(Duration(0).to_string(), "0s");
    assert_eq!(Duration(1).to_string(), "1ns");
    assert_eq!(Duration(1_500).to_string(), "1.5µs");
    assert_eq!(Duration(1_500_000).to_string(), "1.5ms");
    assert_eq!((10 * millisecond()).to_string(), "10ms");
    assert_eq!((90 * second()).to_string(), "1m30s");
    assert_eq!((3 * hour() + 25 * minute()).to_string(), "3h25m0s");
    assert_eq!((-(2 * second())).to_string(), "-2s");
}

/// The extremes of `Duration.String`, whose magnitude does not fit `int64`
/// at the lower end.
#[test]
fn duration_display_extremes() {
    assert_eq!(Duration(i64::MAX).to_string(), "2562047h47m16.854775807s");
    assert_eq!(Duration(i64::MIN).to_string(), "-2562047h47m16.854775808s");
    assert_eq!(Duration(999).to_string(), "999ns");
    assert_eq!(Duration(1_000).to_string(), "1µs");
    assert_eq!(Duration(1_000_000_001).to_string(), "1.000000001s");
}

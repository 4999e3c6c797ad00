use poker_server::log::{format_datetime, UtcDateTime};

#[test]
fn formats_utc_dates_at_calendar_boundaries() {
    for (seconds, millis, expected) in [
        (0, 0, "1970-01-01T00:00:00.000Z"),
        (86_399, 999, "1970-01-01T23:59:59.999Z"),
        (86_400, 1, "1970-01-02T00:00:00.001Z"),
        (31_536_000, 0, "1971-01-01T00:00:00.000Z"),
        (951_782_400, 123, "2000-02-29T00:00:00.123Z"),
        (951_868_800, 0, "2000-03-01T00:00:00.000Z"),
        (4_107_542_400, 0, "2100-03-01T00:00:00.000Z"),
        (12_622_780_800, 0, "2370-01-01T00:00:00.000Z"),
    ] {
        assert_eq!(
            format_datetime(UtcDateTime::from_timestamp(seconds, millis * 1_000_000).unwrap()),
            expected
        );
    }
}

#[test]
fn timestamps_outside_the_calendar_or_with_bad_nanoseconds_are_refused() {
    assert!(UtcDateTime::from_timestamp(0, 2_000_000_000).is_none());
    assert!(UtcDateTime::from_timestamp(0, 1_000_000_000).is_none());
    assert!(UtcDateTime::from_timestamp(59, 1_500_000_000).is_some());
    assert!(UtcDateTime::from_timestamp(i64::MAX, 0).is_none());
    assert!(UtcDateTime::from_timestamp(-1, 0).is_some());
    assert_eq!(
        format_datetime(UtcDateTime::from_timestamp(-1, 500_000_000).unwrap()),
        "1969-12-31T23:59:59.500Z"
    );
}

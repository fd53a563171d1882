use radiochron::time::{
    civil_from_days, days_from_civil, epoch_from_iso8601, epoch_seconds_at, format_epoch,
    now_epoch_seconds, now_iso8601,
};
use std::time::{Duration, SystemTime};

#[test]
fn civil_from_days_matches_known_dates() {
    assert_eq!(civil_from_days(0), (1970, 1, 1));
    assert_eq!(civil_from_days(1), (1970, 1, 2));
    // The leap-year boundary the era arithmetic exists to get right.
    assert_eq!(civil_from_days(11_017), (2000, 3, 1));
    assert_eq!(civil_from_days(11_016), (2000, 2, 29));
    assert_eq!(civil_from_days(19_723), (2024, 1, 1));
}

#[test]
fn the_two_conversions_are_inverses() {
    for days in [0i64, 1, 11_016, 11_017, 19_723, 20_654] {
        let (y, m, d) = civil_from_days(days);
        assert_eq!(
            days_from_civil(y, m, d),
            days,
            "round trip failed at {days}"
        );
    }
}

#[test]
fn parses_the_windows_event_timestamp_shape() {
    assert_eq!(epoch_from_iso8601("1970-01-01T00:00:00Z"), Some(0));
    assert_eq!(
        epoch_from_iso8601("2024-01-01T00:00:00.000Z"),
        Some(1_704_067_200)
    );
    assert_eq!(
        epoch_from_iso8601("2000-02-29T12:00:00Z"),
        Some(951_825_600)
    );
    assert_eq!(epoch_from_iso8601("not a timestamp"), None);
}

#[test]
fn formatting_round_trips_through_parsing() {
    let stamp = format_epoch(1_784_528_615);
    assert_eq!(stamp, "2026-07-20T06:23:35Z");
    assert_eq!(epoch_from_iso8601(&stamp), Some(1_784_528_615));
}

#[test]
fn dates_before_the_epoch_round_trip() {
    for days in [-1i64, -60, -25_509, -719_468, -719_469, -1_000_000] {
        let (y, m, d) = civil_from_days(days);
        assert_eq!(days_from_civil(y, m, d), days);
    }
    assert_eq!(civil_from_days(-1), (1969, 12, 31));
    assert_eq!(format_epoch(-1), "1969-12-31T23:59:59Z");
    assert_eq!(epoch_from_iso8601("1969-12-31T23:59:59Z"), Some(-1));
}

#[test]
fn short_and_malformed_timestamps_are_refused() {
    assert_eq!(epoch_from_iso8601(""), None);
    assert_eq!(epoch_from_iso8601("2024-01-01"), None);
    assert_eq!(epoch_from_iso8601("2024/01/01T00:00:00"), None);
    assert_eq!(epoch_from_iso8601("2024-01-01 00:00:00"), None);
    assert_eq!(epoch_from_iso8601("2024-xx-01T00:00:00"), None);
}

#[test]
fn only_one_shape_of_timestamp_is_accepted() {
    let good = [
        ("2024-01-01T00:00:00Z", 1_704_067_200),
        ("2024-01-01T00:00:00.1Z", 1_704_067_200),
        ("2024-02-29T23:59:59.9999999Z", 1_709_251_199),
        ("0000-01-01T00:00:00Z", -62_167_219_200),
        ("9999-12-31T23:59:59Z", 253_402_300_799),
    ];
    for (text, seconds) in good {
        assert_eq!(epoch_from_iso8601(text), Some(seconds), "{text}");
    }
    let bad = [
        "2024-01/01T00/00/00",
        "2024-01-01T00:00:00",
        "2024-01/01T00:00:00Z",
        "2024-01-01T00/00:00Z",
        "2024-01-01T00:00/00Z",
        "2024-01-01T00:00:00.Z",
        "2024-01-01T00:00:00.5",
        "2024-01-01T00:00:00.5xZ",
        "2024-01-01T00:00:00,5Z",
        "2024-01-01T00:00:00+00:00",
        "2024-01-01T00:00:00Zz",
        "+024-01-01T00:00:00Z",
        "-024-01-01T00:00:00Z",
        "2024-+1-01T00:00:00Z",
        "2024-01-01T-1:00:00Z",
        "2024-00-01T00:00:00Z",
        "2024-13-01T00:00:00Z",
        "2024-01-00T00:00:00Z",
        "2023-02-29T00:00:00Z",
        "2024-04-31T00:00:00Z",
        "2024-01-01T24:00:00Z",
        "2024-01-01T00:60:00Z",
        "2024-01-01T00:00:60Z",
        "2024-01-01T00:00:0\u{b2}Z",
    ];
    for text in bad {
        assert_eq!(epoch_from_iso8601(text), None, "{text}");
    }
}

#[test]
fn later_times_have_later_timestamps() {
    let times = [
        -62_167_219_200i64,
        -1,
        0,
        59,
        60,
        3_599,
        86_399,
        86_400,
        951_782_399,
        951_782_400,
        1_784_528_615,
        253_402_300_799,
    ];
    for pair in times.windows(2) {
        let (a, b) = (format_epoch(pair[0]), format_epoch(pair[1]));
        assert_eq!(a.len(), 20);
        assert!(a.as_bytes() < b.as_bytes(), "{a} {b}");
        assert_eq!(epoch_from_iso8601(&a), Some(pair[0]));
    }
}

#[test]
fn days_are_counted_as_far_as_they_fit() {
    // The year whose days come closest to the end of 64 bits.
    assert_eq!(
        days_from_civil(25_252_734_927_768_524, 7, 27),
        9_223_372_036_854_775_807
    );
}

#[test]
fn the_clock_reading_counts_from_the_epoch() {
    assert_eq!(epoch_seconds_at(SystemTime::UNIX_EPOCH), 0);
    assert_eq!(
        epoch_seconds_at(SystemTime::UNIX_EPOCH + Duration::from_millis(61_999)),
        61
    );
    // A clock before the epoch counts as the epoch.
    assert_eq!(
        epoch_seconds_at(SystemTime::UNIX_EPOCH - Duration::from_secs(5)),
        0
    );
}

#[test]
fn the_wall_clock_reads_a_plausible_time() {
    let before = now_epoch_seconds();
    let stamp = now_iso8601();
    let after = now_epoch_seconds();
    let read = epoch_from_iso8601(&stamp).unwrap();
    assert!(before > 1_600_000_000);
    assert!(before <= read && read <= after);
}

//! Durations and points in time.

use ncrawler::error::StoreError;
use ncrawler::since::{parse_since, try_parse_since};
use ncrawler::time::{Timestamp, FIRST_SECOND, LAST_SECOND};

#[test]
fn parses_units() {
    assert_eq!(parse_since("30s").unwrap(), 30);
    assert_eq!(parse_since("45m").unwrap(), 45 * 60);
    assert_eq!(parse_since("24h").unwrap(), 24 * 60 * 60);
    assert_eq!(parse_since("7d").unwrap(), 7 * 24 * 60 * 60);
}

#[test]
fn rejects_garbage() {
    assert!(parse_since("h").is_err());
    assert!(parse_since("12").is_err());
    assert!(parse_since("12w").is_err());
    assert!(parse_since("").is_err());
}

#[test]
fn white_space_around_a_duration_is_dropped() {
    assert_eq!(parse_since(" \t5m\u{a0}").unwrap(), 300);
    assert!(matches!(parse_since(" 5 m "), Err(StoreError::BadSince(s)) if s == "5 m"));
    assert!(parse_since("-5m").is_err());
    assert!(parse_since("99999999999999999999s").is_err());
}

#[test]
fn durations_that_are_too_long_are_set_apart() {
    assert_eq!(try_parse_since("7d").unwrap().unwrap(), 604800);
    assert!(try_parse_since("7x").unwrap().is_err());
    assert_eq!(
        try_parse_since("9223372036854775s").unwrap().unwrap(),
        9223372036854775
    );
    assert!(try_parse_since("9223372036854776s").is_none());
    assert!(try_parse_since("9223372036854775807d").is_none());
}

#[test]
fn points_in_time() {
    assert!(Timestamp::new(FIRST_SECOND, 0).is_some());
    assert!(Timestamp::new(FIRST_SECOND - 1, 0).is_none());
    assert!(Timestamp::new(LAST_SECOND, 999_999_999).is_some());
    assert!(Timestamp::new(LAST_SECOND + 1, 0).is_none());
    // A leap second stands at the end of a minute.
    assert!(Timestamp::new(59, 1_500_000_000).is_some());
    assert!(Timestamp::new(60, 1_500_000_000).is_none());
    assert!(Timestamp::new(59, 2_000_000_000).is_none());
    assert_eq!(
        chrono::DateTime::<chrono::Utc>::MIN_UTC.timestamp(),
        FIRST_SECOND
    );
    assert_eq!(
        chrono::DateTime::<chrono::Utc>::MAX_UTC.timestamp(),
        LAST_SECOND
    );
}

#[test]
fn points_in_time_are_ordered() {
    let a = Timestamp::new(1, 5).unwrap();
    let b = Timestamp::new(1, 6).unwrap();
    let c = Timestamp::new(2, 0).unwrap();
    assert!(a.le(&b) && b.le(&c) && a.le(&a));
    assert!(!b.le(&a) && !c.le(&b));
}

#[test]
fn going_back_in_time_is_what_chrono_does() {
    for (secs, nanos) in [(1_000_000, 7), (59, 1_500_000_000), (FIRST_SECOND + 3, 0)] {
        for back in [0, 1, 2, 60, 86_400] {
            let t = chrono::DateTime::from_timestamp(secs, nanos).unwrap();
            let want = t.checked_sub_signed(chrono::TimeDelta::seconds(back));
            let got = Timestamp::new(secs, nanos).unwrap().earlier_by(back);
            assert_eq!(
                got.map(|g| (g.secs(), g.nanos())),
                want.map(|w| (w.timestamp(), w.timestamp_subsec_nanos())),
            );
        }
    }
}

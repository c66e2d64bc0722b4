use auction_bot::clock::{
    add_minutes, datetime_text, parse_deadline, Timestamp, EARLIEST_SECS, LATEST_SECS,
};
use auction_bot::replies::pretty_print_deadline;
use chrono::{DateTime, NaiveDateTime};

#[test]
fn range_matches_chrono() {
    assert!(DateTime::from_timestamp(EARLIEST_SECS, 0).is_some());
    assert!(DateTime::from_timestamp(EARLIEST_SECS - 1, 999_999_999).is_none());
    assert!(DateTime::from_timestamp(LATEST_SECS, 999_999_999).is_some());
    assert!(DateTime::from_timestamp(LATEST_SECS + 1, 0).is_none());
    assert!(Timestamp::new(EARLIEST_SECS, 0).is_some());
    assert!(Timestamp::new(EARLIEST_SECS - 1, 0).is_none());
    assert!(Timestamp::new(LATEST_SECS, 999_999_999).is_some());
    assert!(Timestamp::new(LATEST_SECS + 1, 0).is_none());
    assert!(Timestamp::new(0, 1_000_000_000).is_none());
}

#[test]
fn deadlines_parse_as_chrono_reads_them() {
    let t = parse_deadline("2021-03-04 05:06").unwrap();
    let expected = NaiveDateTime::parse_from_str("2021-03-04 05:06", "%Y-%m-%d %H:%M").unwrap();
    assert_eq!(t.secs, expected.and_utc().timestamp());
    assert_eq!(t.secs, 1614834360);
    assert_eq!(t.nanos, 0);
    assert!(parse_deadline("2021-03-04").is_none());
    assert!(parse_deadline("tomorrow").is_none());
    assert!(parse_deadline("2021-02-30 10:00").is_none());
}

#[test]
fn dates_write_as_chrono_writes_them() {
    let t = Timestamp { secs: 1614834360, nanos: 0 };
    assert_eq!(datetime_text(&t), "2021-03-04 05:06:00");
    let t = Timestamp { secs: 0, nanos: 500_000_000 };
    assert_eq!(datetime_text(&t), "1970-01-01 00:00:00.500");
}

#[test]
fn adding_minutes_agrees_with_chrono() {
    let t = Timestamp { secs: 1614834360, nanos: 250 };
    let later = add_minutes(&t, 90);
    assert_eq!(later, Timestamp { secs: 1614834360 + 5400, nanos: 250 });
    let naive = DateTime::from_timestamp(t.secs, t.nanos).unwrap().naive_utc()
        + chrono::Duration::minutes(90);
    assert_eq!(naive.and_utc().timestamp(), later.secs);
    let earlier = add_minutes(&t, -60);
    assert_eq!(earlier.secs, 1614834360 - 3600);
}

#[test]
fn ordering_of_timestamps() {
    let a = Timestamp { secs: 10, nanos: 5 };
    let b = Timestamp { secs: 10, nanos: 6 };
    let c = Timestamp { secs: 11, nanos: 0 };
    assert!(a.is_before(&b));
    assert!(!b.is_before(&a));
    assert!(b.is_before(&c));
    assert!(!a.is_before(&a));
    assert_eq!(a.nanos_until(&c), 999_999_995);
}

#[test]
fn time_left_texts() {
    let now = Timestamp { secs: 1000, nanos: 0 };
    let d = |secs: i64, nanos: u32| Timestamp { secs, nanos };
    assert_eq!(pretty_print_deadline(&d(1000, 0), &now), "deadline has passed");
    assert_eq!(pretty_print_deadline(&d(900, 0), &now), "deadline has passed");
    assert_eq!(pretty_print_deadline(&d(1000, 1), &now), "there are remaining.");
    assert_eq!(pretty_print_deadline(&d(1001, 0), &now), "there are 1 seconds remaining.");
    assert_eq!(pretty_print_deadline(&d(1000 + 3600 * 2 + 60 * 3 + 4, 0), &now), "there are 2 hours 3 minutes 4 seconds remaining.");
    assert_eq!(pretty_print_deadline(&d(1000 + 3600 * 30, 0), &now), "there are 30 hours remaining.");
    assert_eq!(pretty_print_deadline(&d(1000 + 120, 0), &Timestamp { secs: 1000, nanos: 1 }), "there are 1 minutes 59 seconds remaining.");
}

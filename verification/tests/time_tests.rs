use chrono::DateTime;
use sap::time::Timestamp;

fn whole_seconds_by_calendar(from: Timestamp, to: Timestamp) -> i64 {
    let from = DateTime::from_timestamp(from.secs, from.nanos).unwrap();
    let to = DateTime::from_timestamp(to.secs, to.nanos).unwrap();
    (to - from).num_seconds()
}

#[test]
fn a_time_from_seconds_has_no_nanoseconds() {
    assert_eq!(Timestamp::from_secs(42), Timestamp { secs: 42, nanos: 0 });
    assert_eq!(Timestamp::from_secs(-1), Timestamp { secs: -1, nanos: 0 });
}

#[test]
fn later_compares_seconds_before_nanoseconds() {
    let a = Timestamp { secs: 10, nanos: 999_999_999 };
    let b = Timestamp { secs: 11, nanos: 0 };
    let c = Timestamp { secs: 11, nanos: 1 };
    assert!(b.is_later_than(&a));
    assert!(c.is_later_than(&b));
    assert!(!a.is_later_than(&b));
    assert!(!b.is_later_than(&b));
    assert!(Timestamp { secs: 0, nanos: 0 }.is_later_than(&Timestamp { secs: -1, nanos: 5 }));
}

#[test]
fn later_agrees_with_the_calendar() {
    let times = [
        Timestamp { secs: -5, nanos: 1 },
        Timestamp { secs: 0, nanos: 0 },
        Timestamp { secs: 0, nanos: 999_999_999 },
        Timestamp { secs: 1, nanos: 0 },
        Timestamp { secs: 1_700_000_000, nanos: 500 },
    ];
    for a in times {
        for b in times {
            let by_calendar = DateTime::from_timestamp(a.secs, a.nanos).unwrap()
                > DateTime::from_timestamp(b.secs, b.nanos).unwrap();
            assert_eq!(a.is_later_than(&b), by_calendar);
        }
    }
}

#[test]
fn seconds_between_times_round_toward_zero() {
    let start = Timestamp { secs: 100, nanos: 500_000_000 };
    assert_eq!(start.seconds_until(&Timestamp { secs: 102, nanos: 499_999_999 }), Some(1));
    assert_eq!(start.seconds_until(&Timestamp { secs: 102, nanos: 500_000_000 }), Some(2));
    assert_eq!(start.seconds_until(&Timestamp { secs: 100, nanos: 0 }), Some(0));
    assert_eq!(start.seconds_until(&Timestamp { secs: 99, nanos: 500_000_001 }), Some(0));
    assert_eq!(start.seconds_until(&Timestamp { secs: 99, nanos: 500_000_000 }), Some(-1));
    assert_eq!(start.seconds_until(&Timestamp { secs: 98, nanos: 999_999_999 }), Some(-1));
}

#[test]
fn seconds_between_times_agree_with_the_calendar() {
    let times = [
        Timestamp { secs: -3, nanos: 250_000_000 },
        Timestamp { secs: 0, nanos: 0 },
        Timestamp { secs: 0, nanos: 1 },
        Timestamp { secs: 0, nanos: 999_999_999 },
        Timestamp { secs: 1, nanos: 0 },
        Timestamp { secs: 7, nanos: 750_000_000 },
        Timestamp { secs: 1_700_000_000, nanos: 123_456_789 },
    ];
    for from in times {
        for to in times {
            assert_eq!(from.seconds_until(&to), Some(whole_seconds_by_calendar(from, to)));
        }
    }
}

#[test]
fn times_too_far_apart_have_no_distance() {
    let early = Timestamp { secs: i64::MIN, nanos: 0 };
    let late = Timestamp { secs: i64::MAX, nanos: 0 };
    assert_eq!(early.seconds_until(&late), None);
    assert_eq!(late.seconds_until(&early), None);
    assert_eq!(Timestamp { secs: -1, nanos: 0 }.seconds_until(&late), None);
    assert_eq!(Timestamp { secs: 0, nanos: 0 }.seconds_until(&late), Some(i64::MAX));
}

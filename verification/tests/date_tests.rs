use shell::date::{date_is_distant, date_pattern, date_text, shown_instant, Timestamp};

fn ts(secs: i64) -> Timestamp {
    Timestamp { secs, nanos: 0 }
}

const DAY: i64 = 86_400;

#[test]
fn recent_time_shows_hour_and_minute_one_hour_later() {
    assert_eq!(date_text(ts(0), ts(DAY), 0), Some("Jan  1 01:00".to_string()));
    assert_eq!(date_text(ts(0), ts(DAY), 3600), Some("Jan  1 02:00".to_string()));
    assert_eq!(date_text(ts(10 * DAY + 59), ts(20 * DAY), -7200), Some("Jan 10 23:00".to_string()));
}

#[test]
fn old_time_shows_year() {
    assert_eq!(date_text(ts(0), ts(200 * DAY), 0), Some("Jan  1  1970".to_string()));
}

#[test]
fn future_time_shows_year() {
    assert_eq!(date_text(ts(0), ts(0), 0), Some("Jan  1  1970".to_string()));
}

#[test]
fn distance_is_measured_from_the_shown_time() {
    assert!(!date_is_distant(ts(0), ts(3600)));
    assert!(date_is_distant(ts(0), ts(3599)));
    assert!(date_is_distant(Timestamp { secs: 0, nanos: 1 }, ts(3600)));
    assert!(!date_is_distant(ts(0), ts(3600 + 180 * DAY)));
    assert!(!date_is_distant(ts(0), Timestamp { secs: 3600 + 180 * DAY, nanos: 0 }));
    assert!(date_is_distant(ts(0), Timestamp { secs: 3600 + 180 * DAY, nanos: 1 }));
}

#[test]
fn patterns() {
    assert_eq!(date_pattern(true), "%b %e  %Y");
    assert_eq!(date_pattern(false), "%b %e %H:%M");
}

#[test]
fn shown_instant_adds_an_hour() {
    let s = shown_instant(Timestamp { secs: 5, nanos: 7 }).unwrap();
    assert_eq!((s.secs, s.nanos), (3605, 7));
    assert!(shown_instant(ts(i64::MAX)).is_none());
}

#[test]
fn unrepresentable_times_and_offsets_give_nothing() {
    assert_eq!(date_text(ts(i64::MAX), ts(0), 0), None);
    assert_eq!(date_text(ts(0), ts(DAY), 100_000), None);
    assert_eq!(date_text(ts(i64::MAX - 3600), ts(0), 0), None);
}

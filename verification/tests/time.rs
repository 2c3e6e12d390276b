use glowing_spork::time::{
    format_time_left, parse_duration_end, resolve_time_placeholders, time_placeholders_at, UtcInstant,
};

#[test]
fn timestamps_in_every_accepted_form() {
    let at = |s: &str| parse_duration_end(s).map(|i| (i.seconds, i.nanos));
    assert_eq!(at("2024-03-01T10:20:30Z"), Some((1709288430, 0)));
    assert_eq!(at(" 2024-03-01T12:20:30+02:00 "), Some((1709288430, 0)));
    assert_eq!(at("2024-03-01 12:20:30.5+02"), Some((1709288430, 500_000_000)));
    assert_eq!(at("2024-03-01 10:20:30.25"), Some((1709288430, 250_000_000)));
    assert_eq!(at("2024-03-01 10:20:30"), Some((1709288430, 0)));
    assert_eq!(at("2024-03-01"), Some((1709251200, 0)));
    assert_eq!(at("soon"), None);
    assert_eq!(at("   "), None);
    assert_eq!(at(""), None);
}

#[test]
fn time_left_units() {
    assert_eq!(format_time_left(0), "");
    assert_eq!(format_time_left(-5), "");
    assert_eq!(format_time_left(1), "1 minute");
    assert_eq!(format_time_left(60), "1 hour");
    assert_eq!(format_time_left(61), "1 hour 1 minute");
    assert_eq!(format_time_left(2 * 1440), "2 days");
    assert_eq!(
        format_time_left(43200 + 2 * 10080 + 1440 + 3 * 60 + 5),
        "1 month 2 weeks 1 day 3 hours 5 minutes"
    );
    assert_eq!(format_time_left(3 * 43200), "3 months");
}

#[test]
fn placeholders_at_a_given_instant() {
    let now = parse_duration_end("2024-03-01 10:20:30").unwrap();
    let tp = time_placeholders_at("2024-03-01T10:20:30Z", "2024-03-01 12:20:30", now);
    assert_eq!(tp.date, "2024-03-01");
    assert_eq!(tp.time, "10:20 UTC");
    assert_eq!(tp.date_time, "2024-03-01 10:20 UTC");
    assert_eq!(tp.time_left, "2 hours");
    let past = time_placeholders_at("garbage", "2024-03-01", now);
    assert_eq!(past.date, "");
    assert_eq!(past.time, "");
    assert_eq!(past.date_time, "");
    assert_eq!(past.time_left, "");
    let far = time_placeholders_at("", "2024-04-01 10:20:30", UtcInstant { seconds: now.seconds, nanos: 0 });
    assert_eq!(far.time_left, "1 month 1 day");
}

#[test]
fn placeholders_now() {
    let tp = resolve_time_placeholders("2024-03-01 10:20:30", "9999-01-01");
    assert_eq!(tp.date, "2024-03-01");
    assert!(tp.time_left.contains("month"));
    let ended = resolve_time_placeholders("", "2000-01-01");
    assert_eq!(ended.time_left, "");
}

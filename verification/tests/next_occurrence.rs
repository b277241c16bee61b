use herd::day;
use herd::error::Error;
use herd::instant::Instant;
use herd::notification::Notification;

fn create_date(year: i32, month: u32, day: u32, hour: u32, min: u32) -> Instant {
    Instant::from_ymd_hm(year, month, day, hour, min).expect("a real date and time")
}

fn rule(time: &str, mask: u8) -> Notification {
    Notification::new(1, "Title".to_string(), "Mesage".to_string(), time.to_string(), mask)
        .expect("a valid rule")
}

#[test]
fn test_next() {
    let n = Notification::new(
        1,
        "Title".to_string(),
        "Mesage".to_string(),
        "10:00".to_string(),
        day::MONDAY | day::WEDNESDAY,
    )
    .unwrap();

    let now = create_date(2025, 1, 1, 9, 30);
    assert_eq!(create_date(2025, 1, 1, 10, 0), n.next(&now).unwrap());

    let now = create_date(2025, 1, 1, 10, 0);
    assert_eq!(create_date(2025, 1, 1, 10, 0), n.next(&now).unwrap());

    let now = create_date(2025, 1, 3, 10, 30);
    assert_eq!(create_date(2025, 1, 6, 10, 0), n.next(&now).unwrap());

    let now = create_date(2025, 1, 6, 10, 0);
    assert_eq!(create_date(2025, 1, 6, 10, 0), n.next(&now).unwrap());

    let now = create_date(2025, 1, 6, 10, 1);
    assert_eq!(create_date(2025, 1, 8, 10, 0), n.next(&now).unwrap());

    let now = create_date(2025, 1, 7, 9, 0);
    assert_eq!(create_date(2025, 1, 8, 10, 0), n.next(&now).unwrap());
}

#[test]
fn next_returns_now_on_exact_occurrence() {
    // 2025-01-01 is a Wednesday; an instant exactly on the rule's slot is
    // answered with itself.
    let n = rule("10:00", day::WEDNESDAY);
    let now = create_date(2025, 1, 1, 10, 0);
    assert_eq!(now, n.next(&now).unwrap());
}

#[test]
fn next_is_never_in_the_past() {
    let n = rule("00:30", day::SUNDAY | day::SATURDAY);
    let nows = [
        create_date(2025, 1, 1, 0, 0),
        create_date(2025, 1, 4, 0, 30),
        create_date(2025, 6, 30, 23, 59),
        create_date(2024, 2, 29, 12, 0),
    ];
    for now in nows {
        let next = n.next(&now).unwrap();
        assert!(now.le(&next));
        assert!(!next.lt(&now));
    }
}

#[test]
fn next_is_idempotent() {
    let n = rule("07:45", day::TUESDAY | day::FRIDAY);
    let now = create_date(2025, 3, 14, 9, 26);
    let first = n.next(&now).unwrap();
    let second = n.next(&first).unwrap();
    assert_eq!(first, second);
}

#[test]
fn weekly_wrap_on_single_day_mask() {
    // 2025-01-06 is a Monday: one minute past the slot wraps a full week.
    let n = rule("10:00", day::MONDAY);
    let now = create_date(2025, 1, 6, 10, 1);
    assert_eq!(create_date(2025, 1, 13, 10, 0), n.next(&now).unwrap());
}

#[test]
fn next_crosses_month_and_year_ends() {
    let n = rule("08:00", day::THURSDAY);
    // 2025-12-31 is a Wednesday; the next Thursday is New Year's Day 2026.
    let now = create_date(2025, 12, 31, 9, 0);
    assert_eq!(create_date(2026, 1, 1, 8, 0), n.next(&now).unwrap());
}

#[test]
fn instant_ordering_follows_seconds() {
    let a = create_date(2025, 1, 1, 9, 30);
    let b = create_date(2025, 1, 1, 10, 0);
    let c = create_date(2025, 1, 2, 0, 0);
    assert!(a.lt(&b));
    assert!(b.lt(&c));
    assert!(a.le(&a));
    assert!(!b.lt(&a));
}

#[test]
fn day_numbers_count_real_days() {
    // The wrapper must hand back chrono's day count, not its input: days are
    // consecutive across month and year ends, and 2025-01-01 (a Wednesday)
    // lands on weekday index 3.
    let jan31 = create_date(2025, 1, 31, 0, 0);
    let feb1 = create_date(2025, 2, 1, 0, 0);
    assert_eq!(jan31.day + 1, feb1.day);
    let dec31 = create_date(2024, 12, 31, 0, 0);
    let jan1 = create_date(2025, 1, 1, 0, 0);
    assert_eq!(dec31.day + 1, jan1.day);
    assert_eq!(jan1.day % 7, 3);
    // A leap day exists in 2024 and is counted.
    let feb28 = create_date(2024, 2, 28, 0, 0);
    let mar1 = create_date(2024, 3, 1, 0, 0);
    assert_eq!(feb28.day + 2, mar1.day);
}

#[test]
fn from_ymd_hm_rejects_unreal_dates_and_times() {
    assert!(Instant::from_ymd_hm(2025, 2, 29, 0, 0).is_none());
    assert!(Instant::from_ymd_hm(2024, 2, 29, 0, 0).is_some());
    assert!(Instant::from_ymd_hm(2025, 0, 1, 0, 0).is_none());
    assert!(Instant::from_ymd_hm(2025, 13, 1, 0, 0).is_none());
    assert!(Instant::from_ymd_hm(2025, 4, 31, 0, 0).is_none());
    assert!(Instant::from_ymd_hm(0, 1, 1, 0, 0).is_none());
    assert!(Instant::from_ymd_hm(10000, 1, 1, 0, 0).is_none());
    assert!(Instant::from_ymd_hm(2025, 1, 1, 24, 0).is_none());
    assert!(Instant::from_ymd_hm(2025, 1, 1, 0, 60).is_none());
}

#[test]
fn instant_new_validates_its_parts() {
    assert_eq!(Instant::new(10, 86399), Some(Instant { day: 10, sec: 86399 }));
    assert!(Instant::new(10, 86400).is_none());
    assert!(Instant::new(4_000_000_001, 0).is_none());
}

#[test]
fn construction_rejects_malformed_times() {
    let make = |time: &str, mask: u8| {
        Notification::new(5, "t".to_string(), "m".to_string(), time.to_string(), mask)
    };
    assert_eq!(make("abcde", day::MONDAY).unwrap_err(), Error::Time);
    assert_eq!(make("10-00", day::MONDAY).unwrap_err(), Error::Time);
    assert_eq!(make("9:30", day::MONDAY).unwrap_err(), Error::Time);
    assert_eq!(make("10:00:00", day::MONDAY).unwrap_err(), Error::Time);
    assert_eq!(make("", day::MONDAY).unwrap_err(), Error::Time);
    assert_eq!(make("24:00", day::MONDAY).unwrap_err(), Error::InvalidTime);
    assert_eq!(make("10:60", day::MONDAY).unwrap_err(), Error::InvalidTime);
    assert_eq!(make("10:00", 0).unwrap_err(), Error::InvalidDay);
    assert_eq!(make("10:00", 0x80).unwrap_err(), Error::InvalidDay);
    assert_eq!(make("10:00", 0xFF).unwrap_err(), Error::InvalidDay);
    assert!(make("23:59", day::SUNDAY).is_ok());
    assert!(make("00:00", 0x7F).is_ok());
}

#[test]
fn getters_report_the_constructed_rule() {
    let n = Notification::new(
        1234,
        "Water the plants".to_string(),
        "They are thirsty".to_string(),
        "18:05".to_string(),
        day::WEDNESDAY,
    )
    .unwrap();
    assert_eq!(n.get_id(), 1234);
    assert_eq!(n.get_title(), "Water the plants");
    assert_eq!(n.get_message(), "They are thirsty");
    assert_eq!(n.get_id_len(), 4);
    assert_eq!(n.get_title_len(), 16);
    assert!(n.check_valid());
}

#[test]
fn id_len_counts_decimal_digits() {
    let make = |id: usize| {
        Notification::new(id, "t".to_string(), "m".to_string(), "10:00".to_string(), day::MONDAY)
            .unwrap()
    };
    assert_eq!(make(0).get_id_len(), 1);
    assert_eq!(make(9).get_id_len(), 1);
    assert_eq!(make(10).get_id_len(), 2);
    assert_eq!(make(999).get_id_len(), 3);
    assert_eq!(make(1000).get_id_len(), 4);
    assert_eq!(make(usize::MAX).get_id_len(), 20);
}

#[test]
fn listing_order_is_soonest_first_and_stable() {
    let make = |id: usize, time: &str, mask: u8| {
        Notification::new(id, "t".to_string(), "m".to_string(), time.to_string(), mask).unwrap()
    };
    // 2025-01-01 09:00 is a Wednesday morning.
    let now = create_date(2025, 1, 1, 9, 0);
    let rules = vec![
        make(1, "10:00", day::WEDNESDAY),
        make(2, "09:30", day::WEDNESDAY),
        make(3, "10:00", day::WEDNESDAY),
        make(4, "08:00", day::THURSDAY),
    ];
    // Soonest first; the two rules sharing a slot keep their store order.
    assert_eq!(herd::notification::order_by_next(&rules, &now), vec![1, 0, 2, 3]);
}

#[test]
fn column_widths_take_the_widest_rule() {
    let make = |id: usize, title: &str| {
        Notification::new(id, title.to_string(), "m".to_string(), "10:00".to_string(), day::MONDAY)
            .unwrap()
    };
    let rules = vec![make(7, "short"), make(1200, "a much longer title"), make(33, "mid")];
    assert_eq!(herd::notification::column_widths(&rules), (4, 19));
    let empty: Vec<Notification> = vec![];
    assert_eq!(herd::notification::column_widths(&empty), (0, 0));
}

use herd::day;
use herd::instant::Instant;
use herd::notification::Notification;
use herd::schedule::Schedule;
use herd::schedule::ScheduleItem;

fn create_date(year: i32, month: u32, day: u32, hour: u32, min: u32) -> Instant {
    Instant::from_ymd_hm(year, month, day, hour, min).expect("a real date and time")
}

fn rule(id: usize, title: &str, time: &str, mask: u8) -> Notification {
    Notification::new(id, title.to_string(), "body".to_string(), time.to_string(), mask)
        .expect("a valid rule")
}

#[test]
fn initial_schedule_builds_one_item_per_rule() {
    // 2025-01-01 09:00, a Wednesday.
    let now = create_date(2025, 1, 1, 9, 0);
    let rules = vec![
        rule(1, "first", "10:00", day::WEDNESDAY),
        rule(2, "second", "08:00", day::THURSDAY),
    ];
    let schedule = Schedule::initial_schedule(rules, &now);
    assert_eq!(schedule.len(), 2);
    assert_eq!(schedule.get(0).get_id(), 1);
    assert_eq!(schedule.get(0).get_title(), "first");
    assert_eq!(schedule.get(0).get_next(), create_date(2025, 1, 1, 10, 0));
    assert_eq!(schedule.get(1).get_id(), 2);
    assert_eq!(schedule.get(1).get_next(), create_date(2025, 1, 2, 8, 0));
}

#[test]
fn reconcile_appends_only_the_new_rule() {
    let now = create_date(2025, 1, 1, 9, 0);
    let store = vec![rule(1, "a", "10:00", day::WEDNESDAY), rule(2, "b", "11:00", day::FRIDAY)];
    let mut schedule = Schedule::initial_schedule(store, &now);

    // The store now also holds rule 3; reconciliation folds exactly it in,
    // with a next-fire instant computed fresh against the tick's `now`.
    let later = create_date(2025, 1, 1, 9, 30);
    let store = vec![
        rule(1, "a", "10:00", day::WEDNESDAY),
        rule(2, "b", "11:00", day::FRIDAY),
        rule(3, "c", "09:45", day::WEDNESDAY),
    ];
    let added = schedule.reconcile(store, &later);
    assert_eq!(added, vec![2]);
    assert_eq!(schedule.len(), 3);
    assert_eq!(schedule.get(2).get_id(), 3);
    assert_eq!(schedule.get(2).get_title(), "c");
    assert_eq!(schedule.get(2).get_message(), "body");
    assert_eq!(schedule.get(2).get_next(), create_date(2025, 1, 1, 9, 45));
    // The items already scheduled are untouched.
    assert_eq!(schedule.get(0).get_next(), create_date(2025, 1, 1, 10, 0));
    assert_eq!(schedule.get(1).get_next(), create_date(2025, 1, 3, 11, 0));
}

#[test]
fn reconcile_of_an_unchanged_store_adds_nothing() {
    let now = create_date(2025, 1, 1, 9, 0);
    let store = vec![rule(1, "a", "10:00", day::WEDNESDAY)];
    let mut schedule = Schedule::initial_schedule(store, &now);
    let store = vec![rule(1, "a", "10:00", day::WEDNESDAY)];
    let added = schedule.reconcile(store, &now);
    assert!(added.is_empty());
    assert_eq!(schedule.len(), 1);
}

#[test]
fn a_due_item_fires_exactly_once() {
    // The rule's slot is Wednesday 10:00; the item is built before the slot.
    let before = create_date(2025, 1, 1, 9, 0);
    let mut item = ScheduleItem::new(rule(1, "a", "10:00", day::WEDNESDAY), &before);
    assert_eq!(item.get_next(), create_date(2025, 1, 1, 10, 0));

    // Not due while `now` has not passed the slot, even exactly on it.
    assert!(!item.advance_if_due(&create_date(2025, 1, 1, 9, 59)));
    assert!(!item.advance_if_due(&create_date(2025, 1, 1, 10, 0)));

    // One minute past the slot it fires, and its next-fire instant moves to
    // the following Wednesday.
    let now = create_date(2025, 1, 1, 10, 1);
    assert!(item.advance_if_due(&now));
    assert_eq!(item.get_next(), create_date(2025, 1, 8, 10, 0));

    // A second advance at the same instant fires nothing.
    assert!(!item.advance_if_due(&now));
    assert_eq!(item.get_next(), create_date(2025, 1, 8, 10, 0));
}

#[test]
fn run_reports_exactly_the_due_items() {
    let start = create_date(2025, 1, 1, 9, 0);
    let store = vec![
        rule(1, "due", "09:30", day::WEDNESDAY),
        rule(2, "not yet", "18:00", day::WEDNESDAY),
        rule(3, "also due", "09:15", day::WEDNESDAY),
    ];
    let mut schedule = Schedule::initial_schedule(store, &start);

    let now = create_date(2025, 1, 1, 10, 0);
    let store = vec![
        rule(1, "due", "09:30", day::WEDNESDAY),
        rule(2, "not yet", "18:00", day::WEDNESDAY),
        rule(3, "also due", "09:15", day::WEDNESDAY),
    ];
    let (added, fired) = schedule.run(store, &now);
    assert!(added.is_empty());
    assert_eq!(fired, vec![0, 2]);
    // Both fired items were rescheduled a week out.
    assert_eq!(schedule.get(0).get_next(), create_date(2025, 1, 8, 9, 30));
    assert_eq!(schedule.get(1).get_next(), create_date(2025, 1, 1, 18, 0));
    assert_eq!(schedule.get(2).get_next(), create_date(2025, 1, 8, 9, 15));

    // The next tick fires nothing: the same occurrences cannot repeat.
    let store = vec![
        rule(1, "due", "09:30", day::WEDNESDAY),
        rule(2, "not yet", "18:00", day::WEDNESDAY),
        rule(3, "also due", "09:15", day::WEDNESDAY),
    ];
    let (added, fired) = schedule.run(store, &now);
    assert!(added.is_empty());
    assert!(fired.is_empty());
}

#[test]
fn run_reconciles_before_firing() {
    let start = create_date(2025, 1, 1, 9, 0);
    let store = vec![rule(1, "a", "10:00", day::WEDNESDAY)];
    let mut schedule = Schedule::initial_schedule(store, &start);

    // A rule added for a slot already past `now` is scheduled in the same
    // tick, for the coming week, and does not fire against the stale slot.
    let now = create_date(2025, 1, 1, 10, 30);
    let store = vec![rule(1, "a", "10:00", day::WEDNESDAY), rule(2, "b", "10:15", day::WEDNESDAY)];
    let (added, fired) = schedule.run(store, &now);
    assert_eq!(added, vec![1]);
    assert_eq!(fired, vec![0]);
    assert_eq!(schedule.get(1).get_next(), create_date(2025, 1, 8, 10, 15));
}

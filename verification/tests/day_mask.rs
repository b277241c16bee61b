use herd::day;

#[test]
fn mask_bits_follow_the_persisted_layout() {
    assert_eq!(day::SUNDAY, 0b0000_0001);
    assert_eq!(day::MONDAY, 0b0000_0010);
    assert_eq!(day::TUESDAY, 0b0000_0100);
    assert_eq!(day::WEDNESDAY, 0b0000_1000);
    assert_eq!(day::THURSDAY, 0b0001_0000);
    assert_eq!(day::FRIDAY, 0b0010_0000);
    assert_eq!(day::SATURDAY, 0b0100_0000);
}

#[test]
fn to_day_sets_one_bit_per_flag() {
    assert_eq!(
        day::to_day(true, false, false, false, false, false, false, false, false),
        day::SUNDAY
    );
    assert_eq!(
        day::to_day(false, true, false, false, false, false, false, false, false),
        day::MONDAY
    );
    assert_eq!(
        day::to_day(false, false, false, false, false, false, true, false, false),
        day::SATURDAY
    );
    assert_eq!(
        day::to_day(false, true, false, true, false, false, false, false, false),
        day::MONDAY | day::WEDNESDAY
    );
    assert_eq!(day::to_day(false, false, false, false, false, false, false, false, false), 0);
}

#[test]
fn to_day_aggregates_or_their_days_in() {
    let weekdays = day::to_day(false, false, false, false, false, false, false, true, false);
    assert_eq!(weekdays, day::MONDAY | day::TUESDAY | day::WEDNESDAY | day::THURSDAY | day::FRIDAY);
    let weekend = day::to_day(false, false, false, false, false, false, false, false, true);
    assert_eq!(weekend, day::SUNDAY | day::SATURDAY);
    let both = day::to_day(false, false, false, false, false, false, false, true, true);
    assert_eq!(both, 0x7F);
    let overlap = day::to_day(false, true, false, false, false, false, false, true, false);
    assert_eq!(overlap, weekdays);
}

#[test]
fn to_string_joins_day_names_with_spaces() {
    assert_eq!(day::to_string(day::MONDAY | day::WEDNESDAY), "Monday Wednesday");
    assert_eq!(day::to_string(day::SUNDAY), "Sunday");
    assert_eq!(day::to_string(0), "");
    assert_eq!(
        day::to_string(0x7F),
        "Sunday Monday Tuesday Wednesday Thursday Friday Saturday"
    );
    assert_eq!(day::to_string(day::SATURDAY | day::SUNDAY), "Sunday Saturday");
}

#[test]
fn to_string_ignores_the_unused_high_bit() {
    assert_eq!(day::to_string(0x80), "");
    assert_eq!(day::to_string(0x80 | day::FRIDAY), "Friday");
}

#[test]
fn day_bit_of_matches_the_constants() {
    assert_eq!(day::day_bit_of(0), day::SUNDAY);
    assert_eq!(day::day_bit_of(3), day::WEDNESDAY);
    assert_eq!(day::day_bit_of(6), day::SATURDAY);
}

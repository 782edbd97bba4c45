use pomo::today_day_number;
use pomo::Analytics;
use pomo::PomodoroMode;

fn create_test_analytics() -> Analytics {
    Analytics::default()
}

#[test]
fn test_empty_analytics() {
    let analytics = create_test_analytics();
    assert_eq!(analytics.total_count(), 0);
    assert_eq!(analytics.today_count(), 0);
    assert_eq!(analytics.week_count(), 0);
    assert_eq!(analytics.current_streak(), 0);
}

#[test]
fn test_total_count() {
    let mut analytics = create_test_analytics();
    let today = today_day_number();
    analytics.add_record_with_timestamp(today, PomodoroMode::Short);
    analytics.add_record_with_timestamp(today, PomodoroMode::Long);
    analytics.add_record_with_timestamp(today, PomodoroMode::Short);

    assert_eq!(analytics.total_count(), 3);
}

#[test]
fn test_today_count() {
    let mut analytics = create_test_analytics();
    let today = today_day_number();
    let yesterday = today - 1;

    analytics.add_record_with_timestamp(today, PomodoroMode::Short);
    analytics.add_record_with_timestamp(today, PomodoroMode::Short);
    analytics.add_record_with_timestamp(yesterday, PomodoroMode::Short);

    assert_eq!(analytics.today_count(), 2);
}

#[test]
fn test_short_mode_count() {
    let mut analytics = create_test_analytics();
    let today = today_day_number();
    analytics.add_record_with_timestamp(today, PomodoroMode::Short);
    analytics.add_record_with_timestamp(today, PomodoroMode::Long);
    analytics.add_record_with_timestamp(today, PomodoroMode::Short);

    assert_eq!(analytics.short_mode_count(), 2);
    assert_eq!(analytics.long_mode_count(), 1);
}

#[test]
fn test_clear() {
    let mut analytics = create_test_analytics();
    let today = today_day_number();
    analytics.add_record_with_timestamp(today, PomodoroMode::Short);
    analytics.add_record_with_timestamp(today, PomodoroMode::Long);

    analytics.records.clear();

    assert_eq!(analytics.total_count(), 0);
}

#[test]
fn test_streak_empty() {
    let analytics = create_test_analytics();
    assert_eq!(analytics.current_streak(), 0);
}

#[test]
fn test_streak_today_only() {
    let mut analytics = create_test_analytics();
    analytics.add_record_with_timestamp(today_day_number(), PomodoroMode::Short);

    assert_eq!(analytics.current_streak(), 1);
}

#[test]
fn test_streak_consecutive_days() {
    let mut analytics = create_test_analytics();
    let today = today_day_number();

    for i in 0..5 {
        analytics.add_record_with_timestamp(today - i, PomodoroMode::Short);
    }

    assert_eq!(analytics.current_streak(), 5);
}

#[test]
fn test_streak_broken() {
    let mut analytics = create_test_analytics();
    let today = today_day_number();

    analytics.add_record_with_timestamp(today, PomodoroMode::Short);
    analytics.add_record_with_timestamp(today - 1, PomodoroMode::Short);
    analytics.add_record_with_timestamp(today - 3, PomodoroMode::Short);

    assert_eq!(analytics.current_streak(), 2);
}

#[test]
fn test_streak_no_activity_today_but_yesterday() {
    let mut analytics = create_test_analytics();
    let yesterday = today_day_number() - 1;

    analytics.add_record_with_timestamp(yesterday, PomodoroMode::Short);
    analytics.add_record_with_timestamp(yesterday - 1, PomodoroMode::Short);

    assert_eq!(analytics.current_streak(), 2);
}

#[test]
fn test_streak_old_activity_only() {
    let mut analytics = create_test_analytics();
    let old_date = today_day_number() - 10;

    analytics.add_record_with_timestamp(old_date, PomodoroMode::Short);

    assert_eq!(analytics.current_streak(), 0);
}

#[test]
fn test_week_count() {
    let mut analytics = create_test_analytics();
    let today = today_day_number();

    analytics.add_record_with_timestamp(today, PomodoroMode::Short);
    analytics.add_record_with_timestamp(today - 1, PomodoroMode::Short);

    analytics.add_record_with_timestamp(today - 10, PomodoroMode::Short);

    assert!(analytics.week_count() >= 2);
}

#[test]
fn test_serialization() {
    let mut analytics = create_test_analytics();
    analytics.add_record_with_timestamp(today_day_number(), PomodoroMode::Short);

    let json = analytics.to_json();
    let loaded: Analytics = Analytics::from_json(&json).unwrap();

    assert_eq!(loaded.total_count(), 1);
}

// Day 703 is a Wednesday: day 1 (January 1 of year 1) was a Monday, and
// (703 - 1) % 7 == 2.
#[test]
fn test_week_count_on_fixed_window() {
    let mut analytics = create_test_analytics();
    let wednesday: u64 = 703;

    analytics.add_record_with_timestamp(wednesday, PomodoroMode::Short);
    analytics.add_record_with_timestamp(wednesday - 1, PomodoroMode::Short);
    analytics.add_record_with_timestamp(wednesday - 2, PomodoroMode::Short); // that Monday
    analytics.add_record_with_timestamp(wednesday - 3, PomodoroMode::Short); // Sunday before
    analytics.add_record_with_timestamp(wednesday - 10, PomodoroMode::Short);
    analytics.add_record_with_timestamp(wednesday + 1, PomodoroMode::Short); // tomorrow

    assert_eq!(analytics.week_count_on(wednesday), 3);
}

#[test]
fn test_today_count_on_fixed_day() {
    let mut analytics = create_test_analytics();
    analytics.add_record_with_timestamp(500, PomodoroMode::Short);
    analytics.add_record_with_timestamp(500, PomodoroMode::Long);
    analytics.add_record_with_timestamp(499, PomodoroMode::Short);

    assert_eq!(analytics.today_count_on(500), 2);
    assert_eq!(analytics.today_count_on(499), 1);
    assert_eq!(analytics.today_count_on(498), 0);
}

#[test]
fn test_streak_on_fixed_days() {
    let mut analytics = create_test_analytics();
    analytics.add_record_with_timestamp(1000, PomodoroMode::Short);
    analytics.add_record_with_timestamp(999, PomodoroMode::Short);
    analytics.add_record_with_timestamp(998, PomodoroMode::Long);
    analytics.add_record_with_timestamp(996, PomodoroMode::Short);

    assert_eq!(analytics.current_streak_on(1000), 3);
    assert_eq!(analytics.current_streak_on(1001), 3);
    assert_eq!(analytics.current_streak_on(1002), 0);
}

#[test]
fn test_streak_ignores_duplicate_days() {
    let mut analytics = create_test_analytics();
    analytics.add_record_with_timestamp(1000, PomodoroMode::Short);
    analytics.add_record_with_timestamp(1000, PomodoroMode::Long);
    analytics.add_record_with_timestamp(999, PomodoroMode::Short);

    assert_eq!(analytics.current_streak_on(1000), 2);
}

#[test]
fn test_streak_future_record_breaks_chain() {
    let mut analytics = create_test_analytics();
    analytics.add_record_with_timestamp(1000, PomodoroMode::Short);
    analytics.add_record_with_timestamp(1005, PomodoroMode::Short);

    assert_eq!(analytics.current_streak_on(1000), 0);
}

#[test]
fn test_to_json_exact_form() {
    let mut analytics = create_test_analytics();
    analytics.add_record_with_timestamp(5, PomodoroMode::Short);

    assert_eq!(
        analytics.to_json(),
        "{\"records\":[{\"day\":5,\"mode\":\"Short (25/5)\"}]}"
    );
}

#[test]
fn test_to_json_empty() {
    let analytics = create_test_analytics();
    assert_eq!(analytics.to_json(), "{\"records\":[]}");
}

#[test]
fn test_json_round_trip_many() {
    let mut analytics = create_test_analytics();
    analytics.add_record_with_timestamp(738000, PomodoroMode::Short);
    analytics.add_record_with_timestamp(738001, PomodoroMode::Long);
    analytics.add_record_with_timestamp(738001, PomodoroMode::Short);

    let json = analytics.to_json();
    let loaded = Analytics::from_json(&json).unwrap();

    assert_eq!(loaded.total_count(), 3);
    assert_eq!(loaded.records[0].day, 738000);
    assert_eq!(loaded.records[0].mode, "Short (25/5)");
    assert_eq!(loaded.records[1].day, 738001);
    assert_eq!(loaded.records[1].mode, "Long (50/10)");
    assert_eq!(loaded.records[2].mode, "Short (25/5)");
}

#[test]
fn test_from_json_rejects_garbage() {
    assert!(Analytics::from_json("").is_none());
    assert!(Analytics::from_json("{}").is_none());
    assert!(Analytics::from_json("{\"records\":[").is_none());
    assert!(Analytics::from_json("{\"records\":[{\"day\":,\"mode\":\"x\"}]}").is_none());
    assert!(Analytics::from_json("{\"records\":[{\"day\":1,\"mode\":\"x\"}] }").is_none());
    assert!(Analytics::from_json("not json at all").is_none());
}

#[test]
fn test_from_json_rejects_oversized_day() {
    // one digit past what a 64-bit day number can hold
    let too_big = "{\"records\":[{\"day\":99999999999999999999,\"mode\":\"x\"}]}";
    assert!(Analytics::from_json(too_big).is_none());
}

#[test]
fn test_from_json_empty_object() {
    let loaded = Analytics::from_json("{\"records\":[]}").unwrap();
    assert_eq!(loaded.total_count(), 0);
}

#[test]
fn test_render_after_parse_is_identity() {
    let json = "{\"records\":[{\"day\":7,\"mode\":\"Long (50/10)\"}]}";
    assert_eq!(Analytics::from_json(json).unwrap().to_json(), json);
}

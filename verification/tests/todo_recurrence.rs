use chrono::TimeZone;
use xhub::calendar::CivilDate;
use xhub::models::RepeatRule;
use xhub::todo_recurrence::{
    expand_occurrences, next_occurrence, previous_occurrence, reached_end, step_date,
    validate_range, within_end, MAX_RANGE_DAYS,
};

fn ts(y: i32, mo: u32, d: u32, h: u32, mi: u32) -> i64 {
    chrono::Local
        .with_ymd_and_hms(y, mo, d, h, mi, 0)
        .earliest()
        .unwrap()
        .timestamp_millis()
}

fn rule(mode: &str) -> RepeatRule {
    RepeatRule {
        mode: mode.to_string(),
        every: None,
        unit: None,
        weekdays: None,
        month_day: None,
        month_nth: None,
        end_mode: None,
        end_at: None,
        count: None,
    }
}

fn next_at(rule: &RepeatRule, due: i64, from: i64) -> Option<i64> {
    next_occurrence(rule, due, from).unwrap()
}

fn expand_at(rule: &RepeatRule, due: i64, done: i64, from: i64, to: i64) -> Vec<i64> {
    expand_occurrences(rule, due, done, from, to).unwrap()
}

#[test]
fn validate_range_rejects_over_limit() {
    let day = 86_400_000i64;
    let from = ts(2026, 1, 1, 0, 0);
    assert!(validate_range(from, from + MAX_RANGE_DAYS * day).is_ok());
    let err = validate_range(from, from + (MAX_RANGE_DAYS + 1) * day).unwrap_err();
    assert!(err.starts_with("RECURRENCE_RANGE_TOO_LARGE"), "{err}");
    assert!(validate_range(from, from + 36_500 * day).is_err());
    assert!(validate_range(from, from).is_ok());
    assert!(validate_range(from, from - day).is_ok());
    assert!(validate_range(i64::MIN, i64::MAX).is_err());
}

#[test]
fn expand_occurrences_rejects_huge_range() {
    let due = ts(2026, 9, 21, 9, 0);
    let r = rule("daily");
    let err = expand_occurrences(&r, due, 0, due, due + 100 * 365 * 86_400_000).unwrap_err();
    assert!(err.starts_with("RECURRENCE_RANGE_TOO_LARGE"), "{err}");
}

#[test]
fn daily_keeps_time_of_day() {
    let due = ts(2026, 9, 21, 9, 30);
    let r = rule("daily");
    let next = next_at(&r, due, due).unwrap();
    assert_eq!(next, ts(2026, 9, 22, 9, 30));
}

#[test]
fn daily_skips_missed_periods() {
    let due = ts(2026, 9, 21, 9, 0);
    let now = ts(2026, 9, 24, 10, 0);
    let r = rule("daily");
    assert_eq!(next_at(&r, due, now).unwrap(), ts(2026, 9, 25, 9, 0));
}

#[test]
fn weekdays_skip_weekend() {
    let due = ts(2026, 9, 25, 9, 0);
    let r = rule("weekdays");
    assert_eq!(next_at(&r, due, due).unwrap(), ts(2026, 9, 28, 9, 0));
}

#[test]
fn weekly_with_mask_picks_selected_days() {
    let mut r = rule("weekly");
    r.weekdays = Some(0b0000101);
    let due = ts(2026, 9, 21, 8, 0);
    let next = next_at(&r, due, due).unwrap();
    assert_eq!(next, ts(2026, 9, 23, 8, 0));
    let next2 = next_at(&r, next, next).unwrap();
    assert_eq!(next2, ts(2026, 9, 28, 8, 0));
}

#[test]
fn monthly_clamps_to_month_end() {
    let mut r = rule("monthly");
    r.month_day = Some(31);
    let due = ts(2027, 1, 31, 9, 0);
    assert_eq!(next_at(&r, due, due).unwrap(), ts(2027, 2, 28, 9, 0));
}

#[test]
fn monthly_last_day_uses_actual_month_end() {
    let mut r = rule("monthly");
    r.month_day = Some(-1);
    let due = ts(2027, 1, 31, 9, 0);
    assert_eq!(next_at(&r, due, due).unwrap(), ts(2027, 2, 28, 9, 0));
}

#[test]
fn monthly_nth_weekday() {
    let mut r = rule("monthly");
    r.month_nth = Some(2);
    r.weekdays = Some(1 << 0);
    let due = ts(2026, 9, 14, 9, 0);
    assert_eq!(next_at(&r, due, due).unwrap(), ts(2026, 10, 12, 9, 0));
}

#[test]
fn yearly_keeps_month_day() {
    let r = rule("yearly");
    let due = ts(2026, 3, 15, 10, 0);
    assert_eq!(next_at(&r, due, due).unwrap(), ts(2027, 3, 15, 10, 0));
}

#[test]
fn custom_every_n_days() {
    let mut r = rule("custom");
    r.every = Some(3);
    r.unit = Some("day".into());
    let due = ts(2026, 9, 21, 9, 0);
    assert_eq!(next_at(&r, due, due).unwrap(), ts(2026, 9, 24, 9, 0));
}

#[test]
fn custom_every_n_weeks_with_mask() {
    let mut r = rule("custom");
    r.every = Some(2);
    r.unit = Some("week".into());
    r.weekdays = Some(0b0000101);
    let due = ts(2026, 9, 21, 8, 0);
    let wed = next_at(&r, due, due).unwrap();
    assert_eq!(wed, ts(2026, 9, 23, 8, 0));
    let mon = next_at(&r, wed, wed).unwrap();
    assert_eq!(mon, ts(2026, 10, 5, 8, 0));
    let wed2 = next_at(&r, mon, mon).unwrap();
    assert_eq!(wed2, ts(2026, 10, 7, 8, 0));
    assert_eq!(previous_occurrence(&r, mon).unwrap(), ts(2026, 9, 23, 8, 0));
    assert_eq!(previous_occurrence(&r, wed).unwrap(), ts(2026, 9, 21, 8, 0));
}

#[test]
fn until_end_stops_expansion() {
    let mut r = rule("daily");
    r.end_mode = Some("until".into());
    r.end_at = Some(ts(2026, 9, 23, 23, 59));
    let due = ts(2026, 9, 21, 9, 0);
    assert_eq!(next_at(&r, due, due).unwrap(), ts(2026, 9, 22, 9, 0));
    let beyond = ts(2026, 9, 23, 9, 0);
    assert!(next_occurrence(&r, beyond, beyond).unwrap().is_none());
}

#[test]
fn count_end_truncates_expansion() {
    let mut r = rule("daily");
    r.end_mode = Some("count".into());
    r.count = Some(3);
    let due = ts(2026, 9, 21, 9, 0);
    let got = expand_at(&r, due, 0, due, ts(2026, 10, 10, 0, 0));
    assert_eq!(got, vec![ts(2026, 9, 22, 9, 0), ts(2026, 9, 23, 9, 0)]);

    let rolled = ts(2026, 9, 22, 9, 0);
    let got = expand_at(&r, rolled, 1, rolled, ts(2026, 10, 10, 0, 0));
    assert_eq!(got, vec![ts(2026, 9, 23, 9, 0)]);
}

#[test]
fn far_future_and_long_overdue_still_resolve() {
    let r = rule("daily");
    let due = ts(2026, 9, 21, 9, 0);
    let now = ts(2031, 9, 21, 10, 0);
    assert_eq!(next_at(&r, due, now).unwrap(), ts(2031, 9, 22, 9, 0));
    let got = expand_at(&r, due, 0, ts(2031, 9, 21, 0, 0), ts(2031, 9, 24, 23, 59));
    assert_eq!(
        got,
        vec![
            ts(2031, 9, 21, 9, 0),
            ts(2031, 9, 22, 9, 0),
            ts(2031, 9, 23, 9, 0),
            ts(2031, 9, 24, 9, 0),
        ]
    );
}

#[test]
fn expand_lists_virtual_occurrences_in_range() {
    let r = rule("daily");
    let due = ts(2026, 9, 21, 9, 0);
    let got = expand_at(&r, due, 0, ts(2026, 9, 22, 0, 0), ts(2026, 9, 25, 23, 59));
    assert_eq!(
        got,
        vec![
            ts(2026, 9, 22, 9, 0),
            ts(2026, 9, 23, 9, 0),
            ts(2026, 9, 24, 9, 0),
            ts(2026, 9, 25, 9, 0),
        ]
    );
}

#[test]
fn previous_occurrence_rolls_back() {
    let r = rule("daily");
    let cur = ts(2026, 9, 22, 9, 0);
    assert_eq!(previous_occurrence(&r, cur).unwrap(), ts(2026, 9, 21, 9, 0));
}

#[test]
fn weekly_mask_previous_occurrence() {
    let mut r = rule("weekly");
    r.weekdays = Some(0b0000101);
    let cur = ts(2026, 9, 23, 8, 0);
    assert_eq!(previous_occurrence(&r, cur).unwrap(), ts(2026, 9, 21, 8, 0));
}

#[test]
fn once_has_no_occurrences() {
    let r = rule("once");
    let due = ts(2026, 9, 21, 9, 0);
    assert!(next_occurrence(&r, due, due).unwrap().is_none());
    assert!(expand_at(&r, due, 0, due, due + 1).is_empty());
}

#[test]
fn validate_rejects_out_of_range_rule_columns() {
    let mut r = rule("monthly");
    r.month_nth = Some(0);
    r.weekdays = Some(1);
    assert!(r.validate().is_err(), "monthNth=0 应被拒");

    let mut r = rule("monthly");
    r.month_nth = Some(2);
    assert!(r.validate().is_err(), "monthly+nth 缺 weekdays 应被拒");

    let mut r = rule("weekly");
    r.weekdays = Some(1 << 40);
    assert!(r.validate().is_err(), "weekdays 越界应被拒");

    let mut r = rule("custom");
    r.every = Some(i64::MAX);
    r.unit = Some("day".into());
    assert!(r.validate().is_err(), "every 越界应被拒");

    let mut r = rule("monthly");
    r.month_day = Some(-1);
    assert!(r.validate().is_ok(), "monthDay=-1（月末）应通过");
    let mut r = rule("monthly");
    r.month_nth = Some(-1);
    r.weekdays = Some(1 << 6);
    assert!(r.validate().is_ok(), "monthNth=-1 + weekdays 应通过");
    let mut r = rule("custom");
    r.every = Some(999);
    r.unit = Some("day".into());
    assert!(r.validate().is_ok(), "every=999 应通过");
}

// ---- additional cases ----

#[test]
fn monthly_last_weekday_of_month() {
    // last Friday: 2026-09-25 → 2026-10-30
    let mut r = rule("monthly");
    r.month_nth = Some(-1);
    r.weekdays = Some(1 << 4);
    let due = ts(2026, 9, 25, 9, 0);
    assert_eq!(next_at(&r, due, due).unwrap(), ts(2026, 10, 30, 9, 0));
    assert_eq!(previous_occurrence(&r, due).unwrap(), ts(2026, 8, 28, 9, 0));
}

#[test]
fn monthly_fifth_weekday_missing_ends_rule() {
    // fifth Monday of October 2026 does not exist (Mondays: 5, 12, 19, 26)
    let mut r = rule("monthly");
    r.month_nth = Some(5);
    r.weekdays = Some(1);
    let due = ts(2026, 9, 28, 9, 0);
    assert_eq!(next_at(&r, due, due), None);
}

#[test]
fn leap_day_yearly_clamps() {
    let r = rule("yearly");
    let due = ts(2028, 2, 29, 9, 0);
    assert_eq!(next_at(&r, due, due).unwrap(), ts(2029, 2, 28, 9, 0));
}

#[test]
fn custom_months_and_years() {
    let mut r = rule("custom");
    r.every = Some(3);
    r.unit = Some("month".into());
    let due = ts(2026, 11, 30, 9, 0);
    assert_eq!(next_at(&r, due, due).unwrap(), ts(2027, 2, 28, 9, 0));
    assert_eq!(previous_occurrence(&r, due).unwrap(), ts(2026, 8, 30, 9, 0));
    r.unit = Some("year".into());
    r.every = Some(2);
    assert_eq!(next_at(&r, due, due).unwrap(), ts(2028, 11, 30, 9, 0));
}

#[test]
fn unknown_mode_has_no_next() {
    let r = rule("fortnightly");
    let due = ts(2026, 9, 21, 9, 0);
    assert_eq!(next_at(&r, due, due), None);
    assert!(r.validate().is_err());
}

#[test]
fn end_conditions() {
    let mut r = rule("daily");
    r.end_mode = Some("count".into());
    r.count = Some(2);
    assert!(!reached_end(&r, 0, 0));
    assert!(reached_end(&r, 0, 1));
    r.end_mode = Some("until".into());
    r.end_at = Some(100);
    assert!(within_end(&r, 100));
    assert!(!within_end(&r, 101));
    assert!(reached_end(&r, 101, 0));
    r.end_mode = None;
    assert!(within_end(&r, 101));
}

#[test]
fn count_end_counts_instances_before_the_range() {
    let mut r = rule("daily");
    r.end_mode = Some("count".into());
    r.count = Some(3);
    let due = ts(2026, 9, 21, 9, 0);
    assert_eq!(expand_at(&r, due, 0, ts(2026, 9, 25, 0, 0), ts(2026, 9, 30, 0, 0)), Vec::<i64>::new());
    assert_eq!(
        expand_at(&r, due, 0, ts(2026, 9, 23, 0, 0), ts(2026, 9, 30, 0, 0)),
        vec![ts(2026, 9, 23, 9, 0)]
    );
}

#[test]
fn instants_outside_the_supported_range_are_refused() {
    let r = rule("daily");
    assert!(next_occurrence(&r, i64::MAX, 0).unwrap_err().starts_with("RECURRENCE_INVALID_TIME"));
    assert_eq!(previous_occurrence(&r, i64::MIN), None);
    assert!(expand_occurrences(&r, i64::MIN, 0, 0, 1).unwrap_err().starts_with("RECURRENCE_INVALID_TIME"));
}

#[test]
fn instants_near_the_end_of_the_calendar_still_roll() {
    let r = rule("daily");
    let far: i64 = 8_100_000_000_000_000;
    let next = next_occurrence(&r, far, 0).unwrap().unwrap();
    assert!(next > far && next - far <= 25 * 3_600_000);
    assert_eq!(expand_occurrences(&r, far, 0, 1, 0).unwrap(), Vec::<i64>::new());
    assert!(previous_occurrence(&r, far).is_some());
    assert!(next_occurrence(&r, 8_210_266_790_400_000, 0).unwrap_err().starts_with("RECURRENCE_INVALID_TIME"));
}

#[test]
fn custom_every_two_weeks_steps_back_over_the_off_week() {
    let mut r = rule("custom");
    r.every = Some(2);
    r.unit = Some("week".into());
    r.weekdays = Some(0b0000101);
    assert_eq!(previous_occurrence(&r, ts(2026, 10, 5, 8, 0)), Some(ts(2026, 9, 23, 8, 0)));
    assert_eq!(next_at(&r, ts(2026, 9, 23, 8, 0), ts(2026, 9, 23, 8, 0)), Some(ts(2026, 10, 5, 8, 0)));
}

fn date(year: i32, month: u32, day: u32) -> CivilDate {
    CivilDate { year, month, day }
}

#[test]
fn every_two_weeks_on_monday_and_wednesday_steps_to_the_first_matching_day() {
    let mut r = rule("custom");
    r.every = Some(2);
    r.unit = Some("week".into());
    r.weekdays = Some(0b0000101);
    assert_eq!(step_date(&r, date(2026, 9, 23), true), Some(date(2026, 10, 5)));
    assert_eq!(step_date(&r, date(2026, 10, 5), true), Some(date(2026, 10, 7)));
    assert_eq!(step_date(&r, date(2026, 10, 7), true), Some(date(2026, 10, 19)));
    assert_eq!(step_date(&r, date(2026, 10, 5), false), Some(date(2026, 9, 23)));
    assert_eq!(step_date(&r, date(2026, 10, 7), false), Some(date(2026, 10, 5)));
    // from a Sunday the next week is an off week
    assert_eq!(step_date(&r, date(2026, 9, 27), true), Some(date(2026, 10, 5)));
    // from a Tuesday the same week's Wednesday comes first
    assert_eq!(step_date(&r, date(2026, 9, 22), true), Some(date(2026, 9, 23)));
}

#[test]
fn weekly_with_a_mask_of_no_weekday_never_steps() {
    let mut r = rule("custom");
    r.every = Some(3);
    r.unit = Some("week".into());
    r.weekdays = Some(0b10000000);
    assert_eq!(step_date(&r, date(2026, 9, 23), true), None);
    assert_eq!(step_date(&r, date(2026, 9, 23), false), None);
}

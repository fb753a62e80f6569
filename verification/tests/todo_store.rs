use chrono::TimeZone;
use xhub::models::Todo;
use xhub::todo_store::{
    complete_recurring_plan, not_found_or_conflict, reorder_positions, sticky_conflict,
    undo_recurring_plan, CompletePlan, UndoPlan,
};

fn ts(y: i32, mo: u32, d: u32, h: u32, mi: u32) -> i64 {
    chrono::Local
        .with_ymd_and_hms(y, mo, d, h, mi, 0)
        .earliest()
        .unwrap()
        .timestamp_millis()
}

fn todo(mode: &str, due: Option<i64>, remind: Option<i64>) -> Todo {
    Todo {
        id: 42,
        title: "喝 8 杯水".to_string(),
        done: false,
        priority: 0,
        created_at: "2026-09-01 00:00:00".to_string(),
        updated_at: "2026-09-01 00:00:00".to_string(),
        completed_at: None,
        due_at: due,
        remind_at: remind,
        remind_fired: true,
        parent_id: None,
        sort_order: Some(3),
        version: 5,
        description: String::new(),
        pinned: false,
        repeat_mode: mode.to_string(),
        repeat_every: None,
        repeat_unit: None,
        repeat_weekdays: None,
        repeat_month_day: None,
        repeat_month_nth: None,
        repeat_end_mode: None,
        repeat_end_at: None,
        repeat_count: None,
        repeat_done_count: 0,
        repeat_last_done_at: None,
    }
}

#[test]
fn complete_recurring_rolls_due_and_counts() {
    let due = ts(2026, 9, 21, 9, 0);
    let t = todo("daily", Some(due), None);
    assert_eq!(
        complete_recurring_plan(&t, due),
        Ok(CompletePlan::Roll { due_at: ts(2026, 9, 22, 9, 0), remind_at: None, done_count: 1, keep_sort_order: false })
    );
}

#[test]
fn complete_recurring_skips_missed_and_shifts_reminder() {
    let due = ts(2026, 9, 21, 9, 0);
    let t = todo("daily", Some(due), Some(ts(2026, 9, 21, 8, 30)));
    let now = ts(2026, 9, 24, 10, 0);
    assert_eq!(
        complete_recurring_plan(&t, now),
        Ok(CompletePlan::Roll {
            due_at: ts(2026, 9, 25, 9, 0),
            remind_at: Some(ts(2026, 9, 25, 8, 30)),
            done_count: 1,
            keep_sort_order: false
        })
    );
}

#[test]
fn complete_recurring_clears_sort_order_unless_pinned() {
    let due = ts(2026, 9, 21, 9, 0);
    let mut t = todo("daily", Some(due), None);
    match complete_recurring_plan(&t, due) {
        Ok(CompletePlan::Roll { keep_sort_order, .. }) => assert!(!keep_sort_order),
        other => panic!("{other:?}"),
    }
    t.pinned = true;
    match complete_recurring_plan(&t, due) {
        Ok(CompletePlan::Roll { keep_sort_order, .. }) => assert!(keep_sort_order),
        other => panic!("{other:?}"),
    }
}

#[test]
fn complete_recurring_ends_on_until() {
    let due = ts(2026, 9, 21, 9, 0);
    let mut t = todo("daily", Some(due), None);
    t.repeat_end_mode = Some("until".into());
    t.repeat_end_at = Some(ts(2026, 9, 22, 0, 0));
    assert_eq!(complete_recurring_plan(&t, due), Ok(CompletePlan::End { done_count: 1 }));
}

#[test]
fn complete_recurring_ends_on_count() {
    let due = ts(2026, 9, 21, 9, 0);
    let mut t = todo("daily", Some(due), None);
    t.repeat_end_mode = Some("count".into());
    t.repeat_count = Some(2);
    let first = complete_recurring_plan(&t, due).unwrap();
    let next_due = match first {
        CompletePlan::Roll { due_at, done_count, .. } => {
            assert_eq!(done_count, 1);
            due_at
        }
        other => panic!("{other:?}"),
    };
    t.due_at = Some(next_due);
    t.repeat_done_count = 1;
    assert_eq!(complete_recurring_plan(&t, next_due), Ok(CompletePlan::End { done_count: 2 }));
}

#[test]
fn complete_recurring_rejects_plain_todo() {
    let t = todo("once", None, None);
    let err = complete_recurring_plan(&t, 0).unwrap_err();
    assert!(err.starts_with("NOT_RECURRING"), "{err}");
    assert_eq!(err, "NOT_RECURRING: 待办 42 不是周期待办");
}

#[test]
fn complete_plan_needs_a_due_instant() {
    let t = todo("daily", None, None);
    assert_eq!(complete_recurring_plan(&t, 0).unwrap_err(), "INVALID_STATE: 周期待办 42 缺少截止时刻，无法滚动");
}

#[test]
fn undo_plan_rolls_back_due_and_count() {
    let due = ts(2026, 9, 21, 9, 0);
    let mut t = todo("daily", Some(ts(2026, 9, 22, 9, 0)), Some(ts(2026, 9, 22, 8, 30)));
    t.repeat_done_count = 1;
    assert_eq!(
        undo_recurring_plan(&t),
        Ok(UndoPlan { due_at: due, remind_at: Some(ts(2026, 9, 21, 8, 30)), done_count: 0 })
    );
    t.repeat_done_count = 0;
    assert_eq!(undo_recurring_plan(&t).unwrap().done_count, 0);
}

#[test]
fn undo_after_complete_restores_the_todo() {
    let due = ts(2026, 9, 21, 9, 0);
    let remind = Some(ts(2026, 9, 21, 8, 0));
    let t = todo("weekly", Some(due), remind);
    let (next, next_remind, count) = match complete_recurring_plan(&t, due).unwrap() {
        CompletePlan::Roll { due_at, remind_at, done_count, .. } => (due_at, remind_at, done_count),
        other => panic!("{other:?}"),
    };
    let mut rolled = t.clone();
    rolled.due_at = Some(next);
    rolled.remind_at = next_remind;
    rolled.repeat_done_count = count;
    assert_eq!(
        undo_recurring_plan(&rolled),
        Ok(UndoPlan { due_at: due, remind_at: remind, done_count: 0 })
    );
}

#[test]
fn undo_recurring_rolls_back_due_and_count() {
    let due = ts(2026, 9, 21, 9, 0);
    let t = todo("daily", Some(due), None);
    let rolled_due = match complete_recurring_plan(&t, due).unwrap() {
        CompletePlan::Roll { due_at, done_count, .. } => {
            assert_eq!(done_count, 1);
            due_at
        }
        other => panic!("{other:?}"),
    };
    let mut rolled = t.clone();
    rolled.due_at = Some(rolled_due);
    rolled.repeat_done_count = 1;
    let back = undo_recurring_plan(&rolled).unwrap();
    assert_eq!(back.due_at, due);
    assert_eq!(back.done_count, 0);
}

#[test]
fn undo_plan_errors() {
    let t = todo("once", Some(0), None);
    assert_eq!(undo_recurring_plan(&t).unwrap_err(), "NOT_RECURRING: 待办 42 已结束周期，无法撤销本轮");
    let t = todo("daily", None, None);
    assert_eq!(undo_recurring_plan(&t).unwrap_err(), "INVALID_STATE: 周期待办 42 缺少截止时刻，无法回滚");
}

#[test]
fn with_version_reports_not_found_for_missing_id() {
    let err = not_found_or_conflict(false, 9999, "待办");
    assert!(err.starts_with("NOT_FOUND"), "{err}");
    assert!(!err.contains("CONFLICT"), "{err}");
    assert_eq!(err, "NOT_FOUND: 待办 9999 不存在");
}

#[test]
fn guarded_write_messages() {
    assert_eq!(not_found_or_conflict(true, 7, "待办"), "CONFLICT: 待办 7 已被他人修改，请刷新后重试");
    assert_eq!(sticky_conflict(2), "CONFLICT: 便签 slot 2 已被他人修改，请刷新后重试");
}

#[test]
fn messages_write_ids_in_decimal() {
    assert_eq!(not_found_or_conflict(false, 0, "待办"), "NOT_FOUND: 待办 0 不存在");
    assert_eq!(not_found_or_conflict(false, 1234567890, "待办"), "NOT_FOUND: 待办 1234567890 不存在");
    assert_eq!(not_found_or_conflict(false, -45, "待办"), "NOT_FOUND: 待办 -45 不存在");
    assert_eq!(
        not_found_or_conflict(false, i64::MIN, "待办"),
        "NOT_FOUND: 待办 -9223372036854775808 不存在"
    );
    assert_eq!(
        not_found_or_conflict(true, i64::MAX, "待办"),
        "CONFLICT: 待办 9223372036854775807 已被他人修改，请刷新后重试"
    );
}

#[test]
fn reorder_assigns_sort_order_in_given_sequence() {
    assert_eq!(reorder_positions(&vec![30, 10, 20]), vec![(30, 1), (10, 2), (20, 3)]);
    assert_eq!(reorder_positions(&vec![]), vec![]);
}

use serde_json::Value;
use xhub::config::{
    backend_managed_fields, default_chat_models, default_chat_panel_side,
    default_floating_ball_buttons, default_market_endpoint, default_paste_method,
    default_quote_source, default_runtime_strategy, default_true, default_update_endpoint,
    default_update_interval_hours, is_backend_managed, merge_disk_authoritative, merge_source,
    normalize_clock_quote, FieldSource, LEGACY_CLOCK_QUOTE,
};

fn s(v: &str) -> Value {
    Value::String(v.to_string())
}

fn arr(v: &[&str]) -> Value {
    Value::Array(v.iter().map(|x| s(x)).collect())
}

fn num(x: f64) -> Value {
    serde_json::Number::from_f64(x).map(Value::Number).unwrap()
}

fn get<'a>(fields: &'a [(String, Value)], name: &str) -> &'a Value {
    &fields.iter().find(|(k, _)| k == name).unwrap().1
}

/// The configuration on disk, every backend-managed field off its default.
fn disk_with_backend_values() -> Vec<(String, Value)> {
    vec![
        ("theme_mode".into(), s("light")),
        ("chat_models".into(), Value::Array(vec![s("disk-model")])),
        ("chat_window_mode".into(), Value::Bool(true)),
        ("chat_window_width".into(), num(777.0)),
        ("chat_window_height".into(), num(666.0)),
        ("chat_window_x".into(), num(111.0)),
        ("chat_window_y".into(), num(222.0)),
        ("chat_window_pinned".into(), Value::Bool(true)),
        ("floating_ball_enabled".into(), Value::Bool(false)),
        ("floating_ball_auto_hide".into(), Value::Bool(false)),
        ("floating_ball_with_main".into(), Value::Bool(true)),
        ("floating_ball_buttons".into(), arr(&["view:disk"])),
        ("floating_ball_x".into(), num(333.0)),
        ("floating_ball_y".into(), num(444.0)),
        ("dev_extensions".into(), arr(&["E:\\src\\my-ext"])),
        ("dev_mode_enabled".into(), Value::Bool(true)),
        ("skill_roots".into(), arr(&["E:\\skills-custom"])),
        ("skipped_update_version".into(), s("9.9.9")),
        ("dashboard_layout".into(), s("[]")),
    ]
}

/// The front end's start-up snapshot: backend-managed fields at their defaults.
fn snapshot_without_backend_fields(disk: &[(String, Value)]) -> Vec<(String, Value)> {
    disk.iter()
        .map(|(k, v)| {
            let v = if is_backend_managed(k) {
                match v {
                    Value::Bool(b) => Value::Bool(!b),
                    Value::Array(_) => Value::Array(vec![]),
                    Value::String(_) => s(""),
                    _ => Value::Null,
                }
            } else {
                v.clone()
            };
            (k.clone(), v)
        })
        .collect()
}

#[test]
fn merge_keeps_backend_managed_fields() {
    let disk = disk_with_backend_values();
    let snapshot = snapshot_without_backend_fields(&disk);
    assert_ne!(get(&snapshot, "dev_extensions"), get(&disk, "dev_extensions"));
    assert_ne!(get(&snapshot, "skill_roots"), get(&disk, "skill_roots"));
    assert_ne!(get(&snapshot, "chat_models"), get(&disk, "chat_models"));

    let merged = merge_disk_authoritative(snapshot.clone(), disk.clone());
    for name in [
        "chat_models",
        "chat_window_mode",
        "chat_window_width",
        "chat_window_height",
        "chat_window_x",
        "chat_window_y",
        "chat_window_pinned",
        "floating_ball_enabled",
        "floating_ball_auto_hide",
        "floating_ball_with_main",
        "floating_ball_buttons",
        "floating_ball_x",
        "floating_ball_y",
        "dev_extensions",
        "dev_mode_enabled",
        "skill_roots",
        "skipped_update_version",
    ] {
        assert_eq!(get(&merged, name), get(&disk, name), "{name}");
    }
}

#[test]
fn backend_managed_field_list_is_real_and_effective() {
    let disk = disk_with_backend_values();
    let merged = merge_disk_authoritative(snapshot_without_backend_fields(&disk), disk.clone());
    for field in backend_managed_fields() {
        assert!(merged.iter().any(|(k, _)| k == field), "{field}");
        assert_eq!(get(&merged, field), get(&disk, field), "{field}");
    }
}

#[test]
fn merge_keeps_user_editable_fields_from_snapshot() {
    let disk = disk_with_backend_values();
    let mut snapshot = snapshot_without_backend_fields(&disk);
    for (k, v) in snapshot.iter_mut() {
        if k == "theme_mode" {
            *v = s("dark");
        }
        if k == "dashboard_layout" {
            *v = s(r#"[{"id":"clock"}]"#);
        }
    }
    let merged = merge_disk_authoritative(snapshot, disk);
    assert_eq!(get(&merged, "theme_mode"), &s("dark"));
    assert_eq!(get(&merged, "dashboard_layout"), &s(r#"[{"id":"clock"}]"#));
}

#[test]
fn merge_keeps_field_order() {
    let disk = disk_with_backend_values();
    let merged = merge_disk_authoritative(snapshot_without_backend_fields(&disk), disk.clone());
    let names: Vec<&String> = merged.iter().map(|(k, _)| k).collect();
    let expected: Vec<&String> = disk.iter().map(|(k, _)| k).collect();
    assert_eq!(names, expected);
}

#[test]
fn merge_sources() {
    assert_eq!(merge_source("skill_roots"), FieldSource::Disk);
    assert_eq!(merge_source("theme_mode"), FieldSource::Submitted);
    assert!(is_backend_managed("chat_window_pinned"));
    assert!(!is_backend_managed("chat_window"));
    assert_eq!(backend_managed_fields().len(), 17);
}

#[test]
fn defaults() {
    assert_eq!(default_paste_method(), "auto");
    assert_eq!(default_chat_panel_side(), "right");
    assert!(default_true());
    assert_eq!(default_update_interval_hours(), 4);
    assert_eq!(default_runtime_strategy(), "auto");
    assert_eq!(default_quote_source(), "online");
    assert!(default_update_endpoint().starts_with("https://"));
    assert!(default_market_endpoint().ends_with("registry.json"));
    assert_eq!(
        default_floating_ball_buttons(),
        vec!["view:dashboard", "view:notes", "view:suda", "act:search", "act:clipboard", "view:settings"]
    );
    let models = default_chat_models();
    assert_eq!(models.len(), 1);
    assert_eq!(models[0].id, "deepseek-default");
    assert!(models[0].is_default && !models[0].has_api_key && models[0].api_key.is_empty());
}

#[test]
fn legacy_clock_quote_is_cleared() {
    assert_eq!(normalize_clock_quote(LEGACY_CLOCK_QUOTE.to_string()), "");
    assert_eq!(normalize_clock_quote("自定义".to_string()), "自定义");
}

use serde_json::Value;
use xhub::api_spec::{
    base_of, dev_apply, dev_apply_status_path, device_revoke, device_tokens_path, email_send,
    email_verify, github_device_poll, github_device_start, my_submissions_path,
    platform_models_path, redeem_invite, submission_detail_path, submit_extension_path,
    withdraw_submission, JsonBody,
};

fn to_json(body: &JsonBody) -> Value {
    let mut m = serde_json::Map::new();
    for (k, v) in &body.fields {
        m.insert(k.clone(), Value::String(v.clone()));
    }
    Value::Object(m)
}

fn obj(pairs: &[(&str, &str)]) -> Value {
    let mut m = serde_json::Map::new();
    for (k, v) in pairs {
        m.insert(k.to_string(), Value::String(v.to_string()));
    }
    Value::Object(m)
}

#[test]
fn paths_match_the_server_routes() {
    let b = "https://x.example";
    assert_eq!(github_device_start(b).0, "https://x.example/api/v1/auth/github/device/start");
    assert_eq!(github_device_poll(b, "p").0, "https://x.example/api/v1/auth/github/device/poll");
    assert_eq!(email_send(b, "a@b.c").0, "https://x.example/api/v1/auth/email/send");
    assert_eq!(email_verify(b, "a@b.c", "123456").0, "https://x.example/api/v1/auth/email/verify");
    assert_eq!(redeem_invite(b, "CODE").0, "https://x.example/api/v1/me/redeem");
    assert_eq!(dev_apply(b, "reason").0, "https://x.example/api/v1/dev/apply");
    assert_eq!(dev_apply_status_path(), "/api/v1/dev/apply");
    assert_eq!(device_tokens_path(), "/api/v1/me/device-tokens");
    assert_eq!(device_revoke(b, 7).0, "https://x.example/api/v1/me/device-tokens/7/revoke");
    assert_eq!(platform_models_path(), "/api/v1/ai/models");
    assert_eq!(submit_extension_path(), "/api/v1/dev/submissions");
    assert_eq!(submission_detail_path(9), "/api/v1/dev/submissions/9");
    assert_eq!(withdraw_submission(b, 9).0, "https://x.example/api/v1/dev/submissions/9/withdraw");
}

#[test]
fn bodies_use_the_snake_case_keys_the_server_reads() {
    assert_eq!(to_json(&github_device_poll("b", "dev-code").1), obj(&[("poll_id", "dev-code")]));
    assert_eq!(to_json(&email_send("b", "a@b.c").1), obj(&[("email", "a@b.c")]));
    assert_eq!(
        to_json(&email_verify("b", "a@b.c", "000000").1),
        obj(&[("email", "a@b.c"), ("code", "000000")])
    );
    assert_eq!(to_json(&redeem_invite("b", "X").1), obj(&[("code", "X")]));
    assert_eq!(to_json(&dev_apply("b", "想做一个扩展").1), obj(&[("reason", "想做一个扩展")]));
    assert_eq!(to_json(&github_device_start("b").1), obj(&[]));
    assert_eq!(to_json(&device_revoke("b", 1).1), obj(&[]));
    assert_eq!(to_json(&withdraw_submission("b", 1).1), obj(&[]));
}

#[test]
fn base_trailing_slash_is_normalized() {
    assert_eq!(
        github_device_start("https://x.example/").0,
        "https://x.example/api/v1/auth/github/device/start"
    );
}

#[test]
fn base_of_strips_every_trailing_slash() {
    assert_eq!(base_of("https://x.example///"), "https://x.example");
    assert_eq!(base_of("https://x.example"), "https://x.example");
    assert_eq!(base_of("///"), "");
    assert_eq!(base_of(""), "");
}

#[test]
fn negative_and_large_ids_are_written_in_decimal() {
    assert_eq!(submission_detail_path(-3), "/api/v1/dev/submissions/-3");
    assert_eq!(
        device_revoke("h", i64::MAX).0,
        "h/api/v1/me/device-tokens/9223372036854775807/revoke"
    );
    assert_eq!(my_submissions_path(), "/api/v1/dev/submissions");
}

#[test]
fn body_fields_keep_their_order() {
    let b = email_verify("b", "e", "c").1;
    assert_eq!(b.fields, vec![("email".to_string(), "e".to_string()), ("code".to_string(), "c".to_string())]);
}

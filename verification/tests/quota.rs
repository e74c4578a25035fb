use local_quota_widget::double::Double;
use local_quota_widget::fields::{
    direct_u64, number_with_key, pick_string, timestamp_epoch, timestamp_text,
};
use local_quota_widget::json::{parse_json, parse_json_bytes, Json, JsonNumber};
use local_quota_widget::quota::{
    number_as_i64, parse_event_line, parse_window, window_label, QuotaSnapshot, UsageWindow,
};

fn json(text: &str) -> Json {
    parse_json(text).expect("a JSON document")
}

fn double(x: f64) -> Double {
    Double::from_bits(x.to_bits()).expect("a finite number")
}

#[test]
fn parses_weekly_rate_limit_event() {
    let line = r#"{"timestamp":"2026-07-28T03:19:01.559Z","type":"event_msg","payload":{"type":"token_count","rate_limits":{"primary":{"used_percent":2.0,"window_minutes":10080,"resets_at":1785813382},"secondary":null,"credits":null,"plan_type":"plus"}}}"#;
    let snapshot = parse_event_line(line).expect("a valid rate limit event");

    assert_eq!(snapshot.status, "ok");
    assert_eq!(snapshot.source, "local");
    assert_eq!(snapshot.plan_type.as_deref(), Some("plus"));
    assert_eq!(
        snapshot.observed_at.as_deref(),
        Some("2026-07-28T03:19:01.559Z")
    );
    assert_eq!(
        snapshot.primary,
        Some(UsageWindow {
            label: "7 天额度".into(),
            used_percent: double(2.0),
            remaining_percent: double(98.0),
            resets_at: Some(1_785_813_382),
            window_minutes: Some(10_080),
        })
    );
    assert!(snapshot.secondary.is_none());
}

#[test]
fn parses_two_windows_and_clamps_percentages() {
    let line = r#"{"timestamp":"2026-01-01T00:00:00Z","type":"event_msg","payload":{"type":"token_count","rate_limits":{"primary":{"used_percent":125,"window_minutes":300,"resets_at":12},"secondary":{"used_percent":42.5,"window_minutes":10080,"resets_at":34},"plan_type":"pro"}}}"#;
    let snapshot = parse_event_line(line).expect("a valid rate limit event");

    assert_eq!(
        snapshot.primary.unwrap().remaining_percent,
        double(0.0)
    );
    assert_eq!(
        snapshot.secondary.unwrap().remaining_percent,
        double(57.5)
    );
}

#[test]
fn ignores_unrelated_or_incomplete_events() {
    assert!(
        parse_event_line(r#"{"type":"event_msg","payload":{"type":"task_started"}}"#).is_none()
    );
    assert!(parse_event_line(
        r#"{"type":"event_msg","payload":{"type":"token_count","rate_limits":null}}"#
    )
    .is_none());
    assert!(parse_event_line("not-json").is_none());
}

#[test]
fn chooses_human_window_labels() {
    assert_eq!(window_label(Some(300)), "5 小时额度");
    assert_eq!(window_label(Some(1_440)), "每日额度");
    assert_eq!(window_label(Some(10_080)), "7 天额度");
    assert_eq!(window_label(Some(20_160)), "14 天额度");
    assert_eq!(window_label(None), "额度窗口");
}

#[test]
fn labels_change_at_their_bounds() {
    assert_eq!(window_label(Some(i64::MIN)), "5 小时额度");
    assert_eq!(window_label(Some(0)), "5 小时额度");
    assert_eq!(window_label(Some(360)), "5 小时额度");
    assert_eq!(window_label(Some(361)), "每日额度");
    assert_eq!(window_label(Some(1_441)), "7 天额度");
    assert_eq!(window_label(Some(10_081)), "额度窗口");
    assert_eq!(window_label(Some(10_140)), "169 小时额度");
    assert_eq!(window_label(Some(i64::MAX)), "额度窗口");
}

#[test]
fn a_missing_snapshot_carries_its_message_alone() {
    let snapshot = QuotaSnapshot::missing("无法定位用户目录。");
    assert_eq!(snapshot.status, "missing");
    assert_eq!(snapshot.source, "local");
    assert_eq!(snapshot.message.as_deref(), Some("无法定位用户目录。"));
    assert!(snapshot.plan_type.is_none());
    assert!(snapshot.primary.is_none());
    assert!(snapshot.secondary.is_none());
    assert!(snapshot.reset_credits.is_none());
    assert!(snapshot.observed_at.is_none());
}

#[test]
fn an_event_without_any_window_states_nothing() {
    assert!(parse_event_line(
        r#"{"type":"event_msg","payload":{"type":"token_count","rate_limits":{"plan_type":"plus"}}}"#
    )
    .is_none());
    assert!(parse_event_line(
        r#"{"type":"event_msg","payload":{"type":"token_count","rate_limits":{"primary":{"used_percent":"3"}}}}"#
    )
    .is_none());
    assert!(parse_event_line(
        r#"{"type":"event","payload":{"type":"token_count","rate_limits":{"primary":{"used_percent":3}}}}"#
    )
    .is_none());
    assert!(parse_event_line(r#"{"type":"event_msg"}"#).is_none());
    assert!(parse_event_line(r#"[1,2]"#).is_none());
}

#[test]
fn an_event_may_state_the_secondary_window_alone() {
    let snapshot = parse_event_line(
        r#"{"type":"event_msg","payload":{"type":"token_count","rate_limits":{"secondary":{"used_percent":30.25}}}}"#,
    )
    .expect("a window");
    assert!(snapshot.primary.is_none());
    let window = snapshot.secondary.unwrap();
    assert_eq!(window.used_percent, double(30.25));
    assert_eq!(window.remaining_percent, double(69.75));
    assert_eq!(window.label, "额度窗口");
    assert_eq!(window.resets_at, None);
    assert!(snapshot.observed_at.is_none());
}

#[test]
fn windows_of_the_log_round_their_integers() {
    let window = parse_window(&json(
        r#"{"used_percent": -4, "window_minutes": 299.5, "resets_at": 1e300}"#,
    ))
    .expect("a window");
    assert_eq!(window.used_percent, double(0.0));
    assert_eq!(window.remaining_percent, double(100.0));
    assert_eq!(window.window_minutes, Some(300));
    assert_eq!(window.resets_at, Some(i64::MAX));
    assert!(parse_window(&json("3")).is_none());
}

#[test]
fn numbers_are_taken_as_the_nearest_integer() {
    assert_eq!(number_as_i64(&json("12")), Some(12));
    assert_eq!(number_as_i64(&json("-12")), Some(-12));
    assert_eq!(number_as_i64(&json("2.5")), Some(3));
    assert_eq!(number_as_i64(&json("-2.5")), Some(-3));
    assert_eq!(number_as_i64(&json("18446744073709551615")), Some(i64::MAX));
    assert_eq!(number_as_i64(&json("\"12\"")), None);
    assert_eq!(number_as_i64(&json("null")), None);
}

#[test]
fn documents_are_read_with_all_their_parts() {
    let value = json(r#"{"a": [null, true, 1, -1, 1.5, "x"], "b": {"c": "d"}}"#);
    let items = value.get("a").unwrap().as_array().unwrap();
    assert_eq!(items.len(), 6);
    assert!(matches!(items[0], Json::Null));
    assert!(matches!(items[1], Json::Bool(true)));
    assert!(matches!(items[2], Json::Number(JsonNumber::PosInt(1))));
    assert!(matches!(items[3], Json::Number(JsonNumber::NegInt(-1))));
    match &items[4] {
        Json::Number(JsonNumber::Float(d)) => assert_eq!(d.to_bits(), 1.5f64.to_bits()),
        other => panic!("{other:?}"),
    }
    assert_eq!(items[5].as_str(), Some("x"));
    assert_eq!(value.get("b").unwrap().get("c").unwrap().as_str(), Some("d"));
    assert!(value.is_object());
    assert!(value.get("c").is_none());
    assert!(items[0].get("a").is_none());
}

#[test]
fn what_is_no_document_is_refused() {
    assert!(parse_json("").is_none());
    assert!(parse_json("{").is_none());
    assert!(parse_json("1 2").is_none());
    assert!(parse_json_bytes(b"[1]").is_some());
    assert!(parse_json_bytes(b"\xff").is_none());
}

#[test]
fn members_are_looked_up_in_order_of_preference() {
    let value = json(r#"{"a": 1, "b": "two", "c": -3, "d": "2026-08-05T01:59:18Z", "e": 4.5, "f": "17"}"#);
    assert_eq!(pick_string(&value, &["a", "b", "d"]), Some("two"));
    assert_eq!(pick_string(&value, &["a", "z"]), None);
    assert_eq!(direct_u64(&value, &["b", "c", "a"]), Some(1));
    assert_eq!(direct_u64(&value, &["c", "e"]), None);
    assert_eq!(timestamp_text(&value, &["e", "c"]), Some("-3".to_owned()));
    assert_eq!(timestamp_text(&value, &["b", "c"]), Some("two".to_owned()));
    assert_eq!(timestamp_epoch(&value, &["b", "e", "d"]), Some(1_785_895_158));
    assert_eq!(timestamp_epoch(&value, &["f"]), Some(17));
    assert_eq!(timestamp_epoch(&value, &["c"]), Some(-3));
    assert_eq!(timestamp_epoch(&value, &["b", "e"]), None);
    let (place, number) = number_with_key(&value, &["b", "e", "a"]).expect("a number");
    assert_eq!(place, 1);
    assert_eq!(number.round(), 5);
    assert!(number_with_key(&value, &["b", "z"]).is_none());
}

#[test]
fn times_with_an_offset_are_taken_at_their_moment() {
    let value = json(
        r#"{"a": "1970-01-01T02:00:00+02:00", "b": "1970-01-01T00:00:00.999Z", "c": "1969-12-31T23:59:59Z", "d": "1970-01-01"}"#,
    );
    assert_eq!(timestamp_epoch(&value, &["a"]), Some(0));
    assert_eq!(timestamp_epoch(&value, &["b"]), Some(0));
    assert_eq!(timestamp_epoch(&value, &["c"]), Some(-1));
    assert_eq!(timestamp_epoch(&value, &["d"]), None);
}

use local_quota_widget::credits::{
    collect_reset_credit_expirations, parse_meaningful_reset_credit_response,
    parse_reset_credit_response,
};
use local_quota_widget::json::{parse_json, Json};

fn json(text: &str) -> Json {
    parse_json(text).expect("a JSON document")
}

#[test]
fn parses_reset_credit_count_and_expirations() {
    let value = json(
        r#"{
            "available_count": 2,
            "credits": [
                { "expires_at": "2026-08-01T00:00:00Z" },
                { "expirationTime": 1785715200 }
            ]
        }"#,
    );
    let snapshot = parse_reset_credit_response(&value);

    assert_eq!(snapshot.count, Some(2));
    assert_eq!(snapshot.expires_at.len(), 2);
    assert_eq!(snapshot.status, "ok");
}

#[test]
fn infers_reset_credit_count_from_grants() {
    let value = json(r#"{"grants": [{ "expiresAt": "2026-08-01T00:00:00Z" }]}"#);
    let snapshot = parse_reset_credit_response(&value);

    assert_eq!(snapshot.count, Some(1));
    assert_eq!(snapshot.expires_at, vec!["2026-08-01T00:00:00Z"]);
}

#[test]
fn expirations_come_in_order_and_once() {
    let value = json(
        r#"[
            {"expires_at": "c", "credits": [{"expires": "a"}, {"expires": 10}]},
            {"expires_at": "a", "other": {"expires": "z"}},
            [[{"expires_at": "b"}]],
            {"items": {"available": {"expires": 9}}},
            "x"
        ]"#,
    );
    assert_eq!(
        collect_reset_credit_expirations(&value),
        vec!["10", "9", "a", "b", "c"]
    );
}

#[test]
fn a_stated_number_is_kept() {
    let value = json(r#"{"remaining": 0, "credits": [{"expires": "a"}, {"expires": "b"}]}"#);
    let snapshot = parse_reset_credit_response(&value);
    assert_eq!(snapshot.count, Some(0));
    assert_eq!(snapshot.expires_at, vec!["a", "b"]);
    assert!(snapshot.message.is_none());
}

#[test]
fn equal_expirations_count_once() {
    let value = json(r#"{"credits": [{"expires": "a"}, {"expires": "a"}]}"#);
    assert_eq!(parse_reset_credit_response(&value).count, Some(1));
}

#[test]
fn an_answer_without_credits_says_nothing() {
    let value = json(r#"{"credits": []}"#);
    let snapshot = parse_reset_credit_response(&value);
    assert_eq!(snapshot.count, None);
    assert!(snapshot.expires_at.is_empty());
    assert!(parse_meaningful_reset_credit_response(&value).is_none());
    let counted = json(r#"{"quantity": 3}"#);
    assert_eq!(
        parse_meaningful_reset_credit_response(&counted)
            .expect("credits")
            .count,
        Some(3)
    );
}

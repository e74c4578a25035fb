use local_quota_widget::double::Double;
use local_quota_widget::json::{parse_json, Json, JsonNumber};
use local_quota_widget::online::{
    find_online_window, parse_online_window, parse_usage_response, scale_ratio_field,
    usage_snapshot,
};

fn json(text: &str) -> Json {
    parse_json(text).expect("a JSON document")
}

fn double(x: f64) -> Double {
    Double::from_bits(x.to_bits()).expect("a finite number")
}

fn remaining(text: &str) -> Double {
    parse_online_window(Some(&json(text)))
        .expect("a window")
        .remaining_percent
}

#[test]
fn parses_online_short_and_weekly_windows() {
    let value = json(
        r#"{
            "plan_type": "plus",
            "rate_limit": {
                "primary_window": {
                    "used_percent": 3.0,
                    "reset_at": 1785895158,
                    "limit_window_seconds": 18000
                },
                "secondary_window": {
                    "remainingPercent": 82.5,
                    "resetsAt": "2026-08-05T01:59:18Z",
                    "windowSeconds": 604800
                }
            }
        }"#,
    );

    let snapshot = parse_usage_response(&value).expect("valid online usage");

    assert_eq!(snapshot.status, "ok");
    assert_eq!(snapshot.source, "online");
    assert_eq!(snapshot.plan_type.as_deref(), Some("plus"));
    assert_eq!(snapshot.primary.unwrap().remaining_percent, double(97.0));
    let weekly = snapshot.secondary.unwrap();
    assert_eq!(weekly.remaining_percent, double(82.5));
    assert_eq!(weekly.window_minutes, Some(10_080));
    assert_eq!(weekly.resets_at, Some(1_785_895_158));
}

#[test]
fn uses_online_weekly_window_as_the_primary_fallback() {
    let value = json(
        r#"{
            "rateLimit": {
                "primary": {
                    "remaining": 0.75,
                    "resetAt": 1785895158,
                    "periodSeconds": 604800
                }
            }
        }"#,
    );

    let snapshot = parse_usage_response(&value).expect("weekly fallback");

    assert_eq!(snapshot.primary.unwrap().remaining_percent, double(75.0));
    assert!(snapshot.secondary.is_none());
}

#[test]
fn parses_reset_credits_embedded_in_usage_response() {
    let value = json(
        r#"{
            "plan_type": "plus",
            "rate_limit": {
                "primary": {
                    "remainingPercent": 80,
                    "periodSeconds": 604800
                }
            },
            "rate_limit_reset_credits": {
                "available_count": 2,
                "credits": [
                    { "expires_at": "2026-09-01T00:00:00Z" },
                    { "expires_at": "2026-10-01T00:00:00Z" }
                ]
            }
        }"#,
    );

    let snapshot = parse_usage_response(&value).expect("usage with reset credits");
    let credits = snapshot.reset_credits.expect("embedded reset credits");

    assert_eq!(credits.count, Some(2));
    assert_eq!(credits.expires_at.len(), 2);
}

#[test]
fn an_answer_without_a_window_is_refused() {
    for text in [
        "{}",
        "null",
        r#"{"rate_limit": {"primary_window": {"limit_window_seconds": 18000}}}"#,
        r#"{"rate_limit": {"primary_window": {"used_percent": 3, "window_minutes": 1440}}}"#,
    ] {
        assert_eq!(
            parse_usage_response(&json(text)).unwrap_err(),
            "在线额度响应中没有可识别的额度窗口。"
        );
    }
}

#[test]
fn the_time_of_an_answer_is_a_moment_with_milliseconds() {
    let value = json(r#"{"primary": {"used": 0.5}}"#);
    let snapshot = parse_usage_response(&value).expect("a window");
    let time = snapshot.observed_at.expect("a time");
    assert_eq!(time.len(), 24);
    assert!(time.ends_with('Z'));
    assert!(chrono::DateTime::parse_from_rfc3339(&time).is_ok());
    let fixed = usage_snapshot(&value, "2026-08-05T01:59:18.000Z".to_owned()).expect("a window");
    assert_eq!(
        fixed.observed_at.as_deref(),
        Some("2026-08-05T01:59:18.000Z")
    );
}

#[test]
fn ratios_are_told_from_percentages() {
    assert_eq!(remaining(r#"{"remaining": 1}"#), double(100.0));
    assert_eq!(remaining(r#"{"remaining": 1.5}"#), double(1.5));
    assert_eq!(remaining(r#"{"remaining_percent": 0.5}"#), double(0.5));
    assert_eq!(remaining(r#"{"remainingPct": 0.5}"#), double(50.0));
    assert_eq!(remaining(r#"{"remaining_pct": 0.5}"#), double(0.5));
    assert_eq!(remaining(r#"{"remainingPercent": 0.5}"#), double(50.0));
    assert_eq!(remaining(r#"{"remaining_ratio": 1.5}"#), double(100.0));
    assert_eq!(remaining(r#"{"utilization": 0.25}"#), double(75.0));
    assert_eq!(remaining(r#"{"used": 25}"#), double(75.0));
    assert_eq!(remaining(r#"{"used": 0.25, "remaining": 40}"#), double(40.0));
    assert_eq!(remaining(r#"{"used_ratio": -3}"#), double(100.0));
    assert_eq!(remaining(r#"{"used": 1e308}"#), double(0.0));
    assert_eq!(remaining(r#"{"used": 0.07}"#), double(100.0 - 0.07 * 100.0));
}

#[test]
fn names_decide_what_is_a_ratio() {
    let half = JsonNumber::Float(double(0.5));
    let many = JsonNumber::PosInt(40);
    assert!(scale_ratio_field("utilization", &many));
    assert!(scale_ratio_field("usedRatio", &many));
    assert!(scale_ratio_field("used", &half));
    assert!(!scale_ratio_field("used", &many));
    assert!(!scale_ratio_field("used_percent", &half));
    assert!(!scale_ratio_field("used_pct", &half));
    assert!(scale_ratio_field("usedPercent", &half));
}

#[test]
fn the_length_of_a_window_comes_from_minutes_before_seconds() {
    let window = |text: &str| parse_online_window(Some(&json(text))).expect("a window");
    assert_eq!(
        window(r#"{"used": 3, "windowMinutes": 300, "window_seconds": 60}"#).window_minutes,
        Some(300)
    );
    assert_eq!(
        window(r#"{"used": 3, "windowMinutes": 9223372036854775808, "window_seconds": 119}"#)
            .window_minutes,
        Some(1)
    );
    assert_eq!(
        window(r#"{"used": 3, "duration_seconds": 18446744073709551615}"#).window_minutes,
        Some(307445734561825860)
    );
    assert_eq!(window(r#"{"used": 3}"#).window_minutes, None);
    assert_eq!(
        window(r#"{"used": 3, "windowMinutes": -5}"#).window_minutes,
        None
    );
    assert!(parse_online_window(None).is_none());
    assert!(parse_online_window(Some(&json("{}"))).is_none());
}

#[test]
fn windows_are_found_by_name_and_length() {
    let limits = json(
        r#"{
            "primary_window": {"used_percent": 1, "window_minutes": 10080},
            "short_window": {"used_percent": 2, "window_minutes": 301},
            "windows": [{"used_percent": 3, "window_minutes": 300}]
        }"#,
    );
    let found = find_online_window(&limits, &["primary_window", "short_window"], 18_000)
        .expect("the window of five hours");
    assert_eq!(remaining_of(found), double(98.0));
    let listed = find_online_window(&limits, &["primary_window"], 18_000).expect("the listed one");
    assert_eq!(remaining_of(listed), double(97.0));
    assert!(find_online_window(&limits, &["primary_window"], 3_600).is_none());
}

fn remaining_of(value: &Json) -> Double {
    parse_online_window(Some(value))
        .expect("a window")
        .remaining_percent
}

#[test]
fn listed_windows_are_found_by_title() {
    let limits = json(
        r#"{
            "limits": [
                {"used_percent": 5, "name": "other"},
                {"name": "the WEEKLY limit"},
                {"used_percent": 6, "type": 3, "id": "The Weekly Limit", "window_minutes": 7}
            ]
        }"#,
    );
    let found = find_online_window(&limits, &["weekly"], 604_800).expect("a title that fits");
    assert_eq!(remaining_of(found), double(94.0));
    assert!(find_online_window(&limits, &["primary"], 604_800).is_none());
}

#[test]
fn a_weekly_window_that_repeats_the_short_one_is_dropped() {
    let value = json(r#"{"primary": {"used_percent": 10, "resets_at": 5}}"#);
    let snapshot = parse_usage_response(&value).expect("a window");
    assert!(snapshot.primary.is_some());
    assert!(snapshot.secondary.is_none());
    let differing = json(
        r#"{"primary": {"used_percent": 10, "resets_at": 5}, "weekly": {"used_percent": 10, "resets_at": 6}}"#,
    );
    let both = parse_usage_response(&differing).expect("two windows");
    assert_ne!(both.primary, both.secondary);
    assert!(both.secondary.is_some());
}

#[test]
fn the_plan_and_the_credits_may_stand_with_the_limits() {
    let value = json(
        r#"{"rate_limit": {
            "planType": "pro",
            "primary": {"used_percent": 10},
            "rateLimitResetCredits": {"grants": [{"expires": 17}]}
        }}"#,
    );
    let snapshot = parse_usage_response(&value).expect("a window");
    assert_eq!(snapshot.plan_type.as_deref(), Some("pro"));
    let credits = snapshot.reset_credits.expect("credits");
    assert_eq!(credits.count, Some(1));
    assert_eq!(credits.expires_at, vec!["17"]);
    let none = json(r#"{"primary": {"used_percent": 10}, "rate_limit_reset_credits": {}}"#);
    assert!(parse_usage_response(&none)
        .expect("a window")
        .reset_credits
        .is_none());
}

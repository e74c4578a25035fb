use local_quota_widget::auth::{
    account_id_from_jwt, account_id_in_claims, auth_from_json, check_auth_file, parse_auth,
    MAX_AUTH_BYTES,
};
use local_quota_widget::encoding::decode_url_safe;
use local_quota_widget::headers::{auth_headers, rate_limited_message, Auth};
use local_quota_widget::json::parse_json;
use local_quota_widget::service::{Query, ResponseBody, MAX_RESPONSE_BYTES};
use reqwest::header::{HeaderMap, HeaderValue, RETRY_AFTER};

use base64::Engine;

fn token(claims: &str) -> String {
    let body = base64::engine::general_purpose::URL_SAFE_NO_PAD.encode(claims);
    format!("head.{body}.tail")
}

#[test]
fn includes_retry_after_seconds_in_rate_limit_message() {
    let mut headers = HeaderMap::new();
    headers.insert(RETRY_AFTER, HeaderValue::from_static("90"));

    assert_eq!(
        rate_limited_message(&headers, "重置卡查询过于频繁"),
        "重置卡查询过于频繁，请 90 秒后重试。"
    );
}

#[test]
fn without_a_number_of_seconds_five_minutes_are_told() {
    let told = "额度，请至少等待 5 分钟后重试。";
    let mut headers = HeaderMap::new();
    assert_eq!(rate_limited_message(&headers, "额度"), told);
    for text in ["soon", "-1", "", "1.5", "18446744073709551616"] {
        headers.insert(RETRY_AFTER, HeaderValue::from_str(text).unwrap());
        assert_eq!(rate_limited_message(&headers, "额度"), told, "{text}");
    }
    headers.insert(RETRY_AFTER, HeaderValue::from_bytes(b"\xff").unwrap());
    assert_eq!(rate_limited_message(&headers, "额度"), told);
    headers.insert(RETRY_AFTER, HeaderValue::from_static("7"));
    headers.append(RETRY_AFTER, HeaderValue::from_static("8"));
    assert_eq!(
        rate_limited_message(&headers, "额度"),
        "额度，请 7 秒后重试。"
    );
}

#[test]
fn a_request_carries_the_login_and_the_account() {
    let headers = auth_headers(&Auth {
        access_token: "abc".to_owned(),
        account_id: Some("acc-1".to_owned()),
    })
    .expect("headers");
    assert_eq!(headers.len(), 5);
    assert_eq!(headers["authorization"], "Bearer abc");
    assert!(headers["authorization"].is_sensitive());
    assert_eq!(headers["accept"], "application/json");
    assert!(!headers["accept"].is_sensitive());
    assert_eq!(headers["originator"], "Codex Desktop");
    assert_eq!(headers["OAI-Product-Sku"], "CODEX");
    assert_eq!(headers["ChatGPT-Account-Id"], "acc-1");
    assert!(headers["ChatGPT-Account-Id"].is_sensitive());
}

#[test]
fn a_request_without_an_account_names_none() {
    let headers = auth_headers(&Auth {
        access_token: "abc".to_owned(),
        account_id: None,
    })
    .expect("headers");
    assert_eq!(headers.len(), 4);
    assert!(!headers.contains_key("ChatGPT-Account-Id"));
}

#[test]
fn a_login_that_no_header_can_carry_is_refused() {
    let bad_token = auth_headers(&Auth {
        access_token: "a\nb".to_owned(),
        account_id: Some("a\nb".to_owned()),
    });
    assert_eq!(bad_token.unwrap_err(), "Codex 登录信息无效。");
    let bad_account = auth_headers(&Auth {
        access_token: "ab".to_owned(),
        account_id: Some("a\nb".to_owned()),
    });
    assert_eq!(bad_account.unwrap_err(), "账户标识无效。");
}

#[test]
fn queries_go_to_the_quota_service() {
    assert_eq!(
        Query::Usage.url(),
        "https://chatgpt.com/backend-api/wham/usage"
    );
    assert_eq!(
        Query::ResetCredits.url(),
        "https://chatgpt.com/backend-api/wham/rate-limit-reset-credits"
    );
    assert_eq!(
        Query::Usage.unreachable_message(),
        "在线额度刷新失败，请检查网络。"
    );
    assert_eq!(
        Query::ResetCredits.unreachable_message(),
        "重置卡查询失败，请检查网络。"
    );
}

#[test]
fn a_refusal_is_told_by_its_status() {
    let mut headers = HeaderMap::new();
    headers.insert(RETRY_AFTER, HeaderValue::from_static("12"));
    assert!(Query::Usage.check_status(200, &headers).is_ok());
    assert!(Query::ResetCredits.check_status(299, &headers).is_ok());
    let told = |query: Query, status: u16| query.check_status(status, &headers).unwrap_err();
    assert_eq!(told(Query::Usage, 401), "Codex 登录已过期或没有额度查询权限。");
    assert_eq!(told(Query::Usage, 403), "Codex 登录已过期或没有额度查询权限。");
    assert_eq!(told(Query::Usage, 429), "额度查询过于频繁，请 12 秒后重试。");
    assert_eq!(told(Query::Usage, 500), "在线额度服务暂不可用（500）。");
    assert_eq!(told(Query::Usage, 199), "在线额度服务暂不可用（199）。");
    assert_eq!(told(Query::Usage, 300), "在线额度服务暂不可用（300）。");
    assert_eq!(told(Query::ResetCredits, 401), "Codex 登录已过期或没有查询权限。");
    assert_eq!(
        told(Query::ResetCredits, 429),
        "重置卡查询过于频繁，请 12 秒后重试。"
    );
    assert_eq!(told(Query::ResetCredits, 404), "重置卡服务暂不可用（404）。");
}

#[test]
fn an_answer_is_received_in_chunks() {
    let mut body = ResponseBody::begin(None).expect("room for an answer");
    for chunk in [&b"{\"a\""[..], b"", b": [1", b"]}"] {
        body.push_chunk(chunk).expect("room for a chunk");
    }
    let json = body.finish().expect("a document");
    assert_eq!(json.get("a").unwrap().as_array().unwrap().len(), 1);
}

#[test]
fn an_answer_that_is_too_long_is_refused() {
    let limit = MAX_RESPONSE_BYTES as u64;
    assert!(ResponseBody::begin(Some(limit)).is_ok());
    assert_eq!(
        ResponseBody::begin(Some(limit + 1)).err().unwrap(),
        "额度服务响应异常过大。"
    );
    let mut body = ResponseBody::begin(Some(1)).expect("room for an answer");
    body.push_chunk(&vec![b' '; MAX_RESPONSE_BYTES])
        .expect("room for a chunk");
    body.push_chunk(b"").expect("room for nothing");
    assert_eq!(body.push_chunk(b"1").unwrap_err(), "额度服务响应异常过大。");
    assert_eq!(body.finish().err().unwrap(), "额度服务响应格式已经变化。");
}

#[test]
fn an_answer_that_is_no_document_is_refused() {
    let mut body = ResponseBody::begin(None).expect("room for an answer");
    body.push_chunk(b"<html>").expect("room for a chunk");
    assert_eq!(body.finish().err().unwrap(), "额度服务响应格式已经变化。");
}

#[test]
fn a_login_is_read_from_its_file() {
    let auth = parse_auth(r#"{"tokens": {"access_token": "t", "account_id": "a"}}"#).expect("a login");
    assert_eq!(auth.access_token, "t");
    assert_eq!(auth.account_id.as_deref(), Some("a"));
    let flat = parse_auth(r#"{"accessToken": "t", "accountId": "b"}"#).expect("a login");
    assert_eq!(flat.account_id.as_deref(), Some("b"));
    let unknown = parse_auth(r#"{"accessToken": "t"}"#).expect("a login");
    assert!(unknown.account_id.is_none());
}

#[test]
fn a_login_without_an_account_takes_that_of_its_token() {
    let access = token(r#"{"chatgpt_account_id": "from-token"}"#);
    let auth = parse_auth(&format!("{{\"access_token\": \"{access}\"}}")).expect("a login");
    assert_eq!(auth.account_id.as_deref(), Some("from-token"));
}

#[test]
fn a_login_that_is_none_is_refused() {
    assert_eq!(parse_auth("{").err().unwrap(), "Codex 登录格式已经变化。");
    assert_eq!(
        parse_auth("{}").err().unwrap(),
        "Codex 登录已过期，请重新登录。"
    );
    let value = parse_json(r#"{"tokens": null, "access_token": "t"}"#).unwrap();
    assert_eq!(
        auth_from_json(&value).err().unwrap(),
        "Codex 登录已过期，请重新登录。"
    );
}

#[test]
fn a_login_file_is_plain_and_not_too_large() {
    assert!(check_auth_file(true, 0).is_ok());
    assert!(check_auth_file(true, MAX_AUTH_BYTES).is_ok());
    assert_eq!(
        check_auth_file(true, MAX_AUTH_BYTES + 1).unwrap_err(),
        "Codex 登录信息不可用。"
    );
    assert_eq!(
        check_auth_file(false, 1).unwrap_err(),
        "Codex 登录信息不可用。"
    );
}

#[test]
fn a_token_gives_the_account_it_claims() {
    let both = token(
        r#"{"chatgpt_account_id": "b", "https://api.openai.com/auth.chatgpt_account_id": "a"}"#,
    );
    assert_eq!(account_id_from_jwt(&both).as_deref(), Some("a"));
    assert_eq!(account_id_from_jwt(&token("{}")), None);
    assert_eq!(account_id_from_jwt(&token("[")), None);
    assert_eq!(account_id_from_jwt("onepart"), None);
    assert_eq!(account_id_from_jwt("a.!!.c"), None);
    let claims = parse_json(r#"{"chatgpt_account_id": "b"}"#).unwrap();
    assert_eq!(account_id_in_claims(&claims).as_deref(), Some("b"));
}

#[test]
fn base64_reads_back_what_was_written() {
    for bytes in [&b""[..], b"f", b"fo", b"foo", b"foob", b"\xff\xfe\xfd\x00\x10"] {
        let text = base64::engine::general_purpose::URL_SAFE_NO_PAD.encode(bytes);
        assert_eq!(decode_url_safe(&text).as_deref(), Some(bytes));
    }
    assert_eq!(decode_url_safe("-_8").as_deref(), Some(&b"\xfb\xff"[..]));
}

#[test]
fn what_is_no_base64_is_refused() {
    for text in ["A", "AA=", "AA==", "AB", "AAB", "+/8", "A A", "额度"] {
        assert_eq!(decode_url_safe(text), None, "{text}");
    }
}

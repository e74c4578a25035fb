//! HTTP headers: those a request carries, and what the headers of an answer say.
use reqwest::header::{HeaderMap, HeaderValue, InvalidHeaderValue, ToStrError};
use vstd::prelude::*;
use vstd::utf8::{encode_utf8, is_ascii_chars_encode_utf8};

use crate::quota::view_of;
use crate::text::{
    append_decimal, append_text, decimal, is_digit, joined, law_unsigned_decimal_reads_back,
    lowered, parse_u64, parsed_u64,
};

verus! {

/// A header map of `reqwest`.
#[verifier::external_type_specification]
#[verifier::external_body]
#[verifier::reject_recursive_types(T)]
pub struct ExHeaderMap<T>(HeaderMap<T>);

/// A header value of `reqwest`.
#[verifier::external_type_specification]
#[verifier::external_body]
pub struct ExHeaderValue(HeaderValue);

/// The error with which `reqwest` refuses a text as a header value.
#[verifier::external_type_specification]
#[verifier::external_body]
pub struct ExInvalidHeaderValue(InvalidHeaderValue);

/// The error with which `reqwest` refuses to give a header value as text.
#[verifier::external_type_specification]
#[verifier::external_body]
pub struct ExToStrError(ToStrError);

/// What a `HeaderMap` holds: for each name, in small letters, the values under it in order,
/// each with its bytes and whether it is marked as sensitive.
pub uninterp spec fn header_fields(headers: HeaderMap<HeaderValue>) -> Map<
    Seq<char>,
    Seq<(Seq<u8>, bool)>,
>;

/// What a `HeaderValue` holds: its bytes and whether it is marked as sensitive.
pub uninterp spec fn header_value(value: HeaderValue) -> (Seq<u8>, bool);

/// The bytes that a header value may hold: no control characters but the tab.
pub open spec fn is_value_byte(b: u8) -> bool {
    b >= 32 && b != 127 || b == 9
}

/// The bytes of a header value that reads as text: the visible ASCII characters, the space
/// and the tab.
pub open spec fn is_visible_byte(b: u8) -> bool {
    32 <= b < 127 || b == 9
}

/// Bytes that a header value may hold.
pub open spec fn is_value(bytes: Seq<u8>) -> bool {
    forall|i: int| 0 <= i < bytes.len() ==> is_value_byte(#[trigger] bytes[i])
}

/// Bytes of a header value that reads as text.
pub open spec fn is_visible(bytes: Seq<u8>) -> bool {
    forall|i: int| 0 <= i < bytes.len() ==> is_visible_byte(#[trigger] bytes[i])
}

/// The contents of a header map without any header.
pub open spec fn no_fields() -> Map<Seq<char>, Seq<(Seq<u8>, bool)>> {
    Map::empty()
}

/// `HeaderMap::new` gives a map without any header.
pub assume_specification[ HeaderMap::<HeaderValue>::new ]() -> (headers: HeaderMap<HeaderValue>)
    ensures
        header_fields(headers) == no_fields(),
;

/// `HeaderValue::from_str` takes the bytes of the text, not marked as sensitive, and refuses
/// a text with a byte that no header value may hold.
pub assume_specification[ HeaderValue::from_str ](src: &str) -> (result: Result<
    HeaderValue,
    InvalidHeaderValue,
>)
    ensures
        result is Ok <==> is_value(encode_utf8(src@)),
        result matches Ok(value) ==> header_value(value) == (encode_utf8(src@), false),
;

/// `HeaderValue::set_sensitive` sets the mark and leaves the bytes.
pub assume_specification[ HeaderValue::set_sensitive ](value: &mut HeaderValue, val: bool)
    ensures
        header_value(*final(value)) == (header_value(*old(value)).0, val),
;

/// `HeaderValue::to_str` gives the bytes as text, and refuses where one of them is not
/// visible.
pub assume_specification[ HeaderValue::to_str ](value: &HeaderValue) -> (result: Result<
    &str,
    ToStrError,
>)
    ensures
        result is Ok <==> is_visible(header_value(*value).0),
        result matches Ok(text) ==> text@ == ascii_text(header_value(*value).0),
;

/// The characters of the header names in use: ASCII letters, digits and the hyphen.
pub open spec fn is_name_char(c: char) -> bool {
    ('a' <= c <= 'z') || ('A' <= c <= 'Z') || ('0' <= c <= '9') || c == '-'
}

/// A header name of a usual length, made of letters, digits and hyphens.
pub open spec fn is_header_name(name: Seq<char>) -> bool {
    &&& 1 <= name.len() <= 64
    &&& forall|i: int| 0 <= i < name.len() ==> is_name_char(#[trigger] name[i])
}

/// `HeaderValue::from_static` takes the bytes of the text, not marked as sensitive. It panics
/// on a text that is not visible.
pub assume_specification[ HeaderValue::from_static ](src: &'static str) -> (value: HeaderValue)
    requires
        is_visible(encode_utf8(src@)),
    ensures
        header_value(value) == (encode_utf8(src@), false),
;

/// `HeaderMap::insert`: the value becomes the only one under the name, whatever the case of
/// its letters. It panics on a name that is none and on a map that is close to its limit of
/// some thousand names.
#[verifier::external_body]
fn insert_header(headers: &mut HeaderMap<HeaderValue>, name: &'static str, value: HeaderValue)
    requires
        is_header_name(name@),
        header_fields(*old(headers)).dom().finite(),
        header_fields(*old(headers)).dom().len() < 1000,
    ensures
        header_fields(*final(headers)) == header_fields(*old(headers)).insert(
            lowered(name@),
            seq![header_value(value)],
        ),
{
    headers.insert(name, value);
}

/// `HeaderMap::get`: the first value under the name, whatever the case of its letters.
#[verifier::external_body]
fn first_header<'a>(headers: &'a HeaderMap<HeaderValue>, name: &str) -> (found: Option<
    &'a HeaderValue,
>)
    requires
        is_header_name(name@),
    ensures
        found is Some <==> header_fields(*headers).contains_key(lowered(name@)),
        found matches Some(value) ==> header_fields(*headers)[lowered(name@)].len() > 0
            && header_fields(*headers)[lowered(name@)][0] == header_value(*value),
{
    headers.get(name)
}

/// Visible bytes as the characters they stand for.
pub open spec fn ascii_text(bytes: Seq<u8>) -> Seq<char> {
    bytes.map_values(|b: u8| b as char)
}

/// The seconds that the header `Retry-After` asks to wait, where it gives a number.
pub open spec fn retry_seconds(fields: Map<Seq<char>, Seq<(Seq<u8>, bool)>>) -> Option<u64> {
    if fields.contains_key("retry-after"@) && is_visible(fields["retry-after"@][0].0) {
        parsed_u64(ascii_text(fields["retry-after"@][0].0))
    } else {
        None
    }
}

/// What is told where the service asks to wait.
pub open spec fn waiting_text(subject: Seq<char>, seconds: Option<u64>) -> Seq<char> {
    match seconds {
        Some(n) => subject + "，请 "@ + decimal(n as nat) + " 秒后重试。"@,
        None => subject + "，请至少等待 5 分钟后重试。"@,
    }
}

/// The seconds that the header `Retry-After` asks to wait, where it gives a number.
fn retry_after(headers: &HeaderMap<HeaderValue>) -> (seconds: Option<u64>)
    ensures
        seconds == retry_seconds(header_fields(*headers)),
{
    proof {
        reveal_strlit("retry-after");
        assert(lowered("retry-after"@) == "retry-after"@);
    }
    match first_header(headers, "retry-after") {
        Some(value) => match value.to_str() {
            Ok(text) => parse_u64(text),
            Err(_) => None,
        },
        None => None,
    }
}

/// What is told where the service asks to wait.
pub fn rate_limited_message(headers: &HeaderMap<HeaderValue>, subject: &str) -> (message: String)
    ensures
        message@ == waiting_text(subject@, retry_seconds(header_fields(*headers))),
{
    let mut message: String = subject.to_owned();
    match retry_after(headers) {
        Some(seconds) => {
            append_text(&mut message, "，请 ");
            append_decimal(&mut message, seconds);
            append_text(&mut message, " 秒后重试。");
        },
        None => {
            append_text(&mut message, "，请至少等待 5 分钟后重试。");
        },
    }
    message
}

/// Where the header `Retry-After` gives a number of seconds, that number is told.
pub proof fn law_retry_after_is_told(
    fields: Map<Seq<char>, Seq<(Seq<u8>, bool)>>,
    seconds: u64,
    subject: Seq<char>,
)
    requires
        fields.contains_key("retry-after"@),
        ascii_text(fields["retry-after"@][0].0) == decimal(seconds as nat),
    ensures
        waiting_text(subject, retry_seconds(fields)) == subject + "，请 "@ + decimal(seconds as nat)
            + " 秒后重试。"@,
{
    law_unsigned_decimal_reads_back(seconds);
    let bytes: Seq<u8> = fields["retry-after"@][0].0;
    assert forall|i: int| 0 <= i < bytes.len() implies is_visible_byte(#[trigger] bytes[i]) by {
        assert(ascii_text(bytes)[i] == bytes[i] as char);
        assert(is_digit(decimal(seconds as nat)[i]));
    }
}

/// Who asks: the access token of the login and the account, where it is known.
pub struct Auth {
    pub access_token: String,
    pub account_id: Option<String>,
}

/// The model of a login.
pub struct AuthView {
    pub access_token: Seq<char>,
    pub account_id: Option<Seq<char>>,
}

impl View for Auth {
    type V = AuthView;

    open spec fn view(&self) -> AuthView {
        AuthView { access_token: self.access_token@, account_id: view_of(self.account_id) }
    }
}

/// The value that proves the login.
pub open spec fn bearer(token: Seq<char>) -> Seq<char> {
    "Bearer "@ + token
}

/// The headers that every request carries, whoever asks.
pub open spec fn login_fields(token: Seq<char>) -> Map<Seq<char>, Seq<(Seq<u8>, bool)>> {
    no_fields()
        .insert("authorization"@, seq![(encode_utf8(bearer(token)), true)])
        .insert("accept"@, seq![(encode_utf8("application/json"@), false)])
        .insert("originator"@, seq![(encode_utf8("Codex Desktop"@), false)])
        .insert("oai-product-sku"@, seq![(encode_utf8("CODEX"@), false)])
}

/// The headers of a request: the login and the account are marked as sensitive.
pub open spec fn request_fields(auth: AuthView) -> Map<Seq<char>, Seq<(Seq<u8>, bool)>> {
    match auth.account_id {
        Some(id) => login_fields(auth.access_token).insert(
            "chatgpt-account-id"@,
            seq![(encode_utf8(id), true)],
        ),
        None => login_fields(auth.access_token),
    }
}

/// Of the headers of a request just those that tell who asks are marked as sensitive.
pub proof fn law_login_is_sensitive(auth: AuthView, name: Seq<char>)
    requires
        request_fields(auth).contains_key(name),
    ensures
        request_fields(auth)[name].len() == 1,
        request_fields(auth)[name][0].1 <==> name == "authorization"@ || name
            == "chatgpt-account-id"@,
{
    lemma_names();
    reveal_strlit("authorization");
    reveal_strlit("accept");
    reveal_strlit("originator");
    reveal_strlit("oai-product-sku");
    reveal_strlit("chatgpt-account-id");
    assert("authorization"@[1] != "accept"@[1]);
    assert("authorization"@[0] != "originator"@[0]);
    assert("authorization"@[0] != "oai-product-sku"@[0]);
    assert("authorization"@[0] != "chatgpt-account-id"@[0]);
    assert("accept"@[0] != "chatgpt-account-id"@[0]);
    assert("originator"@[0] != "chatgpt-account-id"@[0]);
    assert("oai-product-sku"@[0] != "chatgpt-account-id"@[0]);
}

/// The headers of a request. A login or an account that no header can carry is refused.
pub fn auth_headers(auth: &Auth) -> (result: Result<HeaderMap<HeaderValue>, String>)
    ensures
        match result {
            Ok(headers) => {
                &&& is_value(encode_utf8(bearer(auth@.access_token)))
                &&& auth@.account_id matches Some(id) ==> is_value(encode_utf8(id))
                &&& header_fields(headers) == request_fields(auth@)
            },
            Err(message) => if is_value(encode_utf8(bearer(auth@.access_token))) {
                &&& auth@.account_id matches Some(id) && !is_value(encode_utf8(id))
                &&& message@ == "账户标识无效。"@
            } else {
                message@ == "Codex 登录信息无效。"@
            },
        },
{
    let mut headers: HeaderMap<HeaderValue> = HeaderMap::new();
    let text: String = joined("Bearer ", auth.access_token.as_str());
    let mut login: HeaderValue = match HeaderValue::from_str(text.as_str()) {
        Ok(login) => login,
        Err(_) => {
            return Err("Codex 登录信息无效。".to_owned());
        },
    };
    login.set_sensitive(true);
    proof {
        lemma_names();
        lemma_values();
    }
    insert_header(&mut headers, "authorization", login);
    insert_header(&mut headers, "accept", HeaderValue::from_static("application/json"));
    insert_header(&mut headers, "originator", HeaderValue::from_static("Codex Desktop"));
    insert_header(&mut headers, "OAI-Product-Sku", HeaderValue::from_static("CODEX"));
    if let Some(account_id) = &auth.account_id {
        let mut account: HeaderValue = match HeaderValue::from_str(account_id.as_str()) {
            Ok(account) => account,
            Err(_) => {
                return Err("账户标识无效。".to_owned());
            },
        };
        account.set_sensitive(true);
        insert_header(&mut headers, "ChatGPT-Account-Id", account);
    }
    Ok(headers)
}

/// The header names in use, and their small letters.
proof fn lemma_names()
    ensures
        is_header_name("authorization"@),
        is_header_name("accept"@),
        is_header_name("originator"@),
        is_header_name("OAI-Product-Sku"@),
        is_header_name("ChatGPT-Account-Id"@),
        lowered("authorization"@) == "authorization"@,
        lowered("accept"@) == "accept"@,
        lowered("originator"@) == "originator"@,
        lowered("OAI-Product-Sku"@) == "oai-product-sku"@,
        lowered("ChatGPT-Account-Id"@) == "chatgpt-account-id"@,
{
    reveal_strlit("authorization");
    reveal_strlit("accept");
    reveal_strlit("originator");
    reveal_strlit("OAI-Product-Sku");
    reveal_strlit("oai-product-sku");
    reveal_strlit("ChatGPT-Account-Id");
    reveal_strlit("chatgpt-account-id");
}

/// The fixed header values in use.
proof fn lemma_values()
    ensures
        is_visible(encode_utf8("application/json"@)),
        is_visible(encode_utf8("Codex Desktop"@)),
        is_visible(encode_utf8("CODEX"@)),
{
    reveal_strlit("application/json");
    reveal_strlit("Codex Desktop");
    reveal_strlit("CODEX");
    is_ascii_chars_encode_utf8("application/json"@);
    is_ascii_chars_encode_utf8("Codex Desktop"@);
    is_ascii_chars_encode_utf8("CODEX"@);
}

/// A header value holds any bytes but the control characters, of which it may hold the tab; as text
/// it reads where they are all ASCII.
pub proof fn law_bytes_of_a_header_value(bytes: Seq<u8>)
    ensures
        is_value(bytes) <==> forall|i: int|
            0 <= i < bytes.len() ==> (#[trigger] bytes[i]) == 9 || (bytes[i] >= 32 && bytes[i]
                != 127),
        is_visible(bytes) <==> forall|i: int|
            0 <= i < bytes.len() ==> (#[trigger] bytes[i]) == 9 || 32 <= bytes[i] <= 126,
        ascii_text(bytes).len() == bytes.len(),
        forall|i: int|
            0 <= i < bytes.len() ==> (#[trigger] ascii_text(bytes)[i]) as int == bytes[i] as int,
{
}

/// The seconds to wait are what the first value of `Retry-After` reads as, where it is text and
/// reads as a number.
pub proof fn law_wait_is_what_the_header_reads_as(fields: Map<Seq<char>, Seq<(Seq<u8>, bool)>>)
    ensures
        fields.contains_key("retry-after"@) && is_visible(fields["retry-after"@][0].0)
            ==> retry_seconds(fields) == parsed_u64(ascii_text(fields["retry-after"@][0].0)),
        !fields.contains_key("retry-after"@) ==> retry_seconds(fields) is None,
        fields.contains_key("retry-after"@) && !is_visible(fields["retry-after"@][0].0)
            ==> retry_seconds(fields) is None,
{
}

/// The time to wait is told in seconds where it is known, after what was asked too often.
pub proof fn law_wait_is_told_in_seconds(subject: Seq<char>, seconds: u64)
    ensures
        waiting_text(subject, Some(seconds)) == subject + "，请 "@ + decimal(seconds as nat)
            + " 秒后重试。"@,
        waiting_text(subject, None) == subject + "，请至少等待 5 分钟后重试。"@,
{
}

/// Where the header `Retry-After` is absent or is no number, five minutes are told.
pub proof fn law_without_a_number_five_minutes_are_told(
    fields: Map<Seq<char>, Seq<(Seq<u8>, bool)>>,
    subject: Seq<char>,
)
    requires
        fields.contains_key("retry-after"@) ==> !is_visible(fields["retry-after"@][0].0)
            || parsed_u64(ascii_text(fields["retry-after"@][0].0)) is None,
    ensures
        retry_seconds(fields) is None,
        waiting_text(subject, retry_seconds(fields)) == subject + "，请至少等待 5 分钟后重试。"@,
{
}

/// A request carries the login as a bearer token, what it accepts, where it comes from and for which
/// product, and the account where it is known; nothing else.
pub proof fn law_headers_of_a_request(auth: AuthView, name: Seq<char>)
    ensures
        ({
            let fields = request_fields(auth);
            &&& fields.contains_key("authorization"@)
            &&& fields["authorization"@] == seq![
                (encode_utf8("Bearer "@ + auth.access_token), true),
            ]
            &&& fields.contains_key("accept"@)
            &&& fields["accept"@] == seq![(encode_utf8("application/json"@), false)]
            &&& fields.contains_key("originator"@)
            &&& fields["originator"@] == seq![(encode_utf8("Codex Desktop"@), false)]
            &&& fields.contains_key("oai-product-sku"@)
            &&& fields["oai-product-sku"@] == seq![(encode_utf8("CODEX"@), false)]
            &&& auth.account_id matches Some(id) ==> fields.contains_key("chatgpt-account-id"@)
                && fields["chatgpt-account-id"@] == seq![(encode_utf8(id), true)]
            &&& auth.account_id is None ==> !fields.contains_key("chatgpt-account-id"@)
            &&& fields.contains_key(name) ==> name == "authorization"@ || name == "accept"@ || name
                == "originator"@ || name == "oai-product-sku"@ || name == "chatgpt-account-id"@
        }),
{
    lemma_names_differ();
}

/// The header names in use differ from each other.
proof fn lemma_names_differ()
    ensures
        "authorization"@ != "accept"@,
        "authorization"@ != "originator"@,
        "authorization"@ != "oai-product-sku"@,
        "authorization"@ != "chatgpt-account-id"@,
        "accept"@ != "originator"@,
        "accept"@ != "oai-product-sku"@,
        "accept"@ != "chatgpt-account-id"@,
        "originator"@ != "oai-product-sku"@,
        "originator"@ != "chatgpt-account-id"@,
        "oai-product-sku"@ != "chatgpt-account-id"@,
{
    reveal_strlit("authorization");
    reveal_strlit("accept");
    reveal_strlit("originator");
    reveal_strlit("oai-product-sku");
    reveal_strlit("chatgpt-account-id");
    assert("authorization"@.len() == 13);
    assert("accept"@.len() == 6);
    assert("originator"@.len() == 10);
    assert("oai-product-sku"@.len() == 15);
    assert("chatgpt-account-id"@.len() == 18);
}

/// The model of a login has all that the login has.
pub proof fn law_login_model_holds_all(auth: Auth)
    ensures
        auth@.access_token == auth.access_token@,
        auth.account_id is Some ==> auth@.account_id == Some(auth.account_id->0@),
        auth.account_id is None ==> auth@.account_id is None,
{
}

} // verus!

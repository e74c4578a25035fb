//! The login: reading it from the login file and from its access token.
use vstd::prelude::*;

use crate::encoding::{
    decode_url_safe, law_url_safe_text_reads_back, lemma_sextet_range, sextet, symbol,
    url_safe_bytes, url_safe_text,
};
use crate::fields::{law_first_text_is_picked, names, pick_string, picked_text};
use crate::headers::{Auth, AuthView};
use crate::json::{
    byte_document, parse_json, parse_json_bytes, text_document, Json, JsonTree,
};
use crate::quota::view_of;
use crate::text::{
    law_segment_stands_between_dots, lemma_find_at, second_segment, segment_after_dot,
};

verus! {

/// The largest login file that is read, in bytes.
pub const MAX_AUTH_BYTES: u64 = 262_144;

/// The names of the claim that gives the account.
pub open spec fn claim_names() -> Seq<Seq<char>> {
    seq!["https://api.openai.com/auth.chatgpt_account_id"@, "chatgpt_account_id"@]
}

/// The names of the member that holds the access token.
pub open spec fn token_names() -> Seq<Seq<char>> {
    seq!["access_token"@, "accessToken"@]
}

/// The names of the member that gives the account.
pub open spec fn account_names() -> Seq<Seq<char>> {
    seq!["account_id"@, "accountId"@]
}

/// The account that the claims of an access token give.
pub open spec fn claimed_account(claims: JsonTree) -> Option<Seq<char>> {
    picked_text(claims, claim_names())
}

/// The account that an access token gives: its second part, between dots, is base64 for the
/// claims.
pub open spec fn token_account(token: Seq<char>) -> Option<Seq<char>> {
    match second_segment(token) {
        Some(segment) => match url_safe_bytes(segment) {
            Some(bytes) => match byte_document(bytes) {
                Some(claims) => claimed_account(claims),
                None => None,
            },
            None => None,
        },
        None => None,
    }
}

/// The part of a login file that holds the tokens: a member of its own, and otherwise all.
pub open spec fn tokens_in(value: JsonTree) -> JsonTree {
    match value.field("tokens"@) {
        Some(tokens) => tokens,
        None => value,
    }
}

/// The login that a login file states, where it holds an access token.
pub open spec fn login_in(value: JsonTree) -> Option<AuthView> {
    match picked_text(tokens_in(value), token_names()) {
        Some(access_token) => Some(
            AuthView {
                access_token,
                account_id: match picked_text(tokens_in(value), account_names()) {
                    Some(id) => Some(id),
                    None => token_account(access_token),
                },
            },
        ),
        None => None,
    }
}

/// The account that the claims of an access token give.
pub fn account_id_in_claims(claims: &Json) -> (account: Option<String>)
    ensures
        view_of(account) == claimed_account(claims@),
{
    let keys: [&str; 2] = [
        "https://api.openai.com/auth.chatgpt_account_id",
        "chatgpt_account_id",
    ];
    assert(names(keys@) == claim_names());
    match pick_string(claims, &keys) {
        Some(id) => Some(id.to_owned()),
        None => None,
    }
}

/// The account that an access token gives.
pub fn account_id_from_jwt(token: &str) -> (account: Option<String>)
    ensures
        view_of(account) == token_account(token@),
{
    let segment: String = match segment_after_dot(token) {
        Some(segment) => segment,
        None => {
            return None;
        },
    };
    let bytes: Vec<u8> = match decode_url_safe(segment.as_str()) {
        Some(bytes) => bytes,
        None => {
            return None;
        },
    };
    match parse_json_bytes(bytes.as_slice()) {
        Some(claims) => account_id_in_claims(&claims),
        None => None,
    }
}

/// Whether the login file can be read: a plain file that is not too large.
pub fn check_auth_file(is_file: bool, length: u64) -> (result: Result<(), String>)
    ensures
        result is Ok <==> is_file && length <= MAX_AUTH_BYTES,
        result is Ok <==> is_file && length <= 256 * 1024,
        result matches Err(message) ==> message@ == "Codex 登录信息不可用。"@,
{
    if !is_file || length > MAX_AUTH_BYTES {
        Err("Codex 登录信息不可用。".to_owned())
    } else {
        Ok(())
    }
}

/// The login that a login file states.
pub fn auth_from_json(value: &Json) -> (result: Result<Auth, String>)
    ensures
        match result {
            Ok(auth) => login_in(value@) == Some(auth@),
            Err(message) => login_in(value@) is None && message@
                == "Codex 登录已过期，请重新登录。"@,
        },
{
    let tokens: &Json = match value.get("tokens") {
        Some(tokens) => tokens,
        None => value,
    };
    let token_keys: [&str; 2] = ["access_token", "accessToken"];
    assert(names(token_keys@) == token_names());
    let access_token: String = match pick_string(tokens, &token_keys) {
        Some(token) => token.to_owned(),
        None => {
            return Err("Codex 登录已过期，请重新登录。".to_owned());
        },
    };
    let account_keys: [&str; 2] = ["account_id", "accountId"];
    assert(names(account_keys@) == account_names());
    let account_id: Option<String> = match pick_string(tokens, &account_keys) {
        Some(id) => Some(id.to_owned()),
        None => account_id_from_jwt(access_token.as_str()),
    };
    Ok(Auth { access_token, account_id })
}

/// The login that the text of a login file states.
pub fn parse_auth(raw: &str) -> (result: Result<Auth, String>)
    ensures
        match (result, text_document(raw@)) {
            (Ok(auth), Some(value)) => login_in(value) == Some(auth@),
            (Ok(_), None) => false,
            (Err(message), Some(value)) => login_in(value) is None && message@
                == "Codex 登录已过期，请重新登录。"@,
            (Err(message), None) => message@ == "Codex 登录格式已经变化。"@,
        },
{
    match parse_json(raw) {
        Some(value) => auth_from_json(&value),
        None => Err("Codex 登录格式已经变化。".to_owned()),
    }
}

/// The account of an access token is the one that its payload claims, whatever its header and
/// its signature say.
pub proof fn law_token_account_is_claimed(head: Seq<char>, payload: Seq<u8>, tail: Seq<char>)
    requires
        !head.contains('.'),
    ensures
        token_account(head + seq!['.'] + url_safe_text(payload) + seq!['.'] + tail) == (
        match byte_document(payload) {
            Some(claims) => claimed_account(claims),
            None => None,
        }),
{
    let body: Seq<char> = url_safe_text(payload);
    let token: Seq<char> = head + seq!['.'] + body + seq!['.'] + tail;
    let first: int = head.len() as int;
    let second: int = first + 1 + body.len();
    assert forall|i: int| 0 <= i < first implies token[i] != '.' by {
        assert(token[i] == head[i]);
        assert(head.contains(head[i]));
    }
    lemma_find_at(token, '.', 0, first);
    assert forall|i: int| first + 1 <= i < second implies token[i] != '.' by {
        assert(token[i] == body[i - first - 1]);
        assert(body[i - first - 1] == symbol(sextet(payload, i - first - 1), true));
        lemma_sextet_range(payload, i - first - 1);
    }
    lemma_find_at(token, '.', first + 1, second);
    assert(token.subrange(first + 1, second) == body);
    law_url_safe_text_reads_back(payload);
}

/// The claims of a token give the account under the full name of the claim, and otherwise under its
/// short name.
pub proof fn law_claims_give_the_account(claims: JsonTree)
    ensures
        (match claims.field("https://api.openai.com/auth.chatgpt_account_id"@) {
            Some(JsonTree::Text(id)) => claimed_account(claims) == Some(id),
            _ => match claims.field("chatgpt_account_id"@) {
                Some(JsonTree::Text(id)) => claimed_account(claims) == Some(id),
                _ => claimed_account(claims) is None,
            },
        }),
{
    law_first_text_is_picked(claims, claim_names(), 0);
    if !(claims.field("https://api.openai.com/auth.chatgpt_account_id"@) matches Some(found)
        && found is Text) {
        law_first_text_is_picked(claims, claim_names(), 1);
        if !(claims.field("chatgpt_account_id"@) matches Some(found) && found is Text) {
            law_first_text_is_picked(claims, claim_names(), 2);
        }
    }
}

/// The account of a token is the one that is claimed in the document for which its second part
/// stands.
pub proof fn law_second_part_of_a_token_claims(token: Seq<char>, bytes: Seq<u8>)
    requires
        second_segment(token) == Some(url_safe_text(bytes)),
    ensures
        byte_document(bytes) matches Some(claims) ==> token_account(token) == claimed_account(
            claims,
        ),
        byte_document(bytes) is None ==> token_account(token) is None,
{
    law_url_safe_text_reads_back(bytes);
}

/// A token without a dot, and one whose second part is no base64 or no document, gives no account.
pub proof fn law_other_tokens_give_no_account(token: Seq<char>)
    ensures
        !token.contains('.') ==> token_account(token) is None,
        second_segment(token) matches Some(segment) ==> (url_safe_bytes(segment) is None
            ==> token_account(token) is None),
{
    if !token.contains('.') {
        law_segment_stands_between_dots(token, Seq::empty(), Seq::empty());
    }
}

/// The tokens of a login file stand under their name, or are the file itself.
pub proof fn law_tokens_of_a_login_file(value: JsonTree)
    ensures
        value.field("tokens"@) matches Some(tokens) ==> tokens_in(value) == tokens,
        value.field("tokens"@) is None ==> tokens_in(value) == value,
{
}

/// A login has the access token of its file, under one spelling or the other, and without one there
/// is no login. Its account is the stated one, and otherwise the one that the token gives.
pub proof fn law_login_of_a_file(value: JsonTree)
    ensures
        ({
            let tokens = tokens_in(value);
            let token = picked_text(tokens, seq!["access_token"@, "accessToken"@]);
            let account = picked_text(tokens, seq!["account_id"@, "accountId"@]);
            &&& token is None ==> login_in(value) is None
            &&& token is Some ==> login_in(value) is Some && login_in(value)->0.access_token
                == token->0
            &&& token is Some && account is Some ==> login_in(value)->0.account_id == account
            &&& token is Some && account is None ==> login_in(value)->0.account_id == token_account(
                token->0,
            )
        }),
{
}

} // verus!

//! Talking to the online quota service: what is asked, how an answer is received, and what is
//! told where there is none.
use reqwest::header::{HeaderMap, HeaderValue};
use vstd::prelude::*;

use crate::headers::{header_fields, rate_limited_message, retry_seconds, waiting_text};
use crate::json::{byte_document, parse_json_bytes, Json};
use crate::text::{append_decimal, append_text, decimal};

verus! {

/// The longest answer that is received, in bytes.
pub const MAX_RESPONSE_BYTES: usize = 1_048_576;

/// What the service is asked for.
#[derive(Debug, Clone, Copy, PartialEq, Eq, Structural)]
pub enum Query {
    Usage,
    ResetCredits,
}

impl Query {
    /// The address that answers.
    pub open spec fn address(self) -> Seq<char> {
        match self {
            Query::Usage => "https://chatgpt.com/backend-api/wham/usage"@,
            Query::ResetCredits => "https://chatgpt.com/backend-api/wham/rate-limit-reset-credits"@,
        }
    }

    /// What is told where no answer comes.
    pub open spec fn unreachable_text(self) -> Seq<char> {
        match self {
            Query::Usage => "在线额度刷新失败，请检查网络。"@,
            Query::ResetCredits => "重置卡查询失败，请检查网络。"@,
        }
    }

    /// What is told where the service refuses with this status and asks to wait this long.
    pub open spec fn refusal_text(self, status: u16, wait: Option<u64>) -> Seq<char> {
        match self {
            Query::Usage => if status == 401 || status == 403 {
                "Codex 登录已过期或没有额度查询权限。"@
            } else if status == 429 {
                waiting_text("额度查询过于频繁"@, wait)
            } else {
                "在线额度服务暂不可用（"@ + decimal(status as nat) + "）。"@
            },
            Query::ResetCredits => if status == 401 || status == 403 {
                "Codex 登录已过期或没有查询权限。"@
            } else if status == 429 {
                waiting_text("重置卡查询过于频繁"@, wait)
            } else {
                "重置卡服务暂不可用（"@ + decimal(status as nat) + "）。"@
            },
        }
    }

    /// The address that answers.
    pub fn url(&self) -> (url: &'static str)
        ensures
            url@ == self.address(),
    {
        match self {
            Query::Usage => "https://chatgpt.com/backend-api/wham/usage",
            Query::ResetCredits => "https://chatgpt.com/backend-api/wham/rate-limit-reset-credits",
        }
    }

    /// What is told where no answer comes.
    pub fn unreachable_message(&self) -> (message: String)
        ensures
            message@ == self.unreachable_text(),
    {
        match self {
            Query::Usage => "在线额度刷新失败，请检查网络。".to_owned(),
            Query::ResetCredits => "重置卡查询失败，请检查网络。".to_owned(),
        }
    }

    /// Whether an answer with this status and these headers is one to read; otherwise what is
    /// told instead.
    pub fn check_status(&self, status: u16, headers: &HeaderMap<HeaderValue>) -> (result: Result<
        (),
        String,
    >)
        ensures
            result is Ok <==> 200 <= status < 300,
            result matches Err(message) ==> message@ == self.refusal_text(
                status,
                retry_seconds(header_fields(*headers)),
            ),
    {
        if 200 <= status && status < 300 {
            return Ok(());
        }
        let message: String = match self {
            Query::Usage => if status == 401 || status == 403 {
                "Codex 登录已过期或没有额度查询权限。".to_owned()
            } else if status == 429 {
                rate_limited_message(headers, "额度查询过于频繁")
            } else {
                status_message("在线额度服务暂不可用（", status)
            },
            Query::ResetCredits => if status == 401 || status == 403 {
                "Codex 登录已过期或没有查询权限。".to_owned()
            } else if status == 429 {
                rate_limited_message(headers, "重置卡查询过于频繁")
            } else {
                status_message("重置卡服务暂不可用（", status)
            },
        };
        Err(message)
    }
}

/// The service is asked at no address but those of its quota.
pub proof fn law_only_quota_addresses(query: Query)
    ensures
        "https://chatgpt.com/backend-api/wham/"@.is_prefix_of(query.address()),
{
    reveal_strlit("https://chatgpt.com/backend-api/wham/");
    reveal_strlit("https://chatgpt.com/backend-api/wham/usage");
    reveal_strlit("https://chatgpt.com/backend-api/wham/rate-limit-reset-credits");
}

/// A refusal is told by its status: without a valid login, asked too often, or not available; each
/// of the two questions has its own words.
pub proof fn law_refusals_are_told_by_status(status: u16, wait: Option<u64>)
    ensures
        status == 401 || status == 403 ==> Query::Usage.refusal_text(status, wait)
            == "Codex 登录已过期或没有额度查询权限。"@,
        status == 401 || status == 403 ==> Query::ResetCredits.refusal_text(status, wait)
            == "Codex 登录已过期或没有查询权限。"@,
        Query::Usage.refusal_text(429, wait) == waiting_text("额度查询过于频繁"@, wait),
        Query::ResetCredits.refusal_text(429, wait) == waiting_text("重置卡查询过于频繁"@, wait),
        status != 401 && status != 403 && status != 429 ==> Query::Usage.refusal_text(status, wait)
            == "在线额度服务暂不可用（"@ + decimal(status as nat) + "）。"@,
        status != 401 && status != 403 && status != 429 ==> Query::ResetCredits.refusal_text(
            status,
            wait,
        ) == "重置卡服务暂不可用（"@ + decimal(status as nat) + "）。"@,
        Query::Usage.unreachable_text() == "在线额度刷新失败，请检查网络。"@,
        Query::ResetCredits.unreachable_text() == "重置卡查询失败，请检查网络。"@,
        Query::Usage.address() == "https://chatgpt.com/backend-api/wham/usage"@,
        Query::ResetCredits.address()
            == "https://chatgpt.com/backend-api/wham/rate-limit-reset-credits"@,
        too_long_text() == "额度服务响应异常过大。"@,
{
}

/// A text that ends in a status, in brackets.
fn status_message(start: &str, status: u16) -> (message: String)
    ensures
        message@ == start@ + decimal(status as nat) + "）。"@,
{
    let mut message: String = start.to_owned();
    append_decimal(&mut message, status as u64);
    append_text(&mut message, "）。");
    message
}

/// What is received after one more chunk, where it does not grow too long.
pub open spec fn with_chunk(received: Seq<u8>, chunk: Seq<u8>) -> Option<Seq<u8>> {
    if received.len() + chunk.len() <= MAX_RESPONSE_BYTES {
        Some(received + chunk)
    } else {
        None
    }
}

/// What is received after all these chunks, where at no point it grew too long.
pub open spec fn with_chunks(chunks: Seq<Seq<u8>>) -> Option<Seq<u8>>
    decreases chunks.len(),
{
    if chunks.len() == 0 {
        Some(Seq::empty())
    } else {
        match with_chunks(chunks.drop_last()) {
            Some(received) => with_chunk(received, chunks.last()),
            None => None,
        }
    }
}

/// What is told where an answer is too long.
pub open spec fn too_long_text() -> Seq<char> {
    "额度服务响应异常过大。"@
}

/// An answer as it is received, chunk by chunk.
pub struct ResponseBody {
    bytes: Vec<u8>,
}

impl View for ResponseBody {
    type V = Seq<u8>;

    closed spec fn view(&self) -> Seq<u8> {
        self.bytes@
    }
}

impl ResponseBody {
    /// What has been received is within the limit.
    pub open spec fn well_formed(&self) -> bool {
        self@.len() <= MAX_RESPONSE_BYTES
    }

    /// Starts to receive an answer, of this length where it is known.
    pub fn begin(content_length: Option<u64>) -> (result: Result<ResponseBody, String>)
        ensures
            result is Ok <==> !(content_length matches Some(length) && length
                > MAX_RESPONSE_BYTES),
            result is Ok <==> (content_length matches Some(length) ==> length <= 1024 * 1024),
            result matches Ok(body) ==> body.well_formed() && body@ == Seq::<u8>::empty(),
            result matches Err(message) ==> message@ == too_long_text(),
    {
        if let Some(length) = content_length {
            if length > MAX_RESPONSE_BYTES as u64 {
                return Err("额度服务响应异常过大。".to_owned());
            }
        }
        Ok(ResponseBody { bytes: Vec::new() })
    }

    /// Receives one more chunk. A chunk that makes the answer too long is refused.
    pub fn push_chunk(&mut self, chunk: &[u8]) -> (result: Result<(), String>)
        requires
            old(self).well_formed(),
        ensures
            final(self).well_formed(),
            result is Ok <==> with_chunk(old(self)@, chunk@) is Some,
            result is Ok <==> old(self)@.len() + chunk@.len() <= 1024 * 1024,
            result is Ok ==> final(self)@ == old(self)@ + chunk@,
            result is Ok ==> Some(final(self)@) == with_chunk(old(self)@, chunk@),
            result matches Err(message) ==> final(self)@ == old(self)@ && message@
                == too_long_text(),
    {
        if chunk.len() > MAX_RESPONSE_BYTES - self.bytes.len() {
            return Err("额度服务响应异常过大。".to_owned());
        }
        self.bytes.extend_from_slice(chunk);
        assert(self.bytes@ == old(self)@ + chunk@);
        Ok(())
    }

    /// The document that was received.
    pub fn finish(&self) -> (result: Result<Json, String>)
        ensures
            match result {
                Ok(json) => byte_document(self@) == Some(json@),
                Err(message) => byte_document(self@) is None && message@
                    == "额度服务响应格式已经变化。"@,
            },
    {
        match parse_json_bytes(self.bytes.as_slice()) {
            Some(json) => Ok(json),
            None => Err("额度服务响应格式已经变化。".to_owned()),
        }
    }
}

/// One more chunk is appended to what was received, where both together are within a mebibyte.
pub proof fn law_chunks_are_appended(received: Seq<u8>, chunk: Seq<u8>)
    ensures
        received.len() + chunk.len() <= 1024 * 1024 ==> with_chunk(received, chunk) == Some(
            received + chunk,
        ),
        received.len() + chunk.len() > 1024 * 1024 ==> with_chunk(received, chunk) is None,
{
}

/// However an answer is cut into chunks, it is received whole where it is within the limit,
/// and refused where it is not.
pub proof fn law_chunks_join(chunks: Seq<Seq<u8>>)
    ensures
        with_chunks(chunks) == if chunks.flatten().len() <= MAX_RESPONSE_BYTES {
            Some(chunks.flatten())
        } else {
            None
        },
    decreases chunks.len(),
{
    if chunks.len() > 0 {
        let before: Seq<Seq<u8>> = chunks.drop_last();
        law_chunks_join(before);
        assert(chunks == before.push(chunks.last()));
        before.lemma_flatten_push(chunks.last());
    }
}

} // verus!

//! Base64: bytes as text, six bits to a character.
use base64::Engine;
use vstd::prelude::*;

verus! {

/// The character for six bits: letters, digits and two more, which depend on the alphabet.
pub open spec fn symbol(v: int, url_safe: bool) -> char {
    if v < 26 {
        ('A' as int + v) as char
    } else if v < 52 {
        ('a' as int + (v - 26)) as char
    } else if v < 62 {
        ('0' as int + (v - 52)) as char
    } else if v == 62 {
        if url_safe {
            '-'
        } else {
            '+'
        }
    } else {
        if url_safe {
            '_'
        } else {
            '/'
        }
    }
}

/// The byte at `i`; zero beyond the end.
pub open spec fn byte_at(bytes: Seq<u8>, i: int) -> int {
    if 0 <= i < bytes.len() {
        bytes[i] as int
    } else {
        0
    }
}

/// The six bits at the place `i`, counted in groups of six from the first byte on.
pub open spec fn sextet(bytes: Seq<u8>, i: int) -> int {
    let at = 3 * (i / 4);
    if i % 4 == 0 {
        byte_at(bytes, at) / 4
    } else if i % 4 == 1 {
        byte_at(bytes, at) % 4 * 16 + byte_at(bytes, at + 1) / 16
    } else if i % 4 == 2 {
        byte_at(bytes, at + 1) % 16 * 4 + byte_at(bytes, at + 2) / 64
    } else {
        byte_at(bytes, at + 2) % 64
    }
}

/// How many groups of six bits it takes to hold this many bytes.
pub open spec fn symbol_count(n: nat) -> nat {
    (4 * n + 2) / 3
}

/// How long the text for this many bytes is with padding.
pub open spec fn padded_count(n: nat) -> nat {
    4 * ((n + 2) / 3)
}

/// The text for bytes in the URL-safe alphabet, without padding.
pub open spec fn url_safe_text(bytes: Seq<u8>) -> Seq<char> {
    Seq::new(symbol_count(bytes.len()), |i: int| symbol(sextet(bytes, i), true))
}

/// The text for bytes in the standard alphabet, padded to whole groups of four.
pub open spec fn standard_text(bytes: Seq<u8>) -> Seq<char> {
    Seq::new(
        padded_count(bytes.len()),
        |i: int|
            if i < symbol_count(bytes.len()) {
                symbol(sextet(bytes, i), false)
            } else {
                '='
            },
    )
}

/// The bytes for which a text stands in the URL-safe alphabet, where it stands for any.
pub open spec fn url_safe_bytes(text: Seq<char>) -> Option<Seq<u8>> {
    if exists|bytes: Seq<u8>| #[trigger] url_safe_text(bytes) == text {
        Some(choose|bytes: Seq<u8>| #[trigger] url_safe_text(bytes) == text)
    } else {
        None
    }
}

/// Different six bits have different characters, and none of them is the padding.
proof fn lemma_symbol_distinct(a: int, b: int, url_safe: bool)
    requires
        0 <= a < 64,
        0 <= b < 64,
    ensures
        symbol(a, url_safe) == symbol(b, url_safe) ==> a == b,
        symbol(a, url_safe) != '=',
{
}

/// Six bits are a number below sixty-four.
pub proof fn lemma_sextet_range(bytes: Seq<u8>, i: int)
    requires
        i >= 0,
    ensures
        0 <= sextet(bytes, i) < 64,
{
}

/// Bytes that agree in all groups of six bits are the same.
proof fn lemma_sextets_decide(a: Seq<u8>, b: Seq<u8>)
    requires
        a.len() == b.len(),
        forall|i: int|
            0 <= i < symbol_count(a.len()) ==> #[trigger] sextet(a, i) == sextet(b, i),
    ensures
        a == b,
{
    assert forall|j: int| 0 <= j < a.len() implies a[j] == b[j] by {
        let g: int = 4 * (j / 3);
        assert(sextet(a, g) == sextet(b, g));
        assert(sextet(a, g + 1) == sextet(b, g + 1));
        assert(g / 4 == j / 3);
        assert((g + 1) / 4 == j / 3);
        if j % 3 >= 1 {
            assert((g + 2) / 4 == j / 3);
            assert(sextet(a, g + 2) == sextet(b, g + 2));
        }
        if j % 3 == 2 {
            assert((g + 3) / 4 == j / 3);
            assert(sextet(a, g + 3) == sextet(b, g + 3));
        }
    }
}

/// The texts of different bytes differ.
pub proof fn lemma_url_safe_text_distinct(a: Seq<u8>, b: Seq<u8>)
    requires
        url_safe_text(a) == url_safe_text(b),
    ensures
        a == b,
{
    assert(url_safe_text(a).len() == symbol_count(a.len()));
    assert(url_safe_text(b).len() == symbol_count(b.len()));
    assert forall|i: int| 0 <= i < symbol_count(a.len()) implies #[trigger] sextet(a, i)
        == sextet(b, i) by {
        assert(url_safe_text(a)[i] == symbol(sextet(a, i), true));
        assert(url_safe_text(b)[i] == symbol(sextet(b, i), true));
        lemma_sextet_range(a, i);
        lemma_sextet_range(b, i);
        lemma_symbol_distinct(sextet(a, i), sextet(b, i), true);
    }
    lemma_sextets_decide(a, b);
}

/// The padding tells how many bytes a text stands for.
proof fn lemma_padding_decides(a: Seq<u8>, b: Seq<u8>)
    requires
        standard_text(a) == standard_text(b),
    ensures
        a.len() >= b.len(),
{
    assert(standard_text(a).len() == padded_count(a.len()));
    assert(standard_text(b).len() == padded_count(b.len()));
    if a.len() < b.len() {
        let i: int = symbol_count(a.len()) as int;
        assert(i < symbol_count(b.len()) <= padded_count(a.len()));
        assert(standard_text(a)[i] == '=');
        assert(standard_text(b)[i] == symbol(sextet(b, i), false));
        lemma_sextet_range(b, i);
        lemma_symbol_distinct(sextet(b, i), sextet(b, i), false);
    }
}

/// The padded texts of different bytes differ.
pub proof fn lemma_standard_text_distinct(a: Seq<u8>, b: Seq<u8>)
    requires
        standard_text(a) == standard_text(b),
    ensures
        a == b,
{
    lemma_padding_decides(a, b);
    lemma_padding_decides(b, a);
    assert forall|i: int| 0 <= i < symbol_count(a.len()) implies #[trigger] sextet(a, i)
        == sextet(b, i) by {
        assert(standard_text(a)[i] == symbol(sextet(a, i), false));
        assert(standard_text(b)[i] == symbol(sextet(b, i), false));
        lemma_sextet_range(a, i);
        lemma_sextet_range(b, i);
        lemma_symbol_distinct(sextet(a, i), sextet(b, i), false);
    }
    lemma_sextets_decide(a, b);
}

/// A text made from bytes stands for those bytes.
pub proof fn law_url_safe_text_reads_back(bytes: Seq<u8>)
    ensures
        url_safe_bytes(url_safe_text(bytes)) == Some(bytes),
{
    let text: Seq<char> = url_safe_text(bytes);
    let found: Seq<u8> = url_safe_bytes(text)->0;
    lemma_url_safe_text_distinct(found, bytes);
}

/// Each six bits have the character at their place in the alphabet, which for URLs ends in a hyphen
/// and an underscore, and otherwise in a plus sign and a slash.
pub proof fn law_symbols_stand_in_the_alphabet(v: int)
    requires
        0 <= v < 64,
    ensures
        symbol(v, true) == "ABCDEFGHIJKLMNOPQRSTUVWXYZabcdefghijklmnopqrstuvwxyz0123456789-_"@[v],
        symbol(v, false) == "ABCDEFGHIJKLMNOPQRSTUVWXYZabcdefghijklmnopqrstuvwxyz0123456789+/"@[v],
{
    reveal_strlit("ABCDEFGHIJKLMNOPQRSTUVWXYZabcdefghijklmnopqrstuvwxyz0123456789-_");
    reveal_strlit("ABCDEFGHIJKLMNOPQRSTUVWXYZabcdefghijklmnopqrstuvwxyz0123456789+/");
}

/// Three bytes and four groups of six bits hold the same bits, from the first on; beyond the end
/// there are zeros.
pub proof fn law_groups_hold_the_bits(bytes: Seq<u8>, k: int)
    requires
        0 <= k,
    ensures
        3 * k + 2 < bytes.len() ==> 65536 * bytes[3 * k] + 256 * bytes[3 * k + 1] + bytes[3 * k + 2]
            == 262144 * sextet(bytes, 4 * k) + 4096 * sextet(bytes, 4 * k + 1) + 64 * sextet(
            bytes,
            4 * k + 2,
        ) + sextet(bytes, 4 * k + 3),
        3 * k + 2 == bytes.len() ==> 65536 * bytes[3 * k] + 256 * bytes[3 * k + 1] == 262144
            * sextet(bytes, 4 * k) + 4096 * sextet(bytes, 4 * k + 1) + 64 * sextet(
            bytes,
            4 * k + 2,
        ),
        3 * k + 1 == bytes.len() ==> 65536 * bytes[3 * k] == 262144 * sextet(bytes, 4 * k) + 4096
            * sextet(bytes, 4 * k + 1),
        forall|i: int| 4 * k <= i < 4 * k + 4 ==> 0 <= #[trigger] sextet(bytes, i) < 64,
{
    assert((4 * k) / 4 == k && (4 * k) % 4 == 0);
    assert((4 * k + 1) / 4 == k && (4 * k + 1) % 4 == 1);
    assert((4 * k + 2) / 4 == k && (4 * k + 2) % 4 == 2);
    assert((4 * k + 3) / 4 == k && (4 * k + 3) % 4 == 3);
    assert forall|i: int| 4 * k <= i < 4 * k + 4 implies 0 <= #[trigger] sextet(bytes, i) < 64 by {
        lemma_sextet_range(bytes, i);
    }
}

/// A text has a character for each six bits or what is left of them; with padding it has whole
/// groups of four, filled up with equals signs.
pub proof fn law_texts_of_bytes(bytes: Seq<u8>, i: int)
    ensures
        6 * url_safe_text(bytes).len() >= 8 * bytes.len(),
        6 * url_safe_text(bytes).len() < 8 * bytes.len() + 6,
        standard_text(bytes).len() % 4 == 0,
        url_safe_text(bytes).len() <= standard_text(bytes).len() < url_safe_text(bytes).len() + 4,
        0 <= i < url_safe_text(bytes).len() ==> url_safe_text(bytes)[i] == symbol(
            sextet(bytes, i),
            true,
        ),
        0 <= i < url_safe_text(bytes).len() ==> standard_text(bytes)[i] == symbol(
            sextet(bytes, i),
            false,
        ),
        url_safe_text(bytes).len() <= i < standard_text(bytes).len() ==> standard_text(bytes)[i]
            == '=',
{
}

/// A text stands for bytes just where it is their text.
pub proof fn law_only_texts_of_bytes_are_read(text: Seq<char>, bytes: Seq<u8>)
    ensures
        url_safe_bytes(text) == Some(bytes) <==> url_safe_text(bytes) == text,
        url_safe_bytes(text) is None <==> forall|other: Seq<u8>| #[trigger]
            url_safe_text(other) != text,
{
    if url_safe_text(bytes) == text {
        law_url_safe_text_reads_back(bytes);
    }
}

/// The error with which `base64` refuses a text.
#[verifier::external_type_specification]
#[verifier::external_body]
pub struct ExDecodeError(base64::DecodeError);

/// `Engine::decode` of `URL_SAFE_NO_PAD`: the bytes whose text this is, and an error where it
/// is the text of no bytes. The decoder takes neither padding nor stray bits at the end.
#[verifier::external_body]
fn decode_text(text: &str) -> (result: Result<Vec<u8>, base64::DecodeError>)
    ensures
        result matches Ok(bytes) ==> url_safe_text(bytes@) == text@,
        result is Err ==> forall|bytes: Seq<u8>| #[trigger] url_safe_text(bytes) != text@,
{
    base64::engine::general_purpose::URL_SAFE_NO_PAD.decode(text)
}

/// `Engine::encode` of `STANDARD`: the text for the bytes. It panics where the text would be
/// longer than an allocation can be.
#[verifier::external_body]
pub(crate) fn encode_standard(bytes: &[u8]) -> (text: String)
    requires
        padded_count(bytes@.len()) <= isize::MAX,
    ensures
        text@ == standard_text(bytes@),
{
    base64::engine::general_purpose::STANDARD.encode(bytes)
}

/// The bytes for which a text stands in the URL-safe alphabet, where it stands for any.
pub fn decode_url_safe(text: &str) -> (bytes: Option<Vec<u8>>)
    ensures
        match bytes {
            Some(found) => url_safe_bytes(text@) == Some(found@),
            None => url_safe_bytes(text@) is None,
        },
{
    match decode_text(text) {
        Ok(bytes) => {
            proof {
                law_url_safe_text_reads_back(bytes@);
            }
            Some(bytes)
        },
        Err(_) => None,
    }
}

} // verus!

//! Reading a member of a JSON object that goes by one of several names.
use vstd::prelude::*;

use crate::json::{Json, JsonNumber, JsonTree, NumberTree};
use crate::text::{decimal_int, i64_text, parse_i64, parsed_i64};

verus! {

/// The texts of a list of names.
pub open spec fn names(keys: Seq<&str>) -> Seq<Seq<char>> {
    keys.map_values(|k: &str| k@)
}

/// The first name, from `i` on, under which `read` finds something: its place and what is
/// found.
pub open spec fn first_from<T>(
    keys: Seq<Seq<char>>,
    read: spec_fn(Seq<char>) -> Option<T>,
    i: int,
) -> Option<(int, T)>
    decreases keys.len() - i,
{
    if i >= keys.len() {
        None
    } else {
        match read(keys[i]) {
            Some(found) => Some((i, found)),
            None => first_from(keys, read, i + 1),
        }
    }
}

/// What `read` finds under the first name under which it finds something.
pub open spec fn first_of<T>(
    keys: Seq<Seq<char>>,
    read: spec_fn(Seq<char>) -> Option<T>,
) -> Option<T> {
    match first_from(keys, read, 0) {
        Some((_, found)) => Some(found),
        None => None,
    }
}

/// The text of the member `key`.
pub open spec fn text_at(value: JsonTree, key: Seq<char>) -> Option<Seq<char>> {
    match value.field(key) {
        Some(found) => found.text(),
        None => None,
    }
}

/// The number of the member `key`.
pub open spec fn number_at(value: JsonTree, key: Seq<char>) -> Option<NumberTree> {
    match value.field(key) {
        Some(found) => found.number(),
        None => None,
    }
}

/// The integer of the member `key`, where it is not negative.
pub open spec fn unsigned_at(value: JsonTree, key: Seq<char>) -> Option<u64> {
    match number_at(value, key) {
        Some(number) => number.unsigned(),
        None => None,
    }
}

/// A time as text: a string as it stands, an integer in decimal.
pub open spec fn time_text(value: JsonTree) -> Option<Seq<char>> {
    match value {
        JsonTree::Text(s) => Some(s),
        JsonTree::Number(n) => match n.signed() {
            Some(seconds) => Some(decimal_int(seconds as int)),
            None => None,
        },
        _ => None,
    }
}

/// The time of the member `key`, as text.
pub open spec fn time_text_at(value: JsonTree, key: Seq<char>) -> Option<Seq<char>> {
    match value.field(key) {
        Some(found) => time_text(found),
        None => None,
    }
}

/// The seconds since the epoch that a text gives, where its reading as a date is `dated`: an
/// integer counts as it stands, and otherwise the date.
pub open spec fn text_epoch(text: Seq<char>, dated: Option<i64>) -> Option<i64> {
    match parsed_i64(text) {
        Some(seconds) => Some(seconds),
        None => dated,
    }
}

/// A time in seconds since the epoch: an integer, a string that holds one, or a string that
/// holds a date.
pub open spec fn epoch(value: JsonTree) -> Option<i64> {
    match value {
        JsonTree::Text(s) => text_epoch(s, rfc3339_epoch(s)),
        JsonTree::Number(n) => n.signed(),
        _ => None,
    }
}

/// The time of the member `key`, in seconds since the epoch.
pub open spec fn epoch_at(value: JsonTree, key: Seq<char>) -> Option<i64> {
    match value.field(key) {
        Some(found) => epoch(found),
        None => None,
    }
}

/// The first text among the members with these names.
pub open spec fn picked_text(value: JsonTree, keys: Seq<Seq<char>>) -> Option<Seq<char>> {
    first_of(keys, |k: Seq<char>| text_at(value, k))
}

/// The first integer that is not negative among the members with these names.
pub open spec fn picked_unsigned(value: JsonTree, keys: Seq<Seq<char>>) -> Option<u64> {
    first_of(keys, |k: Seq<char>| unsigned_at(value, k))
}

/// The first time among the members with these names, as text.
pub open spec fn picked_time_text(value: JsonTree, keys: Seq<Seq<char>>) -> Option<Seq<char>> {
    first_of(keys, |k: Seq<char>| time_text_at(value, k))
}

/// The first time among the members with these names, in seconds since the epoch.
pub open spec fn picked_epoch(value: JsonTree, keys: Seq<Seq<char>>) -> Option<i64> {
    first_of(keys, |k: Seq<char>| epoch_at(value, k))
}

/// The first number among the members with these names, and the place of its name.
pub open spec fn picked_number(
    value: JsonTree,
    keys: Seq<Seq<char>>,
) -> Option<(int, NumberTree)> {
    first_from(keys, |k: Seq<char>| number_at(value, k), 0)
}

/// The error with which `chrono` refuses a date.
#[verifier::external_type_specification]
#[verifier::external_body]
pub struct ExParseError(chrono::ParseError);

/// What `chrono::DateTime::parse_from_rfc3339` reads from a text, as seconds since the epoch;
/// `None` where it refuses the text.
pub uninterp spec fn rfc3339_epoch(text: Seq<char>) -> Option<i64>;

/// `chrono::DateTime::parse_from_rfc3339`, with the date given by `DateTime::timestamp`: the
/// seconds since the epoch or an error, as the text alone decides.
#[verifier::external_body]
fn parse_rfc3339(text: &str) -> (result: Result<i64, chrono::ParseError>)
    ensures
        match result {
            Ok(seconds) => rfc3339_epoch(text@) == Some(seconds),
            Err(_) => rfc3339_epoch(text@) is None,
        },
{
    chrono::DateTime::parse_from_rfc3339(text).map(|time| time.timestamp())
}

/// The seconds that a text gives, where its reading as a date is `dated`.
pub fn text_or_date(text: &str, dated: Option<i64>) -> (seconds: Option<i64>)
    ensures
        seconds == text_epoch(text@, dated),
        parsed_i64(text@) is Some ==> seconds == parsed_i64(text@),
        parsed_i64(text@) is None ==> seconds == dated,
{
    match parse_i64(text) {
        Some(seconds) => Some(seconds),
        None => dated,
    }
}

/// The first text among the members with these names.
pub fn pick_string<'a>(value: &'a Json, keys: &[&str]) -> (text: Option<&'a str>)
    ensures
        match text {
            Some(found) => picked_text(value@, names(keys@)) == Some(found@),
            None => picked_text(value@, names(keys@)) is None,
        },
{
    let ghost read = |k: Seq<char>| text_at(value@, k);
    let mut i: usize = 0;
    while i < keys.len()
        invariant
            i <= keys@.len(),
            read == (|k: Seq<char>| text_at(value@, k)),
            first_from(names(keys@), read, 0) == first_from(names(keys@), read, i as int),
        decreases keys@.len() - i,
    {
        assert(names(keys@)[i as int] == keys@[i as int]@);
        if let Some(found) = value.get(keys[i]) {
            if let Some(text) = found.as_str() {
                return Some(text);
            }
        }
        i = i + 1;
    }
    None
}

/// The first integer that is not negative among the members with these names.
pub fn direct_u64(value: &Json, keys: &[&str]) -> (number: Option<u64>)
    ensures
        number == picked_unsigned(value@, names(keys@)),
{
    let ghost read = |k: Seq<char>| unsigned_at(value@, k);
    let mut i: usize = 0;
    while i < keys.len()
        invariant
            i <= keys@.len(),
            read == (|k: Seq<char>| unsigned_at(value@, k)),
            first_from(names(keys@), read, 0) == first_from(names(keys@), read, i as int),
        decreases keys@.len() - i,
    {
        assert(names(keys@)[i as int] == keys@[i as int]@);
        if let Some(found) = value.get(keys[i]) {
            if let Some(number) = found.as_number() {
                if let Some(n) = number.as_u64() {
                    return Some(n);
                }
            }
        }
        i = i + 1;
    }
    None
}

/// The first time among the members with these names, as text.
pub fn timestamp_text(value: &Json, keys: &[&str]) -> (text: Option<String>)
    ensures
        match text {
            Some(found) => picked_time_text(value@, names(keys@)) == Some(found@),
            None => picked_time_text(value@, names(keys@)) is None,
        },
{
    let ghost read = |k: Seq<char>| time_text_at(value@, k);
    let mut i: usize = 0;
    while i < keys.len()
        invariant
            i <= keys@.len(),
            read == (|k: Seq<char>| time_text_at(value@, k)),
            first_from(names(keys@), read, 0) == first_from(names(keys@), read, i as int),
        decreases keys@.len() - i,
    {
        assert(names(keys@)[i as int] == keys@[i as int]@);
        if let Some(found) = value.get(keys[i]) {
            if let Some(text) = found.as_str() {
                return Some(text.to_owned());
            }
            if let Some(number) = found.as_number() {
                if let Some(seconds) = number.as_i64() {
                    return Some(i64_text(seconds));
                }
            }
        }
        i = i + 1;
    }
    None
}

/// A time in seconds since the epoch.
fn epoch_of(value: &Json) -> (seconds: Option<i64>)
    ensures
        seconds == epoch(value@),
{
    match value {
        Json::Number(number) => number.as_i64(),
        Json::Text(text) => {
            let dated: Option<i64> = match parse_rfc3339(text.as_str()) {
                Ok(seconds) => Some(seconds),
                Err(_) => None,
            };
            text_or_date(text.as_str(), dated)
        },
        _ => None,
    }
}

/// The first time among the members with these names, in seconds since the epoch.
pub fn timestamp_epoch(value: &Json, keys: &[&str]) -> (seconds: Option<i64>)
    ensures
        seconds == picked_epoch(value@, names(keys@)),
{
    let ghost read = |k: Seq<char>| epoch_at(value@, k);
    let mut i: usize = 0;
    while i < keys.len()
        invariant
            i <= keys@.len(),
            read == (|k: Seq<char>| epoch_at(value@, k)),
            first_from(names(keys@), read, 0) == first_from(names(keys@), read, i as int),
        decreases keys@.len() - i,
    {
        assert(names(keys@)[i as int] == keys@[i as int]@);
        if let Some(found) = value.get(keys[i]) {
            if let Some(seconds) = epoch_of(found) {
                return Some(seconds);
            }
        }
        i = i + 1;
    }
    None
}

/// The first number among the members with these names, and the place of its name.
pub fn number_with_key(value: &Json, keys: &[&str]) -> (found: Option<(usize, JsonNumber)>)
    ensures
        match found {
            Some((i, number)) => i < keys@.len() && picked_number(value@, names(keys@)) == Some(
                (i as int, number@),
            ),
            None => picked_number(value@, names(keys@)) is None,
        },
{
    let ghost read = |k: Seq<char>| number_at(value@, k);
    let mut i: usize = 0;
    while i < keys.len()
        invariant
            i <= keys@.len(),
            read == (|k: Seq<char>| number_at(value@, k)),
            first_from(names(keys@), read, 0) == first_from(names(keys@), read, i as int),
        decreases keys@.len() - i,
    {
        assert(names(keys@)[i as int] == keys@[i as int]@);
        if let Some(found) = value.get(keys[i]) {
            if let Some(number) = found.as_number() {
                return Some((i, *number));
            }
        }
        i = i + 1;
    }
    None
}

/// A list of names is the list of their texts.
pub proof fn law_names_are_texts(keys: Seq<&str>, i: int)
    requires
        0 <= i < keys.len(),
    ensures
        names(keys).len() == keys.len(),
        names(keys)[i] == keys[i]@,
{
}

/// A search passes over the names under which there is nothing and ends at the first under which
/// there is something.
pub proof fn lemma_first_from<T>(
    keys: Seq<Seq<char>>,
    read: spec_fn(Seq<char>) -> Option<T>,
    from: int,
    i: int,
)
    requires
        0 <= from <= i <= keys.len(),
        forall|j: int| from <= j < i ==> read(#[trigger] keys[j]) is None,
    ensures
        i < keys.len() ==> (read(keys[i]) matches Some(found) ==> first_from(keys, read, from)
            == Some((i, found))),
        i == keys.len() ==> first_from(keys, read, from) is None,
    decreases i - from,
{
    if from < i {
        assert(read(keys[from]) is None);
        lemma_first_from(keys, read, from + 1, i);
    }
}

/// The text that is picked is that of the first name under which there is a string, and there is
/// none where no name has a string.
pub proof fn law_first_text_is_picked(value: JsonTree, keys: Seq<Seq<char>>, i: int)
    requires
        0 <= i <= keys.len(),
        forall|j: int|
            0 <= j < i ==> (match value.field(#[trigger] keys[j]) {
                Some(JsonTree::Text(_)) => false,
                _ => true,
            }),
    ensures
        i < keys.len() ==> (value.field(keys[i]) matches Some(JsonTree::Text(text)) ==> picked_text(
            value,
            keys,
        ) == Some(text)),
        i == keys.len() ==> picked_text(value, keys) is None,
{
    let read = |k: Seq<char>| text_at(value, k);
    assert forall|j: int| 0 <= j < i implies read(#[trigger] keys[j]) is None by {
        assert(match value.field(keys[j]) {
            Some(JsonTree::Text(_)) => false,
            _ => true,
        });
    }
    lemma_first_from(keys, read, 0, i);
}

/// The count that is picked is that of the first name under which there is an integer that is not
/// negative.
pub proof fn law_first_count_is_picked(value: JsonTree, keys: Seq<Seq<char>>, i: int)
    requires
        0 <= i <= keys.len(),
        forall|j: int|
            0 <= j < i ==> (match value.field(#[trigger] keys[j]) {
                Some(JsonTree::Number(NumberTree::PosInt(_))) => false,
                Some(JsonTree::Number(NumberTree::NegInt(m))) => m < 0,
                _ => true,
            }),
    ensures
        i < keys.len() ==> (match value.field(keys[i]) {
            Some(JsonTree::Number(NumberTree::PosInt(n))) => picked_unsigned(value, keys) == Some(
                n,
            ),
            Some(JsonTree::Number(NumberTree::NegInt(m))) => m >= 0 ==> picked_unsigned(value, keys)
                == Some(m as u64),
            _ => true,
        }),
        i == keys.len() ==> picked_unsigned(value, keys) is None,
{
    let read = |k: Seq<char>| unsigned_at(value, k);
    assert forall|j: int| 0 <= j < i implies read(#[trigger] keys[j]) is None by {
        assert(match value.field(keys[j]) {
            Some(JsonTree::Number(NumberTree::PosInt(_))) => false,
            Some(JsonTree::Number(NumberTree::NegInt(m))) => m < 0,
            _ => true,
        });
    }
    lemma_first_from(keys, read, 0, i);
}

/// The number that is picked is that of the first name under which there is any, with the place of
/// that name.
pub proof fn law_first_number_is_picked(value: JsonTree, keys: Seq<Seq<char>>, i: int)
    requires
        0 <= i <= keys.len(),
        forall|j: int|
            0 <= j < i ==> (match value.field(#[trigger] keys[j]) {
                Some(JsonTree::Number(_)) => false,
                _ => true,
            }),
    ensures
        i < keys.len() ==> (value.field(keys[i]) matches Some(JsonTree::Number(number))
            ==> picked_number(value, keys) == Some((i, number))),
        i == keys.len() ==> picked_number(value, keys) is None,
{
    let read = |k: Seq<char>| number_at(value, k);
    assert forall|j: int| 0 <= j < i implies read(#[trigger] keys[j]) is None by {
        assert(match value.field(keys[j]) {
            Some(JsonTree::Number(_)) => false,
            _ => true,
        });
    }
    lemma_first_from(keys, read, 0, i);
}

/// The time that is picked as text is that of the first name under which there is a string, taken
/// as it stands, or an integer of 64 bits with a sign, taken in decimal.
pub proof fn law_first_time_is_picked(value: JsonTree, keys: Seq<Seq<char>>, i: int)
    requires
        0 <= i <= keys.len(),
        forall|j: int|
            0 <= j < i ==> (match value.field(#[trigger] keys[j]) {
                Some(JsonTree::Text(_)) => false,
                Some(JsonTree::Number(NumberTree::PosInt(n))) => n > 0x7FFF_FFFF_FFFF_FFFF,
                Some(JsonTree::Number(NumberTree::NegInt(_))) => false,
                _ => true,
            }),
    ensures
        i < keys.len() ==> (match value.field(keys[i]) {
            Some(JsonTree::Text(text)) => picked_time_text(value, keys) == Some(text),
            Some(JsonTree::Number(NumberTree::PosInt(n))) => n <= 0x7FFF_FFFF_FFFF_FFFF
                ==> picked_time_text(value, keys) == Some(decimal_int(n as int)),
            Some(JsonTree::Number(NumberTree::NegInt(m))) => picked_time_text(value, keys) == Some(
                decimal_int(m as int),
            ),
            _ => true,
        }),
        i == keys.len() ==> picked_time_text(value, keys) is None,
{
    let read = |k: Seq<char>| time_text_at(value, k);
    assert forall|j: int| 0 <= j < i implies read(#[trigger] keys[j]) is None by {
        assert(match value.field(keys[j]) {
            Some(JsonTree::Text(_)) => false,
            Some(JsonTree::Number(NumberTree::PosInt(n))) => n > 0x7FFF_FFFF_FFFF_FFFF,
            Some(JsonTree::Number(NumberTree::NegInt(_))) => false,
            _ => true,
        });
    }
    lemma_first_from(keys, read, 0, i);
}

/// The moment that is picked is that of the first name under which there is one: an integer of 64
/// bits with a sign, a string that reads as one, or a string that reads as a date.
pub proof fn law_first_moment_is_picked(value: JsonTree, keys: Seq<Seq<char>>, i: int)
    requires
        0 <= i <= keys.len(),
        forall|j: int|
            0 <= j < i ==> (match value.field(#[trigger] keys[j]) {
                Some(JsonTree::Text(text)) => parsed_i64(text) is None && rfc3339_epoch(
                    text,
                ) is None,
                Some(JsonTree::Number(NumberTree::PosInt(n))) => n > 0x7FFF_FFFF_FFFF_FFFF,
                Some(JsonTree::Number(NumberTree::NegInt(_))) => false,
                _ => true,
            }),
    ensures
        i < keys.len() ==> (match value.field(keys[i]) {
            Some(JsonTree::Text(text)) => {
                &&& parsed_i64(text) is Some ==> picked_epoch(value, keys) == parsed_i64(text)
                &&& parsed_i64(text) is None && rfc3339_epoch(text) is Some ==> picked_epoch(
                    value,
                    keys,
                ) == rfc3339_epoch(text)
            },
            Some(JsonTree::Number(NumberTree::PosInt(n))) => n <= 0x7FFF_FFFF_FFFF_FFFF
                ==> picked_epoch(value, keys) == Some(n as i64),
            Some(JsonTree::Number(NumberTree::NegInt(m))) => picked_epoch(value, keys) == Some(m),
            _ => true,
        }),
        i == keys.len() ==> picked_epoch(value, keys) is None,
{
    let read = |k: Seq<char>| epoch_at(value, k);
    assert forall|j: int| 0 <= j < i implies read(#[trigger] keys[j]) is None by {
        assert(match value.field(keys[j]) {
            Some(JsonTree::Text(text)) => parsed_i64(text) is None && rfc3339_epoch(text) is None,
            Some(JsonTree::Number(NumberTree::PosInt(n))) => n > 0x7FFF_FFFF_FFFF_FFFF,
            Some(JsonTree::Number(NumberTree::NegInt(_))) => false,
            _ => true,
        });
    }
    lemma_first_from(keys, read, 0, i);
}

} // verus!

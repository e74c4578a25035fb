//! JSON documents as plain values, and reading them from text.
use vstd::arithmetic::power2::pow2;
use vstd::prelude::*;

use crate::double::{
    double_percent, finite_bits, integer_percent, is_percent, one, rounded_i64, signed_units,
    Double,
};
use crate::text::same_text;

verus! {

/// A JSON number: an integer that is not negative, a negative integer, or a double.
#[derive(Debug, Clone, Copy)]
pub enum JsonNumber {
    PosInt(u64),
    NegInt(i64),
    Float(Double),
}

/// A JSON document. An object keeps its members in order; of members with the same name the
/// first counts.
#[derive(Debug)]
pub enum Json {
    Null,
    Bool(bool),
    Number(JsonNumber),
    Text(String),
    Array(Vec<Json>),
    Object(Vec<(String, Json)>),
}

/// The model of a JSON number: a double stands as its bit pattern.
pub enum NumberTree {
    PosInt(u64),
    NegInt(i64),
    Float(u64),
}

/// The model of a JSON document.
pub enum JsonTree {
    Null,
    Bool(bool),
    Number(NumberTree),
    Text(Seq<char>),
    Array(Seq<JsonTree>),
    Object(Seq<(Seq<char>, JsonTree)>),
}

impl View for JsonNumber {
    type V = NumberTree;

    open spec fn view(&self) -> NumberTree {
        match *self {
            JsonNumber::PosInt(n) => NumberTree::PosInt(n),
            JsonNumber::NegInt(n) => NumberTree::NegInt(n),
            JsonNumber::Float(d) => NumberTree::Float(d@),
        }
    }
}

impl View for Json {
    type V = JsonTree;

    open spec fn view(&self) -> JsonTree {
        tree_of(*self)
    }
}

/// The model of a document, member by member.
pub open spec fn tree_of(json: Json) -> JsonTree
    decreases json,
{
    match json {
        Json::Null => JsonTree::Null,
        Json::Bool(b) => JsonTree::Bool(b),
        Json::Number(n) => JsonTree::Number(n@),
        Json::Text(s) => JsonTree::Text(s@),
        Json::Array(items) => JsonTree::Array(
            Seq::new(
                items@.len(),
                |i: int|
                    if 0 <= i < items@.len() {
                        tree_of(items@[i])
                    } else {
                        JsonTree::Null
                    },
            ),
        ),
        Json::Object(members) => JsonTree::Object(
            Seq::new(
                members@.len(),
                |i: int|
                    if 0 <= i < members@.len() {
                        (members@[i].0@, tree_of(members@[i].1))
                    } else {
                        (Seq::empty(), JsonTree::Null)
                    },
            ),
        ),
    }
}

/// The value of the first of these members with the name `key`.
pub open spec fn member(members: Seq<(Seq<char>, JsonTree)>, key: Seq<char>) -> Option<JsonTree>
    decreases members.len(),
{
    if members.len() == 0 {
        None
    } else if members[0].0 == key {
        Some(members[0].1)
    } else {
        member(members.skip(1), key)
    }
}

impl NumberTree {
    /// The number as an `i64`, where it is an integer that fits.
    pub open spec fn signed(self) -> Option<i64> {
        match self {
            NumberTree::PosInt(n) => if n <= i64::MAX {
                Some(n as i64)
            } else {
                None
            },
            NumberTree::NegInt(n) => Some(n),
            NumberTree::Float(_) => None,
        }
    }

    /// The number as a `u64`, where it is an integer and not negative.
    pub open spec fn unsigned(self) -> Option<u64> {
        match self {
            NumberTree::PosInt(n) => Some(n),
            NumberTree::NegInt(n) => if n >= 0 {
                Some(n as u64)
            } else {
                None
            },
            NumberTree::Float(_) => None,
        }
    }

    /// Whether the number is at most one.
    pub open spec fn at_most_one(self) -> bool {
        match self {
            NumberTree::PosInt(n) => n <= 1,
            NumberTree::NegInt(n) => n <= 1,
            NumberTree::Float(bits) => signed_units(bits) <= one(),
        }
    }

    /// The number as a percentage, after a hundredfold increase where it is a ratio, held
    /// within zero and one hundred.
    pub open spec fn percent(self, hundredfold: bool) -> u64 {
        match self {
            NumberTree::PosInt(n) => integer_percent(n as int, hundredfold),
            NumberTree::NegInt(n) => integer_percent(n as int, hundredfold),
            NumberTree::Float(bits) => double_percent(bits, hundredfold),
        }
    }

    /// The nearest `i64`: halves away from zero, and the ends of the range beyond it.
    pub open spec fn rounded(self) -> i64 {
        match self {
            NumberTree::PosInt(n) => if n <= i64::MAX {
                n as i64
            } else {
                i64::MAX
            },
            NumberTree::NegInt(n) => n,
            NumberTree::Float(bits) => rounded_i64(bits) as i64,
        }
    }
}

impl JsonTree {
    /// The member of an object with the name `key`.
    pub open spec fn field(self, key: Seq<char>) -> Option<JsonTree> {
        match self {
            JsonTree::Object(members) => member(members, key),
            _ => None,
        }
    }

    /// The text of a string.
    pub open spec fn text(self) -> Option<Seq<char>> {
        match self {
            JsonTree::Text(s) => Some(s),
            _ => None,
        }
    }

    /// The number of a number.
    pub open spec fn number(self) -> Option<NumberTree> {
        match self {
            JsonTree::Number(n) => Some(n),
            _ => None,
        }
    }

    /// The items of an array.
    pub open spec fn items(self) -> Option<Seq<JsonTree>> {
        match self {
            JsonTree::Array(items) => Some(items),
            _ => None,
        }
    }
}

impl JsonNumber {
    /// The number as an `i64`, where it is an integer that fits.
    pub fn as_i64(&self) -> (value: Option<i64>)
        ensures
            value == self@.signed(),
    {
        match *self {
            JsonNumber::PosInt(n) => if n <= i64::MAX as u64 {
                Some(n as i64)
            } else {
                None
            },
            JsonNumber::NegInt(n) => Some(n),
            JsonNumber::Float(_) => None,
        }
    }

    /// The number as a `u64`, where it is an integer and not negative.
    pub fn as_u64(&self) -> (value: Option<u64>)
        ensures
            value == self@.unsigned(),
    {
        match *self {
            JsonNumber::PosInt(n) => Some(n),
            JsonNumber::NegInt(n) => if n >= 0 {
                Some(n as u64)
            } else {
                None
            },
            JsonNumber::Float(_) => None,
        }
    }

    /// Whether the number is at most one.
    pub fn at_most_one(&self) -> (answer: bool)
        ensures
            answer == self@.at_most_one(),
    {
        match *self {
            JsonNumber::PosInt(n) => n <= 1,
            JsonNumber::NegInt(n) => n <= 1,
            JsonNumber::Float(d) => d.at_most_one(),
        }
    }

    /// The number as a percentage, after a hundredfold increase where it is a ratio.
    pub fn percent(&self, hundredfold: bool) -> (percent: Double)
        ensures
            percent@ == self@.percent(hundredfold),
            is_percent(percent@),
    {
        match *self {
            JsonNumber::PosInt(n) => Double::percent_of(n, hundredfold),
            JsonNumber::NegInt(n) => Double::percent_of_signed(n, hundredfold),
            JsonNumber::Float(d) => d.percent(hundredfold),
        }
    }

    /// The nearest `i64`: halves away from zero, and the ends of the range beyond it.
    pub fn round(&self) -> (value: i64)
        ensures
            value == self@.rounded(),
    {
        match *self {
            JsonNumber::PosInt(n) => if n <= i64::MAX as u64 {
                n as i64
            } else {
                i64::MAX
            },
            JsonNumber::NegInt(n) => n,
            JsonNumber::Float(d) => d.round(),
        }
    }
}

impl Json {
    /// The member of an object with the name `key`.
    pub fn get(&self, key: &str) -> (value: Option<&Json>)
        ensures
            match value {
                Some(found) => self@.field(key@) == Some(found@),
                None => self@.field(key@) is None,
            },
    {
        match self {
            Json::Object(members) => {
                let ghost all: Seq<(Seq<char>, JsonTree)> = self@->Object_0;
                let mut i: usize = 0;
                assert(all.skip(0) == all);
                while i < members.len()
                    invariant
                        i <= members@.len(),
                        self@ == JsonTree::Object(all),
                        all.len() == members@.len(),
                        forall|j: int|
                            0 <= j < all.len() ==> #[trigger] all[j] == (
                                members@[j].0@,
                                members@[j].1@,
                            ),
                        member(all, key@) == member(all.skip(i as int), key@),
                    decreases members@.len() - i,
                {
                    if same_text(members[i].0.as_str(), key) {
                        assert(all.skip(i as int)[0] == all[i as int]);
                        return Some(&members[i].1);
                    }
                    assert(all.skip(i as int)[0] == all[i as int]);
                    assert(all.skip(i as int).skip(1) == all.skip(i + 1));
                    i = i + 1;
                }
                None
            },
            _ => None,
        }
    }

    /// The text of a string.
    pub fn as_str(&self) -> (value: Option<&str>)
        ensures
            match value {
                Some(found) => self@.text() == Some(found@),
                None => self@.text() is None,
            },
    {
        match self {
            Json::Text(s) => Some(s.as_str()),
            _ => None,
        }
    }

    /// The number of a number.
    pub fn as_number(&self) -> (value: Option<&JsonNumber>)
        ensures
            match value {
                Some(found) => self@.number() == Some(found@),
                None => self@.number() is None,
            },
    {
        match self {
            Json::Number(n) => Some(n),
            _ => None,
        }
    }

    /// The items of an array.
    pub fn as_array(&self) -> (value: Option<&Vec<Json>>)
        ensures
            match value {
                Some(found) => self@.items() == Some(trees(found@)),
                None => self@.items() is None,
            },
    {
        match self {
            Json::Array(items) => {
                assert(self@->Array_0 == trees(items@));
                Some(items)
            },
            _ => None,
        }
    }

    /// Whether the document is an object.
    pub fn is_object(&self) -> (answer: bool)
        ensures
            answer == (self@ is Object),
    {
        match self {
            Json::Object(_) => true,
            _ => false,
        }
    }
}

/// The models of a list of documents.
pub open spec fn trees(list: Seq<Json>) -> Seq<JsonTree> {
    list.map_values(|j: Json| j@)
}

/// A JSON value of `serde_json`.
#[verifier::external_type_specification]
#[verifier::external_body]
pub struct ExValue(serde_json::Value);

/// A JSON number of `serde_json`.
#[verifier::external_type_specification]
#[verifier::external_body]
pub struct ExNumber(serde_json::Number);

/// The error with which `serde_json` refuses a document.
#[verifier::external_type_specification]
#[verifier::external_body]
pub struct ExError(serde_json::Error);

/// What a `serde_json::Value` holds.
pub uninterp spec fn value_tree(value: serde_json::Value) -> JsonTree;

/// What a `serde_json::Number` holds.
pub uninterp spec fn value_number(number: serde_json::Number) -> NumberTree;

/// What `serde_json::from_str` reads as a `Value` from a text; `None` where it refuses it.
pub uninterp spec fn text_document(text: Seq<char>) -> Option<JsonTree>;

/// What `serde_json::from_slice` reads as a `Value` from bytes; `None` where it refuses them.
pub uninterp spec fn byte_document(bytes: Seq<u8>) -> Option<JsonTree>;

/// One layer of a `serde_json::Value`.
pub enum Layer<'a> {
    Null,
    Bool(bool),
    Number(&'a serde_json::Number),
    Text(&'a String),
    Array(&'a Vec<serde_json::Value>),
    Object(Vec<(&'a String, &'a serde_json::Value)>),
}

/// `tree` is the document whose outermost layer is `layer`.
pub open spec fn is_layer(layer: Layer<'_>, tree: JsonTree) -> bool {
    match layer {
        Layer::Null => tree == JsonTree::Null,
        Layer::Bool(b) => tree == JsonTree::Bool(b),
        Layer::Number(n) => tree == JsonTree::Number(value_number(*n)),
        Layer::Text(s) => tree == JsonTree::Text(s@),
        Layer::Array(items) => {
            &&& tree is Array
            &&& tree->Array_0.len() == items@.len()
            &&& forall|i: int|
                0 <= i < items@.len() ==> value_tree(#[trigger] items@[i]) == tree->Array_0[i]
        },
        Layer::Object(members) => {
            &&& tree is Object
            &&& tree->Object_0.len() == members@.len()
            &&& forall|i: int|
                0 <= i < members@.len() ==> {
                    &&& (#[trigger] members@[i]).0@ == tree->Object_0[i].0
                    &&& value_tree(*members@[i].1) == tree->Object_0[i].1
                }
        },
    }
}

/// `serde_json::from_str` at the type `Value`: a value or an error, as the text alone decides.
#[verifier::external_body]
fn read_text(text: &str) -> (result: Result<serde_json::Value, serde_json::Error>)
    ensures
        match result {
            Ok(value) => text_document(text@) == Some(value_tree(value)),
            Err(_) => text_document(text@) is None,
        },
{
    serde_json::from_str(text)
}

/// `serde_json::from_slice` at the type `Value`: a value or an error, as the bytes alone
/// decide.
#[verifier::external_body]
fn read_bytes(bytes: &[u8]) -> (result: Result<serde_json::Value, serde_json::Error>)
    ensures
        match result {
            Ok(value) => byte_document(bytes@) == Some(value_tree(value)),
            Err(_) => byte_document(bytes@) is None,
        },
{
    serde_json::from_slice(bytes)
}

/// The variants of `serde_json::Value`, with what they hold; the members of an object in the
/// order in which `serde_json::Map` yields them.
#[verifier::external_body]
fn open_value(value: &serde_json::Value) -> (layer: Layer<'_>)
    ensures
        is_layer(layer, value_tree(*value)),
{
    match value {
        serde_json::Value::Null => Layer::Null,
        serde_json::Value::Bool(b) => Layer::Bool(*b),
        serde_json::Value::Number(n) => Layer::Number(n),
        serde_json::Value::String(s) => Layer::Text(s),
        serde_json::Value::Array(items) => Layer::Array(items),
        serde_json::Value::Object(members) => Layer::Object(members.iter().collect()),
    }
}

/// `Number::as_u64` answers for an integer that is not negative, with the integer, and for no
/// other number.
pub assume_specification[ serde_json::Number::as_u64 ](number: &serde_json::Number) -> (value:
    Option<u64>)
    ensures
        value == positive_integer(value_number(*number)),
;

/// `Number::as_i64` answers for an integer that fits, with the integer, and for no other
/// number.
pub assume_specification[ serde_json::Number::as_i64 ](number: &serde_json::Number) -> (value:
    Option<i64>)
    ensures
        value == value_number(*number).signed(),
;

/// The integer that is not negative, where a number is held as one.
pub open spec fn positive_integer(number: NumberTree) -> Option<u64> {
    match number {
        NumberTree::PosInt(n) => Some(n),
        _ => None,
    }
}

/// Whether bits are those of a double, and finite where a number is held as one.
pub open spec fn is_double_of(bits: u64, number: NumberTree) -> bool {
    number matches NumberTree::Float(held) ==> bits == held && finite_bits(bits)
}

/// `Number::as_f64`, with the bits of the double: every number answers, and one that is held as
/// a double, which is always finite, answers with that.
#[verifier::external_body]
fn double_bits(number: &serde_json::Number) -> (bits: Option<u64>)
    ensures
        bits is Some,
        is_double_of(bits->0, value_number(*number)),
{
    number.as_f64().map(|value| value.to_bits())
}

/// The plain form of a `serde_json::Number`.
fn plain_number(number: &serde_json::Number) -> (plain: JsonNumber)
    ensures
        plain@ == value_number(*number),
{
    if let Some(n) = number.as_u64() {
        return JsonNumber::PosInt(n);
    }
    if let Some(n) = number.as_i64() {
        return JsonNumber::NegInt(n);
    }
    if let Some(bits) = double_bits(number) {
        if let Some(double) = Double::from_bits(bits) {
            return JsonNumber::Float(double);
        }
    }
    assert(false);
    JsonNumber::PosInt(0)
}

/// The plain form of a `serde_json::Value`.
fn plain(value: &serde_json::Value) -> (json: Json)
    ensures
        json@ == value_tree(*value),
    decreases value_tree(*value),
{
    match open_value(value) {
        Layer::Null => Json::Null,
        Layer::Bool(b) => Json::Bool(b),
        Layer::Number(n) => Json::Number(plain_number(n)),
        Layer::Text(s) => Json::Text(s.clone()),
        Layer::Array(items) => {
            let ghost all: Seq<JsonTree> = value_tree(*value)->Array_0;
            let mut list: Vec<Json> = Vec::new();
            let mut i: usize = 0;
            while i < items.len()
                invariant
                    i <= items@.len(),
                    is_layer(Layer::Array(items), value_tree(*value)),
                    all == value_tree(*value)->Array_0,
                    list@.len() == i,
                    forall|j: int| 0 <= j < i ==> (#[trigger] list@[j])@ == all[j],
                decreases items@.len() - i,
            {
                let item: Json = plain(&items[i]);
                list.push(item);
                i = i + 1;
            }
            let json: Json = Json::Array(list);
            assert(json@->Array_0 =~= all);
            json
        },
        Layer::Object(members) => {
            let ghost all: Seq<(Seq<char>, JsonTree)> = value_tree(*value)->Object_0;
            let mut list: Vec<(String, Json)> = Vec::new();
            let mut i: usize = 0;
            while i < members.len()
                invariant
                    i <= members@.len(),
                    is_layer(Layer::Object(members), value_tree(*value)),
                    all == value_tree(*value)->Object_0,
                    list@.len() == i,
                    forall|j: int|
                        0 <= j < i ==> (#[trigger] list@[j]).0@ == all[j].0 && list@[j].1@
                            == all[j].1,
                decreases members@.len() - i,
            {
                let name: String = members[i].0.clone();
                let item: Json = plain(members[i].1);
                list.push((name, item));
                i = i + 1;
            }
            let json: Json = Json::Object(list);
            assert(json@->Object_0 =~= all);
            json
        },
    }
}

/// Reads a JSON document from text.
pub fn parse_json(text: &str) -> (document: Option<Json>)
    ensures
        match document {
            Some(json) => text_document(text@) == Some(json@),
            None => text_document(text@) is None,
        },
{
    match read_text(text) {
        Ok(value) => Some(plain(&value)),
        Err(_) => None,
    }
}

/// Reads a JSON document from bytes.
pub fn parse_json_bytes(bytes: &[u8]) -> (document: Option<Json>)
    ensures
        match document {
            Some(json) => byte_document(bytes@) == Some(json@),
            None => byte_document(bytes@) is None,
        },
{
    match read_bytes(bytes) {
        Ok(value) => Some(plain(&value)),
        Err(_) => None,
    }
}

/// Of members with the same name the first counts; a name that no member has, and anything but an
/// object, gives nothing.
pub proof fn law_first_member_counts(members: Seq<(Seq<char>, JsonTree)>, key: Seq<char>, i: int)
    requires
        0 <= i <= members.len(),
        forall|j: int| 0 <= j < i ==> (#[trigger] members[j]).0 != key,
    ensures
        i < members.len() && members[i].0 == key ==> JsonTree::Object(members).field(key) == Some(
            members[i].1,
        ),
        i == members.len() ==> JsonTree::Object(members).field(key) is None,
    decreases members.len(),
{
    if i > 0 {
        let rest: Seq<(Seq<char>, JsonTree)> = members.skip(1);
        assert forall|j: int| 0 <= j < i - 1 implies (#[trigger] rest[j]).0 != key by {
            assert(rest[j] == members[j + 1]);
        }
        law_first_member_counts(rest, key, i - 1);
        assert(members[0].0 != key);
        if i < members.len() {
            assert(rest[i - 1] == members[i]);
        }
    }
}

/// Only objects have members, only strings have text, only numbers are numbers and only arrays
/// have items; each gives what it holds.
pub proof fn law_each_form_gives_what_it_holds(value: JsonTree, key: Seq<char>)
    ensures
        !(value is Object) ==> value.field(key) is None,
        value is Text ==> value.text() == Some(value->Text_0),
        !(value is Text) ==> value.text() is None,
        value is Number ==> value.number() == Some(value->Number_0),
        !(value is Number) ==> value.number() is None,
        value is Array ==> value.items() == Some(value->Array_0),
        !(value is Array) ==> value.items() is None,
{
}

/// The model of a document has the form of the document and holds what it holds.
pub proof fn law_model_holds_the_document(json: Json, i: int)
    ensures
        json is Null ==> json@ == JsonTree::Null,
        json is Bool ==> json@ == JsonTree::Bool(json->Bool_0),
        json is Text ==> json@ == JsonTree::Text(json->Text_0@),
        json is Number ==> json@ == JsonTree::Number(
            match json->Number_0 {
                JsonNumber::PosInt(n) => NumberTree::PosInt(n),
                JsonNumber::NegInt(n) => NumberTree::NegInt(n),
                JsonNumber::Float(d) => NumberTree::Float(d@),
            },
        ),
        json is Array ==> json@ is Array && json@->Array_0.len() == json->Array_0@.len(),
        json is Array && 0 <= i < json->Array_0@.len() ==> json@->Array_0[i] == json->Array_0@[i]@,
        json is Object ==> json@ is Object && json@->Object_0.len() == json->Object_0@.len(),
        json is Object && 0 <= i < json->Object_0@.len() ==> json@->Object_0[i] == (
            json->Object_0@[i].0@,
            json->Object_0@[i].1@,
        ),
{
}

/// An integer is taken as it is wherever the type can hold it; a double is no integer.
pub proof fn law_integers_are_taken_as_they_are(n: u64, m: i64, bits: u64)
    ensures
        NumberTree::PosInt(n).unsigned() == Some(n),
        n <= 0x7FFF_FFFF_FFFF_FFFF ==> NumberTree::PosInt(n).signed() == Some(n as i64),
        n > 0x7FFF_FFFF_FFFF_FFFF ==> NumberTree::PosInt(n).signed() is None,
        NumberTree::NegInt(m).signed() == Some(m),
        m >= 0 ==> NumberTree::NegInt(m).unsigned() == Some(m as u64),
        m < 0 ==> NumberTree::NegInt(m).unsigned() is None,
        NumberTree::Float(bits).signed() is None,
        NumberTree::Float(bits).unsigned() is None,
        n <= 0x7FFF_FFFF_FFFF_FFFF ==> NumberTree::PosInt(n).rounded() == n,
        n > 0x7FFF_FFFF_FFFF_FFFF ==> NumberTree::PosInt(n).rounded() == 0x7FFF_FFFF_FFFF_FFFF,
        NumberTree::NegInt(m).rounded() == m,
        NumberTree::Float(bits).rounded() == rounded_i64(bits),
        NumberTree::PosInt(n).at_most_one() <==> n <= 1,
        NumberTree::NegInt(m).at_most_one() <==> m <= 1,
        NumberTree::Float(bits).at_most_one() <==> signed_units(bits) <= pow2(1074),
{
    crate::double::lemma_rounded_range(bits);
}

/// A whole number from zero to one hundred is that percentage exactly; beyond, the nearer end
/// counts. As a ratio, one and all above it are one hundred percent.
pub proof fn law_integer_percentages(n: u64, m: i64, bits: u64, hundredfold: bool)
    ensures
        n <= 100 ==> signed_units(NumberTree::PosInt(n).percent(false)) == n * pow2(1074),
        n > 100 ==> signed_units(NumberTree::PosInt(n).percent(false)) == 100 * pow2(1074),
        n == 0 ==> signed_units(NumberTree::PosInt(n).percent(true)) == 0,
        n >= 1 ==> signed_units(NumberTree::PosInt(n).percent(true)) == 100 * pow2(1074),
        m < 0 ==> signed_units(NumberTree::NegInt(m).percent(hundredfold)) == 0,
        m >= 0 ==> NumberTree::NegInt(m).percent(hundredfold) == NumberTree::PosInt(
            m as u64,
        ).percent(hundredfold),
        NumberTree::Float(bits).percent(hundredfold) == double_percent(bits, hundredfold),
{
    crate::double::lemma_integer_percentages(n as int, false);
    crate::double::lemma_integer_percentages(n as int, true);
    crate::double::lemma_integer_percentages(m as int, hundredfold);
}

} // verus!

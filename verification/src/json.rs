//! JSON documents as plain values, and the lookups that the provider
//! adapters make in them. The parsing itself is `serde_json`'s.

use vstd::prelude::*;
use vstd::string::StringExecFns;
use vstd::utf8::encode_utf8;
use crate::decimal::parse_decimal;
use crate::decimal::temperature_of_decimal;
use crate::temperature::Temperature;

verus! {

/// A JSON document. A number is held as its decimal text, an object as
/// its members in order.
#[derive(Debug, PartialEq, Eq)]
pub enum Json {
    Null,
    Bool(bool),
    Number(String),
    Text(String),
    Array(Vec<Json>),
    Object(Vec<(String, Json)>),
}

/// `serde_json::Value`: carried from the parser to `lift`; verified code
/// reads nothing inside it.
#[verifier::external_type_specification]
#[verifier::external_body]
pub struct ExValue(serde_json::Value);

/// What `serde_json` reads from a text: the document, or `None` where the
/// text is not one JSON value.
pub uninterp spec fn json_document(bytes: Seq<u8>) -> Option<Json>;

/// What a `serde_json::Value` holds, as a `Json`: the same value always
/// holds the same.
pub uninterp spec fn json_tree(value: serde_json::Value) -> Json;

/// `serde_json::from_slice` for a `Value`: the value that the text
/// writes, or `None` where `serde_json` reports an error. The same text
/// always gives the same answer.
#[verifier::external_body]
fn value_from_slice(bytes: &[u8]) -> (value: Option<serde_json::Value>)
    ensures
        match value {
            Some(v) => json_document(bytes@) == Some(json_tree(v)),
            None => json_document(bytes@) is None,
        },
{
    serde_json::from_slice::<serde_json::Value>(bytes).ok()
}

/// Moves what a `serde_json::Value` holds into a `Json`, variant by
/// variant: a number as the text that `Number::to_string` prints for it,
/// the members of an object in the order in which the `into_iter` of
/// `serde_json::Map` hands them out, each value moved in the same way.
#[verifier::external_body]
fn lift(value: serde_json::Value) -> (json: Json)
    ensures
        json == json_tree(value),
{
    match value {
        serde_json::Value::Null => Json::Null,
        serde_json::Value::Bool(b) => Json::Bool(b),
        serde_json::Value::Number(n) => Json::Number(n.to_string()),
        serde_json::Value::String(s) => Json::Text(s),
        serde_json::Value::Array(items) => Json::Array(items.into_iter().map(lift).collect()),
        serde_json::Value::Object(members) => Json::Object(
            members.into_iter().map(|(k, v)| (k, lift(v))).collect(),
        ),
    }
}

/// The value of the first of `members` whose key is `key`.
pub open spec fn first_with_key(members: Seq<(String, Json)>, key: Seq<char>) -> Option<Json>
    decreases members.len(),
{
    if members.len() == 0 {
        None
    } else if members[0].0@ == key {
        Some(members[0].1)
    } else {
        first_with_key(members.drop_first(), key)
    }
}

/// Finds the value of the first of `members` whose key is `key`.
fn find_member<'a>(members: &'a Vec<(String, Json)>, key: &str) -> (found: Option<&'a Json>)
    ensures
        match found {
            Some(json) => first_with_key(members@, key@) == Some(*json),
            None => first_with_key(members@, key@) is None,
        },
{
    let wanted = String::from_str(key);
    let mut i: usize = 0;
    assert(members@.skip(0) =~= members@);
    while i < members.len()
        invariant
            i <= members@.len(),
            wanted@ == key@,
            first_with_key(members@, key@) == first_with_key(members@.skip(i as int), key@),
        decreases members.len() - i,
    {
        proof {
            let rest = members@.skip(i as int);
            assert(rest[0] == members@[i as int]);
            assert(rest.drop_first() =~= members@.skip(i + 1));
        }
        if members[i].0 == wanted {
            return Some(&members[i].1);
        }
        i += 1;
    }
    None
}

impl Json {
    /// The member `key` of an object; `None` for an object without it and
    /// for anything but an object.
    pub open spec fn spec_member(self, key: Seq<char>) -> Option<Json> {
        match self {
            Json::Object(members) => first_with_key(members@, key),
            _ => None,
        }
    }

    /// The element at `index` of an array; `None` beyond its end and for
    /// anything but an array.
    pub open spec fn spec_element(self, index: int) -> Option<Json> {
        match self {
            Json::Array(items) => if 0 <= index < items@.len() {
                Some(items@[index])
            } else {
                None
            },
            _ => None,
        }
    }

    /// The elements of an array; `None` for anything but an array.
    pub open spec fn spec_items(self) -> Option<Seq<Json>> {
        match self {
            Json::Array(items) => Some(items@),
            _ => None,
        }
    }

    /// The temperature that a number writes in degrees Celsius; `None`
    /// for anything but a number, and for a number beyond the range of
    /// temperatures.
    pub open spec fn spec_temperature(self) -> Option<Temperature> {
        match self {
            Json::Number(text) => temperature_of_decimal(encode_utf8(text@)),
            _ => None,
        }
    }

    /// The temperature that the member `inner` of the member `outer`
    /// writes.
    pub open spec fn spec_nested_temperature(self, outer: Seq<char>, inner: Seq<char>) -> Option<
        Temperature,
    > {
        match self.spec_member(outer) {
            Some(within) => match within.spec_member(inner) {
                Some(number) => number.spec_temperature(),
                None => None,
            },
            None => None,
        }
    }

    /// The temperature that the member `key` writes.
    pub open spec fn spec_member_temperature(self, key: Seq<char>) -> Option<Temperature> {
        match self.spec_member(key) {
            Some(number) => number.spec_temperature(),
            None => None,
        }
    }

    /// Whether this is the number whose text is `text`.
    pub open spec fn spec_is_number(self, text: Seq<char>) -> bool {
        self matches Json::Number(own) && own@ == text
    }

    /// Reads one JSON document from `bytes`.
    pub fn parse(bytes: &[u8]) -> (document: Option<Json>)
        ensures
            document == json_document(bytes@),
    {
        match value_from_slice(bytes) {
            Some(value) => Some(lift(value)),
            None => None,
        }
    }

    /// Looks up the member `key` of an object.
    pub fn member(&self, key: &str) -> (found: Option<&Json>)
        ensures
            match found {
                Some(json) => self.spec_member(key@) == Some(*json),
                None => self.spec_member(key@) is None,
            },
    {
        match self {
            Json::Object(members) => find_member(members, key),
            _ => None,
        }
    }

    /// Looks up the element at `index` of an array.
    pub fn element(&self, index: usize) -> (found: Option<&Json>)
        ensures
            match found {
                Some(json) => self.spec_element(index as int) == Some(*json),
                None => self.spec_element(index as int) is None,
            },
    {
        match self {
            Json::Array(items) => if index < items.len() {
                Some(&items[index])
            } else {
                None
            },
            _ => None,
        }
    }

    /// The elements of an array.
    pub fn items(&self) -> (found: Option<&Vec<Json>>)
        ensures
            match found {
                Some(items) => self.spec_items() == Some(items@),
                None => self.spec_items() is None,
            },
    {
        match self {
            Json::Array(items) => Some(items),
            _ => None,
        }
    }

    /// Reads a number as a temperature in degrees Celsius.
    pub fn temperature(&self) -> (t: Option<Temperature>)
        ensures
            t == self.spec_temperature(),
    {
        match self {
            Json::Number(text) => parse_decimal(text.as_str().as_bytes()),
            _ => None,
        }
    }
    /// Reads the member `key` as a temperature in degrees Celsius.
    pub fn member_temperature(&self, key: &str) -> (t: Option<Temperature>)
        ensures
            t == self.spec_member_temperature(key@),
    {
        match self.member(key) {
            Some(number) => number.temperature(),
            None => None,
        }
    }

    /// Reads the member `inner` of the member `outer` as a temperature in
    /// degrees Celsius.
    pub fn nested_temperature(&self, outer: &str, inner: &str) -> (t: Option<Temperature>)
        ensures
            t == self.spec_nested_temperature(outer@, inner@),
    {
        match self.member(outer) {
            Some(within) => within.member_temperature(inner),
            None => None,
        }
    }

    /// Whether this is the number whose text is `text`.
    pub fn is_number(&self, text: &str) -> (same: bool)
        ensures
            same == self.spec_is_number(text@),
    {
        match self {
            Json::Number(own) => {
                let wanted = String::from_str(text);
                *own == wanted
            },
            _ => false,
        }
    }
}

} // verus!

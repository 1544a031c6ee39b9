//! JSON values, as `serde_json` reads and writes them.

use vstd::prelude::*;

verus! {

/// The type of JSON values of `serde_json`, opaque here.
#[verifier::external_type_specification]
#[verifier::external_body]
pub struct ExValue(serde_json::Value);

/// A JSON value. A number is held as the bit pattern of the double that stands for it.
pub enum Json {
    Null,
    Bool(bool),
    Number(u64),
    Text(Seq<char>),
    Array(Seq<Json>),
    Object(Map<Seq<char>, Json>),
}

/// What a value of `serde_json` holds.
pub uninterp spec fn json_of(v: serde_json::Value) -> Json;

/// What `serde_json::from_slice` makes of a text; nothing where it reports an error.
pub uninterp spec fn parsed_json(body: Seq<u8>) -> Option<Json>;

/// What the values of a vector hold.
pub open spec fn json_items(v: Seq<serde_json::Value>) -> Seq<Json> {
    v.map_values(|x: serde_json::Value| json_of(x))
}

impl Json {
    /// The member `key`, where this is an object that has it.
    pub open spec fn member(self, key: Seq<char>) -> Option<Json> {
        match self {
            Json::Object(m) => if m.dom().contains(key) {
                Some(m[key])
            } else {
                None
            },
            _ => None,
        }
    }

    /// The text, where this is one.
    pub open spec fn text(self) -> Option<Seq<char>> {
        match self {
            Json::Text(s) => Some(s),
            _ => None,
        }
    }

    /// The truth value, where this is one.
    pub open spec fn truth(self) -> Option<bool> {
        match self {
            Json::Bool(b) => Some(b),
            _ => None,
        }
    }

    /// The pattern of the number, where this is one.
    pub open spec fn number(self) -> Option<u64> {
        match self {
            Json::Number(b) => Some(b),
            _ => None,
        }
    }

    /// The items, where this is an array.
    pub open spec fn items(self) -> Option<Seq<Json>> {
        match self {
            Json::Array(s) => Some(s),
            _ => None,
        }
    }

    /// The text of the member `key`, where there is one.
    pub open spec fn member_text(self, key: Seq<char>) -> Option<Seq<char>> {
        match self.member(key) {
            Some(v) => v.text(),
            None => None,
        }
    }

    /// The pattern of the number that is the member `key`, where there is one.
    pub open spec fn member_number(self, key: Seq<char>) -> Option<u64> {
        match self.member(key) {
            Some(v) => v.number(),
            None => None,
        }
    }

    /// The truth value of the member `key`, where there is one.
    pub open spec fn member_truth(self, key: Seq<char>) -> Option<bool> {
        match self.member(key) {
            Some(v) => v.truth(),
            None => None,
        }
    }
}

/// `serde_json::from_slice`, read as a `serde_json::Value`. What it makes of a text is
/// named only; an error of it is given as `None`.
#[verifier::external_body]
pub(crate) fn from_slice(body: &[u8]) -> (r: Option<serde_json::Value>)
    ensures
        match r {
            Some(v) => parsed_json(body@) == Some(json_of(v)),
            None => parsed_json(body@) is None,
        },
{
    serde_json::from_slice::<serde_json::Value>(body).ok()
}

/// `serde_json::Value::get` with a string: the member of that name of an object;
/// nothing where there is no such member or the value is no object.
#[verifier::external_body]
pub(crate) fn get<'a>(v: &'a serde_json::Value, key: &str) -> (r: Option<&'a serde_json::Value>)
    ensures
        match r {
            Some(m) => json_of(*v).member(key@) == Some(json_of(*m)),
            None => json_of(*v).member(key@) is None,
        },
{
    v.get(key)
}

/// `serde_json::Value::as_str`: the text of a string; nothing for any other value.
#[verifier::external_body]
pub(crate) fn as_str(v: &serde_json::Value) -> (r: Option<&str>)
    ensures
        match r {
            Some(s) => json_of(*v).text() == Some(s@),
            None => json_of(*v).text() is None,
        },
{
    v.as_str()
}

/// `serde_json::Value::as_bool`: the truth value of a boolean; nothing for any other
/// value.
#[verifier::external_body]
pub(crate) fn as_bool(v: &serde_json::Value) -> (r: Option<bool>)
    ensures
        r == json_of(*v).truth(),
{
    v.as_bool()
}

/// `serde_json::Value::as_f64`, with the double that it gives as its bit pattern: that
/// of a number; nothing for any other value.
#[verifier::external_body]
pub(crate) fn as_double(v: &serde_json::Value) -> (r: Option<u64>)
    ensures
        r == json_of(*v).number(),
{
    v.as_f64().map(|d| d.to_bits())
}

/// `serde_json::Value::as_array`: the items of an array, in order; nothing for any
/// other value.
#[verifier::external_body]
pub(crate) fn as_array(v: &serde_json::Value) -> (r: Option<&Vec<serde_json::Value>>)
    ensures
        match r {
            Some(items) => json_of(*v).items() == Some(json_items(items@)),
            None => json_of(*v).items() is None,
        },
{
    v.as_array()
}

/// The text of the member `key` of `v`, where there is one.
pub fn member_str<'a>(v: &'a serde_json::Value, key: &str) -> (r: Option<&'a str>)
    ensures
        match r {
            Some(s) => json_of(*v).member_text(key@) == Some(s@),
            None => json_of(*v).member_text(key@) is None,
        },
{
    match get(v, key) {
        Some(m) => as_str(m),
        None => None,
    }
}

/// A member is read as what it is: a text as its text, a number as its pattern, a truth value
/// as that, and none of them as anything else.
pub proof fn law_members_are_read(m: Map<Seq<char>, Json>, key: Seq<char>)
    requires
        m.dom().contains(key),
    ensures
        m[key] matches Json::Text(t) ==> Json::Object(m).member_text(key) == Some(t),
        m[key] !is Text ==> Json::Object(m).member_text(key) is None,
        m[key] matches Json::Number(b) ==> Json::Object(m).member_number(key) == Some(b),
        m[key] !is Number ==> Json::Object(m).member_number(key) is None,
        m[key] matches Json::Bool(b) ==> Json::Object(m).member_truth(key) == Some(b),
        m[key] !is Bool ==> Json::Object(m).member_truth(key) is None,
{
}

/// What is no object has no members, and an object has none that it does not hold.
pub proof fn law_missing_members(j: Json, key: Seq<char>)
    requires
        j matches Json::Object(m) ==> !m.dom().contains(key),
    ensures
        j.member_text(key) is None,
        j.member_number(key) is None,
        j.member_truth(key) is None,
{
}

}

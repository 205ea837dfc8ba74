//! A JSON document as plain values, the parser that reads one from text,
//! and the lookups the library makes in the documents it reads (version
//! files of game instances, Modrinth API answers).
use vstd::prelude::*;
use crate::number::{parse_u64, written_nat};

verus! {

/// A JSON value. A number is kept as the text that `serde_json` writes for
/// it.
#[derive(Debug, PartialEq, Eq)]
pub enum Json {
    Null,
    Bool(bool),
    Number(String),
    Str(String),
    Array(Vec<Json>),
    /// The members of an object, each key once.
    Object(Vec<(String, Json)>),
}

/// The value of the first member named `key`.
pub open spec fn lookup(pairs: Seq<(String, Json)>, key: Seq<char>) -> Option<Json>
    decreases pairs.len(),
{
    if pairs.len() == 0 {
        None
    } else if pairs[0].0@ == key {
        Some(pairs[0].1)
    } else {
        lookup(pairs.drop_first(), key)
    }
}

proof fn lemma_lookup_found(pairs: Seq<(String, Json)>, key: Seq<char>, i: int)
    requires
        0 <= i < pairs.len(),
        pairs[i].0@ == key,
        forall|j: int| 0 <= j < i ==> pairs[j].0@ != key,
    ensures
        lookup(pairs, key) == Some(pairs[i].1),
    decreases i,
{
    if i > 0 {
        let rest = pairs.drop_first();
        assert forall|j: int| 0 <= j < i - 1 implies rest[j].0@ != key by {
            assert(rest[j] == pairs[j + 1]);
        }
        lemma_lookup_found(rest, key, i - 1);
    }
}

proof fn lemma_lookup_missing(pairs: Seq<(String, Json)>, key: Seq<char>)
    requires
        forall|j: int| 0 <= j < pairs.len() ==> pairs[j].0@ != key,
    ensures
        lookup(pairs, key) is None,
    decreases pairs.len(),
{
    if pairs.len() > 0 {
        let rest = pairs.drop_first();
        assert forall|j: int| 0 <= j < rest.len() implies rest[j].0@ != key by {
            assert(rest[j] == pairs[j + 1]);
        }
        lemma_lookup_missing(rest, key);
    }
}

impl Json {
    /// The member `key` of an object; `None` for a value that is not an
    /// object or has no such member.
    pub open spec fn member(self, key: Seq<char>) -> Option<Json> {
        match self {
            Json::Object(pairs) => lookup(pairs@, key),
            _ => None,
        }
    }

    /// The member `key` of this value, when it is an object that has one.
    pub fn get(&self, key: &str) -> (r: Option<&Json>)
        ensures
            r is Some <==> self.member(key@) is Some,
            r matches Some(v) ==> self.member(key@) == Some(*v),
    {
        match self {
            Json::Object(pairs) => {
                let k = key.to_owned();
                let n = pairs.len();
                for i in 0..n
                    invariant
                        n == pairs@.len(),
                        k@ == key@,
                        self.member(key@) == lookup(pairs@, key@),
                        forall|j: int| 0 <= j < i ==> pairs@[j].0@ != key@,
                {
                    if pairs[i].0 == k {
                        proof {
                            lemma_lookup_found(pairs@, key@, i as int);
                        }
                        return Some(&pairs[i].1);
                    }
                }
                proof {
                    lemma_lookup_missing(pairs@, key@);
                }
                None
            },
            _ => None,
        }
    }

    /// The text of a string value.
    pub fn as_str(&self) -> (r: Option<&String>)
        ensures
            r is Some <==> self is Str,
            r matches Some(s) ==> *self == Json::Str(*s),
    {
        match self {
            Json::Str(s) => Some(s),
            _ => None,
        }
    }

    /// The elements of an array value.
    pub fn as_array(&self) -> (r: Option<&Vec<Json>>)
        ensures
            r is Some <==> self is Array,
            r matches Some(a) ==> *self == Json::Array(*a),
    {
        match self {
            Json::Array(a) => Some(a),
            _ => None,
        }
    }

    /// The value of a number that is a whole number from 0 up and fits in a
    /// `u64`.
    pub fn as_u64(&self) -> (r: Option<u64>)
        ensures
            r is Some <==> self.is_u64(),
            r matches Some(v) ==> self matches Json::Number(t) && written_nat(t@) == Some(v as int),
    {
        match self {
            Json::Number(t) => parse_u64(t.as_str()),
            _ => None,
        }
    }

    /// Whether this value is a number that is a whole number from 0 up and
    /// fits in a `u64`.
    pub open spec fn is_u64(self) -> bool {
        self matches Json::Number(t) && (written_nat(t@) matches Some(v) && v <= u64::MAX)
    }
}

/// The JSON document that `serde_json` reads from `text`; `None` when the
/// text is not JSON.
pub uninterp spec fn spec_parse_json(text: Seq<char>) -> Option<Json>;

/// `serde_json`'s own value type.
#[verifier::external_type_specification]
#[verifier::external_body]
pub struct ExJsonValue(serde_json::Value);

/// Reads a JSON document with `serde_json::from_str`. The result is the
/// name `spec_parse_json` applied to the text: nothing more is claimed of
/// serde_json's parser than that it gives the same document for the same
/// text, and `None` exactly when it reports an error.
#[verifier::external_body]
pub fn parse_json(text: &str) -> (r: Option<Json>)
    ensures
        r == spec_parse_json(text@),
{
    match serde_json::from_str::<serde_json::Value>(text) {
        Ok(v) => Some(json_of_value(v)),
        Err(_) => None,
    }
}

/// The value that `serde_json` read, variant for variant as a `Json`, with
/// each number as the text serde_json writes for it. It is the conversion
/// in `parse_json`; no contract is claimed of it.
#[verifier::external_body]
fn json_of_value(v: serde_json::Value) -> Json {
    match v {
        serde_json::Value::Null => Json::Null,
        serde_json::Value::Bool(b) => Json::Bool(b),
        serde_json::Value::Number(n) => Json::Number(n.to_string()),
        serde_json::Value::String(s) => Json::Str(s),
        serde_json::Value::Array(a) => Json::Array(a.into_iter().map(json_of_value).collect()),
        serde_json::Value::Object(m) => Json::Object(
            m.into_iter().map(|(k, x)| (k, json_of_value(x))).collect(),
        ),
    }
}

} // verus!

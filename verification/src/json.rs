//! Structured log entries: JSON values, and what a log line parses to.

use crate::text::{decimal, texts};
use vstd::prelude::*;

verus! {

/// What a JSON value holds. A number is given by the text it is printed as.
#[verifier::ext_equal]
pub enum Json {
    Null,
    Bool(bool),
    Number(Seq<char>),
    Text(Seq<char>),
    Array(Seq<Json>),
    Object(Map<Seq<char>, Json>),
}

/// The six kinds of JSON value.
#[derive(Clone, Copy, Debug, PartialEq, Eq, Structural)]
pub enum Kind {
    Null,
    Bool,
    Number,
    Text,
    Array,
    Object,
}

/// `serde_json::Value`, known by what it holds.
#[verifier::external_type_specification]
#[verifier::external_body]
pub struct ExValue(serde_json::Value);

/// What a `serde_json::Value` holds: the whole tree of its members.
pub uninterp spec fn held(v: serde_json::Value) -> Json;

/// What `parse_log_line` makes of a line: the entry it read, or nothing where
/// the line is plain text.
pub uninterp spec fn parsed_line(line: Seq<char>) -> Option<Json>;

/// What `serde_json::to_string` writes for a value.
pub uninterp spec fn json_text(j: Json) -> Seq<char>;

impl Json {
    /// The member of an object under `key`.
    pub open spec fn member(self, key: Seq<char>) -> Option<Json> {
        match self {
            Json::Object(m) => if m.dom().contains(key) { Some(m[key]) } else { None },
            _ => None,
        }
    }

    /// The text of a text.
    pub open spec fn as_text(self) -> Option<Seq<char>> {
        match self {
            Json::Text(s) => Some(s),
            _ => None,
        }
    }

    pub open spec fn kind(self) -> Kind {
        match self {
            Json::Null => Kind::Null,
            Json::Bool(_) => Kind::Bool,
            Json::Number(_) => Kind::Number,
            Json::Text(_) => Kind::Text,
            Json::Array(_) => Kind::Array,
            Json::Object(_) => Kind::Object,
        }
    }
}

/// What an optional value holds.
pub open spec fn held_opt(v: Option<serde_json::Value>) -> Option<Json> {
    match v {
        Some(v) => Some(held(v)),
        None => None,
    }
}

/// No key stands twice among the members.
pub open spec fn distinct_keys(members: Seq<(String, serde_json::Value)>) -> bool {
    forall|i: int, j: int|
        0 <= i < j < members.len() ==> (#[trigger] members[i]).0@ != (#[trigger] members[j]).0@
}

/// The object with these members.
pub open spec fn object_of(members: Seq<(String, serde_json::Value)>) -> Map<Seq<char>, Json>
    decreases members.len(),
{
    if members.len() == 0 {
        Map::empty()
    } else {
        object_of(members.drop_last()).insert(members.last().0@, held(members.last().1))
    }
}

/// A number without a fraction and without an exponent.
pub open spec fn whole_number(text: Seq<char>) -> bool {
    forall|i: int| 0 <= i < text.len() ==> '0' <= #[trigger] text[i] <= '9' || text[i] == '-'
}

/// A value with whole numbers only, and at most `depth` lists and objects one
/// inside the other.
pub open spec fn whole_tree(j: Json, depth: nat) -> bool
    decreases depth,
{
    match j {
        Json::Number(text) => whole_number(text),
        Json::Array(items) => depth > 0 && forall|i: int|
            0 <= i < items.len() ==> whole_tree(#[trigger] items[i], (depth - 1) as nat),
        Json::Object(members) => depth > 0 && forall|key: Seq<char>|
            members.dom().contains(key) ==> whole_tree(
                #[trigger] members[key],
                (depth - 1) as nat,
            ),
        _ => true,
    }
}

/// The lists and objects one inside the other that `serde_json` reads at most.
pub const DEEPEST: usize = 127;

/// An object that is read back as it was written.
pub open spec fn reads_back(j: Json) -> bool {
    j is Object && whole_tree(j, DEEPEST as nat)
}

/// `loglens_core::parsers::parse_log_line`: the value of a structured line,
/// nothing for plain text. What is read depends on the line alone, and a
/// structured entry is always a JSON object.
#[verifier::external_body]
pub(crate) fn parse_log_line(line: &str) -> (r: Option<serde_json::Value>)
    ensures
        held_opt(r) == parsed_line(line@),
        r matches Some(v) ==> held(v) is Object,
{
    match loglens_core::parsers::parse_log_line(line) {
        loglens_core::LogEntry::Structured(v) => Some(v),
        loglens_core::LogEntry::Unstructured(_) => None,
    }
}

/// `serde_json::Value::get` with a text: the member of an object under that
/// key, and nothing for a missing key or for what is no object.
#[verifier::external_body]
pub(crate) fn member<'a>(v: &'a serde_json::Value, key: &str) -> (r: Option<&'a serde_json::Value>)
    ensures
        r is Some <==> held(*v).member(key@) is Some,
        r matches Some(m) ==> held(*v).member(key@) == Some(held(*m)),
{
    v.get(key)
}

/// `serde_json::Value::as_str`: the text of a JSON string, and nothing for any
/// other value.
#[verifier::external_body]
pub(crate) fn as_text<'a>(v: &'a serde_json::Value) -> (r: Option<&'a str>)
    ensures
        r is Some <==> held(*v).as_text() is Some,
        r matches Some(s) ==> held(*v).as_text() == Some(s@),
{
    v.as_str()
}

/// `serde_json::Value::as_object` and the keys of the map that it gives: each
/// key of an object once, and nothing for what is no object.
#[verifier::external_body]
pub(crate) fn keys(v: &serde_json::Value) -> (r: Option<Vec<String>>)
    ensures
        r is Some <==> held(*v) is Object,
        r matches Some(ks) ==> texts(ks@).no_duplicates() && texts(ks@).to_set()
            == held(*v)->Object_0.dom(),
{
    match v.as_object() {
        Some(m) => Some(m.keys().cloned().collect()),
        None => None,
    }
}

/// The variant of a `serde_json::Value`.
#[verifier::external_body]
pub(crate) fn kind(v: &serde_json::Value) -> (r: Kind)
    ensures
        r == held(*v).kind(),
{
    match v {
        serde_json::Value::Null => Kind::Null,
        serde_json::Value::Bool(_) => Kind::Bool,
        serde_json::Value::Number(_) => Kind::Number,
        serde_json::Value::String(_) => Kind::Text,
        serde_json::Value::Array(_) => Kind::Array,
        serde_json::Value::Object(_) => Kind::Object,
    }
}

/// `serde_json::Value::clone`: a value that holds the same.
#[verifier::external_body]
pub(crate) fn copy_value(v: &serde_json::Value) -> (r: serde_json::Value)
    ensures
        held(r) == held(*v),
{
    v.clone()
}

/// `serde_json::Value` from a text: the JSON string of that text.
#[verifier::external_body]
pub(crate) fn text_value(s: &str) -> (r: serde_json::Value)
    ensures
        held(r) == Json::Text(s@),
{
    serde_json::Value::from(s)
}

/// `serde_json::Value` from a `usize`: the JSON number, which prints in
/// decimal.
#[verifier::external_body]
pub(crate) fn number_value(n: usize) -> (r: serde_json::Value)
    ensures
        held(r) == Json::Number(decimal(n as nat)),
{
    serde_json::Value::from(n)
}

/// `serde_json::Map` from a list of members with different keys, as a JSON object.
#[verifier::external_body]
pub(crate) fn object_value(members: Vec<(String, serde_json::Value)>) -> (r: serde_json::Value)
    requires
        distinct_keys(members@),
    ensures
        held(r) == Json::Object(object_of(members@)),
{
    serde_json::Value::Object(members.into_iter().collect())
}

/// `serde_json::to_string` of a value: it does not fail, the text depends on what
/// the value holds alone, and it is one line. An object is written so that
/// `loglens_core::parsers::parse_log_line`, which hands such a text to
/// `serde_json::from_str`, reads it back; left unsaid is what it reads of numbers
/// with a fraction or an exponent, and of values that are too deep to be read.
#[verifier::external_body]
pub(crate) fn to_text(v: &serde_json::Value) -> (r: Option<String>)
    ensures
        r is Some,
        r->0@ == json_text(held(*v)),
        !r->0@.contains('\n'),
        reads_back(held(*v)) ==> parsed_line(r->0@) == Some(held(*v)),
{
    serde_json::to_string(v).ok()
}

/// An optional value that holds the same.
pub(crate) fn copy_opt(v: &Option<serde_json::Value>) -> (r: Option<serde_json::Value>)
    ensures
        held_opt(r) == held_opt(*v),
{
    match v {
        Some(v) => Some(copy_value(v)),
        None => None,
    }
}

} // verus!

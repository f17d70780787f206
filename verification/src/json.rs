//! The JSON values that session logs are made of, as the library reads them.
//!
//! Parsing is done by `serde_json`; its `Value` is carried through the
//! library as an opaque value whose content is described by `json_content`.
use vstd::prelude::*;
use serde_json::Value;
use serde::de::Unexpected;

verus! {

#[verifier::external_type_specification]
#[verifier::external_body]
pub struct ExValue(serde_json::Value);

/// A JSON number as `serde_json` stores it: a non-negative integer that fits
/// `u64`, a negative integer that fits `i64`, or anything else: a float,
/// held here by its bits (`f64::to_bits`).
pub enum NumV {
    PosInt(u64),
    NegInt(i64),
    Float(u64),
}

/// The content of a JSON value. Object members are listed in the order in
/// which `serde_json` iterates them.
pub enum JsonV {
    Null,
    Bool(bool),
    Num(NumV),
    Str(Seq<char>),
    Arr(Seq<JsonV>),
    Obj(Seq<(Seq<char>, JsonV)>),
}

/// What a `serde_json::Value` holds.
pub uninterp spec fn json_content(v: Value) -> JsonV;

/// What `serde_json::from_str::<Value>` gives for a text: the parsed value's
/// content, or the error's message.
pub uninterp spec fn json_text_parse(text: Seq<char>) -> Result<JsonV, Seq<char>>;

/// One level of a JSON value, with its children still as `Value`s.
pub enum JsonNode {
    Null,
    Bool(bool),
    PosInt(u64),
    NegInt(i64),
    Float(u64),
    Str(String),
    Arr(Vec<Value>),
    Obj(Vec<(String, Value)>),
}

/// `node` is the top level of the JSON content `j`.
pub open spec fn node_models(node: JsonNode, j: JsonV) -> bool {
    match node {
        JsonNode::Null => j is Null,
        JsonNode::Bool(b) => j == JsonV::Bool(b),
        JsonNode::PosInt(u) => j == JsonV::Num(NumV::PosInt(u)),
        JsonNode::NegInt(i) => j == JsonV::Num(NumV::NegInt(i)),
        JsonNode::Float(b) => j == JsonV::Num(NumV::Float(b)),
        JsonNode::Str(s) => j == JsonV::Str(s@),
        JsonNode::Arr(xs) => match j {
            JsonV::Arr(ys) => xs@.len() == ys.len() && forall|i: int|
                0 <= i < ys.len() ==> #[trigger] json_content(xs@[i]) == ys[i],
            _ => false,
        },
        JsonNode::Obj(es) => match j {
            JsonV::Obj(fs) => es@.len() == fs.len() && forall|i: int|
                0 <= i < fs.len() ==> (#[trigger] es@[i]).0@ == fs[i].0 && json_content(es@[i].1)
                    == fs[i].1,
            _ => false,
        },
    }
}

/// Parses a JSON text into a `Value`.
///
/// Trusted: calls `serde_json::from_str::<Value>`. The contract names the
/// outcome (`json_text_parse`), which depends on the text alone; the error
/// is kept as the error's `Display` text.
#[verifier::external_body]
pub(crate) fn parse_json(text: &str) -> (r: Result<Value, String>)
    ensures
        match r {
            Ok(v) => json_text_parse(text@) == Ok::<JsonV, Seq<char>>(json_content(v)),
            Err(m) => json_text_parse(text@) == Err::<JsonV, Seq<char>>(m@),
        },
{
    serde_json::from_str::<Value>(text).map_err(|e| e.to_string())
}

/// The top level of a JSON value.
///
/// Trusted: matches on `serde_json::Value`'s variants (for numbers, on which
/// of `as_u64`, `as_i64` and `as_f64` succeeds first, which tells
/// `serde_json`'s three number representations apart; `as_f64` succeeds for
/// every number) and copies the children out; object members come in the
/// map's iteration order.
#[verifier::external_body]
pub(crate) fn unfold(v: &Value) -> (n: JsonNode)
    ensures
        node_models(n, json_content(*v)),
{
    match v {
        Value::Null => JsonNode::Null,
        Value::Bool(b) => JsonNode::Bool(*b),
        Value::Number(x) => match (x.as_u64(), x.as_i64(), x.as_f64()) {
            (Some(u), _, _) => JsonNode::PosInt(u),
            (_, Some(i), _) => JsonNode::NegInt(i),
            (_, _, f) => JsonNode::Float(f.unwrap_or_default().to_bits()),
        },
        Value::String(s) => JsonNode::Str(s.clone()),
        Value::Array(xs) => JsonNode::Arr(xs.clone()),
        Value::Object(m) => JsonNode::Obj(m.clone().into_iter().collect()),
    }
}

/// `serde_json`'s message for a value of the wrong type, when `expected`
/// was expected (`Error::invalid_type`).
pub uninterp spec fn type_error_text(j: JsonV, expected: Seq<char>) -> Seq<char>;

/// `serde_json`'s message for a value of the right type but out of range,
/// when `expected` was expected (`Error::invalid_value`).
pub uninterp spec fn value_error_text(j: JsonV, expected: Seq<char>) -> Seq<char>;

/// `serde_json`'s message for a value of the wrong type.
///
/// Trusted: picks `serde::de::Unexpected` for the value as `serde_json`'s
/// value deserializer does (`Unit` for null, `Bool`, `Unsigned`, `Signed` or
/// `Float` for numbers, `Str`, `Seq`, `Map`) and calls
/// `serde_json::Error::invalid_type` with it, then `to_string`. The text is
/// named, and depends on the value and the expectation alone.
#[verifier::external_body]
pub(crate) fn type_error_of(v: &Value, expected: &str) -> (r: String)
    ensures
        r@ == type_error_text(json_content(*v), expected@),
{
    let u = match v {
        Value::Null => Unexpected::Unit,
        Value::Bool(b) => Unexpected::Bool(*b),
        Value::Number(x) => match (x.as_u64(), x.as_i64(), x.as_f64()) {
            (Some(u), _, _) => Unexpected::Unsigned(u),
            (_, Some(i), _) => Unexpected::Signed(i),
            (_, _, f) => Unexpected::Float(f.unwrap_or_default()),
        },
        Value::String(s) => Unexpected::Str(s),
        Value::Array(_) => Unexpected::Seq,
        Value::Object(_) => Unexpected::Map,
    };
    <serde_json::Error as serde::de::Error>::invalid_type(u, &expected).to_string()
}

/// `serde_json`'s message for a value out of range.
///
/// Trusted: picks `serde::de::Unexpected` for the value as `type_error_of`
/// does and calls `serde_json::Error::invalid_value` with it, then
/// `to_string`. The text is named, and depends on the value and the
/// expectation alone.
#[verifier::external_body]
pub(crate) fn value_error_of(v: &Value, expected: &str) -> (r: String)
    ensures
        r@ == value_error_text(json_content(*v), expected@),
{
    let u = match v {
        Value::Null => Unexpected::Unit,
        Value::Bool(b) => Unexpected::Bool(*b),
        Value::Number(x) => match (x.as_u64(), x.as_i64(), x.as_f64()) {
            (Some(u), _, _) => Unexpected::Unsigned(u),
            (_, Some(i), _) => Unexpected::Signed(i),
            (_, _, f) => Unexpected::Float(f.unwrap_or_default()),
        },
        Value::String(s) => Unexpected::Str(s),
        Value::Array(_) => Unexpected::Seq,
        Value::Object(_) => Unexpected::Map,
    };
    <serde_json::Error as serde::de::Error>::invalid_value(u, &expected).to_string()
}

/// A copy of a JSON value.
///
/// Trusted: `Value`'s derived `Clone` is a deep copy, so the copy holds the same content.
pub assume_specification[ <serde_json::Value as Clone>::clone ](v: &Value) -> (r: Value)
    ensures
        json_content(r) == json_content(*v),
;

/// The member of an object named `key` (the first one, in iteration order).
pub open spec fn obj_get(fs: Seq<(Seq<char>, JsonV)>, key: Seq<char>) -> Option<JsonV>
    decreases fs.len(),
{
    if fs.len() == 0 {
        None
    } else if fs[0].0 == key {
        Some(fs[0].1)
    } else {
        obj_get(fs.drop_first(), key)
    }
}

/// `value.get(key)`: the member named `key` when `j` is an object.
pub open spec fn json_get(j: JsonV, key: Seq<char>) -> Option<JsonV> {
    match j {
        JsonV::Obj(fs) => obj_get(fs, key),
        _ => None,
    }
}

/// `value.get(key).and_then(|v| v.as_str())`.
pub open spec fn json_get_str(j: JsonV, key: Seq<char>) -> Option<Seq<char>> {
    match json_get(j, key) {
        Some(JsonV::Str(s)) => Some(s),
        _ => None,
    }
}

pub proof fn lemma_obj_get_index(fs: Seq<(Seq<char>, JsonV)>, key: Seq<char>, i: int)
    requires
        0 <= i < fs.len(),
        fs[i].0 == key,
        forall|k: int| 0 <= k < i ==> fs[k].0 != key,
    ensures
        obj_get(fs, key) == Some(fs[i].1),
    decreases i,
{
    if i > 0 {
        lemma_obj_get_index(fs.drop_first(), key, i - 1);
    }
}

pub proof fn lemma_obj_get_none(fs: Seq<(Seq<char>, JsonV)>, key: Seq<char>)
    requires
        forall|k: int| 0 <= k < fs.len() ==> fs[k].0 != key,
    ensures
        obj_get(fs, key) is None,
    decreases fs.len(),
{
    if fs.len() > 0 {
        lemma_obj_get_none(fs.drop_first(), key);
    }
}

/// The index of the first member named `key`, if any.
pub fn find_member(es: &Vec<(String, Value)>, key: &str) -> (r: Option<usize>)
    ensures
        match r {
            Some(i) => i < es@.len() && es@[i as int].0@ == key@ && forall|k: int|
                0 <= k < i ==> (#[trigger] es@[k]).0@ != key@,
            None => forall|k: int| 0 <= k < es@.len() ==> (#[trigger] es@[k]).0@ != key@,
        },
{
    let mut i: usize = 0;
    while i < es.len()
        invariant
            i <= es@.len(),
            forall|k: int| 0 <= k < i ==> (#[trigger] es@[k]).0@ != key@,
        decreases es.len() - i,
    {
        if crate::text::str_eq(es[i].0.as_str(), key) {
            return Some(i);
        }
        i = i + 1;
    }
    None
}

/// `value.get(key).and_then(|v| v.as_str())`, as an owned string.
pub fn get_str_member(v: &Value, key: &str) -> (r: Option<String>)
    ensures
        match r {
            Some(s) => json_get_str(json_content(*v), key@) == Some(s@),
            None => json_get_str(json_content(*v), key@) is None,
        },
{
    let node = unfold(v);
    match node {
        JsonNode::Obj(es) => {
            let ghost fs = json_content(*v)->Obj_0;
            match find_member(&es, key) {
                Some(i) => {
                    proof {
                        assert forall|k: int| 0 <= k < i implies fs[k].0 != key@ by {
                            assert(es@[k].0@ == fs[k].0);
                        }
                        assert(es@[i as int].0@ == fs[i as int].0);
                        lemma_obj_get_index(fs, key@, i as int);
                    }
                    let member = unfold(&es[i].1);
                    match member {
                        JsonNode::Str(s) => Some(s),
                        _ => None,
                    }
                },
                None => {
                    proof {
                        assert forall|k: int| 0 <= k < fs.len() implies fs[k].0 != key@ by {
                            assert(es@[k].0@ == fs[k].0);
                        }
                        lemma_obj_get_none(fs, key@);
                    }
                    None
                },
            }
        },
        _ => None,
    }
}

} // verus!

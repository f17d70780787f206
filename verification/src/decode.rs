//! Reading the record shapes of session logs out of JSON values.
//!
//! A shape is a list of named fields. Reading one follows the rules of the
//! record formats: an object is read member by member (in iteration order),
//! the first member whose value has the wrong type is the error; then the
//! first required field that is absent (in declaration order) is the error.
//! Optional fields accept `null` as absence. Shapes that are not flattened
//! may also be written as an array holding the fields in order. Flattened
//! shapes keep the members that name no field, in order.
use vstd::prelude::*;
use serde_json::Value;
use crate::json::{
    json_content, JsonV, NumV, obj_get, JsonNode, unfold, type_error_text, value_error_text,
    type_error_of, value_error_of,
};
use crate::text::{owned, push_str, decimal, decimal_text};

verus! {

/// The record shapes found in session logs.
#[derive(Clone, Copy)]
pub enum Shape {
    /// A conversation line of a session log.
    Conversation,
    /// A summary line of a session log.
    Summary,
    /// The `message` of a conversation line.
    Message,
    /// One block of a message's content.
    Block,
    /// Token usage of a message.
    Usage,
    /// A log line as read for usage accounting.
    LogEntry,
    /// The `message` of a log line, for usage accounting.
    LogMessage,
    /// The `usage` of a log line's message, for usage accounting.
    LogUsage,
}

/// The type of one field.
#[derive(Clone, Copy)]
pub enum Kind {
    /// A string.
    Str,
    /// A boolean.
    Bool,
    /// A non-negative integer that fits `u64`.
    U64,
    /// Any number (kept as the JSON value).
    Number,
    /// Any JSON value.
    Any,
    /// A nested record.
    Nested(Shape),
    /// Message content: a string, or an array of content blocks.
    Content,
}

#[derive(Clone, Copy)]
pub struct Field {
    pub name: &'static str,
    pub kind: Kind,
    pub required: bool,
}

pub open spec fn fd(name: &'static str, kind: Kind, required: bool) -> Field {
    Field { name, kind, required }
}

/// The fields of each shape, in declaration order.
pub open spec fn shape_fields(s: Shape) -> Seq<Field> {
    match s {
        Shape::Conversation => seq![
            fd("cwd", Kind::Str, false),
            fd("version", Kind::Str, true),
            fd("isSidechain", Kind::Bool, true),
            fd("type", Kind::Str, true),
            fd("parentUuid", Kind::Str, false),
            fd("sessionId", Kind::Str, true),
            fd("uuid", Kind::Str, true),
            fd("timestamp", Kind::Str, true),
            fd("userType", Kind::Str, true),
            fd("message", Kind::Nested(Shape::Message), true),
            fd("requestId", Kind::Str, false),
            fd("isCompactSummary", Kind::Bool, false),
            fd("isApiErrorMessage", Kind::Bool, false),
            fd("isMeta", Kind::Bool, false),
            fd("toolUseResult", Kind::Any, false),
            fd("leafUuid", Kind::Str, false),
        ],
        Shape::Summary => seq![
            fd("type", Kind::Str, true),
            fd("summary", Kind::Str, true),
            fd("leafUuid", Kind::Str, true),
        ],
        Shape::Message => seq![
            fd("role", Kind::Str, true),
            fd("content", Kind::Content, true),
            fd("id", Kind::Str, false),
            fd("model", Kind::Str, false),
            fd("type", Kind::Str, false),
            fd("stop_reason", Kind::Any, false),
            fd("stop_sequence", Kind::Any, false),
            fd("usage", Kind::Nested(Shape::Usage), false),
        ],
        Shape::Block => seq![
            fd("type", Kind::Str, true),
            fd("text", Kind::Str, false),
            fd("id", Kind::Str, false),
            fd("name", Kind::Str, false),
            fd("tool_use_id", Kind::Str, false),
            fd("content", Kind::Str, false),
            fd("is_error", Kind::Bool, false),
            fd("thinking", Kind::Str, false),
            fd("signature", Kind::Str, false),
            fd("input", Kind::Any, false),
        ],
        Shape::Usage => seq![
            fd("input_tokens", Kind::U64, false),
            fd("output_tokens", Kind::U64, false),
            fd("cache_creation_input_tokens", Kind::U64, false),
            fd("cache_read_input_tokens", Kind::U64, false),
            fd("service_tier", Kind::Str, false),
            fd("server_tool_use", Kind::Any, false),
        ],
        Shape::LogEntry => seq![
            fd("timestamp", Kind::Str, true),
            fd("message", Kind::Nested(Shape::LogMessage), false),
            fd("sessionId", Kind::Str, false),
            fd("requestId", Kind::Str, false),
            fd("costUSD", Kind::Number, false),
        ],
        Shape::LogMessage => seq![
            fd("id", Kind::Str, false),
            fd("model", Kind::Str, false),
            fd("usage", Kind::Nested(Shape::LogUsage), false),
        ],
        Shape::LogUsage => seq![
            fd("input_tokens", Kind::U64, false),
            fd("output_tokens", Kind::U64, false),
            fd("cache_creation_input_tokens", Kind::U64, false),
            fd("cache_read_input_tokens", Kind::U64, false),
        ],
    }
}

pub fn fields_of(s: Shape) -> (r: Vec<Field>)
    ensures
        r@ == shape_fields(s),
{
    let r = match s {
        Shape::Conversation => vec![
            Field { name: "cwd", kind: Kind::Str, required: false },
            Field { name: "version", kind: Kind::Str, required: true },
            Field { name: "isSidechain", kind: Kind::Bool, required: true },
            Field { name: "type", kind: Kind::Str, required: true },
            Field { name: "parentUuid", kind: Kind::Str, required: false },
            Field { name: "sessionId", kind: Kind::Str, required: true },
            Field { name: "uuid", kind: Kind::Str, required: true },
            Field { name: "timestamp", kind: Kind::Str, required: true },
            Field { name: "userType", kind: Kind::Str, required: true },
            Field { name: "message", kind: Kind::Nested(Shape::Message), required: true },
            Field { name: "requestId", kind: Kind::Str, required: false },
            Field { name: "isCompactSummary", kind: Kind::Bool, required: false },
            Field { name: "isApiErrorMessage", kind: Kind::Bool, required: false },
            Field { name: "isMeta", kind: Kind::Bool, required: false },
            Field { name: "toolUseResult", kind: Kind::Any, required: false },
            Field { name: "leafUuid", kind: Kind::Str, required: false },
        ],
        Shape::Summary => vec![
            Field { name: "type", kind: Kind::Str, required: true },
            Field { name: "summary", kind: Kind::Str, required: true },
            Field { name: "leafUuid", kind: Kind::Str, required: true },
        ],
        Shape::Message => vec![
            Field { name: "role", kind: Kind::Str, required: true },
            Field { name: "content", kind: Kind::Content, required: true },
            Field { name: "id", kind: Kind::Str, required: false },
            Field { name: "model", kind: Kind::Str, required: false },
            Field { name: "type", kind: Kind::Str, required: false },
            Field { name: "stop_reason", kind: Kind::Any, required: false },
            Field { name: "stop_sequence", kind: Kind::Any, required: false },
            Field { name: "usage", kind: Kind::Nested(Shape::Usage), required: false },
        ],
        Shape::Block => vec![
            Field { name: "type", kind: Kind::Str, required: true },
            Field { name: "text", kind: Kind::Str, required: false },
            Field { name: "id", kind: Kind::Str, required: false },
            Field { name: "name", kind: Kind::Str, required: false },
            Field { name: "tool_use_id", kind: Kind::Str, required: false },
            Field { name: "content", kind: Kind::Str, required: false },
            Field { name: "is_error", kind: Kind::Bool, required: false },
            Field { name: "thinking", kind: Kind::Str, required: false },
            Field { name: "signature", kind: Kind::Str, required: false },
            Field { name: "input", kind: Kind::Any, required: false },
        ],
        Shape::Usage => vec![
            Field { name: "input_tokens", kind: Kind::U64, required: false },
            Field { name: "output_tokens", kind: Kind::U64, required: false },
            Field { name: "cache_creation_input_tokens", kind: Kind::U64, required: false },
            Field { name: "cache_read_input_tokens", kind: Kind::U64, required: false },
            Field { name: "service_tier", kind: Kind::Str, required: false },
            Field { name: "server_tool_use", kind: Kind::Any, required: false },
        ],
        Shape::LogEntry => vec![
            Field { name: "timestamp", kind: Kind::Str, required: true },
            Field { name: "message", kind: Kind::Nested(Shape::LogMessage), required: false },
            Field { name: "sessionId", kind: Kind::Str, required: false },
            Field { name: "requestId", kind: Kind::Str, required: false },
            Field { name: "costUSD", kind: Kind::Number, required: false },
        ],
        Shape::LogMessage => vec![
            Field { name: "id", kind: Kind::Str, required: false },
            Field { name: "model", kind: Kind::Str, required: false },
            Field { name: "usage", kind: Kind::Nested(Shape::LogUsage), required: false },
        ],
        Shape::LogUsage => vec![
            Field { name: "input_tokens", kind: Kind::U64, required: false },
            Field { name: "output_tokens", kind: Kind::U64, required: false },
            Field { name: "cache_creation_input_tokens", kind: Kind::U64, required: false },
            Field { name: "cache_read_input_tokens", kind: Kind::U64, required: false },
        ],
    };
    assert(r@ =~= shape_fields(s));
    r
}

/// Shapes whose unknown members are kept rather than ignored.
pub open spec fn is_flattened(s: Shape) -> bool {
    s is Conversation || s is Summary
}

pub fn shape_is_flattened(s: Shape) -> (b: bool)
    ensures
        b == is_flattened(s),
{
    match s {
        Shape::Conversation | Shape::Summary => true,
        _ => false,
    }
}

pub open spec fn shape_name(s: Shape) -> Seq<char> {
    match s {
        Shape::Conversation => "struct ConversationEntry"@,
        Shape::Summary => "struct SummaryEntry"@,
        Shape::Message => "struct MessageData"@,
        Shape::Block => "struct ContentBlock"@,
        Shape::Usage => "struct UsageData"@,
        Shape::LogEntry => "struct JsonlEntry"@,
        Shape::LogMessage => "struct MessageData"@,
        Shape::LogUsage => "struct UsageData"@,
    }
}

pub fn shape_name_exec(s: Shape) -> (r: &'static str)
    ensures
        r@ == shape_name(s),
{
    match s {
        Shape::Conversation => "struct ConversationEntry",
        Shape::Summary => "struct SummaryEntry",
        Shape::Message => "struct MessageData",
        Shape::Block => "struct ContentBlock",
        Shape::Usage => "struct UsageData",
        Shape::LogEntry => "struct JsonlEntry",
        Shape::LogMessage => "struct MessageData",
        Shape::LogUsage => "struct UsageData",
    }
}

/// A field's value once read.
pub enum DecV {
    Absent,
    Str(Seq<char>),
    Bool(bool),
    U64(u64),
    Json(JsonV),
    Fields(Seq<DecV>),
    Text(Seq<char>),
    Blocks(Seq<Seq<DecV>>),
}

/// A record once read: its fields in declaration order, and for flattened
/// shapes the members that name no field.
pub struct RecordV {
    pub fields: Seq<DecV>,
    pub extra: Seq<(Seq<char>, JsonV)>,
}

/// A field's value once read (executable form).
pub enum Dec {
    Absent,
    Str(String),
    Bool(bool),
    U64(u64),
    Json(Value),
    Fields(Vec<Dec>),
    Text(String),
    Blocks(Vec<Vec<Dec>>),
}

pub open spec fn dec_models(d: Dec, v: DecV) -> bool
    decreases d,
{
    match d {
        Dec::Absent => v is Absent,
        Dec::Str(s) => v == DecV::Str(s@),
        Dec::Bool(b) => v == DecV::Bool(b),
        Dec::U64(u) => v == DecV::U64(u),
        Dec::Json(x) => v == DecV::Json(json_content(x)),
        Dec::Text(s) => v == DecV::Text(s@),
        Dec::Fields(ds) => match v {
            DecV::Fields(vs) => ds@.len() == vs.len() && forall|i: int|
                0 <= i < vs.len() ==> dec_models(#[trigger] ds@[i], vs[i]),
            _ => false,
        },
        Dec::Blocks(bs) => match v {
            DecV::Blocks(vss) => bs@.len() == vss.len() && forall|i: int|
                0 <= i < vss.len() ==> decs_models(#[trigger] bs@[i], vss[i]),
            _ => false,
        },
    }
}

pub open spec fn decs_models(ds: Vec<Dec>, vs: Seq<DecV>) -> bool
    decreases ds,
{
    ds@.len() == vs.len() && forall|i: int| 0 <= i < vs.len() ==> dec_models(#[trigger] ds@[i], vs[i])
}

pub open spec fn res_models(r: Result<Dec, String>, s: Result<DecV, Seq<char>>) -> bool {
    match (r, s) {
        (Ok(d), Ok(v)) => dec_models(d, v),
        (Err(m), Err(n)) => m@ == n,
        _ => false,
    }
}

/// The message for a value of the wrong type.
pub open spec fn type_error(j: JsonV, expected: Seq<char>) -> Seq<char> {
    type_error_text(j, expected)
}

/// The message for a value of the right type that is out of range.
pub open spec fn value_error(j: JsonV, expected: Seq<char>) -> Seq<char> {
    value_error_text(j, expected)
}

/// `serde`'s message for a missing field.
pub open spec fn missing_error(name: Seq<char>) -> Seq<char> {
    "missing field `"@ + name + "`"@
}

/// `serde`'s message for a sequence of the wrong length.
pub open spec fn length_error(len: nat, expected: Seq<char>) -> Seq<char> {
    "invalid length "@ + decimal(len) + ", expected "@ + expected
}

/// The message of a missing field.
///
/// Trusted: calls `serde::de::Error::missing_field` on `serde_json::Error`,
/// then `to_string`; serde writes "missing field `{field}`".
#[verifier::external_body]
pub(crate) fn missing_field_message(field: &'static str) -> (r: String)
    ensures
        r@ == missing_error(field@),
{
    <serde_json::Error as serde::de::Error>::missing_field(field).to_string()
}

/// An ASCII decimal digit.
pub open spec fn ascii_digit(c: char) -> bool {
    '0' <= c && c <= '9'
}

/// The message of a sequence of the wrong length.
///
/// Trusted: calls `serde::de::Error::invalid_length` on `serde_json::Error`,
/// then `to_string`; serde writes "invalid length {len}, expected {exp}",
/// the length in decimal. `serde_json` cuts a trailing
/// " at line {digits} column {digits}" off a message and prints the numbers
/// back in its own way; such a suffix ends in a digit, so an expectation
/// that does not end in one keeps the message whole.
#[verifier::external_body]
pub(crate) fn invalid_length_message(len: usize, expected: &str) -> (r: String)
    requires
        expected@.len() > 0,
        !ascii_digit(expected@.last()),
    ensures
        r@ == length_error(len as nat, expected@),
{
    <serde_json::Error as serde::de::Error>::invalid_length(len, &expected).to_string()
}

/// `serde`'s message for an array with too few elements for a record.
pub open spec fn short_error(s: Shape, len: nat) -> Seq<char> {
    length_error(len, shape_name(s) + " with "@ + decimal(shape_fields(s).len()) + " elements"@)
}

/// `serde_json`'s message for an array with elements left over.
pub open spec fn long_error(len: nat) -> Seq<char> {
    length_error(len, "fewer elements in array"@)
}

pub open spec fn blocks_error(e: Seq<char>) -> Seq<char> {
    "Failed to parse content blocks: "@ + e
}

/// Reading a value of a kind without nested records.
pub open spec fn decode_leaf(kind: Kind, j: JsonV) -> Result<DecV, Seq<char>> {
    match kind {
        Kind::Str => match j {
            JsonV::Str(s) => Ok(DecV::Str(s)),
            _ => Err(type_error(j, "a string"@)),
        },
        Kind::Bool => match j {
            JsonV::Bool(b) => Ok(DecV::Bool(b)),
            _ => Err(type_error(j, "a boolean"@)),
        },
        Kind::U64 => match j {
            JsonV::Num(NumV::PosInt(u)) => Ok(DecV::U64(u)),
            JsonV::Num(NumV::NegInt(_)) => Err(value_error(j, "u64"@)),
            _ => Err(type_error(j, "u64"@)),
        },
        Kind::Number => match j {
            JsonV::Num(_) => Ok(DecV::Json(j)),
            _ => Err(type_error(j, "f64"@)),
        },
        Kind::Any => Ok(DecV::Json(j)),
        _ => Err("unexpected nesting"@),
    }
}

/// Reading a value of a kind; nested records may go `level` deep.
pub open spec fn decode_kind(level: nat, kind: Kind, j: JsonV) -> Result<DecV, Seq<char>>
    decreases level, 0nat, 0nat,
{
    match kind {
        Kind::Nested(s) => if level == 0 {
            Err("unexpected nesting"@)
        } else {
            match decode_record((level - 1) as nat, s, j) {
                Ok(r) => Ok(DecV::Fields(r.fields)),
                Err(e) => Err(e),
            }
        },
        Kind::Content => match j {
            JsonV::Str(s) => Ok(DecV::Text(s)),
            JsonV::Arr(xs) => if level == 0 {
                Err("unexpected nesting"@)
            } else {
                match decode_blocks((level - 1) as nat, xs, 0) {
                    Ok(bs) => Ok(DecV::Blocks(bs)),
                    Err(e) => Err(blocks_error(e)),
                }
            },
            _ => Err("Content must be string or array"@),
        },
        _ => decode_leaf(kind, j),
    }
}

/// Reading a field's present value: `null` is absence for optional fields.
pub open spec fn decode_present(level: nat, f: Field, j: JsonV) -> Result<DecV, Seq<char>>
    decreases level, 1nat, 0nat,
{
    if !f.required && j is Null {
        Ok(DecV::Absent)
    } else {
        decode_kind(level, f.kind, j)
    }
}

/// A field's value, given what the record holds for it.
pub open spec fn field_value(level: nat, f: Field, o: Option<JsonV>) -> DecV
    decreases level, 1nat, 1nat,
{
    match o {
        None => DecV::Absent,
        Some(j) => match decode_present(level, f, j) {
            Ok(d) => d,
            Err(_) => DecV::Absent,
        },
    }
}

/// The position of the first field named `name` among `fs[i..]`, if any.
pub open spec fn field_index_from(fs: Seq<Field>, name: Seq<char>, i: int) -> Option<int>
    decreases fs.len() - i,
{
    if i < 0 || i >= fs.len() {
        None
    } else if fs[i].name@ == name {
        Some(i)
    } else {
        field_index_from(fs, name, i + 1)
    }
}

/// The position of the field named `name`, if any.
pub open spec fn field_index(fs: Seq<Field>, name: Seq<char>) -> Option<int> {
    field_index_from(fs, name, 0)
}

/// The first error among the members `es[i..]` that name a field.
pub open spec fn scan_members(level: nat, s: Shape, es: Seq<(Seq<char>, JsonV)>, i: int) -> Option<
    Seq<char>,
>
    decreases level, 2nat, es.len() - i,
{
    if i < 0 || i >= es.len() {
        None
    } else {
        match field_index(shape_fields(s), es[i].0) {
            Some(k) => match decode_present(level, shape_fields(s)[k], es[i].1) {
                Err(e) => Some(e),
                Ok(_) => scan_members(level, s, es, i + 1),
            },
            None => scan_members(level, s, es, i + 1),
        }
    }
}

/// The first error among the elements `xs[i..]` read as the fields in order.
pub open spec fn scan_elements(level: nat, s: Shape, xs: Seq<JsonV>, i: int) -> Option<Seq<char>>
    decreases level, 2nat, xs.len() - i,
{
    if i < 0 || i >= xs.len() || i >= shape_fields(s).len() {
        None
    } else {
        match decode_present(level, shape_fields(s)[i], xs[i]) {
            Err(e) => Some(e),
            Ok(_) => scan_elements(level, s, xs, i + 1),
        }
    }
}

/// The name of the first required field that the object lacks.
pub open spec fn first_missing(fs: Seq<Field>, es: Seq<(Seq<char>, JsonV)>, i: int) -> Option<
    Seq<char>,
>
    decreases fs.len() - i,
{
    if i < 0 || i >= fs.len() {
        None
    } else if fs[i].required && obj_get(es, fs[i].name@) is None {
        Some(fs[i].name@)
    } else {
        first_missing(fs, es, i + 1)
    }
}

/// The members `es[i..]` that name no field, in order.
pub open spec fn unknown_members(fs: Seq<Field>, es: Seq<(Seq<char>, JsonV)>, i: int) -> Seq<
    (Seq<char>, JsonV),
>
    decreases es.len() - i,
{
    if i < 0 || i >= es.len() {
        Seq::empty()
    } else if field_index(fs, es[i].0) is None {
        seq![es[i]] + unknown_members(fs, es, i + 1)
    } else {
        unknown_members(fs, es, i + 1)
    }
}

/// The fields of an object, read in declaration order from `i` on.
pub open spec fn member_values(level: nat, s: Shape, es: Seq<(Seq<char>, JsonV)>, i: int) -> Seq<
    DecV,
>
    decreases level, 2nat, shape_fields(s).len() - i,
{
    if i < 0 || i >= shape_fields(s).len() {
        Seq::empty()
    } else {
        seq![field_value(level, shape_fields(s)[i], obj_get(es, shape_fields(s)[i].name@))]
            + member_values(level, s, es, i + 1)
    }
}

/// The fields of an array, read positionally from `i` on.
pub open spec fn element_values(level: nat, s: Shape, xs: Seq<JsonV>, i: int) -> Seq<DecV>
    decreases level, 2nat, shape_fields(s).len() - i,
{
    if i < 0 || i >= shape_fields(s).len() || i >= xs.len() {
        Seq::empty()
    } else {
        seq![field_value(level, shape_fields(s)[i], Some(xs[i]))] + element_values(
            level,
            s,
            xs,
            i + 1,
        )
    }
}

/// Reading a record of shape `s`.
pub open spec fn decode_record(level: nat, s: Shape, j: JsonV) -> Result<RecordV, Seq<char>>
    decreases level, 3nat, 0nat,
{
    match j {
        JsonV::Obj(es) => match scan_members(level, s, es, 0) {
            Some(e) => Err(e),
            None => match first_missing(shape_fields(s), es, 0) {
                Some(name) => Err(missing_error(name)),
                None => Ok(
                    RecordV {
                        fields: member_values(level, s, es, 0),
                        extra: if is_flattened(s) {
                            unknown_members(shape_fields(s), es, 0)
                        } else {
                            Seq::empty()
                        },
                    },
                ),
            },
        },
        JsonV::Arr(xs) => if is_flattened(s) {
            Err(type_error(j, shape_name(s)))
        } else {
            match scan_elements(level, s, xs, 0) {
                Some(e) => Err(e),
                None => if xs.len() < shape_fields(s).len() {
                    Err(short_error(s, xs.len()))
                } else if xs.len() > shape_fields(s).len() {
                    Err(long_error(xs.len()))
                } else {
                    Ok(RecordV { fields: element_values(level, s, xs, 0), extra: Seq::empty() })
                },
            }
        },
        _ => Err(type_error(j, shape_name(s))),
    }
}

/// Reading the content blocks `xs[i..]`.
pub open spec fn decode_blocks(level: nat, xs: Seq<JsonV>, i: int) -> Result<
    Seq<Seq<DecV>>,
    Seq<char>,
>
    decreases level, 4nat, xs.len() - i,
{
    if i < 0 || i >= xs.len() {
        Ok(Seq::empty())
    } else {
        match decode_record(level, Shape::Block, xs[i]) {
            Err(e) => Err(e),
            Ok(r) => match decode_blocks(level, xs, i + 1) {
                Ok(rest) => Ok(seq![r.fields] + rest),
                Err(e) => Err(e),
            },
        }
    }
}


/// A record once read (executable form).
pub struct Record {
    pub fields: Vec<Dec>,
    pub extra: Vec<(String, Value)>,
}

pub open spec fn members_models(ex: Vec<(String, Value)>, sv: Seq<(Seq<char>, JsonV)>) -> bool {
    ex@.len() == sv.len() && forall|i: int|
        0 <= i < sv.len() ==> (#[trigger] ex@[i]).0@ == sv[i].0 && json_content(ex@[i].1)
            == sv[i].1
}

pub open spec fn record_models(r: Record, v: RecordV) -> bool {
    decs_models(r.fields, v.fields) && members_models(r.extra, v.extra)
}

fn decode_leaf_exec(kind: Kind, v: &Value) -> (r: Result<Dec, String>)
    ensures
        res_models(r, decode_leaf(kind, json_content(*v))),
{
    let n = unfold(v);
    match kind {
        Kind::Str => match n {
            JsonNode::Str(s) => Ok(Dec::Str(s)),
            _ => Err(type_error_of(v, "a string")),
        },
        Kind::Bool => match n {
            JsonNode::Bool(b) => Ok(Dec::Bool(b)),
            _ => Err(type_error_of(v, "a boolean")),
        },
        Kind::U64 => match n {
            JsonNode::PosInt(u) => Ok(Dec::U64(u)),
            JsonNode::NegInt(_) => {
                Err(value_error_of(v, "u64"))
            },
            _ => Err(type_error_of(v, "u64")),
        },
        Kind::Number => match n {
            JsonNode::PosInt(_) | JsonNode::NegInt(_) | JsonNode::Float(_) => Ok(
                Dec::Json(v.clone()),
            ),
            _ => Err(type_error_of(v, "f64")),
        },
        Kind::Any => Ok(Dec::Json(v.clone())),
        _ => Err(owned("unexpected nesting")),
    }
}

/// Reads a value of the given kind.
pub fn decode_kind_exec(level: usize, kind: Kind, v: &Value) -> (r: Result<Dec, String>)
    ensures
        res_models(r, decode_kind(level as nat, kind, json_content(*v))),
    decreases level, 0nat,
{
    match kind {
        Kind::Nested(s) => {
            if level == 0 {
                Err(owned("unexpected nesting"))
            } else {
                match decode_record_exec(level - 1, s, v) {
                    Ok(rec) => Ok(Dec::Fields(rec.fields)),
                    Err(e) => Err(e),
                }
            }
        },
        Kind::Content => {
            let n = unfold(v);
            match n {
                JsonNode::Str(s) => Ok(Dec::Text(s)),
                JsonNode::Arr(xs) => {
                    if level == 0 {
                        Err(owned("unexpected nesting"))
                    } else {
                        let ghost ys = json_content(*v)->Arr_0;
                        match decode_blocks_exec(level - 1, &xs, Ghost(ys)) {
                            Ok(bs) => Ok(Dec::Blocks(bs)),
                            Err(e) => {
                                let mut m = owned("Failed to parse content blocks: ");
                                push_str(&mut m, e.as_str());
                                Err(m)
                            },
                        }
                    }
                },
                _ => Err(owned("Content must be string or array")),
            }
        },
        _ => decode_leaf_exec(kind, v),
    }
}

fn decode_present_exec(level: usize, f: Field, v: &Value) -> (r: Result<Dec, String>)
    ensures
        res_models(r, decode_present(level as nat, f, json_content(*v))),
    decreases level, 1nat,
{
    let n = unfold(v);
    if !f.required {
        if let JsonNode::Null = n {
            return Ok(Dec::Absent);
        }
    }
    decode_kind_exec(level, kind_of(f), v)
}

fn kind_of(f: Field) -> (k: Kind)
    ensures
        k == f.kind,
{
    f.kind
}

fn field_index_exec(fs: &Vec<Field>, name: &str) -> (r: Option<usize>)
    ensures
        match r {
            Some(i) => field_index(fs@, name@) == Some(i as int) && i < fs@.len() && fs@[i as int].name@
                == name@,
            None => field_index(fs@, name@) is None,
        },
{
    let mut i: usize = 0;
    while i < fs.len()
        invariant
            i <= fs@.len(),
            field_index(fs@, name@) == field_index_from(fs@, name@, i as int),
        decreases fs.len() - i,
    {
        if crate::text::str_eq(fs[i].name, name) {
            return Some(i);
        }
        i = i + 1;
    }
    None
}

fn decode_blocks_exec(level: usize, xs: &Vec<Value>, Ghost(ys): Ghost<Seq<JsonV>>) -> (r: Result<
    Vec<Vec<Dec>>,
    String,
>)
    requires
        xs@.len() == ys.len(),
        forall|i: int| 0 <= i < ys.len() ==> #[trigger] json_content(xs@[i]) == ys[i],
    ensures
        match (r, decode_blocks(level as nat, ys, 0)) {
            (Ok(bs), Ok(vs)) => bs@.len() == vs.len() && forall|i: int|
                0 <= i < vs.len() ==> decs_models(#[trigger] bs@[i], vs[i]),
            (Err(m), Err(n)) => m@ == n,
            _ => false,
        },
    decreases level, 4nat,
{
    let mut bs: Vec<Vec<Dec>> = Vec::new();
    let ghost mut pre: Seq<Seq<DecV>> = Seq::empty();
    let mut i: usize = 0;
    while i < xs.len()
        invariant
            i <= xs@.len(),
            xs@.len() == ys.len(),
            forall|k: int| 0 <= k < ys.len() ==> #[trigger] json_content(xs@[k]) == ys[k],
            bs@.len() == pre.len(),
            forall|k: int| 0 <= k < pre.len() ==> decs_models(#[trigger] bs@[k], pre[k]),
            match decode_blocks(level as nat, ys, i as int) {
                Ok(rest) => decode_blocks(level as nat, ys, 0) == Ok::<Seq<Seq<DecV>>, Seq<char>>(
                    pre + rest,
                ),
                Err(e) => decode_blocks(level as nat, ys, 0) == Err::<Seq<Seq<DecV>>, Seq<char>>(
                    e,
                ),
            },
        decreases xs.len() - i,
    {
        assert(json_content(xs@[i as int]) == ys[i as int]);
        match decode_record_exec(level, Shape::Block, &xs[i]) {
            Err(e) => {
                return Err(e);
            },
            Ok(rec) => {
                let ghost rv = decode_record(level as nat, Shape::Block, ys[i as int])->Ok_0;
                proof {
                    match decode_blocks(level as nat, ys, i + 1) {
                        Ok(rest) => {
                            assert(pre + (seq![rv.fields] + rest) =~= pre.push(rv.fields) + rest);
                        },
                        Err(_) => {},
                    }
                    pre = pre.push(rv.fields);
                }
                bs.push(rec.fields);
            },
        }
        i = i + 1;
    }
    proof {
        assert(pre + Seq::<Seq<DecV>>::empty() =~= pre);
    }
    Ok(bs)
}

/// Reads a record of shape `s` from a JSON value.
pub fn decode_record_exec(level: usize, s: Shape, v: &Value) -> (r: Result<Record, String>)
    ensures
        match (r, decode_record(level as nat, s, json_content(*v))) {
            (Ok(rec), Ok(rv)) => record_models(rec, rv),
            (Err(m), Err(n)) => m@ == n,
            _ => false,
        },
    decreases level, 3nat,
{
    let fs = fields_of(s);
    let n = unfold(v);
    match &n {
        JsonNode::Obj(es) => {
            let ghost fsv = json_content(*v)->Obj_0;
            assert(forall|k: int|
                0 <= k < fsv.len() ==> (#[trigger] es@[k]).0@ == fsv[k].0 && json_content(
                    es@[k].1,
                ) == fsv[k].1);
            // members with a wrong value, in iteration order
            let mut i: usize = 0;
            while i < es.len()
                invariant
                    i <= es@.len(),
                    es@.len() == fsv.len(),
                    fs@ == shape_fields(s),
                    json_content(*v) == JsonV::Obj(fsv),
                    forall|k: int|
                        0 <= k < fsv.len() ==> (#[trigger] es@[k]).0@ == fsv[k].0 && json_content(
                            es@[k].1,
                        ) == fsv[k].1,
                    scan_members(level as nat, s, fsv, 0) == scan_members(
                        level as nat,
                        s,
                        fsv,
                        i as int,
                    ),
                decreases es.len() - i,
            {
                match field_index_exec(&fs, es[i].0.as_str()) {
                    Some(k) => {
                        let r = decode_present_exec(level, fs[k], &es[i].1);
                        if let Err(e) = r {
                            assert(scan_members(level as nat, s, fsv, i as int) == Some(e@));
                            return Err(e);
                        }
                    },
                    None => {},
                }
                i = i + 1;
            }
            assert(scan_members(level as nat, s, fsv, es@.len() as int) is None);
            // required fields that are absent, in declaration order
            let mut k: usize = 0;
            while k < fs.len()
                invariant
                    k <= fs@.len(),
                    fs@ == shape_fields(s),
                    json_content(*v) == JsonV::Obj(fsv),
                    es@.len() == fsv.len(),
                    forall|q: int|
                        0 <= q < fsv.len() ==> (#[trigger] es@[q]).0@ == fsv[q].0 && json_content(
                            es@[q].1,
                        ) == fsv[q].1,
                    first_missing(fs@, fsv, 0) == first_missing(fs@, fsv, k as int),
                    scan_members(level as nat, s, fsv, 0) is None,
                decreases fs.len() - k,
            {
                let found = crate::json::find_member(es, fs[k].name);
                proof {
                    match found {
                        Some(q) => {
                            assert forall|p: int| 0 <= p < q implies fsv[p].0 != fs@[k as int].name@ by {
                                assert(es@[p].0@ == fsv[p].0);
                            }
                            assert(es@[q as int].0@ == fsv[q as int].0);
                            crate::json::lemma_obj_get_index(fsv, fs@[k as int].name@, q as int);
                        },
                        None => {
                            assert forall|p: int| 0 <= p < fsv.len() implies fsv[p].0 != fs@[k as int].name@ by {
                                assert(es@[p].0@ == fsv[p].0);
                            }
                            crate::json::lemma_obj_get_none(fsv, fs@[k as int].name@);
                        },
                    }
                }
                if fs[k].required && found.is_none() {
                    return Err(missing_field_message(fs[k].name));
                }
                k = k + 1;
            }
            // the fields, in declaration order
            assert(first_missing(fs@, fsv, fs@.len() as int) is None);
            let mut out: Vec<Dec> = Vec::new();
            let ghost mut pre: Seq<DecV> = Seq::empty();
            let mut k: usize = 0;
            while k < fs.len()
                invariant
                    k <= fs@.len(),
                    fs@ == shape_fields(s),
                    json_content(*v) == JsonV::Obj(fsv),
                    es@.len() == fsv.len(),
                    forall|q: int|
                        0 <= q < fsv.len() ==> (#[trigger] es@[q]).0@ == fsv[q].0 && json_content(
                            es@[q].1,
                        ) == fsv[q].1,
                    out@.len() == pre.len(),
                    scan_members(level as nat, s, fsv, 0) is None,
                    first_missing(fs@, fsv, 0) is None,
                    forall|q: int| 0 <= q < pre.len() ==> dec_models(#[trigger] out@[q], pre[q]),
                    member_values(level as nat, s, fsv, 0) == pre + member_values(
                        level as nat,
                        s,
                        fsv,
                        k as int,
                    ),
                decreases fs.len() - k,
            {
                let found = crate::json::find_member(es, fs[k].name);
                let ghost o = obj_get(fsv, fs@[k as int].name@);
                proof {
                    match found {
                        Some(q) => {
                            assert forall|p: int| 0 <= p < q implies fsv[p].0 != fs@[k as int].name@ by {
                                assert(es@[p].0@ == fsv[p].0);
                            }
                            assert(es@[q as int].0@ == fsv[q as int].0);
                            crate::json::lemma_obj_get_index(fsv, fs@[k as int].name@, q as int);
                        },
                        None => {
                            assert forall|p: int| 0 <= p < fsv.len() implies fsv[p].0 != fs@[k as int].name@ by {
                                assert(es@[p].0@ == fsv[p].0);
                            }
                            crate::json::lemma_obj_get_none(fsv, fs@[k as int].name@);
                        },
                    }
                }
                let d = match found {
                    None => Dec::Absent,
                    Some(q) => match decode_present_exec(level, fs[k], &es[q].1) {
                        Ok(d) => d,
                        Err(_) => Dec::Absent,
                    },
                };
                proof {
                    let dv = field_value(level as nat, shape_fields(s)[k as int], o);
                    assert(pre + (seq![dv] + member_values(level as nat, s, fsv, k + 1)) =~= pre.push(
                        dv,
                    ) + member_values(level as nat, s, fsv, k + 1));
                    pre = pre.push(dv);
                }
                out.push(d);
                k = k + 1;
            }
            proof {
                assert(pre + Seq::<DecV>::empty() =~= pre);
                assert(pre =~= member_values(level as nat, s, fsv, 0));
            }
            // members that name no field, kept for flattened shapes
            let mut extra: Vec<(String, Value)> = Vec::new();
            if shape_is_flattened(s) {
                let ghost mut epre: Seq<(Seq<char>, JsonV)> = Seq::empty();
                let mut i: usize = 0;
                while i < es.len()
                    invariant
                        i <= es@.len(),
                        fs@ == shape_fields(s),
                    json_content(*v) == JsonV::Obj(fsv),
                        es@.len() == fsv.len(),
                        forall|q: int|
                            0 <= q < fsv.len() ==> (#[trigger] es@[q]).0@ == fsv[q].0
                                && json_content(es@[q].1) == fsv[q].1,
                        members_models(extra, epre),
                        unknown_members(fs@, fsv, 0) == epre + unknown_members(fs@, fsv, i as int),
                    decreases es.len() - i,
                {
                    let idx = field_index_exec(&fs, es[i].0.as_str());
                    if idx.is_none() {
                        let key = es[i].0.clone();
                        let val = (&es[i].1).clone();
                        proof {
                            let e = fsv[i as int];
                            assert(epre + (seq![e] + unknown_members(fs@, fsv, i + 1)) =~= epre.push(
                                e,
                            ) + unknown_members(fs@, fsv, i + 1));
                            epre = epre.push(e);
                        }
                        extra.push((key, val));
                    }
                    i = i + 1;
                }
                proof {
                    assert(epre + Seq::<(Seq<char>, JsonV)>::empty() =~= epre);
                }
            }
            Ok(Record { fields: out, extra })
        },
        JsonNode::Arr(xs) => {
            if shape_is_flattened(s) {
                return Err(type_error_of(v, shape_name_exec(s)));
            }
            let ghost ys = json_content(*v)->Arr_0;
            let mut i: usize = 0;
            while i < xs.len() && i < fs.len()
                invariant
                    i <= xs@.len(),
                    xs@.len() == ys.len(),
                    fs@ == shape_fields(s),
                    json_content(*v) == JsonV::Arr(ys),
                    !is_flattened(s),
                    forall|q: int| 0 <= q < ys.len() ==> #[trigger] json_content(xs@[q]) == ys[q],
                    scan_elements(level as nat, s, ys, 0) == scan_elements(
                        level as nat,
                        s,
                        ys,
                        i as int,
                    ),
                decreases xs.len() - i,
            {
                assert(json_content(xs@[i as int]) == ys[i as int]);
                let r = decode_present_exec(level, fs[i], &xs[i]);
                if let Err(e) = r {
                    assert(scan_elements(level as nat, s, ys, i as int) == Some(e@));
                    return Err(e);
                }
                i = i + 1;
            }
            assert(scan_elements(level as nat, s, ys, i as int) is None);
            if xs.len() < fs.len() {
                let mut exp = owned(shape_name_exec(s));
                push_str(&mut exp, " with ");
                push_str(&mut exp, decimal_text(fs.len()).as_str());
                push_str(&mut exp, " elements");
                proof {
                    reveal_strlit(" elements");
                    assert(exp@.last() == 's');
                }
                return Err(invalid_length_message(xs.len(), exp.as_str()));
            }
            if xs.len() > fs.len() {
                proof {
                    reveal_strlit("fewer elements in array");
                }
                return Err(invalid_length_message(xs.len(), "fewer elements in array"));
            }
            let mut out: Vec<Dec> = Vec::new();
            let ghost mut pre: Seq<DecV> = Seq::empty();
            let mut k: usize = 0;
            while k < fs.len()
                invariant
                    k <= fs@.len(),
                    xs@.len() == fs@.len(),
                    xs@.len() == ys.len(),
                    fs@ == shape_fields(s),
                    json_content(*v) == JsonV::Arr(ys),
                    !is_flattened(s),
                    forall|q: int| 0 <= q < ys.len() ==> #[trigger] json_content(xs@[q]) == ys[q],
                    out@.len() == pre.len(),
                    forall|q: int| 0 <= q < pre.len() ==> dec_models(#[trigger] out@[q], pre[q]),
                    element_values(level as nat, s, ys, 0) == pre + element_values(
                        level as nat,
                        s,
                        ys,
                        k as int,
                    ),
                decreases fs.len() - k,
            {
                assert(json_content(xs@[k as int]) == ys[k as int]);
                let d = match decode_present_exec(level, fs[k], &xs[k]) {
                    Ok(d) => d,
                    Err(_) => Dec::Absent,
                };
                proof {
                    let dv = field_value(level as nat, shape_fields(s)[k as int], Some(ys[k as int]));
                    assert(pre + (seq![dv] + element_values(level as nat, s, ys, k + 1)) =~= pre.push(
                        dv,
                    ) + element_values(level as nat, s, ys, k + 1));
                    pre = pre.push(dv);
                }
                out.push(d);
                k = k + 1;
            }
            proof {
                assert(pre + Seq::<DecV>::empty() =~= pre);
            }
            Ok(Record { fields: out, extra: Vec::new() })
        },
        _ => Err(type_error_of(v, shape_name_exec(s))),
    }
}


/// The `i`-th field read, or absence past the end.
pub open spec fn at(vs: Seq<DecV>, i: int) -> DecV {
    if 0 <= i < vs.len() {
        vs[i]
    } else {
        DecV::Absent
    }
}

pub open spec fn d_str(d: DecV) -> Seq<char> {
    match d {
        DecV::Str(s) => s,
        _ => Seq::empty(),
    }
}

pub open spec fn d_opt_str(d: DecV) -> Option<Seq<char>> {
    match d {
        DecV::Str(s) => Some(s),
        _ => None,
    }
}

pub open spec fn d_bool(d: DecV) -> bool {
    match d {
        DecV::Bool(b) => b,
        _ => false,
    }
}

pub open spec fn d_opt_bool(d: DecV) -> Option<bool> {
    match d {
        DecV::Bool(b) => Some(b),
        _ => None,
    }
}

pub open spec fn d_opt_u64(d: DecV) -> Option<u64> {
    match d {
        DecV::U64(u) => Some(u),
        _ => None,
    }
}

pub open spec fn d_opt_json(d: DecV) -> Option<JsonV> {
    match d {
        DecV::Json(j) => Some(j),
        _ => None,
    }
}

/// The fields of a nested record (none when the field holds no record).
pub open spec fn d_fields(d: DecV) -> Seq<DecV> {
    match d {
        DecV::Fields(vs) => vs,
        _ => Seq::empty(),
    }
}

pub open spec fn opt_str_is(o: Option<String>, s: Option<Seq<char>>) -> bool {
    match (o, s) {
        (Some(a), Some(b)) => a@ == b,
        (None, None) => true,
        _ => false,
    }
}

pub open spec fn opt_json_is(o: Option<Value>, s: Option<JsonV>) -> bool {
    match (o, s) {
        (Some(a), Some(b)) => json_content(a) == b,
        (None, None) => true,
        _ => false,
    }
}

pub fn take_str(ds: &Vec<Dec>, i: usize, Ghost(vs): Ghost<Seq<DecV>>) -> (r: String)
    requires
        decs_models(*ds, vs),
    ensures
        r@ == d_str(at(vs, i as int)),
{
    if i < ds.len() {
        if let Dec::Str(s) = &ds[i] {
            return s.clone();
        }
    }
    String::new()
}

pub fn take_opt_str(ds: &Vec<Dec>, i: usize, Ghost(vs): Ghost<Seq<DecV>>) -> (r: Option<String>)
    requires
        decs_models(*ds, vs),
    ensures
        opt_str_is(r, d_opt_str(at(vs, i as int))),
{
    if i < ds.len() {
        if let Dec::Str(s) = &ds[i] {
            return Some(s.clone());
        }
    }
    None
}

pub fn take_bool(ds: &Vec<Dec>, i: usize, Ghost(vs): Ghost<Seq<DecV>>) -> (r: bool)
    requires
        decs_models(*ds, vs),
    ensures
        r == d_bool(at(vs, i as int)),
{
    if i < ds.len() {
        if let Dec::Bool(b) = &ds[i] {
            return *b;
        }
    }
    false
}

pub fn take_opt_bool(ds: &Vec<Dec>, i: usize, Ghost(vs): Ghost<Seq<DecV>>) -> (r: Option<bool>)
    requires
        decs_models(*ds, vs),
    ensures
        r == d_opt_bool(at(vs, i as int)),
{
    if i < ds.len() {
        if let Dec::Bool(b) = &ds[i] {
            return Some(*b);
        }
    }
    None
}

pub fn take_opt_u64(ds: &Vec<Dec>, i: usize, Ghost(vs): Ghost<Seq<DecV>>) -> (r: Option<u64>)
    requires
        decs_models(*ds, vs),
    ensures
        r == d_opt_u64(at(vs, i as int)),
{
    if i < ds.len() {
        if let Dec::U64(u) = &ds[i] {
            return Some(*u);
        }
    }
    None
}

pub fn take_opt_json(ds: &Vec<Dec>, i: usize, Ghost(vs): Ghost<Seq<DecV>>) -> (r: Option<Value>)
    requires
        decs_models(*ds, vs),
    ensures
        opt_json_is(r, d_opt_json(at(vs, i as int))),
{
    if i < ds.len() {
        if let Dec::Json(x) = &ds[i] {
            return Some((x).clone());
        }
    }
    None
}

/// The fields of the record nested at `i`, if that field holds one.
pub fn nested_at(ds: &Vec<Dec>, i: usize, Ghost(vs): Ghost<Seq<DecV>>) -> (r: Option<&Vec<Dec>>)
    requires
        decs_models(*ds, vs),
    ensures
        match r {
            Some(ms) => at(vs, i as int) is Fields && decs_models(*ms, d_fields(at(vs, i as int))),
            None => !(at(vs, i as int) is Fields),
        },
{
    if i < ds.len() {
        if let Dec::Fields(ms) = &ds[i] {
            return Some(ms);
        }
        assert(dec_models(ds@[i as int], vs[i as int]));
    }
    None
}

} // verus!

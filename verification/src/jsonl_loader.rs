//! A defensive loader for the lines of session logs (JSON Lines).
//!
//! Each line is classified by the members its object has (summary,
//! conversation, or an unknown shape named after its sorted member names),
//! read into the matching record type, and counted.
use vstd::prelude::*;
use serde_json::Value;
use crate::json::{json_content, json_text_parse, JsonV, JsonNode, obj_get, json_get, unfold, parse_json};
use crate::decode::{
    Shape, DecV, Dec, RecordV, Record, decode_record, decode_record_exec, record_models, decs_models,
    members_models, at, d_str, d_opt_str, d_bool, d_opt_bool, d_opt_u64, d_opt_json, d_fields,
    opt_str_is, opt_json_is, take_str, take_opt_str, take_bool, take_opt_bool, take_opt_u64,
    take_opt_json, nested_at,
};
use crate::keyed::StrMap;
use crate::text::{all_ws, is_blank, owned, push_str, sort_seq, join, views, sort_strings, join_strings};

verus! {

/// How deep records nest in a session log line.
pub const RECORD_DEPTH: usize = 2;

/// JSONL schema versions.
#[derive(Debug, Clone, PartialEq)]
pub enum JsonlSchemaVersion {
    /// Conversation entries with message, sessionId, timestamp
    ConversationV1,
    /// Summary entries with leafUuid, summary, type
    SummaryV1,
    /// Unknown schema type
    Unknown(String),
}

/// Result of parsing a JSONL line.
#[derive(Debug)]
pub enum JsonlEntry {
    Conversation(ConversationEntry),
    Summary(SummaryEntry),
    Unknown(Value),
    /// (error, raw line)
    Invalid(String, String),
}

/// A conversation line.
#[derive(Debug, Clone)]
pub struct ConversationEntry {
    pub cwd: Option<String>,
    pub version: String,
    pub is_sidechain: bool,
    pub entry_type: String,
    pub parent_uuid: Option<String>,
    pub session_id: String,
    pub uuid: String,
    pub timestamp: String,
    pub user_type: String,
    pub message: MessageData,
    pub request_id: Option<String>,
    pub is_compact_summary: Option<bool>,
    pub is_api_error_message: Option<bool>,
    pub is_meta: Option<bool>,
    pub tool_use_result: Option<Value>,
    pub leaf_uuid: Option<String>,
    /// Members that name no field, in the order they were read.
    pub extra: Vec<(String, Value)>,
}

/// The message of a conversation line.
#[derive(Debug, Clone)]
pub struct MessageData {
    pub role: String,
    pub content: MessageContent,
    pub id: Option<String>,
    pub model: Option<String>,
    pub message_type: Option<String>,
    pub stop_reason: Option<Value>,
    pub stop_sequence: Option<Value>,
    pub usage: Option<UsageData>,
}

/// Message content: a string or a list of content blocks.
#[derive(Debug, Clone)]
pub enum MessageContent {
    Text(String),
    Blocks(Vec<ContentBlock>),
}

/// A content block of a structured message.
#[derive(Debug, Clone)]
pub struct ContentBlock {
    pub block_type: String,
    pub text: Option<String>,
    pub id: Option<String>,
    pub name: Option<String>,
    pub tool_use_id: Option<String>,
    pub content: Option<String>,
    pub is_error: Option<bool>,
    pub thinking: Option<String>,
    pub signature: Option<String>,
    pub input: Option<Value>,
}

/// Token usage of a message.
#[derive(Debug, Clone)]
pub struct UsageData {
    pub input_tokens: Option<u64>,
    pub output_tokens: Option<u64>,
    pub cache_creation_input_tokens: Option<u64>,
    pub cache_read_input_tokens: Option<u64>,
    pub service_tier: Option<String>,
    pub server_tool_use: Option<Value>,
}

/// A summary line.
#[derive(Debug, Clone)]
pub struct SummaryEntry {
    pub entry_type: String,
    pub summary: String,
    pub leaf_uuid: String,
    /// Members that name no field, in the order they were read.
    pub extra: Vec<(String, Value)>,
}

impl UsageData {
    /// The usage holds the fields `vs` (in the order of `Shape::Usage`).
    pub open spec fn models(self, vs: Seq<DecV>) -> bool {
        &&& self.input_tokens == d_opt_u64(at(vs, 0))
        &&& self.output_tokens == d_opt_u64(at(vs, 1))
        &&& self.cache_creation_input_tokens == d_opt_u64(at(vs, 2))
        &&& self.cache_read_input_tokens == d_opt_u64(at(vs, 3))
        &&& opt_str_is(self.service_tier, d_opt_str(at(vs, 4)))
        &&& opt_json_is(self.server_tool_use, d_opt_json(at(vs, 5)))
    }

    pub fn from_fields(ds: &Vec<Dec>, Ghost(vs): Ghost<Seq<DecV>>) -> (r: Self)
        requires
            decs_models(*ds, vs),
        ensures
            r.models(vs),
    {
        UsageData {
            input_tokens: take_opt_u64(ds, 0, Ghost(vs)),
            output_tokens: take_opt_u64(ds, 1, Ghost(vs)),
            cache_creation_input_tokens: take_opt_u64(ds, 2, Ghost(vs)),
            cache_read_input_tokens: take_opt_u64(ds, 3, Ghost(vs)),
            service_tier: take_opt_str(ds, 4, Ghost(vs)),
            server_tool_use: take_opt_json(ds, 5, Ghost(vs)),
        }
    }
}

impl ContentBlock {
    /// The block holds the fields `vs` (in the order of `Shape::Block`).
    pub open spec fn models(self, vs: Seq<DecV>) -> bool {
        &&& self.block_type@ == d_str(at(vs, 0))
        &&& opt_str_is(self.text, d_opt_str(at(vs, 1)))
        &&& opt_str_is(self.id, d_opt_str(at(vs, 2)))
        &&& opt_str_is(self.name, d_opt_str(at(vs, 3)))
        &&& opt_str_is(self.tool_use_id, d_opt_str(at(vs, 4)))
        &&& opt_str_is(self.content, d_opt_str(at(vs, 5)))
        &&& self.is_error == d_opt_bool(at(vs, 6))
        &&& opt_str_is(self.thinking, d_opt_str(at(vs, 7)))
        &&& opt_str_is(self.signature, d_opt_str(at(vs, 8)))
        &&& opt_json_is(self.input, d_opt_json(at(vs, 9)))
    }

    pub fn from_fields(ds: &Vec<Dec>, Ghost(vs): Ghost<Seq<DecV>>) -> (r: Self)
        requires
            decs_models(*ds, vs),
        ensures
            r.models(vs),
    {
        ContentBlock {
            block_type: take_str(ds, 0, Ghost(vs)),
            text: take_opt_str(ds, 1, Ghost(vs)),
            id: take_opt_str(ds, 2, Ghost(vs)),
            name: take_opt_str(ds, 3, Ghost(vs)),
            tool_use_id: take_opt_str(ds, 4, Ghost(vs)),
            content: take_opt_str(ds, 5, Ghost(vs)),
            is_error: take_opt_bool(ds, 6, Ghost(vs)),
            thinking: take_opt_str(ds, 7, Ghost(vs)),
            signature: take_opt_str(ds, 8, Ghost(vs)),
            input: take_opt_json(ds, 9, Ghost(vs)),
        }
    }
}

impl MessageContent {
    /// The content is the field value `d` (text, or blocks; empty text otherwise).
    pub open spec fn models(self, d: DecV) -> bool {
        match d {
            DecV::Blocks(vss) => match self {
                MessageContent::Blocks(bs) => bs@.len() == vss.len() && forall|i: int|
                    0 <= i < vss.len() ==> (#[trigger] bs@[i]).models(vss[i]),
                _ => false,
            },
            DecV::Text(t) => match self {
                MessageContent::Text(s) => s@ == t,
                _ => false,
            },
            _ => match self {
                MessageContent::Text(s) => s@ == Seq::<char>::empty(),
                _ => false,
            },
        }
    }

    pub fn from_field(ds: &Vec<Dec>, i: usize, Ghost(vs): Ghost<Seq<DecV>>) -> (r: Self)
        requires
            decs_models(*ds, vs),
        ensures
            r.models(at(vs, i as int)),
    {
        if i < ds.len() {
            assert(crate::decode::dec_models(ds@[i as int], vs[i as int]));
            match &ds[i] {
                Dec::Text(s) => {
                    return MessageContent::Text(s.clone());
                },
                Dec::Blocks(bss) => {
                    let ghost vss = vs[i as int]->Blocks_0;
                    let mut out: Vec<ContentBlock> = Vec::new();
                    let mut k: usize = 0;
                    while k < bss.len()
                        invariant
                            k <= bss@.len(),
                            bss@.len() == vss.len(),
                            forall|q: int| 0 <= q < vss.len() ==> decs_models(#[trigger] bss@[q], vss[q]),
                            out@.len() == k,
                            forall|q: int| 0 <= q < k ==> (#[trigger] out@[q]).models(vss[q]),
                        decreases bss.len() - k,
                    {
                        let b = ContentBlock::from_fields(&bss[k], Ghost(vss[k as int]));
                        out.push(b);
                        k = k + 1;
                    }
                    return MessageContent::Blocks(out);
                },
                _ => {},
            }
        }
        MessageContent::Text(String::new())
    }
}

impl MessageData {
    /// The message holds the fields `vs` (in the order of `Shape::Message`).
    pub open spec fn models(self, vs: Seq<DecV>) -> bool {
        &&& self.role@ == d_str(at(vs, 0))
        &&& self.content.models(at(vs, 1))
        &&& opt_str_is(self.id, d_opt_str(at(vs, 2)))
        &&& opt_str_is(self.model, d_opt_str(at(vs, 3)))
        &&& opt_str_is(self.message_type, d_opt_str(at(vs, 4)))
        &&& opt_json_is(self.stop_reason, d_opt_json(at(vs, 5)))
        &&& opt_json_is(self.stop_sequence, d_opt_json(at(vs, 6)))
        &&& match at(vs, 7) {
            DecV::Fields(us) => self.usage is Some && self.usage->Some_0.models(us),
            _ => self.usage is None,
        }
    }

    pub fn from_fields(ds: &Vec<Dec>, Ghost(vs): Ghost<Seq<DecV>>) -> (r: Self)
        requires
            decs_models(*ds, vs),
        ensures
            r.models(vs),
    {
        let usage = match nested_at(ds, 7, Ghost(vs)) {
            Some(us) => Some(UsageData::from_fields(us, Ghost(d_fields(at(vs, 7))))),
            None => None,
        };
        MessageData {
            role: take_str(ds, 0, Ghost(vs)),
            content: MessageContent::from_field(ds, 1, Ghost(vs)),
            id: take_opt_str(ds, 2, Ghost(vs)),
            model: take_opt_str(ds, 3, Ghost(vs)),
            message_type: take_opt_str(ds, 4, Ghost(vs)),
            stop_reason: take_opt_json(ds, 5, Ghost(vs)),
            stop_sequence: take_opt_json(ds, 6, Ghost(vs)),
            usage,
        }
    }
}

impl ConversationEntry {
    /// The entry holds the record `r` (fields in the order of `Shape::Conversation`).
    pub open spec fn models(self, r: RecordV) -> bool {
        let vs = r.fields;
        &&& opt_str_is(self.cwd, d_opt_str(at(vs, 0)))
        &&& self.version@ == d_str(at(vs, 1))
        &&& self.is_sidechain == d_bool(at(vs, 2))
        &&& self.entry_type@ == d_str(at(vs, 3))
        &&& opt_str_is(self.parent_uuid, d_opt_str(at(vs, 4)))
        &&& self.session_id@ == d_str(at(vs, 5))
        &&& self.uuid@ == d_str(at(vs, 6))
        &&& self.timestamp@ == d_str(at(vs, 7))
        &&& self.user_type@ == d_str(at(vs, 8))
        &&& self.message.models(d_fields(at(vs, 9)))
        &&& opt_str_is(self.request_id, d_opt_str(at(vs, 10)))
        &&& self.is_compact_summary == d_opt_bool(at(vs, 11))
        &&& self.is_api_error_message == d_opt_bool(at(vs, 12))
        &&& self.is_meta == d_opt_bool(at(vs, 13))
        &&& opt_json_is(self.tool_use_result, d_opt_json(at(vs, 14)))
        &&& opt_str_is(self.leaf_uuid, d_opt_str(at(vs, 15)))
        &&& members_models(self.extra, r.extra)
    }

    pub fn from_record(rec: Record, Ghost(r): Ghost<RecordV>) -> (e: Self)
        requires
            record_models(rec, r),
        ensures
            e.models(r),
    {
        let ghost vs = r.fields;
        let ds = &rec.fields;
        let message = match nested_at(ds, 9, Ghost(vs)) {
            Some(ms) => MessageData::from_fields(ms, Ghost(d_fields(at(vs, 9)))),
            None => {
                let empty: Vec<Dec> = Vec::new();
                MessageData::from_fields(&empty, Ghost(Seq::empty()))
            },
        };
        ConversationEntry {
            cwd: take_opt_str(ds, 0, Ghost(vs)),
            version: take_str(ds, 1, Ghost(vs)),
            is_sidechain: take_bool(ds, 2, Ghost(vs)),
            entry_type: take_str(ds, 3, Ghost(vs)),
            parent_uuid: take_opt_str(ds, 4, Ghost(vs)),
            session_id: take_str(ds, 5, Ghost(vs)),
            uuid: take_str(ds, 6, Ghost(vs)),
            timestamp: take_str(ds, 7, Ghost(vs)),
            user_type: take_str(ds, 8, Ghost(vs)),
            message,
            request_id: take_opt_str(ds, 10, Ghost(vs)),
            is_compact_summary: take_opt_bool(ds, 11, Ghost(vs)),
            is_api_error_message: take_opt_bool(ds, 12, Ghost(vs)),
            is_meta: take_opt_bool(ds, 13, Ghost(vs)),
            tool_use_result: take_opt_json(ds, 14, Ghost(vs)),
            leaf_uuid: take_opt_str(ds, 15, Ghost(vs)),
            extra: rec.extra,
        }
    }
}

impl SummaryEntry {
    /// The entry holds the record `r` (fields in the order of `Shape::Summary`).
    pub open spec fn models(self, r: RecordV) -> bool {
        let vs = r.fields;
        &&& self.entry_type@ == d_str(at(vs, 0))
        &&& self.summary@ == d_str(at(vs, 1))
        &&& self.leaf_uuid@ == d_str(at(vs, 2))
        &&& members_models(self.extra, r.extra)
    }

    pub fn from_record(rec: Record, Ghost(r): Ghost<RecordV>) -> (e: Self)
        requires
            record_models(rec, r),
        ensures
            e.models(r),
    {
        let ghost vs = r.fields;
        let ds = &rec.fields;
        SummaryEntry {
            entry_type: take_str(ds, 0, Ghost(vs)),
            summary: take_str(ds, 1, Ghost(vs)),
            leaf_uuid: take_str(ds, 2, Ghost(vs)),
            extra: rec.extra,
        }
    }
}

/// Whether the JSON value has a member named `k`.
pub open spec fn has_member(j: JsonV, k: Seq<char>) -> bool {
    json_get(j, k) is Some
}

/// The names of an object's members, in order.
pub open spec fn member_names(fs: Seq<(Seq<char>, JsonV)>) -> Seq<Seq<char>> {
    fs.map_values(|e: (Seq<char>, JsonV)| e.0)
}

/// The schema type of a line's JSON value: `summary` for objects with
/// `leafUuid`, `summary` and `type`; else `conversation` for objects with
/// `message`, `sessionId` and `timestamp`; else `unknown_` followed by the
/// sorted member names joined by `_`; `invalid_not_object` for non-objects.
pub open spec fn schema_of(j: JsonV) -> Seq<char> {
    match j {
        JsonV::Obj(fs) => if has_member(j, "leafUuid"@) && has_member(j, "summary"@) && has_member(
            j,
            "type"@,
        ) {
            "summary"@
        } else if has_member(j, "message"@) && has_member(j, "sessionId"@) && has_member(
            j,
            "timestamp"@,
        ) {
            "conversation"@
        } else {
            "unknown_"@ + join(sort_seq(member_names(fs)), "_"@)
        },
        _ => "invalid_not_object"@,
    }
}

fn has_member_exec(es: &Vec<(String, Value)>, key: &str, Ghost(fs): Ghost<Seq<(Seq<char>, JsonV)>>) -> (r: bool)
    requires
        es@.len() == fs.len(),
        forall|k: int| 0 <= k < fs.len() ==> (#[trigger] es@[k]).0@ == fs[k].0,
    ensures
        r == (obj_get(fs, key@) is Some),
{
    match crate::json::find_member(es, key) {
        Some(q) => {
            proof {
                assert forall|p: int| 0 <= p < q implies fs[p].0 != key@ by {
                    assert(es@[p].0@ == fs[p].0);
                }
                assert(es@[q as int].0@ == fs[q as int].0);
                crate::json::lemma_obj_get_index(fs, key@, q as int);
            }
            true
        },
        None => {
            proof {
                assert forall|p: int| 0 <= p < fs.len() implies fs[p].0 != key@ by {
                    assert(es@[p].0@ == fs[p].0);
                }
                crate::json::lemma_obj_get_none(fs, key@);
            }
            false
        },
    }
}

/// The schema type of a JSON value (see `schema_of`).
pub fn detect_schema(value: &Value) -> (r: String)
    ensures
        r@ == schema_of(json_content(*value)),
{
    let n = unfold(value);
    match &n {
        JsonNode::Obj(es) => {
            let ghost fs = json_content(*value)->Obj_0;
            assert(forall|k: int| 0 <= k < fs.len() ==> (#[trigger] es@[k]).0@ == fs[k].0);
            if has_member_exec(es, "leafUuid", Ghost(fs)) && has_member_exec(es, "summary", Ghost(fs))
                && has_member_exec(es, "type", Ghost(fs)) {
                return owned("summary");
            }
            if has_member_exec(es, "message", Ghost(fs)) && has_member_exec(es, "sessionId", Ghost(fs))
                && has_member_exec(es, "timestamp", Ghost(fs)) {
                return owned("conversation");
            }
            let mut keys: Vec<String> = Vec::new();
            let mut i: usize = 0;
            while i < es.len()
                invariant
                    i <= es@.len(),
                    es@.len() == fs.len(),
                    forall|k: int| 0 <= k < fs.len() ==> (#[trigger] es@[k]).0@ == fs[k].0,
                    views(keys@) == member_names(fs).take(i as int),
                decreases es.len() - i,
            {
                assert(es@[i as int].0@ == fs[i as int].0);
                let key = es[i].0.clone();
                let ghost before = keys@;
                keys.push(key);
                assert(views(keys@) =~= views(before).push(key@));
                assert(member_names(fs).take(i + 1) =~= member_names(fs).take(i as int).push(fs[i as int].0));
                assert(views(keys@) =~= member_names(fs).take(i + 1));
                i = i + 1;
            }
            assert(member_names(fs).take(es@.len() as int) =~= member_names(fs));
            let sorted = sort_strings(&keys);
            let joined = join_strings(&sorted, "_");
            let mut r = owned("unknown_");
            push_str(&mut r, joined.as_str());
            r
        },
        _ => owned("invalid_not_object"),
    }
}

/// What `parse_line` gives for a line, and how it changes the error count:
/// the entry's kind with its message, and whether it counts as an error.
pub open spec fn invalid_is(r: JsonlEntry, msg: Seq<char>, line: Seq<char>) -> bool {
    match r {
        JsonlEntry::Invalid(m, raw) => m@ == msg && raw@ == line,
        _ => false,
    }
}

/// The schema type a line is counted under: none for a blank line or one
/// that is not JSON.
pub open spec fn counted_schema(line: Seq<char>) -> Option<Seq<char>> {
    if all_ws(line) {
        None
    } else {
        match json_text_parse(line) {
            Ok(j) => Some(schema_of(j)),
            Err(_) => None,
        }
    }
}

/// Whether a line counts as an error: a non-blank line that is not JSON, a
/// conversation or summary line that cannot be read into its record, or,
/// in strict mode, a line of another schema type.
pub open spec fn line_fails(strict: bool, line: Seq<char>) -> bool {
    &&& !all_ws(line)
    &&& match json_text_parse(line) {
        Err(_) => true,
        Ok(j) => {
            let t = schema_of(j);
            if t == "conversation"@ {
                decode_record(RECORD_DEPTH as nat, Shape::Conversation, j) is Err
            } else if t == "summary"@ {
                decode_record(RECORD_DEPTH as nat, Shape::Summary, j) is Err
            } else {
                strict
            }
        },
    }
}

/// The schema counts after one more line of type `t`.
pub open spec fn count_one(stats: Map<Seq<char>, usize>, t: Seq<char>) -> Map<Seq<char>, usize> {
    stats.insert(
        t,
        (if stats.contains_key(t) {
            stats[t] + 1
        } else {
            1
        }) as usize,
    )
}

/// What parsing `line` does to a loader, in terms of its counts: the line's
/// schema type (if any) is counted once, the error count grows by one
/// exactly when the line fails, and the line is given as invalid exactly
/// when it is blank or fails.
pub open spec fn line_step(before: JsonlLoader, line: Seq<char>, r: JsonlEntry, after: JsonlLoader) -> bool {
    &&& after.is_strict() == before.is_strict()
    &&& after.stats() == match counted_schema(line) {
        Some(t) => count_one(before.stats(), t),
        None => before.stats(),
    }
    &&& after.errors() == before.errors() + if line_fails(before.is_strict(), line) {
        1int
    } else {
        0int
    }
    &&& (r is Invalid) == (all_ws(line) || line_fails(before.is_strict(), line))
}

/// Defensive JSONL loader.
pub struct JsonlLoader {
    /// How many lines of each schema type were seen
    schema_stats: StrMap<usize>,
    /// How many lines failed
    error_count: usize,
    /// Strict mode: unknown schemas are errors
    strict: bool,
}

impl JsonlLoader {
    /// Lines seen per schema type.
    pub closed spec fn stats(&self) -> Map<Seq<char>, usize> {
        self.schema_stats.view_map()
    }

    pub closed spec fn errors(&self) -> usize {
        self.error_count
    }

    pub closed spec fn is_strict(&self) -> bool {
        self.strict
    }

    pub closed spec fn wf(&self) -> bool {
        self.schema_stats.wf()
    }

    /// There is room to count one more line without overflow.
    pub open spec fn has_room_spec(&self) -> bool {
        &&& self.errors() < usize::MAX
        &&& forall|k: Seq<char>| #[trigger] self.stats().contains_key(k) ==> self.stats()[k] < usize::MAX
    }

    pub fn new(strict: bool) -> (r: Self)
        ensures
            r.wf(),
            r.stats() == Map::<Seq<char>, usize>::empty(),
            r.errors() == 0,
            r.is_strict() == strict,
    {
        JsonlLoader { schema_stats: StrMap::new(), error_count: 0, strict }
    }

    /// Statistics about parsed schemas.
    pub fn get_stats(&self) -> (r: &StrMap<usize>)
        ensures
            r.view_map() == self.stats(),
            self.wf() ==> r.wf(),
    {
        &self.schema_stats
    }

    /// Number of lines that failed.
    pub fn get_error_count(&self) -> (r: usize)
        ensures
            r == self.errors(),
    {
        self.error_count
    }

    /// Whether one more line can be counted without overflow.
    pub fn has_room(&self) -> (r: bool)
        requires
            self.wf(),
        ensures
            r == self.has_room_spec(),
    {
        if self.error_count == usize::MAX {
            return false;
        }
        let mut i: usize = 0;
        let n = self.schema_stats.len();
        proof {
            crate::keyed::lemma_entries_map(self.schema_stats.entry_seq());
        }
        while i < n
            invariant
                n == self.schema_stats.entry_seq().len(),
                i <= n,
                self.schema_stats.wf(),
                forall|q: int| 0 <= q < i ==> (#[trigger] self.schema_stats.entry_seq()[q]).1 < usize::MAX,
            decreases n - i,
        {
            if self.schema_stats.entry(i).1 == usize::MAX {
                proof {
                    crate::keyed::lemma_entries_map(self.schema_stats.entry_seq());
                    let k = self.schema_stats.entry_seq()[i as int].0@;
                    assert(self.stats().contains_key(k));
                }
                return false;
            }
            i = i + 1;
        }
        proof {
            crate::keyed::lemma_entries_map(self.schema_stats.entry_seq());
            assert forall|k: Seq<char>| #[trigger] self.stats().contains_key(k) implies self.stats()[k]
                < usize::MAX by {
                let q = choose|q: int|
                    0 <= q < self.schema_stats.entry_seq().len() && self.schema_stats.entry_seq()[q].0@
                        == k;
                assert(self.schema_stats.entry_seq()[q].1 < usize::MAX);
            }
        }
        true
    }

    fn count_schema(&mut self, schema: &String)
        requires
            old(self).wf(),
            old(self).has_room_spec(),
        ensures
            final(self).wf(),
            final(self).stats() == old(self).stats().insert(
                schema@,
                (if old(self).stats().contains_key(schema@) {
                    old(self).stats()[schema@] + 1
                } else {
                    1
                }) as usize,
            ),
            final(self).errors() == old(self).errors(),
            final(self).is_strict() == old(self).is_strict(),
    {
        let current = match self.schema_stats.get(schema) {
            Some(c) => {
                assert(self.stats().contains_key(schema@));
                *c
            },
            None => 0,
        };
        self.schema_stats.insert(schema.clone(), current + 1);
    }

    /// Parses one line of a session log.
    ///
    /// A blank line is invalid ("Empty line") and counts nowhere. A line that
    /// is not JSON is invalid ("JSON parse error: ...") and counts as an error.
    /// Otherwise the line's schema type is counted; conversation and summary
    /// lines are read into their records (an unreadable one is invalid and an
    /// error); other lines are kept as they are, or, in strict mode, are
    /// invalid ("Unknown schema type: ...") and an error.
    pub fn parse_line(&mut self, line: &str) -> (r: JsonlEntry)
        requires
            old(self).wf(),
            old(self).has_room_spec(),
        ensures
            final(self).wf(),
            final(self).is_strict() == old(self).is_strict(),
            line_step(*old(self), line@, r, *final(self)),
            all_ws(line@) ==> invalid_is(r, "Empty line"@, line@) && final(self).stats() == old(self).stats() && final(self).errors() == old(self).errors(),
            !all_ws(line@) ==> match json_text_parse(line@) {
                Err(m) => invalid_is(r, "JSON parse error: "@ + m, line@) && final(self).stats()
                    == old(self).stats() && final(self).errors() == old(self).errors() + 1,
                Ok(j) => {
                    let t = schema_of(j);
                    &&& final(self).stats() == old(self).stats().insert(
                        t,
                        (if old(self).stats().contains_key(t) {
                            old(self).stats()[t] + 1
                        } else {
                            1
                        }) as usize,
                    )
                    &&& if t == "conversation"@ {
                        match decode_record(RECORD_DEPTH as nat, Shape::Conversation, j) {
                            Ok(rv) => (r matches JsonlEntry::Conversation(e) && e.models(rv))
                                && final(self).errors() == old(self).errors(),
                            Err(m) => invalid_is(
                                r,
                                "Failed to parse conversation entry: "@ + m,
                                line@,
                            ) && final(self).errors() == old(self).errors() + 1,
                        }
                    } else if t == "summary"@ {
                        match decode_record(RECORD_DEPTH as nat, Shape::Summary, j) {
                            Ok(rv) => (r matches JsonlEntry::Summary(e) && e.models(rv))
                                && final(self).errors() == old(self).errors(),
                            Err(m) => invalid_is(r, "Failed to parse summary entry: "@ + m, line@)
                                && final(self).errors() == old(self).errors() + 1,
                        }
                    } else if old(self).is_strict() {
                        invalid_is(r, "Unknown schema type: "@ + t, line@) && final(self).errors()
                            == old(self).errors() + 1
                    } else {
                        (r matches JsonlEntry::Unknown(v) && json_content(v) == j) && final(self).errors() == old(self).errors()
                    }
                },
            },
    {
        if is_blank(line) {
            return JsonlEntry::Invalid(owned("Empty line"), owned(line));
        }
        let value = match parse_json(line) {
            Ok(v) => v,
            Err(e) => {
                self.error_count = self.error_count + 1;
                let mut m = owned("JSON parse error: ");
                push_str(&mut m, e.as_str());
                return JsonlEntry::Invalid(m, owned(line));
            },
        };
        let schema_type = detect_schema(&value);
        self.count_schema(&schema_type);
        if crate::text::str_eq(schema_type.as_str(), "conversation") {
            match decode_record_exec(RECORD_DEPTH, Shape::Conversation, &value) {
                Ok(rec) => {
                    let ghost rv = decode_record(RECORD_DEPTH as nat, Shape::Conversation, json_content(value))->Ok_0;
                    JsonlEntry::Conversation(ConversationEntry::from_record(rec, Ghost(rv)))
                },
                Err(e) => {
                    self.error_count = self.error_count + 1;
                    let mut m = owned("Failed to parse conversation entry: ");
                    push_str(&mut m, e.as_str());
                    JsonlEntry::Invalid(m, owned(line))
                },
            }
        } else if crate::text::str_eq(schema_type.as_str(), "summary") {
            match decode_record_exec(RECORD_DEPTH, Shape::Summary, &value) {
                Ok(rec) => {
                    let ghost rv = decode_record(RECORD_DEPTH as nat, Shape::Summary, json_content(value))->Ok_0;
                    JsonlEntry::Summary(SummaryEntry::from_record(rec, Ghost(rv)))
                },
                Err(e) => {
                    self.error_count = self.error_count + 1;
                    let mut m = owned("Failed to parse summary entry: ");
                    push_str(&mut m, e.as_str());
                    JsonlEntry::Invalid(m, owned(line))
                },
            }
        } else if self.strict {
            self.error_count = self.error_count + 1;
            let mut m = owned("Unknown schema type: ");
            push_str(&mut m, schema_type.as_str());
            JsonlEntry::Invalid(m, owned(line))
        } else {
            JsonlEntry::Unknown(value)
        }
    }
}

} // verus!

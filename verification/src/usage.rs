//! Usage accounting: the usage entries of session logs, their cost basis,
//! deduplication and order, and the statistics drawn from them.
use vstd::prelude::*;
use std::collections::HashSet;
use serde_json::Value;
use crate::json::{json_content, json_text_parse, JsonV, json_get_str, parse_json, get_str_member};
use crate::decode::{
    Shape, DecV, Dec, decode_record, decode_record_exec, decs_models, at, d_str, d_opt_str, d_opt_u64,
    d_opt_json, d_fields, opt_str_is, take_str, take_opt_str, take_opt_u64, take_opt_json, nested_at,
};
use crate::text::{
    all_ws, is_blank, owned, push_str, contains, str_contains, ends_with, last_piece, last_piece_exec,
    lines_of, split_lines, views, to_chars, from_chars,
};

verus! {

/// What a set of strings holds.
pub uninterp spec fn seen_keys(s: HashSet<String>) -> Set<Seq<char>>;

/// An empty set of strings.
///
/// Trusted: calls `HashSet::new`, which std documents as creating an empty set.
#[verifier::external_body]
pub(crate) fn seen_new() -> (s: HashSet<String>)
    ensures
        seen_keys(s) == Set::<Seq<char>>::empty(),
{
    HashSet::new()
}

/// Adds a string to a set; true when it was not there yet.
///
/// Trusted: calls `HashSet::insert`, which std documents as adding the value
/// and returning whether it was absent; `String` equality is by content.
#[verifier::external_body]
pub(crate) fn seen_insert(s: &mut HashSet<String>, k: String) -> (fresh: bool)
    ensures
        seen_keys(*final(s)) == seen_keys(*old(s)).insert(k@),
        fresh == !seen_keys(*old(s)).contains(k@),
{
    s.insert(k)
}

/// Which price list a model's tokens are charged at.
#[derive(Debug, Clone, Copy, PartialEq, Eq)]
pub enum PriceTier {
    /// Opus 4 prices.
    Opus4,
    /// Sonnet 4 prices.
    Sonnet4,
    /// Unknown models cost nothing.
    Unpriced,
}

/// The price list for a model name: Opus 4 when the name contains `opus-4`;
/// else Sonnet 4 when it contains `sonnet-4`; else none. (Full model names
/// such as `...-opus-4-...` contain these.)
pub open spec fn tier_of(model: Seq<char>) -> PriceTier {
    if contains(model, "opus-4"@) {
        PriceTier::Opus4
    } else if contains(model, "sonnet-4"@) {
        PriceTier::Sonnet4
    } else {
        PriceTier::Unpriced
    }
}

/// The price list for a model name (see `tier_of`).
pub fn price_tier(model: &str) -> (t: PriceTier)
    ensures
        t == tier_of(model@),
{
    if str_contains(model, "opus-4") {
        PriceTier::Opus4
    } else if str_contains(model, "sonnet-4") {
        PriceTier::Sonnet4
    } else {
        PriceTier::Unpriced
    }
}

/// Where an entry's cost comes from.
#[derive(Debug, Clone)]
pub enum CostBasis {
    /// The cost the log reports (`costUSD`, a JSON number).
    Reported(Value),
    /// The entry's tokens at the model's prices.
    Rated(PriceTier),
    /// No reported cost and no model: the entry costs nothing.
    Unrated,
}

pub enum CostBasisV {
    Reported(JsonV),
    Rated(PriceTier),
    Unrated,
}

/// One usage record.
#[derive(Debug, Clone)]
pub struct UsageEntry {
    pub timestamp: String,
    pub model: String,
    pub input_tokens: u64,
    pub output_tokens: u64,
    pub cache_creation_tokens: u64,
    pub cache_read_tokens: u64,
    pub cost: CostBasis,
    pub session_id: String,
    pub project_path: String,
}

pub struct EntryV {
    pub timestamp: Seq<char>,
    pub model: Seq<char>,
    pub input_tokens: u64,
    pub output_tokens: u64,
    pub cache_creation_tokens: u64,
    pub cache_read_tokens: u64,
    pub cost: CostBasisV,
    pub session_id: Seq<char>,
    pub project_path: Seq<char>,
}

impl UsageEntry {
    pub open spec fn view_v(self) -> EntryV {
        EntryV {
            timestamp: self.timestamp@,
            model: self.model@,
            input_tokens: self.input_tokens,
            output_tokens: self.output_tokens,
            cache_creation_tokens: self.cache_creation_tokens,
            cache_read_tokens: self.cache_read_tokens,
            cost: match self.cost {
                CostBasis::Reported(v) => CostBasisV::Reported(json_content(v)),
                CostBasis::Rated(t) => CostBasisV::Rated(t),
                CostBasis::Unrated => CostBasisV::Unrated,
            },
            session_id: self.session_id@,
            project_path: self.project_path@,
        }
    }
}

pub open spec fn entry_views(es: Seq<UsageEntry>) -> Seq<EntryV> {
    es.map_values(|e: UsageEntry| e.view_v())
}

/// The session id a log file's path names: its file name without `.jsonl`,
/// or `unknown` when the name does not end so.
pub open spec fn session_of_path(path: Seq<char>) -> Seq<char> {
    let name = last_piece(path, '/');
    if ends_with(name, ".jsonl"@) {
        name.take(name.len() - 6)
    } else {
        "unknown"@
    }
}

pub fn session_id_from_path(path: &str) -> (r: String)
    ensures
        r@ == session_of_path(path@),
{
    let cs = to_chars(path);
    let name = last_piece_exec(&cs, '/');
    let name_s = from_chars(&name);
    if crate::text::str_ends_with(name_s.as_str(), ".jsonl") {
        let mut short = name;
        let mut k: usize = 0;
        assert(".jsonl"@.len() == 6) by {
            reveal_strlit(".jsonl");
        }
        while k < 6
            invariant
                k <= 6,
                name@.len() >= 6,
                short@ == name@.take(name@.len() - k),
            decreases 6 - k,
        {
            short.pop();
            assert(short@ =~= name@.take(name@.len() - (k + 1)));
            k = k + 1;
        }
        from_chars(&short)
    } else {
        owned("unknown")
    }
}

/// The state of reading one log file: the project path found so far, the
/// message/request keys seen, and the entries read.
pub struct ScanV {
    pub project: Option<Seq<char>>,
    pub seen: Set<Seq<char>>,
    pub entries: Seq<EntryV>,
}

/// The token count of an optional field (absent counts as zero).
pub open spec fn tokens(d: DecV) -> u64 {
    match d_opt_u64(d) {
        Some(u) => u,
        None => 0,
    }
}

/// Adds the entry of a log line whose message is `ms` (fields of a log
/// message), unless it has no usage or uses no tokens.
pub open spec fn add_usage(st: ScanV, vs: Seq<DecV>, ms: Seq<DecV>, sid: Seq<char>, enc: Seq<char>) -> ScanV {
    match at(ms, 2) {
        DecV::Fields(us) => {
            if tokens(at(us, 0)) == 0 && tokens(at(us, 1)) == 0 && tokens(at(us, 2)) == 0 && tokens(
                at(us, 3),
            ) == 0 {
                st
            } else {
                let model = d_opt_str(at(ms, 1));
                let e = EntryV {
                    timestamp: d_str(at(vs, 0)),
                    model: match model {
                        Some(m) => m,
                        None => "unknown"@,
                    },
                    input_tokens: tokens(at(us, 0)),
                    output_tokens: tokens(at(us, 1)),
                    cache_creation_tokens: tokens(at(us, 2)),
                    cache_read_tokens: tokens(at(us, 3)),
                    cost: match d_opt_json(at(vs, 4)) {
                        Some(c) => CostBasisV::Reported(c),
                        None => match model {
                            Some(m) => CostBasisV::Rated(tier_of(m)),
                            None => CostBasisV::Unrated,
                        },
                    },
                    session_id: match d_opt_str(at(vs, 2)) {
                        Some(s) => s,
                        None => sid,
                    },
                    project_path: match st.project {
                        Some(p) => p,
                        None => enc,
                    },
                };
                ScanV { entries: st.entries.push(e), ..st }
            }
        },
        _ => st,
    }
}

/// Reading one line of a log file for usage: blank and non-JSON lines are
/// skipped; the first `cwd` found is the project path; a line whose message
/// has both an id and a request id is skipped when that pair was seen.
pub open spec fn usage_line(st: ScanV, line: Seq<char>, sid: Seq<char>, enc: Seq<char>) -> ScanV {
    if all_ws(line) {
        st
    } else {
        match json_text_parse(line) {
            Err(_) => st,
            Ok(j) => {
                let st1 = ScanV {
                    project: if st.project is None {
                        json_get_str(j, "cwd"@)
                    } else {
                        st.project
                    },
                    ..st
                };
                match decode_record(2, Shape::LogEntry, j) {
                    Err(_) => st1,
                    Ok(rv) => {
                        let vs = rv.fields;
                        match at(vs, 1) {
                            DecV::Fields(ms) => match (d_opt_str(at(ms, 0)), d_opt_str(at(vs, 3))) {
                                (Some(id), Some(req)) => {
                                    let h = id + ":"@ + req;
                                    if st1.seen.contains(h) {
                                        st1
                                    } else {
                                        add_usage(
                                            ScanV { seen: st1.seen.insert(h), ..st1 },
                                            vs,
                                            ms,
                                            sid,
                                            enc,
                                        )
                                    }
                                },
                                _ => add_usage(st1, vs, ms, sid, enc),
                            },
                            _ => st1,
                        }
                    },
                }
            },
        }
    }
}

/// Reading the lines in order.
pub open spec fn usage_lines(st: ScanV, lines: Seq<Seq<char>>, sid: Seq<char>, enc: Seq<char>) -> ScanV
    decreases lines.len(),
{
    if lines.len() == 0 {
        st
    } else {
        usage_line(usage_lines(st, lines.drop_last(), sid, enc), lines.last(), sid, enc)
    }
}

/// Reading a whole log file whose text is `content`.
pub open spec fn usage_of_file(content: Seq<char>, path: Seq<char>, enc: Seq<char>, seen: Set<Seq<char>>) -> ScanV {
    usage_lines(
        ScanV { project: None, seen, entries: Seq::empty() },
        lines_of(content),
        session_of_path(path),
        enc,
    )
}

fn tokens_at(ds: &Vec<Dec>, i: usize, Ghost(vs): Ghost<Seq<DecV>>) -> (r: u64)
    requires
        decs_models(*ds, vs),
    ensures
        r == tokens(at(vs, i as int)),
{
    match take_opt_u64(ds, i, Ghost(vs)) {
        Some(u) => u,
        None => 0,
    }
}

/// The entries of a log file, in line order. `seen` holds the
/// message/request keys already met in the same batch of files, and gains
/// those of this file.
pub fn parse_usage_file(
    content: &str,
    relative_path: &str,
    encoded_project_name: &str,
    seen: &mut HashSet<String>,
) -> (r: Vec<UsageEntry>)
    ensures
        ({
            let fin = usage_of_file(content@, relative_path@, encoded_project_name@, seen_keys(*old(seen)));
            entry_views(r@) == fin.entries && seen_keys(*final(seen)) == fin.seen
        }),
{
    let session_id = session_id_from_path(relative_path);
    let lines = split_lines(content);
    let ghost sid = session_of_path(relative_path@);
    let ghost enc = encoded_project_name@;
    let ghost ls = lines_of(content@);
    let ghost st0 = ScanV { project: None, seen: seen_keys(*seen), entries: Seq::empty() };
    let mut entries: Vec<UsageEntry> = Vec::new();
    let mut project: Option<String> = None;
    let mut i: usize = 0;
    while i < lines.len()
        invariant
            i <= lines@.len(),
            views(lines@) == ls,
            session_id@ == sid,
            enc == encoded_project_name@,
            ({
                let st = usage_lines(st0, ls.take(i as int), sid, enc);
                &&& entry_views(entries@) == st.entries
                &&& seen_keys(*seen) == st.seen
                &&& opt_str_is(project, st.project)
            }),
        decreases lines.len() - i,
    {
        let ghost st = usage_lines(st0, ls.take(i as int), sid, enc);
        let ghost next = usage_line(st, lines@[i as int]@, sid, enc);
        proof {
            assert(ls.take(i + 1).drop_last() =~= ls.take(i as int));
            assert(ls.take(i + 1).last() == lines@[i as int]@);
            assert(usage_lines(st0, ls.take(i + 1), sid, enc) == next);
        }
        let line = lines[i].as_str();
        if !is_blank(line) {
            if let Ok(value) = parse_json(line) {
                let ghost j = json_content(value);
                if project.is_none() {
                    project = get_str_member(&value, "cwd");
                }
                let ghost st1 = ScanV {
                    project: if st.project is None { json_get_str(j, "cwd"@) } else { st.project },
                    ..st
                };
                assert(opt_str_is(project, st1.project));
                if let Ok(rec) = decode_record_exec(2, Shape::LogEntry, &value) {
                    let ghost vs = decode_record(2, Shape::LogEntry, j)->Ok_0.fields;
                    let ds = &rec.fields;
                    if let Some(ms) = nested_at(ds, 1, Ghost(vs)) {
                        let ghost mv = d_fields(at(vs, 1));
                        let msg_id = take_opt_str(ms, 0, Ghost(mv));
                        let req_id = take_opt_str(ds, 3, Ghost(vs));
                        let mut duplicate = false;
                        let ghost mut st2 = st1;
                        if let (Some(a), Some(b)) = (&msg_id, &req_id) {
                            let mut h = a.clone();
                            push_str(&mut h, ":");
                            push_str(&mut h, b.as_str());
                            let ghost hv = h@;
                            duplicate = !seen_insert(seen, h);
                            proof {
                                if duplicate {
                                    assert(st1.seen.insert(hv) =~= st1.seen);
                                } else {
                                    st2 = ScanV { seen: st1.seen.insert(hv), ..st1 };
                                }
                            }
                        }
                        if !duplicate {
                            assert(next == add_usage(st2, vs, mv, sid, enc));
                            if let Some(us) = nested_at(ms, 2, Ghost(mv)) {
                                let ghost uv = d_fields(at(mv, 2));
                                let input = tokens_at(us, 0, Ghost(uv));
                                let output = tokens_at(us, 1, Ghost(uv));
                                let cache_creation = tokens_at(us, 2, Ghost(uv));
                                let cache_read = tokens_at(us, 3, Ghost(uv));
                                if !(input == 0 && output == 0 && cache_creation == 0 && cache_read
                                    == 0) {
                                    let model = take_opt_str(ms, 1, Ghost(mv));
                                    let cost = match take_opt_json(ds, 4, Ghost(vs)) {
                                        Some(c) => CostBasis::Reported(c),
                                        None => match &model {
                                            Some(m) => CostBasis::Rated(price_tier(m.as_str())),
                                            None => CostBasis::Unrated,
                                        },
                                    };
                                    assert(st2.project == st1.project);
                                    let project_path = match &project {
                                        Some(p) => {
                                            assert(st2.project == Some(p@));
                                            let r = p.clone();
                                            assert(r@ == st2.project->Some_0);
                                            r
                                        },
                                        None => {
                                            assert(st2.project is None);
                                            let r = owned(encoded_project_name);
                                            assert(r@ == enc);
                                            r
                                        },
                                    };
                                    assert(project_path@ == (match st2.project {
                                        Some(p) => p,
                                        None => enc,
                                    }));
                                    let entry_session = match take_opt_str(ds, 2, Ghost(vs)) {
                                        Some(s) => s,
                                        None => session_id.clone(),
                                    };
                                    let entry = UsageEntry {
                                        timestamp: take_str(ds, 0, Ghost(vs)),
                                        model: match model {
                                            Some(m) => m,
                                            None => owned("unknown"),
                                        },
                                        input_tokens: input,
                                        output_tokens: output,
                                        cache_creation_tokens: cache_creation,
                                        cache_read_tokens: cache_read,
                                        cost,
                                        session_id: entry_session,
                                        project_path,
                                    };
                                    let ghost before = entries@;
                                    entries.push(entry);
                                    assert(entry_views(entries@) =~= entry_views(before).push(
                                        entry.view_v(),
                                    ));
                                    let ghost e2 = next.entries.last();
                                    assert(entry.view_v().timestamp == e2.timestamp);
                                    assert(entry.view_v().model == e2.model);
                                    assert(entry.view_v().input_tokens == e2.input_tokens);
                                    assert(entry.view_v().cost == e2.cost);
                                    assert(entry.view_v().session_id == e2.session_id);
                                    assert(entry.view_v().project_path == e2.project_path);
                                    assert(entry.view_v() == next.entries.last());
                                    assert(entry_views(entries@) =~= next.entries);
                                }
                            }
                        }
                    }
                }
            }
        }
        i = i + 1;
    }
    assert(ls.take(lines@.len() as int) =~= ls);
    entries
}

/// A copy of an entry.
pub fn copy_entry(e: &UsageEntry) -> (r: UsageEntry)
    ensures
        r.view_v() == e.view_v(),
{
    let cost = match &e.cost {
        CostBasis::Reported(v) => CostBasis::Reported(v.clone()),
        CostBasis::Rated(t) => CostBasis::Rated(*t),
        CostBasis::Unrated => CostBasis::Unrated,
    };
    UsageEntry {
        timestamp: e.timestamp.clone(),
        model: e.model.clone(),
        input_tokens: e.input_tokens,
        output_tokens: e.output_tokens,
        cache_creation_tokens: e.cache_creation_tokens,
        cache_read_tokens: e.cache_read_tokens,
        cost,
        session_id: e.session_id.clone(),
        project_path: e.project_path.clone(),
    }
}

/// A copy of a list of entries.
pub fn copy_entries(es: &Vec<UsageEntry>) -> (r: Vec<UsageEntry>)
    ensures
        entry_views(r@) == entry_views(es@),
{
    let mut r: Vec<UsageEntry> = Vec::new();
    let mut i: usize = 0;
    while i < es.len()
        invariant
            i <= es@.len(),
            r@.len() == i,
            forall|q: int| 0 <= q < i ==> (#[trigger] r@[q]).view_v() == es@[q].view_v(),
        decreases es.len() - i,
    {
        r.push(copy_entry(&es[i]));
        i = i + 1;
    }
    assert(entry_views(r@) =~= entry_views(es@));
    r
}

} // verus!

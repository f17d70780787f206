//! Usage statistics: totals, and the entries grouped by model, by day, by
//! project and by session. Costs are fractional and are summed by the caller
//! over each group's entries, in order.
use vstd::prelude::*;
use crate::usage::{UsageEntry, EntryV, entry_views};
use crate::groups::{
    Measure, measure, msum, all_tokens, gkeys, gsum, gmembers, gfirst, glatest, gmodels, group_ok,
    positions_are, group_by_keys, group_tokens_fit, groups_fit, lemma_groups_fit, lemma_msum_mono,
};
use crate::text::{first_piece, first_piece_exec, last_piece, last_piece_exec, to_chars, from_chars, owned, push_str, views};
use crate::order::{
    SortKey, key_of, key_views, sorted_items, sorted_items_desc, sort_by_keys, sort_desc_by_keys,
    lemma_sorted_items_map, lemma_sorted_items_desc_map,
};

verus! {

/// Whether the token counts of all entries together fit in a `u64`, as the
/// totals need.
pub fn tokens_fit(entries: &Vec<UsageEntry>) -> (r: bool)
    ensures
        r == (all_tokens(entry_views(entries@)) <= u64::MAX),
{
    let ghost es = entry_views(entries@);
    let ghost n = entries@.len() as int;
    let mut sum: u64 = 0;
    let mut i: usize = 0;
    while i < entries.len()
        invariant
            i <= entries@.len(),
            es == entry_views(entries@),
            n == entries@.len(),
            sum == msum(es, Measure::Tokens, i as int),
        decreases entries.len() - i,
    {
        let e = &entries[i];
        assert(es[i as int] == e.view_v());
        let step = (e.input_tokens as u128) + (e.output_tokens as u128) + (e.cache_creation_tokens as u128)
            + (e.cache_read_tokens as u128);
        if (sum as u128) + step > (u64::MAX as u128) {
            proof {
                lemma_msum_mono(es, Measure::Tokens, i + 1, n);
            }
            return false;
        }
        sum = ((sum as u128) + step) as u64;
        i = i + 1;
    }
    true
}

/// A token measure summed over some entries is at most their tokens.
pub proof fn lemma_measure_le_tokens(es: Seq<EntryV>, m: Measure, n: int)
    requires
        m != Measure::Count,
    ensures
        0 <= msum(es, m, n) <= msum(es, Measure::Tokens, n),
    decreases n,
{
    if n > 0 {
        lemma_measure_le_tokens(es, m, n - 1);
    }
}

/// The tokens of some entries are the sums of their four kinds.
pub proof fn lemma_tokens_split(es: Seq<EntryV>, n: int)
    ensures
        msum(es, Measure::Tokens, n) == msum(es, Measure::Input, n) + msum(es, Measure::Output, n)
            + msum(es, Measure::CacheCreation, n) + msum(es, Measure::CacheRead, n),
    decreases n,
{
    if n > 0 {
        lemma_tokens_split(es, n - 1);
    }
}

/// The totals over all entries.
pub struct UsageTotals {
    pub total_tokens: u64,
    pub total_input_tokens: u64,
    pub total_output_tokens: u64,
    pub total_cache_creation_tokens: u64,
    pub total_cache_read_tokens: u64,
    /// The number of entries.
    pub total_sessions: u64,
}

/// The token totals and the number of entries.
pub fn usage_totals(entries: &Vec<UsageEntry>) -> (t: UsageTotals)
    requires
        all_tokens(entry_views(entries@)) <= u64::MAX,
    ensures
        ({
            let es = entry_views(entries@);
            let n = entries@.len() as int;
            &&& t.total_input_tokens == msum(es, Measure::Input, n)
            &&& t.total_output_tokens == msum(es, Measure::Output, n)
            &&& t.total_cache_creation_tokens == msum(es, Measure::CacheCreation, n)
            &&& t.total_cache_read_tokens == msum(es, Measure::CacheRead, n)
            &&& t.total_tokens == msum(es, Measure::Tokens, n)
            &&& t.total_sessions == n
        }),
{
    let ghost es = entry_views(entries@);
    let ghost n = entries@.len() as int;
    let mut input: u64 = 0;
    let mut output: u64 = 0;
    let mut creation: u64 = 0;
    let mut read: u64 = 0;
    let mut i: usize = 0;
    while i < entries.len()
        invariant
            i <= entries@.len(),
            es == entry_views(entries@),
            n == entries@.len(),
            msum(es, Measure::Tokens, n) <= u64::MAX,
            input == msum(es, Measure::Input, i as int),
            output == msum(es, Measure::Output, i as int),
            creation == msum(es, Measure::CacheCreation, i as int),
            read == msum(es, Measure::CacheRead, i as int),
        decreases entries.len() - i,
    {
        let e = &entries[i];
        assert(es[i as int] == e.view_v());
        proof {
            lemma_msum_mono(es, Measure::Tokens, i + 1, n);
            lemma_tokens_split(es, i + 1);
            lemma_measure_le_tokens(es, Measure::Input, i + 1);
            lemma_measure_le_tokens(es, Measure::Output, i + 1);
            lemma_measure_le_tokens(es, Measure::CacheCreation, i + 1);
            lemma_measure_le_tokens(es, Measure::CacheRead, i + 1);
        }
        input = input + e.input_tokens;
        output = output + e.output_tokens;
        creation = creation + e.cache_creation_tokens;
        read = read + e.cache_read_tokens;
        i = i + 1;
    }
    proof {
        lemma_tokens_split(es, n);
    }
    UsageTotals {
        total_tokens: input + output + creation + read,
        total_input_tokens: input,
        total_output_tokens: output,
        total_cache_creation_tokens: creation,
        total_cache_read_tokens: read,
        total_sessions: entries.len() as u64,
    }
}

/// The model of each entry.
pub open spec fn model_keys(es: Seq<EntryV>) -> Seq<Seq<char>> {
    es.map_values(|e: EntryV| e.model)
}

/// The day of each entry: its timestamp up to the first `T`.
pub open spec fn date_keys(es: Seq<EntryV>) -> Seq<Seq<char>> {
    es.map_values(|e: EntryV| first_piece(e.timestamp, 'T'))
}

/// The project path of each entry.
pub open spec fn project_keys(es: Seq<EntryV>) -> Seq<Seq<char>> {
    es.map_values(|e: EntryV| e.project_path)
}

/// The session of each entry: `project_path/session_id`.
pub open spec fn session_keys(es: Seq<EntryV>) -> Seq<Seq<char>> {
    es.map_values(|e: EntryV| e.project_path + "/"@ + e.session_id)
}

fn model_keys_exec(entries: &Vec<UsageEntry>) -> (r: Vec<String>)
    ensures
        views(r@) == model_keys(entry_views(entries@)),
{
    let mut r: Vec<String> = Vec::new();
    let mut i: usize = 0;
    while i < entries.len()
        invariant
            i <= entries@.len(),
            r@.len() == i,
            forall|q: int| 0 <= q < i ==> (#[trigger] r@[q])@ == entries@[q].model@,
        decreases entries.len() - i,
    {
        r.push(entries[i].model.clone());
        i = i + 1;
    }
    assert(views(r@) =~= model_keys(entry_views(entries@)));
    r
}

fn date_keys_exec(entries: &Vec<UsageEntry>) -> (r: Vec<String>)
    ensures
        views(r@) == date_keys(entry_views(entries@)),
{
    let mut r: Vec<String> = Vec::new();
    let mut i: usize = 0;
    while i < entries.len()
        invariant
            i <= entries@.len(),
            r@.len() == i,
            forall|q: int| 0 <= q < i ==> (#[trigger] r@[q])@ == first_piece(entries@[q].timestamp@, 'T'),
        decreases entries.len() - i,
    {
        let cs = to_chars(entries[i].timestamp.as_str());
        let d = first_piece_exec(&cs, 'T');
        r.push(from_chars(&d));
        i = i + 1;
    }
    assert(views(r@) =~= date_keys(entry_views(entries@)));
    r
}

fn project_keys_exec(entries: &Vec<UsageEntry>) -> (r: Vec<String>)
    ensures
        views(r@) == project_keys(entry_views(entries@)),
{
    let mut r: Vec<String> = Vec::new();
    let mut i: usize = 0;
    while i < entries.len()
        invariant
            i <= entries@.len(),
            r@.len() == i,
            forall|q: int| 0 <= q < i ==> (#[trigger] r@[q])@ == entries@[q].project_path@,
        decreases entries.len() - i,
    {
        r.push(entries[i].project_path.clone());
        i = i + 1;
    }
    assert(views(r@) =~= project_keys(entry_views(entries@)));
    r
}

fn session_keys_exec(entries: &Vec<UsageEntry>) -> (r: Vec<String>)
    ensures
        views(r@) == session_keys(entry_views(entries@)),
{
    let mut r: Vec<String> = Vec::new();
    let mut i: usize = 0;
    while i < entries.len()
        invariant
            i <= entries@.len(),
            r@.len() == i,
            forall|q: int| 0 <= q < i ==> (#[trigger] r@[q])@ == entries@[q].project_path@ + "/"@
                + entries@[q].session_id@,
        decreases entries.len() - i,
    {
        let mut k = entries[i].project_path.clone();
        push_str(&mut k, "/");
        push_str(&mut k, entries[i].session_id.as_str());
        r.push(k);
        i = i + 1;
    }
    assert(views(r@) =~= session_keys(entry_views(entries@)));
    r
}

/// The usage of one model.
pub struct ModelUsage {
    pub model: String,
    /// Input and output tokens together.
    pub total_tokens: u64,
    pub input_tokens: u64,
    pub output_tokens: u64,
    pub cache_creation_tokens: u64,
    pub cache_read_tokens: u64,
    /// The number of entries.
    pub session_count: u64,
    /// The positions of the model's entries, in order.
    pub entries: Vec<usize>,
}

/// `u` is the usage of the model `k` among the entries `es`.
pub open spec fn model_usage_is(u: ModelUsage, es: Seq<EntryV>, k: Seq<char>) -> bool {
    let ks = model_keys(es);
    let n = es.len() as int;
    &&& u.model@ == k
    &&& u.input_tokens == gsum(es, ks, k, Measure::Input, n)
    &&& u.output_tokens == gsum(es, ks, k, Measure::Output, n)
    &&& u.cache_creation_tokens == gsum(es, ks, k, Measure::CacheCreation, n)
    &&& u.cache_read_tokens == gsum(es, ks, k, Measure::CacheRead, n)
    &&& u.total_tokens == u.input_tokens + u.output_tokens
    &&& u.session_count == gsum(es, ks, k, Measure::Count, n)
    &&& positions_are(u.entries@, gmembers(ks, k, n))
}

/// The usage by model, models in order of first appearance.
pub fn usage_by_model(entries: &Vec<UsageEntry>) -> (r: Vec<ModelUsage>)
    requires
        groups_fit(entry_views(entries@), model_keys(entry_views(entries@)), entries@.len() as int),
    ensures
        ({
            let es = entry_views(entries@);
            let ks = gkeys(model_keys(es), es.len() as int);
            &&& r@.len() == ks.len()
            &&& forall|g: int| 0 <= g < r@.len() ==> model_usage_is(#[trigger] r@[g], es, ks[g])
        }),
{
    let ghost es = entry_views(entries@);
    let ghost n = entries@.len() as int;
    let keys = model_keys_exec(entries);
    assert(views(keys@).len() == keys@.len());
    assert(model_keys(es).len() == es.len());
    let groups = group_by_keys(entries, &keys, &None);
    let ghost mk = model_keys(es);
    let mut out: Vec<ModelUsage> = Vec::new();
    let mut src = crate::order::reversed(groups);
    let ghost total = src@.len();
    while src.len() > 0
        invariant
            total == gkeys(mk, n).len(),
            out@.len() + src@.len() == total,
            es == entry_views(entries@),
            n == entries@.len(),
            mk == model_keys(es),
            forall|q: int| 0 <= q < src@.len() ==> (#[trigger] src@[q]).key@ == gkeys(mk, n)[total - 1 - q]
                && group_ok(src@[q], es, mk, n, None),
            forall|g: int| 0 <= g < out@.len() ==> model_usage_is(#[trigger] out@[g], es, gkeys(mk, n)[g]),
        decreases src.len(),
    {
        let g = src.pop().unwrap();
        proof {
            crate::groups::lemma_gsum_bound(es, mk, g.key@, Measure::Input, n);
            crate::groups::lemma_gsum_bound(es, mk, g.key@, Measure::Output, n);
            lemma_tokens_le(es, mk, g.key@, n);
        }
        let u = ModelUsage {
            model: g.key,
            total_tokens: g.input_tokens + g.output_tokens,
            input_tokens: g.input_tokens,
            output_tokens: g.output_tokens,
            cache_creation_tokens: g.cache_creation_tokens,
            cache_read_tokens: g.cache_read_tokens,
            session_count: g.count,
            entries: g.members,
        };
        out.push(u);
    }
    out
}

/// Within a group, input and output tokens together are at most all its tokens.
pub proof fn lemma_tokens_le(es: Seq<EntryV>, ks: Seq<Seq<char>>, k: Seq<char>, n: int)
    ensures
        gsum(es, ks, k, Measure::Input, n) + gsum(es, ks, k, Measure::Output, n) <= gsum(
            es,
            ks,
            k,
            Measure::Tokens,
            n,
        ),
    decreases n,
{
    if n > 0 {
        lemma_tokens_le(es, ks, k, n - 1);
    }
}

/// The usage of one day.
pub struct DailyUsage {
    pub date: String,
    /// All four token counts of the day's entries.
    pub total_tokens: u64,
    /// The distinct models of the day's entries, in order of first appearance.
    pub models_used: Vec<String>,
    /// The positions of the day's entries, in order.
    pub entries: Vec<usize>,
}

pub struct DailyV {
    pub date: Seq<char>,
    pub total_tokens: int,
    pub models_used: Seq<Seq<char>>,
    pub entries: Seq<int>,
}

pub open spec fn positions(ms: Seq<usize>) -> Seq<int> {
    ms.map_values(|m: usize| m as int)
}

impl DailyUsage {
    pub open spec fn view_v(self) -> DailyV {
        DailyV {
            date: self.date@,
            total_tokens: self.total_tokens as int,
            models_used: views(self.models_used@),
            entries: positions(self.entries@),
        }
    }
}

/// The days of the entries, in order of first appearance.
pub open spec fn daily_groups(es: Seq<EntryV>) -> Seq<DailyV> {
    let ks = date_keys(es);
    let n = es.len() as int;
    let gk = gkeys(ks, n);
    Seq::new(
        gk.len(),
        |g: int|
            DailyV {
                date: gk[g],
                total_tokens: gsum(es, ks, gk[g], Measure::Tokens, n),
                models_used: gmodels(es, ks, gk[g], n),
                entries: gmembers(ks, gk[g], n),
            },
    )
}

pub open spec fn date_sort_key(d: DailyV) -> (bool, Seq<char>) {
    (true, d.date)
}

/// The usage by day, latest day first.
pub open spec fn daily_usage(es: Seq<EntryV>) -> Seq<DailyV> {
    let ds = daily_groups(es);
    sorted_items_desc(ds.map_values(|d: DailyV| date_sort_key(d)), ds)
}

pub open spec fn daily_views(ds: Seq<DailyUsage>) -> Seq<DailyV> {
    ds.map_values(|d: DailyUsage| d.view_v())
}

/// The usage by day, latest day first (see `daily_usage`).
pub fn usage_by_date(entries: &Vec<UsageEntry>) -> (r: Vec<DailyUsage>)
    requires
        groups_fit(entry_views(entries@), date_keys(entry_views(entries@)), entries@.len() as int),
    ensures
        daily_views(r@) == daily_usage(entry_views(entries@)),
{
    let ghost es = entry_views(entries@);
    let ghost n = entries@.len() as int;
    let keys = date_keys_exec(entries);
    assert(views(keys@).len() == keys@.len());
    assert(date_keys(es).len() == es.len());
    let groups = group_by_keys(entries, &keys, &None);
    let ghost dk = date_keys(es);
    let ghost dg = daily_groups(es);
    let mut out: Vec<DailyUsage> = Vec::new();
    let mut src = crate::order::reversed(groups);
    let ghost total = src@.len();
    while src.len() > 0
        invariant
            total == gkeys(dk, n).len(),
            dg == daily_groups(es),
            out@.len() + src@.len() == total,
            es == entry_views(entries@),
            n == entries@.len(),
            dk == date_keys(es),
            forall|q: int| 0 <= q < src@.len() ==> (#[trigger] src@[q]).key@ == gkeys(dk, n)[total - 1 - q]
                && group_ok(src@[q], es, dk, n, None),
            forall|g: int| 0 <= g < out@.len() ==> (#[trigger] out@[g]).view_v() == dg[g],
        decreases src.len(),
    {
        let g = src.pop().unwrap();
        let d = DailyUsage { date: g.key, total_tokens: g.total_tokens, models_used: g.models, entries: g.members };
        assert(positions(d.entries@) =~= gmembers(dk, d.date@, n));
        out.push(d);
    }
    assert(daily_views(out@) =~= dg);
    let mut sort_keys: Vec<SortKey> = Vec::new();
    let mut i: usize = 0;
    while i < out.len()
        invariant
            i <= out@.len(),
            sort_keys@.len() == i,
            forall|q: int| 0 <= q < i ==> key_of(#[trigger] sort_keys@[q]) == date_sort_key(out@[q].view_v()),
        decreases out.len() - i,
    {
        sort_keys.push(SortKey { present: true, text: to_chars(out[i].date.as_str()) });
        i = i + 1;
    }
    let ghost items = out@;
    let ghost kv = key_views(sort_keys@);
    proof {
        assert(kv =~= dg.map_values(|d: DailyV| date_sort_key(d)));
        lemma_sorted_items_desc_map(kv, items, |d: DailyUsage| d.view_v());
        assert(items.map_values(|d: DailyUsage| d.view_v()) =~= dg);
    }
    let r = sort_desc_by_keys(out, sort_keys);
    assert(daily_views(r@) =~= sorted_items_desc(kv, items).map_values(|d: DailyUsage| d.view_v()));
    r
}

/// The usage of one project, or of one session.
pub struct ProjectUsage {
    pub project_path: String,
    pub project_name: String,
    /// All four token counts of the entries.
    pub total_tokens: u64,
    /// The number of entries.
    pub session_count: u64,
    /// The latest timestamp.
    pub last_used: String,
    /// The positions of the entries, in order.
    pub entries: Vec<usize>,
}

pub struct ProjectV {
    pub project_path: Seq<char>,
    pub project_name: Seq<char>,
    pub total_tokens: int,
    pub session_count: int,
    pub last_used: Seq<char>,
    pub entries: Seq<int>,
}

impl ProjectUsage {
    pub open spec fn view_v(self) -> ProjectV {
        ProjectV {
            project_path: self.project_path@,
            project_name: self.project_name@,
            total_tokens: self.total_tokens as int,
            session_count: self.session_count as int,
            last_used: self.last_used@,
            entries: positions(self.entries@),
        }
    }
}

pub open spec fn project_views(ps: Seq<ProjectUsage>) -> Seq<ProjectV> {
    ps.map_values(|p: ProjectUsage| p.view_v())
}

/// The usage by project path, projects in order of first appearance; a
/// project's name is the last `/`-separated piece of its path, its last use
/// its latest timestamp.
pub open spec fn project_groups(es: Seq<EntryV>) -> Seq<ProjectV> {
    let ks = project_keys(es);
    let n = es.len() as int;
    let gk = gkeys(ks, n);
    Seq::new(
        gk.len(),
        |g: int|
            ProjectV {
                project_path: gk[g],
                project_name: last_piece(gk[g], '/'),
                total_tokens: gsum(es, ks, gk[g], Measure::Tokens, n),
                session_count: gsum(es, ks, gk[g], Measure::Count, n),
                last_used: glatest(es, ks, gk[g], n, None)->Some_0,
                entries: gmembers(ks, gk[g], n),
            },
    )
}

/// The usage by project (see `project_groups`).
pub fn usage_by_project(entries: &Vec<UsageEntry>) -> (r: Vec<ProjectUsage>)
    requires
        groups_fit(entry_views(entries@), project_keys(entry_views(entries@)), entries@.len() as int),
    ensures
        project_views(r@) == project_groups(entry_views(entries@)),
{
    let ghost es = entry_views(entries@);
    let ghost n = entries@.len() as int;
    let keys = project_keys_exec(entries);
    assert(views(keys@).len() == keys@.len());
    assert(project_keys(es).len() == es.len());
    let groups = group_by_keys(entries, &keys, &None);
    let ghost pk = project_keys(es);
    let ghost pg = project_groups(es);
    let mut out: Vec<ProjectUsage> = Vec::new();
    let mut src = crate::order::reversed(groups);
    let ghost total = src@.len();
    while src.len() > 0
        invariant
            total == gkeys(pk, n).len(),
            pg == project_groups(es),
            out@.len() + src@.len() == total,
            es == entry_views(entries@),
            n == entries@.len(),
            pk == project_keys(es),
            forall|q: int| 0 <= q < src@.len() ==> (#[trigger] src@[q]).key@ == gkeys(pk, n)[total - 1 - q]
                && group_ok(src@[q], es, pk, n, None),
            forall|g: int| 0 <= g < out@.len() ==> (#[trigger] out@[g]).view_v() == pg[g],
        decreases src.len(),
    {
        let g = src.pop().unwrap();
        let cs = to_chars(g.key.as_str());
        let name = from_chars(&last_piece_exec(&cs, '/'));
        let p = ProjectUsage {
            project_path: g.key,
            project_name: name,
            total_tokens: g.total_tokens,
            session_count: g.count,
            last_used: g.latest,
            entries: g.members,
        };
        assert(positions(p.entries@) =~= gmembers(pk, p.project_path@, n));
        out.push(p);
    }
    assert(project_views(out@) =~= pg);
    out
}

/// The usage by session (`project_path/session_id`), sessions in order of
/// first appearance: path and name (the session id) come from the
/// session's first entry, the last use starts from a single space.
pub open spec fn session_groups(es: Seq<EntryV>) -> Seq<ProjectV> {
    let ks = session_keys(es);
    let n = es.len() as int;
    let gk = gkeys(ks, n);
    Seq::new(
        gk.len(),
        |g: int|
            ProjectV {
                project_path: es[gfirst(ks, gk[g], n)].project_path,
                project_name: es[gfirst(ks, gk[g], n)].session_id,
                total_tokens: gsum(es, ks, gk[g], Measure::Tokens, n),
                session_count: gsum(es, ks, gk[g], Measure::Count, n),
                last_used: glatest(es, ks, gk[g], n, Some(" "@))->Some_0,
                entries: gmembers(ks, gk[g], n),
            },
    )
}

pub open spec fn last_used_key(p: ProjectV) -> (bool, Seq<char>) {
    (true, p.last_used)
}

/// The usage by session, by last use: earliest first when `ascending`,
/// else latest first (sessions with the same last use keep their order).
pub open spec fn session_usage(es: Seq<EntryV>, ascending: bool) -> Seq<ProjectV> {
    let ps = session_groups(es);
    let keys = ps.map_values(|p: ProjectV| last_used_key(p));
    if ascending {
        sorted_items(keys, ps)
    } else {
        sorted_items_desc(keys, ps)
    }
}

/// Whether the tokens of each session fit in a `u64`, as the session usage
/// needs.
pub fn session_tokens_fit(entries: &Vec<UsageEntry>) -> (r: bool)
    ensures
        r == groups_fit(entry_views(entries@), session_keys(entry_views(entries@)), entries@.len() as int),
{
    let keys = session_keys_exec(entries);
    assert(views(keys@).len() == keys@.len());
    assert(session_keys(entry_views(entries@)).len() == entries@.len());
    group_tokens_fit(entries, &keys)
}

/// The usage by session (see `session_usage`); ascending only when `order`
/// is `asc`.
pub fn usage_by_session(entries: &Vec<UsageEntry>, order: &Option<String>) -> (r: Vec<ProjectUsage>)
    requires
        groups_fit(entry_views(entries@), session_keys(entry_views(entries@)), entries@.len() as int),
    ensures
        project_views(r@) == session_usage(
            entry_views(entries@),
            crate::collect::opt_view(*order) == Some("asc"@),
        ),
{
    let ghost es = entry_views(entries@);
    let ghost n = entries@.len() as int;
    let keys = session_keys_exec(entries);
    assert(views(keys@).len() == keys@.len());
    assert(session_keys(es).len() == es.len());
    let init = Some(owned(" "));
    let groups = group_by_keys(entries, &keys, &init);
    let ghost sk = session_keys(es);
    let ghost sg = session_groups(es);
    let mut out: Vec<ProjectUsage> = Vec::new();
    let mut src = crate::order::reversed(groups);
    let ghost total = src@.len();
    while src.len() > 0
        invariant
            total == gkeys(sk, n).len(),
            sg == session_groups(es),
            out@.len() + src@.len() == total,
            es == entry_views(entries@),
            n == entries@.len(),
            sk == session_keys(es),
            sk.len() == n,
            forall|q: int| 0 <= q < src@.len() ==> (#[trigger] src@[q]).key@ == gkeys(sk, n)[total - 1 - q]
                && group_ok(src@[q], es, sk, n, Some(" "@)),
            forall|g: int| 0 <= g < out@.len() ==> (#[trigger] out@[g]).view_v() == sg[g],
        decreases src.len(),
    {
        let g = src.pop().unwrap();
        proof {
            crate::groups::lemma_gfirst(sk, g.key@, n);
        }
        let f = g.first;
        assert(f < entries@.len());
        assert(es[f as int] == entries@[f as int].view_v());
        let p = ProjectUsage {
            project_path: entries[f].project_path.clone(),
            project_name: entries[f].session_id.clone(),
            total_tokens: g.total_tokens,
            session_count: g.count,
            last_used: g.latest,
            entries: g.members,
        };
        assert(positions(p.entries@) =~= gmembers(sk, g.key@, n));
        out.push(p);
    }
    assert(project_views(out@) =~= sg);
    let mut sort_keys: Vec<SortKey> = Vec::new();
    let mut i: usize = 0;
    while i < out.len()
        invariant
            i <= out@.len(),
            sort_keys@.len() == i,
            forall|q: int| 0 <= q < i ==> key_of(#[trigger] sort_keys@[q]) == last_used_key(out@[q].view_v()),
        decreases out.len() - i,
    {
        sort_keys.push(SortKey { present: true, text: to_chars(out[i].last_used.as_str()) });
        i = i + 1;
    }
    let ghost items = out@;
    let ghost kv = key_views(sort_keys@);
    let ascending = match order {
        Some(o) => crate::text::str_eq(o.as_str(), "asc"),
        None => false,
    };
    proof {
        assert(kv =~= sg.map_values(|p: ProjectV| last_used_key(p)));
        assert(items.map_values(|p: ProjectUsage| p.view_v()) =~= sg);
        lemma_sorted_items_map(kv, items, |p: ProjectUsage| p.view_v());
        lemma_sorted_items_desc_map(kv, items, |p: ProjectUsage| p.view_v());
    }
    if ascending {
        let r = sort_by_keys(out, sort_keys);
        assert(project_views(r@) =~= sorted_items(kv, items).map_values(|p: ProjectUsage| p.view_v()));
        r
    } else {
        let r = sort_desc_by_keys(out, sort_keys);
        assert(project_views(r@) =~= sorted_items_desc(kv, items).map_values(|p: ProjectUsage| p.view_v()));
        r
    }
}

/// The integer part of a usage summary; costs are summed by the caller.
pub struct UsageStats {
    pub totals: UsageTotals,
    pub by_model: Vec<ModelUsage>,
    pub by_date: Vec<DailyUsage>,
    pub by_project: Vec<ProjectUsage>,
}

/// Totals, and usage by model, by day and by project (see `usage_totals`,
/// `usage_by_model`, `usage_by_date`, `usage_by_project`).
pub fn summarize_usage(entries: &Vec<UsageEntry>) -> (r: UsageStats)
    requires
        all_tokens(entry_views(entries@)) <= u64::MAX,
    ensures
        ({
            let es = entry_views(entries@);
            let n = entries@.len() as int;
            let mk = gkeys(model_keys(es), n);
            &&& r.totals.total_input_tokens == msum(es, Measure::Input, n)
            &&& r.totals.total_output_tokens == msum(es, Measure::Output, n)
            &&& r.totals.total_cache_creation_tokens == msum(es, Measure::CacheCreation, n)
            &&& r.totals.total_cache_read_tokens == msum(es, Measure::CacheRead, n)
            &&& r.totals.total_tokens == msum(es, Measure::Tokens, n)
            &&& r.totals.total_sessions == n
            &&& r.by_model@.len() == mk.len()
            &&& forall|g: int| 0 <= g < r.by_model@.len() ==> model_usage_is(#[trigger] r.by_model@[g], es, mk[g])
            &&& daily_views(r.by_date@) == daily_usage(es)
            &&& project_views(r.by_project@) == project_groups(es)
        }),
{
    proof {
        let es = entry_views(entries@);
        let n = entries@.len() as int;
        lemma_groups_fit(es, model_keys(es), n);
        lemma_groups_fit(es, date_keys(es), n);
        lemma_groups_fit(es, project_keys(es), n);
    }
    UsageStats {
        totals: usage_totals(entries),
        by_model: usage_by_model(entries),
        by_date: usage_by_date(entries),
        by_project: usage_by_project(entries),
    }
}

/// Whether an entry is among the details asked for: of the project, when one
/// is given, and with a timestamp that starts with the date, when one is given.
pub open spec fn detail_match(e: EntryV, project: Option<Seq<char>>, date: Option<Seq<char>>) -> bool {
    (match project {
        Some(p) => e.project_path == p,
        None => true,
    }) && (match date {
        Some(d) => crate::text::starts_with(e.timestamp, d),
        None => true,
    })
}

/// The entries among the details asked for, in order.
pub open spec fn details_of(es: Seq<EntryV>, project: Option<Seq<char>>, date: Option<Seq<char>>) -> Seq<EntryV>
    decreases es.len(),
{
    if es.len() == 0 {
        Seq::empty()
    } else {
        let rest = details_of(es.drop_last(), project, date);
        if detail_match(es.last(), project, date) {
            rest.push(es.last())
        } else {
            rest
        }
    }
}

/// The entries of a project and of a day (see `details_of`).
pub fn usage_details(entries: Vec<UsageEntry>, project: &Option<String>, date: &Option<String>) -> (r: Vec<UsageEntry>)
    ensures
        entry_views(r@) == details_of(
            entry_views(entries@),
            crate::collect::opt_view(*project),
            crate::collect::opt_view(*date),
        ),
{
    let ghost ev = entry_views(entries@);
    let ghost n = entries@.len() as int;
    let ghost pv = crate::collect::opt_view(*project);
    let ghost dv = crate::collect::opt_view(*date);
    let mut src = crate::order::reversed(entries);
    let mut out: Vec<UsageEntry> = Vec::new();
    let ghost mut done: int = 0;
    while src.len() > 0
        invariant
            0 <= done <= n,
            ev.len() == n,
            done + src@.len() == n,
            pv == crate::collect::opt_view(*project),
            dv == crate::collect::opt_view(*date),
            forall|q: int| 0 <= q < src@.len() ==> #[trigger] src@[q].view_v() == ev[n - 1 - q],
            entry_views(out@) == details_of(ev.take(done), pv, dv),
        decreases src.len(),
    {
        let e = src.pop().unwrap();
        assert(e.view_v() == ev[done]);
        let ghost cur = ev.take(done + 1);
        assert(cur.drop_last() =~= ev.take(done));
        assert(cur.last() == ev[done]);
        let of_project = match project {
            Some(p) => crate::text::str_eq(e.project_path.as_str(), p.as_str()),
            None => true,
        };
        let of_date = match date {
            Some(d) => crate::text::str_starts_with(e.timestamp.as_str(), d.as_str()),
            None => true,
        };
        if of_project && of_date {
            let ghost before = out@;
            out.push(e);
            assert(entry_views(out@) =~= entry_views(before).push(e.view_v()));
        }
        proof {
            done = done + 1;
        }
    }
    assert(ev.take(n) =~= ev);
    out
}

} // verus!

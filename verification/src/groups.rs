//! Grouping usage entries by a key: the groups in order of first
//! appearance, each with its token sums, entry count, latest timestamp,
//! member entries and the models it used.
use vstd::prelude::*;
use crate::usage::{UsageEntry, EntryV, entry_views};
use crate::text::{lex_lt, str_lt, str_eq, views};

verus! {

/// A quantity that each entry contributes to a group.
pub enum Measure {
    Input,
    Output,
    CacheCreation,
    CacheRead,
    /// All four token counts.
    Tokens,
    /// One per entry.
    Count,
}

pub open spec fn entry_tokens(e: EntryV) -> int {
    e.input_tokens + e.output_tokens + e.cache_creation_tokens + e.cache_read_tokens
}

pub open spec fn measure(m: Measure, e: EntryV) -> int {
    match m {
        Measure::Input => e.input_tokens as int,
        Measure::Output => e.output_tokens as int,
        Measure::CacheCreation => e.cache_creation_tokens as int,
        Measure::CacheRead => e.cache_read_tokens as int,
        Measure::Tokens => entry_tokens(e),
        Measure::Count => 1,
    }
}

/// The sum of a measure over the first `n` entries.
pub open spec fn msum(es: Seq<EntryV>, m: Measure, n: int) -> int
    decreases n,
{
    if n <= 0 {
        0
    } else {
        msum(es, m, n - 1) + measure(m, es[n - 1])
    }
}

/// All tokens of all entries.
pub open spec fn all_tokens(es: Seq<EntryV>) -> int {
    msum(es, Measure::Tokens, es.len() as int)
}

/// The distinct keys among the first `n`, in order of first appearance.
pub open spec fn gkeys(ks: Seq<Seq<char>>, n: int) -> Seq<Seq<char>>
    decreases n,
{
    if n <= 0 {
        Seq::empty()
    } else {
        let r = gkeys(ks, n - 1);
        if r.contains(ks[n - 1]) {
            r
        } else {
            r.push(ks[n - 1])
        }
    }
}

/// The sum of a measure over the first `n` entries whose key is `k`.
pub open spec fn gsum(es: Seq<EntryV>, ks: Seq<Seq<char>>, k: Seq<char>, m: Measure, n: int) -> int
    decreases n,
{
    if n <= 0 {
        0
    } else {
        gsum(es, ks, k, m, n - 1) + if ks[n - 1] == k {
            measure(m, es[n - 1])
        } else {
            0
        }
    }
}

/// The positions of the first `n` entries whose key is `k`.
pub open spec fn gmembers(ks: Seq<Seq<char>>, k: Seq<char>, n: int) -> Seq<int>
    decreases n,
{
    if n <= 0 {
        Seq::empty()
    } else {
        let r = gmembers(ks, k, n - 1);
        if ks[n - 1] == k {
            r.push(n - 1)
        } else {
            r
        }
    }
}

/// The position of the first entry whose key is `k`, among the first `n`
/// (-1 when there is none).
pub open spec fn gfirst(ks: Seq<Seq<char>>, k: Seq<char>, n: int) -> int
    decreases n,
{
    if n <= 0 {
        -1
    } else {
        let r = gfirst(ks, k, n - 1);
        if r < 0 && ks[n - 1] == k {
            n - 1
        } else {
            r
        }
    }
}

/// A running latest timestamp after meeting `t`: `t` when it sorts after it.
pub open spec fn later(cur: Option<Seq<char>>, t: Seq<char>) -> Seq<char> {
    match cur {
        None => t,
        Some(c) => if lex_lt(c, t) {
            t
        } else {
            c
        },
    }
}

/// The latest timestamp of the group `k` among the first `n` entries,
/// starting from `init`.
pub open spec fn glatest(es: Seq<EntryV>, ks: Seq<Seq<char>>, k: Seq<char>, n: int, init: Option<Seq<char>>) -> Option<
    Seq<char>,
>
    decreases n,
{
    if n <= 0 {
        init
    } else {
        let r = glatest(es, ks, k, n - 1, init);
        if ks[n - 1] == k {
            Some(later(r, es[n - 1].timestamp))
        } else {
            r
        }
    }
}

/// The distinct models of the group `k` among the first `n` entries, in
/// order of first appearance.
pub open spec fn gmodels(es: Seq<EntryV>, ks: Seq<Seq<char>>, k: Seq<char>, n: int) -> Seq<Seq<char>>
    decreases n,
{
    if n <= 0 {
        Seq::empty()
    } else {
        let r = gmodels(es, ks, k, n - 1);
        if ks[n - 1] == k && !r.contains(es[n - 1].model) {
            r.push(es[n - 1].model)
        } else {
            r
        }
    }
}

/// The entries of one key.
pub struct Group {
    pub key: String,
    /// The position of the group's first entry.
    pub first: usize,
    pub input_tokens: u64,
    pub output_tokens: u64,
    pub cache_creation_tokens: u64,
    pub cache_read_tokens: u64,
    /// All four token counts together.
    pub total_tokens: u64,
    /// The number of entries.
    pub count: u64,
    /// The latest timestamp, starting from the initial one given.
    pub latest: String,
    /// The positions of the entries, in order.
    pub members: Vec<usize>,
    /// The distinct models of the entries, in order of first appearance.
    pub models: Vec<String>,
}

pub open spec fn positions_are(ms: Seq<usize>, ps: Seq<int>) -> bool {
    ms.len() == ps.len() && forall|j: int| 0 <= j < ms.len() ==> ms[j] as int == #[trigger] ps[j]
}

/// `g` is the group of its key among the first `n` entries.
pub open spec fn group_ok(g: Group, es: Seq<EntryV>, ks: Seq<Seq<char>>, n: int, init: Option<Seq<char>>) -> bool {
    let k = g.key@;
    &&& g.first as int == gfirst(ks, k, n)
    &&& g.input_tokens == gsum(es, ks, k, Measure::Input, n)
    &&& g.output_tokens == gsum(es, ks, k, Measure::Output, n)
    &&& g.cache_creation_tokens == gsum(es, ks, k, Measure::CacheCreation, n)
    &&& g.cache_read_tokens == gsum(es, ks, k, Measure::CacheRead, n)
    &&& g.total_tokens == gsum(es, ks, k, Measure::Tokens, n)
    &&& g.count == gsum(es, ks, k, Measure::Count, n)
    &&& glatest(es, ks, k, n, init) == Some(g.latest@)
    &&& positions_are(g.members@, gmembers(ks, k, n))
    &&& views(g.models@) == gmodels(es, ks, k, n)
}

pub proof fn lemma_gkeys(ks: Seq<Seq<char>>, n: int)
    requires
        0 <= n <= ks.len(),
    ensures
        forall|i: int| 0 <= i < n ==> gkeys(ks, n).contains(#[trigger] ks[i]),
        forall|a: int, b: int|
            0 <= a < b < gkeys(ks, n).len() ==> #[trigger] gkeys(ks, n)[a] != #[trigger] gkeys(ks, n)[b],
    decreases n,
{
    if n > 0 {
        lemma_gkeys(ks, n - 1);
        let r = gkeys(ks, n - 1);
        if !r.contains(ks[n - 1]) {
            let s = r.push(ks[n - 1]);
            assert forall|i: int| 0 <= i < n implies s.contains(#[trigger] ks[i]) by {
                if i < n - 1 {
                    let j = choose|j: int| 0 <= j < r.len() && r[j] == ks[i];
                    assert(s[j] == ks[i]);
                } else {
                    assert(s[r.len() as int] == ks[i]);
                }
            }
        }
    }
}

/// A key that none of the first `n` entries has: its group is empty.
pub proof fn lemma_absent(es: Seq<EntryV>, ks: Seq<Seq<char>>, k: Seq<char>, n: int, init: Option<Seq<char>>)
    requires
        0 <= n <= ks.len(),
        forall|i: int| 0 <= i < n ==> ks[i] != k,
    ensures
        forall|m: Measure| #[trigger] gsum(es, ks, k, m, n) == 0,
        gfirst(ks, k, n) == -1,
        gmembers(ks, k, n) == Seq::<int>::empty(),
        glatest(es, ks, k, n, init) == init,
        gmodels(es, ks, k, n) == Seq::<Seq<char>>::empty(),
    decreases n,
{
    if n > 0 {
        lemma_absent(es, ks, k, n - 1, init);
        assert forall|m: Measure| #[trigger] gsum(es, ks, k, m, n) == 0 by {
            assert(gsum(es, ks, k, m, n - 1) == 0);
        }
    }
}

/// The token sum over a prefix is at most that over a longer prefix.
pub proof fn lemma_msum_mono(es: Seq<EntryV>, m: Measure, n: int, l: int)
    requires
        n <= l,
    ensures
        msum(es, m, n) <= msum(es, m, l),
    decreases l - n,
{
    if n < l {
        lemma_msum_mono(es, m, n, l - 1);
        if l > 0 {
            assert(measure(m, es[l - 1]) >= 0);
        }
    }
}

/// A group's sum of any token measure is at most the tokens of all entries
/// so far; its count at most their number.
pub proof fn lemma_gsum_bound(es: Seq<EntryV>, ks: Seq<Seq<char>>, k: Seq<char>, m: Measure, n: int)
    requires
        0 <= n,
    ensures
        0 <= gsum(es, ks, k, m, n),
        m != Measure::Count ==> gsum(es, ks, k, m, n) <= msum(es, Measure::Tokens, n),
        m == Measure::Count ==> gsum(es, ks, k, m, n) <= n,
    decreases n,
{
    if n > 0 {
        lemma_gsum_bound(es, ks, k, m, n - 1);
    }
}

/// A group's sum of any token measure is at most its tokens.
pub proof fn lemma_gsum_le_tokens(es: Seq<EntryV>, ks: Seq<Seq<char>>, k: Seq<char>, m: Measure, n: int)
    requires
        m != Measure::Count,
    ensures
        0 <= gsum(es, ks, k, m, n) <= gsum(es, ks, k, Measure::Tokens, n),
    decreases n,
{
    if n > 0 {
        lemma_gsum_le_tokens(es, ks, k, m, n - 1);
    }
}

/// A group's sum over a prefix is at most that over a longer prefix.
pub proof fn lemma_gsum_mono(es: Seq<EntryV>, ks: Seq<Seq<char>>, k: Seq<char>, m: Measure, n: int, l: int)
    requires
        n <= l,
    ensures
        gsum(es, ks, k, m, n) <= gsum(es, ks, k, m, l),
    decreases l - n,
{
    if n < l {
        lemma_gsum_mono(es, ks, k, m, n, l - 1);
        if l > 0 {
            assert(measure(m, es[l - 1]) >= 0);
        }
    }
}

/// The tokens of each group among the first `n` entries fit in a `u64`.
pub open spec fn groups_fit(es: Seq<EntryV>, ks: Seq<Seq<char>>, n: int) -> bool {
    forall|k: Seq<char>| #[trigger] gsum(es, ks, k, Measure::Tokens, n) <= u64::MAX
}

/// When all tokens fit in a `u64`, so do those of each group.
pub proof fn lemma_groups_fit(es: Seq<EntryV>, ks: Seq<Seq<char>>, n: int)
    requires
        0 <= n,
        msum(es, Measure::Tokens, n) <= u64::MAX,
    ensures
        groups_fit(es, ks, n),
{
    assert forall|k: Seq<char>| #[trigger] gsum(es, ks, k, Measure::Tokens, n) <= u64::MAX by {
        lemma_gsum_bound(es, ks, k, Measure::Tokens, n);
    }
}

pub proof fn lemma_gfirst(ks: Seq<Seq<char>>, k: Seq<char>, n: int)
    requires
        0 <= n <= ks.len(),
    ensures
        -1 <= gfirst(ks, k, n) < n,
        gfirst(ks, k, n) >= 0 ==> ks[gfirst(ks, k, n)] == k,
    decreases n,
{
    if n > 0 {
        lemma_gfirst(ks, k, n - 1);
    }
}

fn find_group(groups: &Vec<Group>, k: &String) -> (r: Option<usize>)
    ensures
        match r {
            Some(p) => p < groups@.len() && groups@[p as int].key@ == k@,
            None => forall|g: int| 0 <= g < groups@.len() ==> (#[trigger] groups@[g]).key@ != k@,
        },
{
    let mut p: usize = 0;
    while p < groups.len()
        invariant
            p <= groups@.len(),
            forall|g: int| 0 <= g < p ==> (#[trigger] groups@[g]).key@ != k@,
        decreases groups.len() - p,
    {
        if str_eq(groups[p].key.as_str(), k.as_str()) {
            return Some(p);
        }
        p = p + 1;
    }
    None
}

fn holds_string(v: &Vec<String>, s: &String) -> (r: bool)
    ensures
        r == views(v@).contains(s@),
{
    let mut i: usize = 0;
    while i < v.len()
        invariant
            i <= v@.len(),
            forall|j: int| 0 <= j < i ==> v@[j]@ != s@,
        decreases v.len() - i,
    {
        if str_eq(v[i].as_str(), s.as_str()) {
            assert(views(v@)[i as int] == s@);
            return true;
        }
        i = i + 1;
    }
    assert forall|j: int| 0 <= j < views(v@).len() implies views(v@)[j] != s@ by {
        assert(views(v@)[j] == v@[j]@);
    }
    false
}

fn later_exec(cur: &Option<String>, t: &String) -> (r: String)
    ensures
        r@ == later(crate::collect::opt_view(*cur), t@),
{
    match cur {
        None => t.clone(),
        Some(c) => if str_lt(c.as_str(), t.as_str()) {
            t.clone()
        } else {
            c.clone()
        },
    }
}

/// A group with an empty key, no entries and nothing counted.
fn blank_group() -> (g: Group)
    ensures
        g.key@ == Seq::<char>::empty(),
        g.first == 0,
        g.input_tokens == 0,
        g.output_tokens == 0,
        g.cache_creation_tokens == 0,
        g.cache_read_tokens == 0,
        g.total_tokens == 0,
        g.count == 0,
        g.latest@ == Seq::<char>::empty(),
        g.members@ == Seq::<usize>::empty(),
        g.models@ == Seq::<String>::empty(),
{
    Group {
        key: String::new(),
        first: 0,
        input_tokens: 0,
        output_tokens: 0,
        cache_creation_tokens: 0,
        cache_read_tokens: 0,
        total_tokens: 0,
        count: 0,
        latest: String::new(),
        members: Vec::new(),
        models: Vec::new(),
    }
}

fn find_key(names: &Vec<String>, k: &String) -> (r: Option<usize>)
    ensures
        match r {
            Some(p) => p < names@.len() && names@[p as int]@ == k@,
            None => forall|g: int| 0 <= g < names@.len() ==> (#[trigger] names@[g])@ != k@,
        },
{
    let mut p: usize = 0;
    while p < names.len()
        invariant
            p <= names@.len(),
            forall|g: int| 0 <= g < p ==> (#[trigger] names@[g])@ != k@,
        decreases names.len() - p,
    {
        if str_eq(names[p].as_str(), k.as_str()) {
            return Some(p);
        }
        p = p + 1;
    }
    None
}

/// Whether the tokens of each group (`keys[i]` is the key of entry `i`)
/// fit in a `u64`, as `group_by_keys` needs.
pub fn group_tokens_fit(entries: &Vec<UsageEntry>, keys: &Vec<String>) -> (r: bool)
    requires
        keys@.len() == entries@.len(),
    ensures
        r == groups_fit(entry_views(entries@), views(keys@), entries@.len() as int),
{
    let ghost es = entry_views(entries@);
    let ghost ks = views(keys@);
    let ghost len = entries@.len() as int;
    let mut names: Vec<String> = Vec::new();
    let mut sums: Vec<u64> = Vec::new();
    let mut i: usize = 0;
    while i < entries.len()
        invariant
            i <= entries@.len(),
            keys@.len() == entries@.len(),
            es == entry_views(entries@),
            ks == views(keys@),
            len == entries@.len(),
            names@.len() == gkeys(ks, i as int).len(),
            sums@.len() == names@.len(),
            forall|g: int| 0 <= g < names@.len() ==> (#[trigger] names@[g])@ == gkeys(ks, i as int)[g]
                && sums@[g] == gsum(es, ks, names@[g]@, Measure::Tokens, i as int),
            groups_fit(es, ks, i as int),
        decreases entries.len() - i,
    {
        let e = &entries[i];
        let k = &keys[i];
        let ghost n = i as int;
        let ghost kv = k@;
        proof {
            assert(ks[n] == kv);
            assert(es[n] == e.view_v());
            lemma_gkeys(ks, n);
            lemma_gkeys(ks, n + 1);
        }
        let step = (e.input_tokens as u128) + (e.output_tokens as u128) + (e.cache_creation_tokens as u128)
            + (e.cache_read_tokens as u128);
        let ghost old_names = names@;
        let ghost old_sums = sums@;
        match find_key(&names, k) {
            Some(p) => {
                assert(gkeys(ks, n)[p as int] == kv);
                assert(gkeys(ks, n).contains(kv));
                assert(gkeys(ks, n + 1) == gkeys(ks, n));
                let s = (sums[p] as u128) + step;
                if s > (u64::MAX as u128) {
                    proof {
                        lemma_gsum_mono(es, ks, kv, Measure::Tokens, n + 1, len);
                    }
                    return false;
                }
                sums.set(p, s as u64);
                proof {
                    assert forall|g: int| 0 <= g < names@.len() implies (#[trigger] names@[g])@
                        == gkeys(ks, n + 1)[g] && sums@[g] == gsum(es, ks, names@[g]@, Measure::Tokens, n + 1) by {
                        if g != p {
                            assert(old_names[g]@ != kv);
                        }
                    }
                }
            },
            None => {
                proof {
                    assert(!gkeys(ks, n).contains(kv)) by {
                        if gkeys(ks, n).contains(kv) {
                            let q = choose|q: int| 0 <= q < gkeys(ks, n).len() && gkeys(ks, n)[q] == kv;
                            assert(old_names[q]@ == kv);
                        }
                    }
                    assert forall|j: int| 0 <= j < n implies ks[j] != kv by {
                        assert(gkeys(ks, n).contains(ks[j]));
                    }
                    lemma_absent(es, ks, kv, n, None);
                    assert(gsum(es, ks, kv, Measure::Tokens, n) == 0);
                }
                if step > (u64::MAX as u128) {
                    proof {
                        lemma_gsum_mono(es, ks, kv, Measure::Tokens, n + 1, len);
                    }
                    return false;
                }
                names.push(k.clone());
                sums.push(step as u64);
                proof {
                    assert(gkeys(ks, n + 1) == gkeys(ks, n).push(kv));
                    assert forall|g: int| 0 <= g < names@.len() implies (#[trigger] names@[g])@
                        == gkeys(ks, n + 1)[g] && sums@[g] == gsum(es, ks, names@[g]@, Measure::Tokens, n + 1) by {
                        if g < old_names.len() {
                            assert(old_names[g]@ != kv);
                        }
                    }
                }
            },
        }
        proof {
            assert forall|k2: Seq<char>| #[trigger] gsum(es, ks, k2, Measure::Tokens, n + 1) <= u64::MAX by {
                if k2 != kv {
                    assert(gsum(es, ks, k2, Measure::Tokens, n + 1) == gsum(es, ks, k2, Measure::Tokens, n));
                } else {
                    assert(exists|g: int| 0 <= g < names@.len() && (#[trigger] names@[g])@ == kv) by {
                        assert(gkeys(ks, n + 1).contains(kv));
                        let q = choose|q: int| 0 <= q < gkeys(ks, n + 1).len() && #[trigger] gkeys(ks, n + 1)[q] == kv;
                        assert(names@[q]@ == kv);
                    }
                }
            }
        }
        i = i + 1;
    }
    true
}

/// The groups of the entries under the given keys (`keys[i]` is the key of
/// entry `i`), in order of first appearance; each group's latest timestamp
/// starts from `init`.
pub fn group_by_keys(entries: &Vec<UsageEntry>, keys: &Vec<String>, init: &Option<String>) -> (r: Vec<Group>)
    requires
        keys@.len() == entries@.len(),
        groups_fit(entry_views(entries@), views(keys@), entries@.len() as int),
    ensures
        ({
            let es = entry_views(entries@);
            let ks = views(keys@);
            let n = entries@.len() as int;
            &&& r@.len() == gkeys(ks, n).len()
            &&& forall|g: int| 0 <= g < r@.len() ==> (#[trigger] r@[g]).key@ == gkeys(ks, n)[g]
                && group_ok(r@[g], es, ks, n, crate::collect::opt_view(*init))
        }),
{
    let ghost es = entry_views(entries@);
    let ghost ks = views(keys@);
    let ghost len = entries@.len() as int;
    let ghost ini = crate::collect::opt_view(*init);
    let mut groups: Vec<Group> = Vec::new();
    let mut i: usize = 0;
    while i < entries.len()
        invariant
            i <= entries@.len(),
            keys@.len() == entries@.len(),
            es == entry_views(entries@),
            ks == views(keys@),
            len == entries@.len(),
            ini == crate::collect::opt_view(*init),
            groups_fit(es, ks, len),
            groups@.len() == gkeys(ks, i as int).len(),
            forall|g: int| 0 <= g < groups@.len() ==> (#[trigger] groups@[g]).key@ == gkeys(ks, i as int)[g]
                && group_ok(groups@[g], es, ks, i as int, ini),
        decreases entries.len() - i,
    {
        let e = &entries[i];
        let k = &keys[i];
        let ghost n = i as int;
        let ghost kv = k@;
        proof {
            assert(ks[n] == kv);
            assert(es[n] == e.view_v());
            lemma_gkeys(ks, n);
            lemma_gkeys(ks, n + 1);
            lemma_gsum_mono(es, ks, kv, Measure::Tokens, n + 1, len);
            assert(gsum(es, ks, kv, Measure::Tokens, len) <= u64::MAX);
            lemma_gsum_le_tokens(es, ks, kv, Measure::Input, n + 1);
            lemma_gsum_le_tokens(es, ks, kv, Measure::Output, n + 1);
            lemma_gsum_le_tokens(es, ks, kv, Measure::CacheCreation, n + 1);
            lemma_gsum_le_tokens(es, ks, kv, Measure::CacheRead, n + 1);
            lemma_gsum_le_tokens(es, ks, kv, Measure::Input, n);
            lemma_gsum_bound(es, ks, kv, Measure::Count, n + 1);
        }
        let ghost old_groups = groups@;
        match find_group(&groups, k) {
            Some(p) => {
                let ghost gp = old_groups[p as int];
                assert(group_ok(gp, es, ks, n, ini));
                assert(gkeys(ks, n)[p as int] == kv);
                assert(gkeys(ks, n).contains(kv));
                assert(gkeys(ks, n + 1) == gkeys(ks, n));
                let mut g = blank_group();
                groups.set_and_swap(p, &mut g);
                assert(g == gp);
                g.input_tokens = g.input_tokens + e.input_tokens;
                g.output_tokens = g.output_tokens + e.output_tokens;
                g.cache_creation_tokens = g.cache_creation_tokens + e.cache_creation_tokens;
                g.cache_read_tokens = g.cache_read_tokens + e.cache_read_tokens;
                g.total_tokens = g.total_tokens + e.input_tokens + e.output_tokens
                    + e.cache_creation_tokens + e.cache_read_tokens;
                g.count = g.count + 1;
                if str_lt(g.latest.as_str(), e.timestamp.as_str()) {
                    g.latest = e.timestamp.clone();
                }
                let ghost old_members = g.members@;
                g.members.push(i);
                assert(gmembers(ks, kv, n + 1) == gmembers(ks, kv, n).push(n));
                if !holds_string(&g.models, &e.model) {
                    let ghost old_models = g.models@;
                    g.models.push(e.model.clone());
                    assert(views(g.models@) =~= views(old_models).push(e.model@));
                }
                assert(gfirst(ks, kv, n) >= 0);
                groups.set(p, g);
                proof {
                    assert forall|q: int| 0 <= q < groups@.len() implies (#[trigger] groups@[q]).key@
                        == gkeys(ks, n + 1)[q] && group_ok(groups@[q], es, ks, n + 1, ini) by {
                        if q != p {
                            assert(groups@[q] == old_groups[q]);
                            assert(old_groups[q].key@ != kv);
                        }
                    }
                }
            },
            None => {
                proof {
                    assert(!gkeys(ks, n).contains(kv)) by {
                        if gkeys(ks, n).contains(kv) {
                            let q = choose|q: int| 0 <= q < gkeys(ks, n).len() && gkeys(ks, n)[q] == kv;
                            assert(old_groups[q].key@ == kv);
                        }
                    }
                    assert forall|j: int| 0 <= j < n implies ks[j] != kv by {
                        assert(gkeys(ks, n).contains(ks[j]));
                    }
                    lemma_absent(es, ks, kv, n, ini);
                    assert(gsum(es, ks, kv, Measure::Input, n) == 0);
                    assert(gsum(es, ks, kv, Measure::Output, n) == 0);
                    assert(gsum(es, ks, kv, Measure::CacheCreation, n) == 0);
                    assert(gsum(es, ks, kv, Measure::CacheRead, n) == 0);
                    assert(gsum(es, ks, kv, Measure::Tokens, n) == 0);
                    assert(gsum(es, ks, kv, Measure::Count, n) == 0);
                }
                let mut members: Vec<usize> = Vec::new();
                members.push(i);
                let mut models: Vec<String> = Vec::new();
                models.push(e.model.clone());
                let g = Group {
                    key: k.clone(),
                    first: i,
                    input_tokens: e.input_tokens,
                    output_tokens: e.output_tokens,
                    cache_creation_tokens: e.cache_creation_tokens,
                    cache_read_tokens: e.cache_read_tokens,
                    total_tokens: e.input_tokens + e.output_tokens + e.cache_creation_tokens
                        + e.cache_read_tokens,
                    count: 1,
                    latest: later_exec(init, &e.timestamp),
                    members,
                    models,
                };
                assert(gmembers(ks, kv, n + 1) =~= seq![n]);
                assert(views(g.models@) =~= seq![e.model@]);
                assert(gmodels(es, ks, kv, n + 1) =~= seq![e.model@]);
                groups.push(g);
                proof {
                    assert(gkeys(ks, n + 1) == gkeys(ks, n).push(kv));
                    assert forall|q: int| 0 <= q < groups@.len() implies (#[trigger] groups@[q]).key@
                        == gkeys(ks, n + 1)[q] && group_ok(groups@[q], es, ks, n + 1, ini) by {
                        if q < old_groups.len() {
                            assert(groups@[q] == old_groups[q]);
                            assert(old_groups[q].key@ != kv);
                        }
                    }
                }
            },
        }
        i = i + 1;
    }
    groups
}

} // verus!

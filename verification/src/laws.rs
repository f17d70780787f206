//! What holds of the library as a whole: the order and uniqueness of the
//! usage entries read, how the statistics add up, how the lists are
//! ordered, when caches are fresh, and where cache files may lie.
use vstd::prelude::*;
use crate::usage::EntryV;
use crate::collect::{
    LogFileV, JobV, collected_entries, planned_jobs, batches_from, dedupe, entry_key, by_timestamp,
    stamp_key, jobs_of, jobs_in_range, reading_order, job_key, project_of, keep_file, earliest_of,
};
use crate::groups::{Measure, measure, msum, gkeys, gsum, lemma_gkeys, lemma_absent};
use crate::stats::{DailyV, daily_groups, daily_usage, date_sort_key, ProjectV, session_groups, session_usage, last_used_key, details_of, detail_match};
use crate::projects::{CachedProjectV, ordered_projects, decoded_path};
use crate::cache::{stale, elapsed, entries_in_range, entry_in_range};
use crate::paths::{cache_path_of, path_join, valid_cache_name};
use crate::order::{
    key_le, lemma_sorted_items_props, lemma_sorted_items_desc_props, lemma_sorted_by_num_desc_props,
    lemma_sorted_items_all,
};
use crate::text::{lex_lt, contains, last_piece, last_piece_start, occurs_at, all_ws};
use crate::dates::{Day, days_earlier, formatted_day, requested_range, window_of};
use crate::jsonl_loader::{JsonlLoader, JsonlEntry, line_step, counted_schema, line_fails};

verus! {

proof fn lemma_dedupe(es: Seq<EntryV>)
    ensures
        dedupe(es).0.map_values(|e: EntryV| entry_key(e)).no_duplicates(),
        forall|k: Seq<char>| dedupe(es).1.contains(k) <==> dedupe(es).0.map_values(|e: EntryV| entry_key(e)).contains(k),
    decreases es.len(),
{
    if es.len() > 0 {
        lemma_dedupe(es.drop_last());
        let (out, seen) = dedupe(es.drop_last());
        let e = es.last();
        let ko = out.map_values(|e: EntryV| entry_key(e));
        if !seen.contains(entry_key(e)) {
            let out2 = out.push(e);
            let k2 = out2.map_values(|e: EntryV| entry_key(e));
            assert(k2 =~= ko.push(entry_key(e)));
            assert forall|i: int, j: int| 0 <= i < k2.len() && 0 <= j < k2.len() && i != j implies k2[i] != k2[j] by {
                if i < ko.len() && j < ko.len() {
                } else if i == ko.len() {
                    assert(ko.contains(ko[j]));
                } else {
                    assert(ko.contains(ko[i]));
                }
            }
            assert forall|k: Seq<char>| seen.insert(entry_key(e)).contains(k) <==> k2.contains(k) by {
                if k2.contains(k) {
                    let i = choose|i: int| 0 <= i < k2.len() && k2[i] == k;
                    if i < ko.len() {
                        assert(ko[i] == k);
                    }
                }
                if seen.contains(k) {
                    let i = choose|i: int| 0 <= i < ko.len() && ko[i] == k;
                    assert(k2[i] == k);
                }
                if k == entry_key(e) {
                    assert(k2[ko.len() as int] == k);
                }
            }
        }
    }
}

/// The usage entries read from logs come in time order: no entry has a
/// timestamp earlier than one before it.
pub proof fn law_entries_in_time_order(files: Seq<LogFileV>, start: Option<crate::dates::Day>, end: Option<crate::dates::Day>)
    ensures
        forall|i: int, j: int|
            0 <= i < j < collected_entries(files, start, end).len() ==> !lex_lt(
                #[trigger] collected_entries(files, start, end)[j].timestamp,
                #[trigger] collected_entries(files, start, end)[i].timestamp,
            ),
{
    let d = dedupe(batches_from(planned_jobs(files, start, end), 0)).0;
    let keys = d.map_values(|e: EntryV| stamp_key(e));
    lemma_sorted_items_props(keys, d, |e: EntryV| stamp_key(e), |e: EntryV| e);
    let out = collected_entries(files, start, end);
    assert(out == by_timestamp(d));
    assert forall|i: int, j: int| 0 <= i < j < out.len() implies !lex_lt(
        #[trigger] out[j].timestamp,
        #[trigger] out[i].timestamp,
    ) by {
        assert(key_le(stamp_key(out[i]), stamp_key(out[j])));
    }
}

/// No two usage entries read from logs have the same timestamp and session.
pub proof fn law_entries_unique(files: Seq<LogFileV>, start: Option<crate::dates::Day>, end: Option<crate::dates::Day>)
    ensures
        forall|i: int, j: int|
            0 <= i < j < collected_entries(files, start, end).len() ==> entry_key(
                #[trigger] collected_entries(files, start, end)[i],
            ) != entry_key(#[trigger] collected_entries(files, start, end)[j]),
{
    let b = batches_from(planned_jobs(files, start, end), 0);
    let d = dedupe(b).0;
    lemma_dedupe(b);
    let keys = d.map_values(|e: EntryV| stamp_key(e));
    let g = |e: EntryV| entry_key(e);
    lemma_sorted_items_props(keys, d, |e: EntryV| stamp_key(e), g);
    let out = collected_entries(files, start, end);
    assert(out == by_timestamp(d));
    let dk = d.map_values(g);
    let ok = out.map_values(g);
    assert(dk =~= d.map_values(|e: EntryV| entry_key(e)));
    dk.lemma_multiset_has_no_duplicates();
    assert(ok.to_multiset() == dk.to_multiset());
    ok.lemma_multiset_has_no_duplicates_conv();
    assert forall|i: int, j: int| 0 <= i < j < out.len() implies entry_key(#[trigger] out[i]) != entry_key(
        #[trigger] out[j],
    ) by {
        assert(ok[i] == entry_key(out[i]) && ok[j] == entry_key(out[j]));
    }
}

/// The sum of a measure over the groups of the given keys.
pub open spec fn sum_over_keys(es: Seq<EntryV>, ks: Seq<Seq<char>>, keys: Seq<Seq<char>>, m: Measure, n: int) -> int
    decreases keys.len(),
{
    if keys.len() == 0 {
        0
    } else {
        sum_over_keys(es, ks, keys.drop_last(), m, n) + gsum(es, ks, keys.last(), m, n)
    }
}

proof fn lemma_sum_over_keys_step(es: Seq<EntryV>, ks: Seq<Seq<char>>, keys: Seq<Seq<char>>, m: Measure, n: int)
    requires
        0 <= n < ks.len(),
        keys.no_duplicates(),
    ensures
        sum_over_keys(es, ks, keys, m, n + 1) == sum_over_keys(es, ks, keys, m, n) + if keys.contains(ks[n]) {
            measure(m, es[n])
        } else {
            0
        },
    decreases keys.len(),
{
    if keys.len() > 0 {
        let p = keys.drop_last();
        assert(p.no_duplicates());
        lemma_sum_over_keys_step(es, ks, p, m, n);
        if keys.contains(ks[n]) {
            let i = choose|i: int| 0 <= i < keys.len() && keys[i] == ks[n];
            if i < p.len() {
                assert(p[i] == keys[i]);
                assert(p.contains(ks[n]));
                assert(keys.last() != ks[n]);
            } else {
                assert(!p.contains(ks[n])) by {
                    if p.contains(ks[n]) {
                        let q = choose|q: int| 0 <= q < p.len() && p[q] == ks[n];
                        assert(keys[q] == keys[i]);
                    }
                }
            }
        } else {
            assert(!p.contains(ks[n])) by {
                if p.contains(ks[n]) {
                    let q = choose|q: int| 0 <= q < p.len() && p[q] == ks[n];
                    assert(keys[q] == ks[n]);
                }
            }
            assert(keys.last() != ks[n]);
        }
    }
}

/// Grouping loses and repeats nothing: for any measure, the groups' sums
/// add up to the sum over all entries (so the usage by model, by day, by
/// project and by session each add up to the totals, and their entry
/// counts to the number of entries).
pub proof fn law_groups_add_up(es: Seq<EntryV>, ks: Seq<Seq<char>>, m: Measure, n: int)
    requires
        ks.len() == es.len(),
        0 <= n <= es.len(),
    ensures
        sum_over_keys(es, ks, gkeys(ks, n), m, n) == msum(es, m, n),
    decreases n,
{
    if n > 0 {
        let n1 = n - 1;
        law_groups_add_up(es, ks, m, n1);
        lemma_gkeys(ks, n1);
        let g = gkeys(ks, n1);
        assert(g.no_duplicates()) by {
            assert forall|a: int, b: int| 0 <= a < g.len() && 0 <= b < g.len() && a != b implies g[a] != g[b] by {
                if a < b {
                    assert(g[a] != g[b]);
                } else {
                    assert(g[b] != g[a]);
                }
            }
        }
        lemma_sum_over_keys_step(es, ks, g, m, n1);
        if !g.contains(ks[n1]) {
            let g2 = g.push(ks[n1]);
            assert(g2.drop_last() =~= g);
            assert forall|i: int| 0 <= i < n1 implies ks[i] != ks[n1] by {
                assert(g.contains(ks[i]));
            }
            lemma_absent(es, ks, ks[n1], n1, None);
            assert(gsum(es, ks, ks[n1], m, n1) == 0);
        }
    }
}

/// The usage by day runs from the latest day to the earliest, each day once,
/// and is a rearrangement of the days in order of first appearance.
pub proof fn law_days_latest_first(es: Seq<EntryV>)
    ensures
        daily_usage(es).len() == daily_groups(es).len(),
        forall|i: int, j: int|
            0 <= i < j < daily_usage(es).len() ==> lex_lt(
                #[trigger] daily_usage(es)[j].date,
                #[trigger] daily_usage(es)[i].date,
            ),
        daily_usage(es).to_multiset() == daily_groups(es).to_multiset(),
{
    let ds = daily_groups(es);
    let ks = crate::stats::date_keys(es);
    let n = es.len() as int;
    lemma_gkeys(ks, n);
    let keys = ds.map_values(|d: DailyV| date_sort_key(d));
    let dates = |d: DailyV| d.date;
    lemma_sorted_items_desc_props(keys, ds, |d: DailyV| date_sort_key(d), dates);
    lemma_sorted_items_desc_props(keys, ds, |d: DailyV| date_sort_key(d), |d: DailyV| d);
    assert(ds.map_values(|d: DailyV| d) =~= ds);
    let out = daily_usage(es);
    assert(out.map_values(|d: DailyV| d) =~= out);
    let dd = ds.map_values(dates);
    let od = out.map_values(dates);
    assert(dd.no_duplicates()) by {
        assert forall|a: int, b: int| 0 <= a < dd.len() && 0 <= b < dd.len() && a != b implies dd[a] != dd[b] by {
            assert(dd[a] == gkeys(ks, n)[a] && dd[b] == gkeys(ks, n)[b]);
            if a < b {
                assert(gkeys(ks, n)[a] != gkeys(ks, n)[b]);
            } else {
                assert(gkeys(ks, n)[b] != gkeys(ks, n)[a]);
            }
        }
    }
    dd.lemma_multiset_has_no_duplicates();
    od.lemma_multiset_has_no_duplicates_conv();
    assert forall|i: int, j: int| 0 <= i < j < out.len() implies lex_lt(
        #[trigger] out[j].date,
        #[trigger] out[i].date,
    ) by {
        assert(key_le(date_sort_key(out[j]), date_sort_key(out[i])));
        assert(od[i] == out[i].date && od[j] == out[j].date);
        crate::text::lemma_lex_total(out[i].date, out[j].date);
    }
}

/// The usage by session is ordered by last use (earliest first when
/// ascending, else latest first) and is a rearrangement of the sessions.
pub proof fn law_sessions_by_last_use(es: Seq<EntryV>, ascending: bool)
    ensures
        session_usage(es, ascending).len() == session_groups(es).len(),
        forall|i: int, j: int|
            0 <= i < j < session_usage(es, ascending).len() ==> if ascending {
                !lex_lt(
                    #[trigger] session_usage(es, ascending)[j].last_used,
                    #[trigger] session_usage(es, ascending)[i].last_used,
                )
            } else {
                !lex_lt(session_usage(es, ascending)[i].last_used, session_usage(es, ascending)[j].last_used)
            },
        session_usage(es, ascending).to_multiset() == session_groups(es).to_multiset(),
{
    let ps = session_groups(es);
    let keys = ps.map_values(|p: ProjectV| last_used_key(p));
    let out = session_usage(es, ascending);
    assert(ps.map_values(|p: ProjectV| p) =~= ps);
    assert(out.map_values(|p: ProjectV| p) =~= out);
    if ascending {
        lemma_sorted_items_props(keys, ps, |p: ProjectV| last_used_key(p), |p: ProjectV| p);
        assert forall|i: int, j: int| 0 <= i < j < out.len() implies !lex_lt(
            #[trigger] out[j].last_used,
            #[trigger] out[i].last_used,
        ) by {
            assert(key_le(last_used_key(out[i]), last_used_key(out[j])));
        }
    } else {
        lemma_sorted_items_desc_props(keys, ps, |p: ProjectV| last_used_key(p), |p: ProjectV| p);
        assert forall|i: int, j: int| 0 <= i < j < out.len() implies !lex_lt(
            #[trigger] out[i].last_used,
            #[trigger] out[j].last_used,
        ) by {
            assert(key_le(last_used_key(out[j]), last_used_key(out[i])));
        }
    }
}

/// The project list is newest first and is a rearrangement of the projects
/// scanned.
pub proof fn law_projects_newest_first(infos: Seq<CachedProjectV>)
    ensures
        ordered_projects(infos).len() == infos.len(),
        forall|i: int, j: int|
            0 <= i < j < infos.len() ==> #[trigger] ordered_projects(infos)[i].created_at
                >= #[trigger] ordered_projects(infos)[j].created_at,
        ordered_projects(infos).to_multiset() == infos.to_multiset(),
{
    let nums = infos.map_values(|p: CachedProjectV| p.created_at);
    lemma_sorted_by_num_desc_props(nums, infos, |p: CachedProjectV| p.created_at, |p: CachedProjectV| p);
    assert(infos.map_values(|p: CachedProjectV| p) =~= infos);
    let out = ordered_projects(infos);
    assert(out.map_values(|p: CachedProjectV| p) =~= out);
}

/// A cache filled at `t` stays fresh for exactly `limit` after `t`; one
/// never filled (or cleared) is always stale.
pub proof fn law_freshness(t: u64, now: u64, limit: u64)
    ensures
        !stale(Some(t), now, limit) <==> elapsed(t, now) <= limit,
        !stale(Some(t), t, limit),
        stale(None, now, limit),
{
}

proof fn lemma_no_char(s: Seq<char>, c: char)
    requires
        !contains(s, seq![c]),
    ensures
        forall|i: int| 0 <= i < s.len() ==> s[i] != c,
{
    assert forall|i: int| 0 <= i < s.len() implies s[i] != c by {
        if s[i] == c {
            assert(s.subrange(i, i + 1) =~= seq![c]);
            assert(occurs_at(s, seq![c], i));
        }
    }
}

proof fn lemma_last_piece_after(a: Seq<char>, b: Seq<char>, c: char)
    requires
        forall|i: int| 0 <= i < b.len() ==> b[i] != c,
    ensures
        last_piece(a + seq![c] + b, c) == b,
    decreases b.len(),
{
    let s = a + seq![c] + b;
    if b.len() == 0 {
        assert(s.last() == c);
        assert(s.skip(s.len() as int) =~= b);
    } else {
        let b1 = b.drop_last();
        lemma_last_piece_after(a, b1, c);
        assert(s.drop_last() =~= a + seq![c] + b1);
        assert(s.last() == b.last());
        assert(last_piece_start(s, c) == last_piece_start(s.drop_last(), c));
        crate::text::lemma_last_piece_start(s.drop_last(), c);
        assert(s.skip(a.len() + 1int) =~= b);
        assert((a + seq![c] + b1).skip(a.len() + 1int) =~= b1);
    }
}

/// A cache file never lies outside the cache directory: an accepted name
/// gives the path `home/.claudia/cache/name`, whose last piece is the name.
pub proof fn law_cache_file_in_cache_dir(home: Seq<char>, name: Seq<char>)
    requires
        cache_path_of(Some(home), name) is Ok,
    ensures
        ({
            let dir = path_join(path_join(home, ".claudia"@), "cache"@);
            &&& cache_path_of(Some(home), name) == Ok::<Seq<char>, Seq<char>>(dir + "/"@ + name)
            &&& last_piece(dir + "/"@ + name, '/') == name
        }),
{
    reveal_strlit("/");
    reveal_strlit("cache");
    reveal_strlit(".claudia");
    assert(valid_cache_name(name));
    assert("/"@ =~= seq!['/']);
    lemma_no_char(name, '/');
    let dir = path_join(path_join(home, ".claudia"@), "cache"@);
    assert(dir.len() > 0 && dir.last() == 'e');
    assert(dir + "/"@ + name =~= dir + seq!['/'] + name);
    lemma_last_piece_after(dir, name, '/');
}

/// Reading a project directory's name as a path leaves no `-` and keeps its length.
pub proof fn law_decoded_path(encoded: Seq<char>)
    ensures
        decoded_path(encoded).len() == encoded.len(),
        forall|i: int| 0 <= i < encoded.len() ==> #[trigger] decoded_path(encoded)[i] != '-',
{
}

/// The details asked for are entries that match, in their order; with no
/// project and no date, they are all entries.
pub proof fn law_details(es: Seq<EntryV>, project: Option<Seq<char>>, date: Option<Seq<char>>)
    ensures
        forall|i: int| 0 <= i < details_of(es, project, date).len() ==> detail_match(
            #[trigger] details_of(es, project, date)[i],
            project,
            date,
        ),
        details_of(es, None, None) == es,
    decreases es.len(),
{
    if es.len() > 0 {
        law_details(es.drop_last(), project, date);
        assert(es.drop_last().push(es.last()) =~= es);
        let rest = details_of(es.drop_last(), project, date);
        let all = details_of(es, project, date);
        assert forall|i: int| 0 <= i < all.len() implies detail_match(#[trigger] all[i], project, date) by {
            if i < rest.len() {
                assert(all[i] == rest[i]);
            }
        }
    }
}

/// The cached entries served for a range are entries of the cache whose
/// dates lie in the range, in order.
pub proof fn law_range_selection(es: Seq<EntryV>, start: Option<crate::dates::Day>, end: Option<crate::dates::Day>)
    ensures
        forall|i: int| 0 <= i < entries_in_range(es, start, end).len() ==> entry_in_range(
            #[trigger] entries_in_range(es, start, end)[i],
            start,
            end,
        ),
        entries_in_range(es, start, end).len() <= es.len(),
    decreases es.len(),
{
    if es.len() > 0 {
        law_range_selection(es.drop_last(), start, end);
    }
}

/// The usage entries read are the entries kept after dropping repeats,
/// rearranged (into time order): none is lost or added.
pub proof fn law_entries_rearranged(files: Seq<LogFileV>, start: Option<crate::dates::Day>, end: Option<crate::dates::Day>)
    ensures
        collected_entries(files, start, end).to_multiset() == dedupe(
            batches_from(planned_jobs(files, start, end), 0),
        ).0.to_multiset(),
{
    let d = dedupe(batches_from(planned_jobs(files, start, end), 0)).0;
    let keys = d.map_values(|e: EntryV| stamp_key(e));
    lemma_sorted_items_props(keys, d, |e: EntryV| stamp_key(e), |e: EntryV| e);
    let out = collected_entries(files, start, end);
    assert(out == by_timestamp(d));
    assert(out.map_values(|e: EntryV| e) =~= out);
    assert(d.map_values(|e: EntryV| e) =~= d);
}

proof fn lemma_jobs_qualify(files: Seq<LogFileV>, start: Option<crate::dates::Day>, end: Option<crate::dates::Day>)
    ensures
        forall|i: int| 0 <= i < jobs_in_range(jobs_of(files), start, end).len() ==> ({
            let j = #[trigger] jobs_in_range(jobs_of(files), start, end)[i];
            project_of(j.path) == Some(j.project) && keep_file(earliest_of(j.content), start, end)
        }),
{
    lemma_jobs_of_qualify(files);
    lemma_in_range_keeps(jobs_of(files), start, end);
}

proof fn lemma_jobs_of_qualify(files: Seq<LogFileV>)
    ensures
        forall|i: int| 0 <= i < jobs_of(files).len() ==> project_of((#[trigger] jobs_of(files)[i]).path)
            == Some(jobs_of(files)[i].project),
    decreases files.len(),
{
    if files.len() > 0 {
        lemma_jobs_of_qualify(files.drop_last());
        let rest = jobs_of(files.drop_last());
        let all = jobs_of(files);
        assert forall|i: int| 0 <= i < all.len() implies project_of((#[trigger] all[i]).path) == Some(
            all[i].project,
        ) by {
            if i < rest.len() {
                assert(all[i] == rest[i]);
            }
        }
    }
}

proof fn lemma_in_range_keeps(jobs: Seq<JobV>, start: Option<crate::dates::Day>, end: Option<crate::dates::Day>)
    ensures
        forall|i: int| 0 <= i < jobs_in_range(jobs, start, end).len() ==> ({
            let j = #[trigger] jobs_in_range(jobs, start, end)[i];
            keep_file(earliest_of(j.content), start, end) && jobs.contains(j)
        }),
    decreases jobs.len(),
{
    if jobs.len() > 0 {
        lemma_in_range_keeps(jobs.drop_last(), start, end);
        let rest = jobs_in_range(jobs.drop_last(), start, end);
        let all = jobs_in_range(jobs, start, end);
        assert forall|i: int| 0 <= i < all.len() implies ({
            let j = #[trigger] all[i];
            keep_file(earliest_of(j.content), start, end) && jobs.contains(j)
        }) by {
            if i < rest.len() {
                assert(all[i] == rest[i]);
                let k = choose|k: int| 0 <= k < jobs.drop_last().len() && jobs.drop_last()[k] == rest[i];
                assert(jobs[k] == rest[i]);
            } else {
                assert(jobs[jobs.len() - 1] == all[i]);
            }
        }
    }
}

/// The logs read are those under `projects/` (each with the project
/// directory its path names) whose earliest timestamp lets them count for
/// the range, and they are read oldest first (logs without a timestamp
/// before all others).
pub proof fn law_logs_read(files: Seq<LogFileV>, start: Option<crate::dates::Day>, end: Option<crate::dates::Day>)
    ensures
        forall|i: int| 0 <= i < planned_jobs(files, start, end).len() ==> ({
            let j = #[trigger] planned_jobs(files, start, end)[i];
            project_of(j.path) == Some(j.project) && keep_file(earliest_of(j.content), start, end)
        }),
        forall|i: int, k: int|
            0 <= i < k < planned_jobs(files, start, end).len() ==> key_le(
                job_key(#[trigger] planned_jobs(files, start, end)[i]),
                job_key(#[trigger] planned_jobs(files, start, end)[k]),
            ),
        planned_jobs(files, start, end).to_multiset() == jobs_in_range(jobs_of(files), start, end).to_multiset(),
{
    let js = jobs_in_range(jobs_of(files), start, end);
    lemma_jobs_qualify(files, start, end);
    let keys = js.map_values(|j: JobV| job_key(j));
    lemma_sorted_items_props(keys, js, |j: JobV| job_key(j), |j: JobV| j);
    let pr = |j: JobV| project_of(j.path) == Some(j.project) && keep_file(earliest_of(j.content), start, end);
    assert forall|i: int| 0 <= i < js.len() implies pr(#[trigger] js[i]) by {}
    lemma_sorted_items_all(keys, js, pr);
    let out = planned_jobs(files, start, end);
    assert(out == reading_order(js));
    assert forall|i: int| 0 <= i < out.len() implies ({
        let j = #[trigger] out[i];
        project_of(j.path) == Some(j.project) && keep_file(earliest_of(j.content), start, end)
    }) by {
        assert(pr(out[i]));
    }
    assert(out.map_values(|j: JobV| j) =~= out);
    assert(js.map_values(|j: JobV| j) =~= js);
}

/// The number of the first `n` lines counted under schema type `t`.
pub open spec fn schema_lines(lines: Seq<Seq<char>>, t: Seq<char>, n: int) -> int
    decreases n,
{
    if n <= 0 {
        0
    } else {
        schema_lines(lines, t, n - 1) + if counted_schema(lines[n - 1]) == Some(t) {
            1int
        } else {
            0int
        }
    }
}

/// The number of the first `n` lines that fail.
pub open spec fn failed_lines(strict: bool, lines: Seq<Seq<char>>, n: int) -> int
    decreases n,
{
    if n <= 0 {
        0
    } else {
        failed_lines(strict, lines, n - 1) + if line_fails(strict, lines[n - 1]) {
            1int
        } else {
            0int
        }
    }
}

/// The number of the first `n` lines that are not blank and were given as
/// invalid.
pub open spec fn invalid_lines(lines: Seq<Seq<char>>, results: Seq<JsonlEntry>, n: int) -> int
    decreases n,
{
    if n <= 0 {
        0
    } else {
        invalid_lines(lines, results, n - 1) + if results[n - 1] is Invalid && !all_ws(lines[n - 1]) {
            1int
        } else {
            0int
        }
    }
}

/// The loader's counts after the first `k` lines.
proof fn lemma_loader_prefix(lines: Seq<Seq<char>>, results: Seq<JsonlEntry>, states: Seq<JsonlLoader>, k: int)
    requires
        lines.len() < usize::MAX,
        results.len() == lines.len(),
        states.len() == lines.len() + 1,
        states[0].stats() == Map::<Seq<char>, usize>::empty(),
        states[0].errors() == 0,
        forall|i: int|
            #![trigger results[i]]
            0 <= i < lines.len() ==> line_step(states[i], lines[i], results[i], states[i + 1]),
        0 <= k <= lines.len(),
    ensures
        states[k].is_strict() == states[0].is_strict(),
        forall|t: Seq<char>| 0 <= #[trigger] schema_lines(lines, t, k) <= k,
        forall|t: Seq<char>| #[trigger] states[k].stats().contains_key(t) <==> schema_lines(lines, t, k) > 0,
        forall|t: Seq<char>|
            #[trigger] states[k].stats().contains_key(t) ==> states[k].stats()[t] == schema_lines(lines, t, k),
        states[k].errors() == failed_lines(states[0].is_strict(), lines, k),
        states[k].errors() == invalid_lines(lines, results, k),
    decreases k,
{
    if k > 0 {
        lemma_loader_prefix(lines, results, states, k - 1);
        let before = states[k - 1];
        let after = states[k];
        let line = lines[k - 1];
        assert(line_step(before, line, results[k - 1], states[(k - 1) + 1]));
        assert(states[(k - 1) + 1] == after);
        assert forall|t: Seq<char>| 0 <= #[trigger] schema_lines(lines, t, k) <= k by {
            assert(0 <= schema_lines(lines, t, k - 1) <= k - 1);
        }
        match counted_schema(line) {
            Some(t0) => {
                assert(after.stats() == crate::jsonl_loader::count_one(before.stats(), t0));
                assert(schema_lines(lines, t0, k - 1) <= k - 1);
                assert forall|t: Seq<char>| #[trigger] after.stats().contains_key(t) <==> schema_lines(lines, t, k)
                    > 0 by {
                    assert(before.stats().contains_key(t) <==> schema_lines(lines, t, k - 1) > 0);
                }
                assert forall|t: Seq<char>| #[trigger] after.stats().contains_key(t) implies after.stats()[t]
                    == schema_lines(lines, t, k) by {
                    assert(before.stats().contains_key(t) <==> schema_lines(lines, t, k - 1) > 0);
                    if before.stats().contains_key(t) {
                        assert(before.stats()[t] == schema_lines(lines, t, k - 1));
                    }
                }
            },
            None => {
                assert forall|t: Seq<char>| #[trigger] after.stats().contains_key(t) <==> schema_lines(lines, t, k)
                    > 0 by {
                    assert(before.stats().contains_key(t) <==> schema_lines(lines, t, k - 1) > 0);
                }
                assert forall|t: Seq<char>| #[trigger] after.stats().contains_key(t) implies after.stats()[t]
                    == schema_lines(lines, t, k) by {
                    assert(before.stats()[t] == schema_lines(lines, t, k - 1));
                }
            },
        }
    }
}

/// Parsing lines one by one with a new loader: the count of each schema
/// type is the number of lines of that type (a type no line has is not
/// counted at all), and the error count is the number of lines that fail,
/// which is also the number of non-blank lines given as invalid.
pub proof fn law_loader_counts(lines: Seq<Seq<char>>, results: Seq<JsonlEntry>, states: Seq<JsonlLoader>)
    requires
        lines.len() < usize::MAX,
        results.len() == lines.len(),
        states.len() == lines.len() + 1,
        states[0].stats() == Map::<Seq<char>, usize>::empty(),
        states[0].errors() == 0,
        forall|i: int|
            #![trigger results[i]]
            0 <= i < lines.len() ==> line_step(states[i], lines[i], results[i], states[i + 1]),
    ensures
        forall|t: Seq<char>|
            #[trigger] states.last().stats().contains_key(t) <==> schema_lines(lines, t, lines.len() as int) > 0,
        forall|t: Seq<char>|
            #[trigger] states.last().stats().contains_key(t) ==> states.last().stats()[t] == schema_lines(
                lines,
                t,
                lines.len() as int,
            ),
        states.last().errors() == failed_lines(states[0].is_strict(), lines, lines.len() as int),
        states.last().errors() == invalid_lines(lines, results, lines.len() as int),
{
    lemma_loader_prefix(lines, results, states, lines.len() as int);
    assert(states.last() == states[lines.len() as int]);
}

/// A requested date range whose bounds are written (`%Y-%m-%d`) as the
/// first and last days of the last `days` days is the range of the
/// statistics of those days, so both read the same usage entries.
pub proof fn law_range_matches_window(
    files: Seq<LogFileV>,
    today: Day,
    days: u32,
    first: Day,
    start_text: Seq<char>,
    end_text: Seq<char>,
)
    requires
        days_earlier(today, days as int) == Some(first),
        formatted_day(start_text, "%Y-%m-%d"@) == Ok::<Day, Seq<char>>(first),
        formatted_day(end_text, "%Y-%m-%d"@) == Ok::<Day, Seq<char>>(today),
    ensures
        requested_range(start_text, end_text) == Ok::<(Day, Day), Seq<char>>((first, today)),
        window_of(today, Some(days)) == Some((Some(first), Some(today))),
        collected_entries(files, Some(first), Some(today)) == collected_entries(
            files,
            window_of(today, Some(days))->Some_0.0,
            window_of(today, Some(days))->Some_0.1,
        ),
{
}

/// Both bounds of a date range are inclusive: a bound equal to the day
/// never leaves it out, so a day lies within the range from itself to
/// itself.
pub proof fn law_bounds_inclusive(d: Day, start: Option<Day>, end: Option<Day>)
    ensures
        crate::dates::within(d, start, Some(d)) == crate::dates::within(d, start, None),
        crate::dates::within(d, Some(d), end) == crate::dates::within(d, None, end),
        crate::dates::within(d, Some(d), Some(d)),
{
}

/// A project's latest session time is the greatest of the known
/// modification times of its session files (0 when none is known): no
/// known time is later, and, unless it is 0, one of them is it.
pub proof fn law_latest_session_time(files: Seq<Seq<char>>, times: Seq<Option<u64>>, n: int)
    requires
        0 <= n <= files.len(),
        n <= times.len(),
    ensures
        forall|i: int|
            0 <= i < n && crate::projects::session_of_file(files[i]) is Some && #[trigger] times[i] is Some
                ==> times[i]->Some_0 <= crate::projects::sessions_of(files, times, n).2,
        crate::projects::sessions_of(files, times, n).2 == 0 || exists|i: int|
            0 <= i < n && crate::projects::session_of_file(files[i]) is Some && #[trigger] times[i] == Some(
                crate::projects::sessions_of(files, times, n).2,
            ),
    decreases n,
{
    if n > 0 {
        law_latest_session_time(files, times, n - 1);
        let prev = crate::projects::sessions_of(files, times, n - 1).2;
        let cur = crate::projects::sessions_of(files, times, n).2;
        assert(cur >= prev);
        if cur != prev {
            assert(times[n - 1] == Some(cur));
        } else if prev != 0 {
            let i = choose|i: int|
                0 <= i < n - 1 && crate::projects::session_of_file(files[i]) is Some && #[trigger] times[i]
                    == Some(prev);
            assert(times[i] == Some(cur));
        }
    }
}

/// The timestamp a log line holds: its `timestamp` string when it is JSON.
pub open spec fn line_stamp(line: Seq<char>) -> Option<Seq<char>> {
    match crate::json::json_text_parse(line) {
        Ok(j) => crate::json::json_get_str(j, "timestamp"@),
        Err(_) => None,
    }
}

/// The first timestamp among some lines is that of the first line holding
/// one: lines without one (not JSON, or JSON without a timestamp) are
/// passed over; there is none only when no line holds one.
pub proof fn law_first_timestamp(lines: Seq<Seq<char>>)
    ensures
        forall|i: int|
            0 <= i < lines.len() && line_stamp(#[trigger] lines[i]) is Some && (forall|k: int|
                0 <= k < i ==> line_stamp(lines[k]) is None) ==> crate::collect::first_timestamp(lines)
                == line_stamp(lines[i]),
        (forall|i: int| 0 <= i < lines.len() ==> line_stamp(#[trigger] lines[i]) is None)
            ==> crate::collect::first_timestamp(lines) is None,
    decreases lines.len(),
{
    if lines.len() > 0 {
        let rest = lines.drop_first();
        law_first_timestamp(rest);
        assert forall|i: int|
            0 <= i < lines.len() && line_stamp(#[trigger] lines[i]) is Some && (forall|k: int|
                0 <= k < i ==> line_stamp(lines[k]) is None) implies crate::collect::first_timestamp(lines)
            == line_stamp(lines[i]) by {
            if i > 0 {
                assert(line_stamp(lines[0]) is None);
                assert(rest[i - 1] == lines[i]);
                assert forall|k: int| 0 <= k < i - 1 implies line_stamp(rest[k]) is None by {
                    assert(rest[k] == lines[k + 1]);
                }
            }
        }
        if forall|i: int| 0 <= i < lines.len() ==> line_stamp(#[trigger] lines[i]) is None {
            assert(line_stamp(lines[0]) is None);
            assert forall|i: int| 0 <= i < rest.len() implies line_stamp(#[trigger] rest[i]) is None by {
                assert(rest[i] == lines[i + 1]);
            }
        }
    }
}

/// A log's earliest timestamp is that of the first of its first ten lines
/// holding one; lines without one are passed over, and a log with none
/// in its first ten lines has none.
pub proof fn law_earliest_timestamp(content: Seq<char>)
    ensures
        forall|i: int|
            0 <= i < 10 && i < crate::text::lines_of(content).len() && line_stamp(
                #[trigger] crate::text::lines_of(content)[i],
            ) is Some && (forall|k: int| 0 <= k < i ==> line_stamp(crate::text::lines_of(content)[k]) is None)
                ==> crate::collect::earliest_of(Some(content)) == line_stamp(crate::text::lines_of(content)[i]),
        (forall|i: int|
            0 <= i < 10 && i < crate::text::lines_of(content).len() ==> line_stamp(
                #[trigger] crate::text::lines_of(content)[i],
            ) is None) ==> crate::collect::earliest_of(Some(content)) is None,
{
    let ls = crate::text::lines_of(content);
    let hl = crate::collect::head_lines(ls, 10);
    law_first_timestamp(hl);
    assert(hl.len() <= 10 && hl.len() <= ls.len());
    assert(forall|i: int| 0 <= i < hl.len() ==> hl[i] == ls[i]);
    assert(hl.len() == ls.len() || hl.len() == 10);
    assert forall|i: int|
        0 <= i < 10 && i < ls.len() && line_stamp(#[trigger] ls[i]) is Some && (forall|k: int|
            0 <= k < i ==> line_stamp(ls[k]) is None) implies crate::collect::earliest_of(Some(content))
        == line_stamp(ls[i]) by {
        assert(hl[i] == ls[i]);
        assert forall|k: int| 0 <= k < i implies line_stamp(hl[k]) is None by {
            assert(hl[k] == ls[k]);
        }
    }
    if forall|i: int| 0 <= i < 10 && i < ls.len() ==> line_stamp(#[trigger] ls[i]) is None {
        assert forall|i: int| 0 <= i < hl.len() implies line_stamp(#[trigger] hl[i]) is None by {
            assert(hl[i] == ls[i]);
        }
    }
}

/// The `k`-th field of a record read from an object's members is read from
/// the member named as that field.
proof fn lemma_member_value(level: nat, s: crate::decode::Shape, es: Seq<(Seq<char>, crate::json::JsonV)>, i: int, k: int)
    requires
        0 <= i,
        0 <= k,
        i + k < crate::decode::shape_fields(s).len(),
    ensures
        crate::decode::member_values(level, s, es, i).len() > k,
        crate::decode::member_values(level, s, es, i)[k] == crate::decode::field_value(
            level,
            crate::decode::shape_fields(s)[i + k],
            crate::json::obj_get(es, crate::decode::shape_fields(s)[i + k].name@),
        ),
    decreases k,
{
    if k > 0 {
        lemma_member_value(level, s, es, i + 1, k - 1);
    }
}

/// An entry read from a log line that reports a cost (`costUSD`, a number)
/// takes that cost, whatever its model: the model's prices stand in only
/// for a cost the line does not report. Reading a line adds at most one
/// entry.
pub proof fn law_reported_cost(
    st: crate::usage::ScanV,
    line: Seq<char>,
    sid: Seq<char>,
    enc: Seq<char>,
    j: crate::json::JsonV,
    x: crate::json::NumV,
)
    requires
        crate::json::json_text_parse(line) == Ok::<crate::json::JsonV, Seq<char>>(j),
        crate::json::json_get(j, "costUSD"@) == Some(crate::json::JsonV::Num(x)),
    ensures
        ({
            let after = crate::usage::usage_line(st, line, sid, enc);
            &&& after.entries.len() == st.entries.len() || after.entries.len() == st.entries.len() + 1
            &&& after.entries.len() == st.entries.len() + 1 ==> after.entries.last().cost
                == crate::usage::CostBasisV::Reported(crate::json::JsonV::Num(x))
        }),
{
    let es = j->Obj_0;
    let s = crate::decode::Shape::LogEntry;
    lemma_member_value(2, s, es, 0, 4);
    let f = crate::decode::shape_fields(s)[4];
    assert(f.name@ == "costUSD"@);
    assert(crate::json::obj_get(es, "costUSD"@) == Some(crate::json::JsonV::Num(x)));
    assert(crate::decode::field_value(2, f, Some(crate::json::JsonV::Num(x))) == crate::decode::DecV::Json(
        crate::json::JsonV::Num(x),
    ));
    match crate::decode::decode_record(2, s, j) {
        Ok(rv) => {
            assert(rv.fields == crate::decode::member_values(2, s, es, 0));
            assert(crate::decode::d_opt_json(crate::decode::at(rv.fields, 4)) == Some(
                crate::json::JsonV::Num(x),
            ));
        },
        Err(_) => {},
    }
}

/// An entry read from a log line that reports no cost takes the price list
/// of its message's model, and that model is the entry's.
pub proof fn law_rated_cost(
    st: crate::usage::ScanV,
    line: Seq<char>,
    sid: Seq<char>,
    enc: Seq<char>,
    j: crate::json::JsonV,
    mj: crate::json::JsonV,
    m: Seq<char>,
)
    requires
        crate::json::json_text_parse(line) == Ok::<crate::json::JsonV, Seq<char>>(j),
        crate::json::json_get(j, "costUSD"@) is None,
        crate::json::json_get(j, "message"@) == Some(mj),
        crate::json::json_get(mj, "model"@) == Some(crate::json::JsonV::Str(m)),
    ensures
        ({
            let after = crate::usage::usage_line(st, line, sid, enc);
            after.entries.len() == st.entries.len() + 1 ==> after.entries.last().cost
                == crate::usage::CostBasisV::Rated(crate::usage::tier_of(m)) && after.entries.last().model == m
        }),
{
    let es = j->Obj_0;
    let mes = mj->Obj_0;
    let s = crate::decode::Shape::LogEntry;
    let ms = crate::decode::Shape::LogMessage;
    lemma_member_value(2, s, es, 0, 1);
    lemma_member_value(2, s, es, 0, 4);
    lemma_member_value(1, ms, mes, 0, 1);
    assert(crate::decode::shape_fields(s)[1].name@ == "message"@);
    assert(crate::decode::shape_fields(s)[4].name@ == "costUSD"@);
    assert(crate::decode::shape_fields(ms)[1].name@ == "model"@);
    assert(crate::json::obj_get(es, "costUSD"@) is None);
    assert(crate::json::obj_get(es, "message"@) == Some(mj));
    assert(crate::json::obj_get(mes, "model"@) == Some(crate::json::JsonV::Str(m)));
    match crate::decode::decode_record(2, s, j) {
        Ok(rv) => {
            assert(rv.fields == crate::decode::member_values(2, s, es, 0));
            assert(crate::decode::d_opt_json(crate::decode::at(rv.fields, 4)) is None);
            match crate::decode::decode_record(1, ms, mj) {
                Ok(r) => {
                    assert(r.fields == crate::decode::member_values(1, ms, mes, 0));
                    assert(crate::decode::at(rv.fields, 1) == crate::decode::DecV::Fields(r.fields));
                    assert(crate::decode::d_opt_str(crate::decode::at(r.fields, 1)) == Some(m));
                },
                Err(_) => {
                    assert(crate::decode::at(rv.fields, 1) == crate::decode::DecV::Absent);
                },
            }
        },
        Err(_) => {},
    }
}

/// The day order of date ranges is the calendar's: by year, then month,
/// then day; a range with both bounds holds the days that each bound holds.
pub proof fn law_day_order(d: Day, start: Option<Day>, end: Option<Day>, e: Day)
    ensures
        crate::dates::within(d, None, Some(e)) == (d.year < e.year || (d.year == e.year && (d.month < e.month
            || (d.month == e.month && d.day <= e.day)))),
        crate::dates::within(d, Some(e), None) == (e.year < d.year || (e.year == d.year && (e.month < d.month
            || (e.month == d.month && e.day <= d.day)))),
        crate::dates::within(d, start, end) == (crate::dates::within(d, start, None) && crate::dates::within(
            d,
            None,
            end,
        )),
        crate::dates::within(d, None, None),
{
}

/// The number of the first `n` files that name a session.
pub open spec fn session_file_count(files: Seq<Seq<char>>, n: int) -> int
    decreases n,
{
    if n <= 0 {
        0
    } else {
        session_file_count(files, n - 1) + if crate::projects::session_of_file(files[n - 1]) is Some {
            1int
        } else {
            0int
        }
    }
}

/// A project has one session per session file it lists (whether or not the
/// file's modification time is known), each the session that file names,
/// and a known time for exactly the files whose time is known.
pub proof fn law_sessions_listed(files: Seq<Seq<char>>, times: Seq<Option<u64>>, n: int)
    requires
        0 <= n <= files.len(),
        n <= times.len(),
    ensures
        crate::projects::sessions_of(files, times, n).0.len() == session_file_count(files, n),
        crate::projects::sessions_of(files, times, n).1.len() <= crate::projects::sessions_of(files, times, n).0.len(),
        forall|k: int|
            #![trigger crate::projects::sessions_of(files, times, n).0[k]]
            0 <= k < crate::projects::sessions_of(files, times, n).0.len() ==> exists|i: int|
                0 <= i < n && crate::projects::session_of_file(#[trigger] files[i]) == Some(
                    crate::projects::sessions_of(files, times, n).0[k],
                ),
        forall|k: int|
            #![trigger crate::projects::sessions_of(files, times, n).1[k]]
            0 <= k < crate::projects::sessions_of(files, times, n).1.len() ==> exists|i: int|
                0 <= i < n && crate::projects::session_of_file(#[trigger] files[i]) is Some && times[i] == Some(
                    crate::projects::sessions_of(files, times, n).1[k].1,
                ) && files[i] == crate::projects::sessions_of(files, times, n).1[k].0,
    decreases n,
{
    if n > 0 {
        law_sessions_listed(files, times, n - 1);
        let (ids0, meta0, l0) = crate::projects::sessions_of(files, times, n - 1);
        let (ids, meta, l) = crate::projects::sessions_of(files, times, n);
        assert forall|k: int| #![trigger ids[k]] 0 <= k < ids.len() implies exists|i: int|
            0 <= i < n && crate::projects::session_of_file(#[trigger] files[i]) == Some(ids[k]) by {
            if k < ids0.len() {
                assert(ids[k] == ids0[k]);
            } else {
                assert(crate::projects::session_of_file(files[n - 1]) == Some(ids[k]));
            }
        }
        assert forall|k: int| #![trigger meta[k]] 0 <= k < meta.len() implies exists|i: int|
            0 <= i < n && crate::projects::session_of_file(#[trigger] files[i]) is Some && times[i] == Some(
                meta[k].1,
            ) && files[i] == meta[k].0 by {
            if k < meta0.len() {
                assert(meta[k] == meta0[k]);
            } else {
                assert(files[n - 1] == meta[k].0);
            }
        }
    }
}

} // verus!

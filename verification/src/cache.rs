//! The in-memory caches of usage entries and of projects, and the rules by
//! which they and their copies on disk are trusted. Times come from the
//! caller: `now` is a monotonic clock reading in nanoseconds for the memory
//! caches, and seconds since the Unix epoch for the disk copies.
use vstd::prelude::*;
use crate::usage::{UsageEntry, EntryV, entry_views, copy_entries, copy_entry};
use crate::keyed::StrMap;
use crate::dates::{Day, within, rfc3339_day, parse_rfc3339_day, day_within};

verus! {

/// The version of the disk cache formats.
pub const CACHE_VERSION: u32 = 1;
/// How long the disk copy of the usage cache is valid, in seconds.
pub const USAGE_CACHE_TTL: u64 = 1800;
/// How long the disk copy of the projects cache is valid, in seconds.
pub const PROJECTS_CACHE_TTL: u64 = 300;
/// How long the usage cache in memory is fresh, in nanoseconds.
pub const USAGE_FRESH_NANOS: u64 = 300_000_000_000;
/// How long the projects cache in memory is fresh, in nanoseconds.
pub const PROJECTS_FRESH_NANOS: u64 = 60_000_000_000;

/// The time from `since` to `now`, as `Instant::elapsed` gives it: zero
/// when `now` is not later.
pub open spec fn elapsed(since: u64, now: u64) -> int {
    if now >= since {
        now - since
    } else {
        0
    }
}

/// A cache last updated at `last` (never, when `None`) is stale at `now`
/// once more than `limit` has passed.
pub open spec fn stale(last: Option<u64>, now: u64, limit: u64) -> bool {
    match last {
        None => true,
        Some(t) => elapsed(t, now) > limit,
    }
}

fn stale_exec(last: Option<u64>, now: u64, limit: u64) -> (r: bool)
    ensures
        r == stale(last, now, limit),
{
    match last {
        None => true,
        Some(t) => {
            let e = if now >= t {
                now - t
            } else {
                0
            };
            e > limit
        },
    }
}

/// Whether a disk cache file last modified at `modified` is still valid at
/// `now` (seconds).
pub open spec fn disk_fresh(modified: u64, now: u64, ttl: u64) -> bool {
    now <= modified + ttl
}

/// Whether a disk cache file is still valid (see `disk_fresh`).
pub fn disk_cache_fresh(modified: u64, now: u64, ttl: u64) -> (r: bool)
    requires
        modified + ttl <= u64::MAX,
    ensures
        r == disk_fresh(modified, now, ttl),
{
    now <= modified + ttl
}

/// Whether the data of a disk cache may be used: it has the current
/// version and, at `now`, has not outlived its time to live.
pub open spec fn data_usable(version: u32, last_updated: u64, ttl: u64, now: u64) -> bool {
    version == CACHE_VERSION && !(now > last_updated + ttl)
}

/// Whether the data of a disk cache may be used (see `data_usable`).
pub fn cache_data_usable(version: u32, last_updated: u64, ttl: u64, now: u64) -> (r: bool)
    requires
        version == CACHE_VERSION ==> last_updated + ttl <= u64::MAX,
    ensures
        r == data_usable(version, last_updated, ttl, now),
{
    if version != CACHE_VERSION {
        return false;
    }
    !(now > last_updated + ttl)
}

/// The whole seconds in `elapsed(since, now)`.
pub open spec fn whole_seconds(since: u64, now: u64) -> int {
    elapsed(since, now) / 1_000_000_000
}

fn seconds_exec(since: u64, now: u64) -> (r: u64)
    ensures
        r == whole_seconds(since, now),
{
    let e = if now >= since {
        now - since
    } else {
        0
    };
    e / 1_000_000_000
}

/// Whether an entry's timestamp is an RFC 3339 time whose local date lies
/// in the range.
pub open spec fn entry_in_range(e: EntryV, start: Option<Day>, end: Option<Day>) -> bool {
    match rfc3339_day(e.timestamp) {
        Ok(d) => within(d, start, end),
        Err(_) => false,
    }
}

/// The entries whose timestamps lie in the range, in order.
pub open spec fn entries_in_range(es: Seq<EntryV>, start: Option<Day>, end: Option<Day>) -> Seq<EntryV>
    decreases es.len(),
{
    if es.len() == 0 {
        Seq::empty()
    } else {
        let rest = entries_in_range(es.drop_last(), start, end);
        if entry_in_range(es.last(), start, end) {
            rest.push(es.last())
        } else {
            rest
        }
    }
}

/// Copies of the entries whose timestamps lie in the range (see `entries_in_range`).
pub fn select_in_range(es: &Vec<UsageEntry>, start: Option<Day>, end: Option<Day>) -> (r: Vec<UsageEntry>)
    ensures
        entry_views(r@) == entries_in_range(entry_views(es@), start, end),
{
    let ghost ev = entry_views(es@);
    let mut r: Vec<UsageEntry> = Vec::new();
    let mut i: usize = 0;
    while i < es.len()
        invariant
            i <= es@.len(),
            ev == entry_views(es@),
            entry_views(r@) == entries_in_range(ev.take(i as int), start, end),
        decreases es.len() - i,
    {
        let ghost cur = ev.take(i + 1);
        assert(cur.drop_last() =~= ev.take(i as int));
        assert(cur.last() == es@[i as int].view_v());
        let keep = match parse_rfc3339_day(es[i].timestamp.as_str()) {
            Ok(d) => day_within(d, start, end),
            Err(_) => false,
        };
        if keep {
            let ghost before = r@;
            r.push(copy_entry(&es[i]));
            assert(entry_views(r@) =~= entry_views(before).push(es@[i as int].view_v()));
        }
        i = i + 1;
    }
    assert(ev.take(es@.len() as int) =~= ev);
    r
}

/// The map that a list of pairs builds when each is inserted in turn: a
/// later pair replaces an earlier one with the same key.
pub open spec fn pairs_map<V>(ps: Seq<(String, V)>) -> Map<Seq<char>, V>
    decreases ps.len(),
{
    if ps.len() == 0 {
        Map::empty()
    } else {
        pairs_map(ps.drop_last()).insert(ps.last().0@, ps.last().1)
    }
}

/// A map built by inserting the pairs in turn (see `pairs_map`).
pub fn map_of_pairs<V>(ps: Vec<(String, V)>) -> (m: StrMap<V>)
    ensures
        m.wf(),
        m.view_map() == pairs_map(ps@),
{
    let ghost pv = ps@;
    let ghost n = ps@.len() as int;
    let mut src = crate::order::reversed(ps);
    let mut m: StrMap<V> = StrMap::new();
    let ghost mut done: int = 0;
    while src.len() > 0
        invariant
            0 <= done <= n,
            pv.len() == n,
            done + src@.len() == n,
            forall|q: int| 0 <= q < src@.len() ==> #[trigger] src@[q] == pv[n - 1 - q],
            m.wf(),
            m.view_map() == pairs_map(pv.take(done)),
        decreases src.len(),
    {
        let p = src.pop().unwrap();
        assert(p == pv[done]);
        let ghost cur = pv.take(done + 1);
        assert(cur.drop_last() =~= pv.take(done));
        assert(cur.last() == pv[done]);
        m.insert(p.0, p.1);
        proof {
            done = done + 1;
        }
    }
    assert(pv.take(n) =~= pv);
    m
}

/// The usage entries last read, with the earliest timestamp of each log.
pub struct UsageCache {
    pub entries: Vec<UsageEntry>,
    /// When the cache was last filled (never, when `None`).
    pub last_updated: Option<u64>,
    /// Log path → earliest timestamp.
    pub file_timestamps: StrMap<String>,
}

impl UsageCache {
    pub open spec fn wf(&self) -> bool {
        self.file_timestamps.wf()
    }

    /// An empty cache, never filled.
    pub fn new() -> (c: Self)
        ensures
            c.wf(),
            c.entries@.len() == 0,
            c.last_updated is None,
            c.file_timestamps.view_map() == Map::<Seq<char>, String>::empty(),
    {
        UsageCache { entries: Vec::new(), last_updated: None, file_timestamps: StrMap::new() }
    }

    /// Stale when never filled or filled more than five minutes ago.
    pub fn is_stale(&self, now: u64) -> (r: bool)
        ensures
            r == stale(self.last_updated, now, USAGE_FRESH_NANOS),
    {
        stale_exec(self.last_updated, now, USAGE_FRESH_NANOS)
    }

    /// Fills the cache at `now`.
    pub fn update(&mut self, entries: Vec<UsageEntry>, file_timestamps: Vec<(String, String)>, now: u64)
        ensures
            final(self).wf(),
            final(self).entries@ == entries@,
            final(self).file_timestamps.view_map() == pairs_map(file_timestamps@),
            final(self).last_updated == Some(now),
    {
        self.entries = entries;
        self.file_timestamps = map_of_pairs(file_timestamps);
        self.last_updated = Some(now);
    }

    /// Empties the cache and forgets when it was filled.
    pub fn clear(&mut self)
        ensures
            final(self).wf(),
            final(self).entries@.len() == 0,
            final(self).file_timestamps.view_map() == Map::<Seq<char>, String>::empty(),
            final(self).last_updated is None,
    {
        self.entries = Vec::new();
        self.file_timestamps = StrMap::new();
        self.last_updated = None;
    }

    /// Whether the copy on disk should be tried: the cache is stale or empty.
    pub fn wants_reload(&self, now: u64) -> (r: bool)
        ensures
            r == (stale(self.last_updated, now, USAGE_FRESH_NANOS) || self.entries@.len() == 0),
    {
        self.is_stale(now) || self.entries.len() == 0
    }

    /// The cached entries, when the cache is fresh and not empty: all of
    /// them, or, when a bound is given, those in the range.
    pub fn cached_entries(&self, now: u64, start: Option<Day>, end: Option<Day>) -> (r: Option<Vec<UsageEntry>>)
        ensures
            match r {
                None => stale(self.last_updated, now, USAGE_FRESH_NANOS) || self.entries@.len() == 0,
                Some(v) => !stale(self.last_updated, now, USAGE_FRESH_NANOS) && self.entries@.len() > 0
                    && entry_views(v@) == if start is None && end is None {
                    entry_views(self.entries@)
                } else {
                    entries_in_range(entry_views(self.entries@), start, end)
                },
            },
    {
        if self.is_stale(now) || self.entries.len() == 0 {
            return None;
        }
        if start.is_some() || end.is_some() {
            Some(select_in_range(&self.entries, start, end))
        } else {
            Some(copy_entries(&self.entries))
        }
    }

    /// Whole seconds since the cache was filled; zero when it never was.
    pub fn seconds_since_update(&self, now: u64) -> (r: u64)
        ensures
            r == match self.last_updated {
                Some(t) => whole_seconds(t, now),
                None => 0,
            },
    {
        match self.last_updated {
            Some(t) => seconds_exec(t, now),
            None => 0,
        }
    }
}

} // verus!

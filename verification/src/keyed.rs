//! A map from strings to values that keeps its keys in first-insertion order.
use vstd::prelude::*;

verus! {

/// A map keyed by strings; each key occurs once, in the order of its first insertion.
pub struct StrMap<V> {
    entries: Vec<(String, V)>,
}

/// The map that a list of distinct-keyed entries describes.
pub open spec fn entries_map<V>(es: Seq<(String, V)>) -> Map<Seq<char>, V>
    decreases es.len(),
{
    if es.len() == 0 {
        Map::empty()
    } else {
        entries_map(es.drop_last()).insert(es.last().0@, es.last().1)
    }
}

/// The keys of the entries, in order.
pub open spec fn entry_keys<V>(es: Seq<(String, V)>) -> Seq<Seq<char>> {
    es.map_values(|e: (String, V)| e.0@)
}

pub open spec fn keys_distinct<V>(es: Seq<(String, V)>) -> bool {
    forall|i: int, j: int| 0 <= i < j < es.len() ==> (#[trigger] es[i]).0@ != (#[trigger] es[j]).0@
}

pub proof fn lemma_entries_map<V>(es: Seq<(String, V)>)
    requires
        keys_distinct(es),
    ensures
        forall|i: int| 0 <= i < es.len() ==> #[trigger] entries_map(es).contains_key(es[i].0@)
            && entries_map(es)[es[i].0@] == es[i].1,
        forall|k: Seq<char>| #[trigger]
            entries_map(es).contains_key(k) ==> exists|i: int| 0 <= i < es.len() && es[i].0@ == k,
        entries_map(es).dom().finite(),
        entries_map(es).dom().len() == es.len(),
    decreases es.len(),
{
    if es.len() > 0 {
        let p = es.drop_last();
        assert(keys_distinct(p)) by {
            assert forall|i: int, j: int| 0 <= i < j < p.len() implies (#[trigger] p[i]).0@ != (
            #[trigger] p[j]).0@ by {
                assert(p[i] == es[i] && p[j] == es[j]);
            }
        }
        lemma_entries_map(p);
        assert(!entries_map(p).contains_key(es.last().0@)) by {
            if entries_map(p).contains_key(es.last().0@) {
                let i = choose|i: int| 0 <= i < p.len() && p[i].0@ == es.last().0@;
                assert(es[i] == p[i]);
            }
        }
        assert forall|i: int| 0 <= i < es.len() implies #[trigger] entries_map(es).contains_key(
            es[i].0@,
        ) && entries_map(es)[es[i].0@] == es[i].1 by {
            if i < es.len() - 1 {
                assert(p[i] == es[i]);
            }
        }
        assert forall|k: Seq<char>| #[trigger]
            entries_map(es).contains_key(k) implies exists|i: int|
            0 <= i < es.len() && es[i].0@ == k by {
            if k != es.last().0@ {
                let i = choose|i: int| 0 <= i < p.len() && p[i].0@ == k;
                assert(es[i] == p[i]);
            } else {
                assert(es[es.len() - 1].0@ == k);
            }
        }
    }
}

impl<V> StrMap<V> {
    /// The key/value pairs, each key once.
    pub open spec fn view_map(&self) -> Map<Seq<char>, V> {
        entries_map(self.entry_seq())
    }

    /// The keys in order of first insertion.
    pub open spec fn key_order(&self) -> Seq<Seq<char>> {
        entry_keys(self.entry_seq())
    }

    /// The entries in order of first insertion.
    pub closed spec fn entry_seq(&self) -> Seq<(String, V)> {
        self.entries@
    }

    pub open spec fn wf(&self) -> bool {
        keys_distinct(self.entry_seq())
    }

    pub fn new() -> (m: Self)
        ensures
            m.wf(),
            m.entry_seq() == Seq::<(String, V)>::empty(),
            m.view_map() == Map::<Seq<char>, V>::empty(),
    {
        StrMap { entries: Vec::new() }
    }

    /// The number of keys.
    pub fn len(&self) -> (n: usize)
        ensures
            n == self.entry_seq().len(),
    {
        self.entries.len()
    }

    /// The `i`-th entry in first-insertion order.
    pub fn entry(&self, i: usize) -> (e: &(String, V))
        requires
            i < self.entry_seq().len(),
        ensures
            *e == self.entry_seq()[i as int],
    {
        &self.entries[i]
    }

    /// The position of `key`, if present.
    pub fn position(&self, key: &String) -> (r: Option<usize>)
        requires
            self.wf(),
        ensures
            match r {
                Some(i) => i < self.entry_seq().len() && self.entry_seq()[i as int].0@ == key@,
                None => forall|i: int|
                    0 <= i < self.entry_seq().len() ==> (#[trigger] self.entry_seq()[i]).0@
                        != key@,
            },
            r is Some <==> self.view_map().contains_key(key@),
    {
        proof {
            lemma_entries_map(self.entries@);
        }
        let mut i: usize = 0;
        while i < self.entries.len()
            invariant
                i <= self.entries@.len(),
                keys_distinct(self.entries@),
                forall|k: int| 0 <= k < i ==> (#[trigger] self.entries@[k]).0@ != key@,
            decreases self.entries.len() - i,
        {
            if self.entries[i].0 == *key {
                proof {
                    lemma_entries_map(self.entries@);
                }
                assert(entries_map(self.entries@).contains_key(self.entries@[i as int].0@));
                return Some(i);
            }
            i = i + 1;
        }
        None
    }

    /// The value under `key`, if present.
    pub fn get(&self, key: &String) -> (r: Option<&V>)
        requires
            self.wf(),
        ensures
            match r {
                Some(v) => self.view_map().contains_key(key@) && *v == self.view_map()[key@],
                None => !self.view_map().contains_key(key@),
            },
    {
        proof {
            lemma_entries_map(self.entries@);
        }
        match self.position(key) {
            Some(i) => Some(&self.entries[i].1),
            None => None,
        }
    }

    /// Sets `key` to `value`: a present key keeps its place, a new key goes last.
    pub fn insert(&mut self, key: String, value: V)
        requires
            old(self).wf(),
        ensures
            final(self).wf(),
            final(self).view_map() == old(self).view_map().insert(key@, value),
            old(self).view_map().contains_key(key@) ==> final(self).key_order() == old(self).key_order(),
            !old(self).view_map().contains_key(key@) ==> final(self).key_order() == old(self).key_order().push(key@),
    {
        proof {
            lemma_entries_map(self.entries@);
        }
        match self.position(&key) {
            Some(i) => {
                let ghost old_es = self.entries@;
                self.entries.set(i, (key, value));
                proof {
                    let es = self.entries@;
                    assert(keys_distinct(es)) by {
                        assert forall|a: int, b: int| 0 <= a < b < es.len() implies (
                        #[trigger] es[a]).0@ != (#[trigger] es[b]).0@ by {
                            assert(old_es[a].0@ != old_es[b].0@);
                        }
                    }
                    lemma_entries_map(es);
                    assert(entries_map(es) =~= entries_map(old_es).insert(key@, value)) by {
                        assert forall|k: Seq<char>| #[trigger]
                            entries_map(es).contains_key(k) implies entries_map(
                            old_es,
                        ).insert(key@, value).contains_key(k) by {
                            let q = choose|q: int| 0 <= q < es.len() && es[q].0@ == k;
                            assert(es[q].0@ == old_es[q].0@);
                        }
                        assert forall|k: Seq<char>| #[trigger]
                            entries_map(old_es).insert(key@, value).contains_key(k) implies entries_map(
                            es,
                        ).contains_key(k) && entries_map(es)[k] == entries_map(old_es).insert(
                            key@,
                            value,
                        )[k] by {
                            if k != key@ {
                                let q = choose|q: int| 0 <= q < old_es.len() && old_es[q].0@ == k;
                                assert(es[q] == old_es[q]);
                            } else {
                                assert(es[i as int].0@ == k);
                            }
                        }
                    }
                    assert(entry_keys(es) =~= entry_keys(old_es));
                }
            },
            None => {
                let ghost old_es = self.entries@;
                self.entries.push((key, value));
                proof {
                    let es = self.entries@;
                    assert(es.drop_last() =~= old_es);
                    assert(keys_distinct(es)) by {
                        assert forall|a: int, b: int| 0 <= a < b < es.len() implies (
                        #[trigger] es[a]).0@ != (#[trigger] es[b]).0@ by {
                            if b < es.len() - 1 {
                                assert(old_es[a].0@ != old_es[b].0@);
                            } else {
                                assert(old_es[a] == es[a]);
                            }
                        }
                    }
                    assert(entry_keys(es) =~= entry_keys(old_es).push(key@));
                }
            },
        }
    }
}

} // verus!

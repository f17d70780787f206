//! Stable ordering of items by optional text keys.
//!
//! A key is an optional string: absent keys come first, present keys follow
//! in the order of `String`'s `Ord`. Items with equal keys keep their order,
//! as a stable sort keeps them.
use vstd::prelude::*;
use crate::text::{lex_lt, chars_lt, lemma_lex_trans, lemma_lex_total, lemma_lex_asym};

verus! {

/// A sort key: `present == false` for an absent key (its text is then unused).
pub struct SortKey {
    pub present: bool,
    pub text: Vec<char>,
}

pub open spec fn key_of(k: SortKey) -> (bool, Seq<char>) {
    (k.present, if k.present { k.text@ } else { Seq::empty() })
}

/// Strict order on keys: absent before present, present keys by text.
pub open spec fn key_lt(a: (bool, Seq<char>), b: (bool, Seq<char>)) -> bool {
    if a.0 != b.0 {
        !a.0
    } else {
        lex_lt(a.1, b.1)
    }
}

pub proof fn lemma_key_trans(a: (bool, Seq<char>), b: (bool, Seq<char>), c: (bool, Seq<char>))
    requires
        key_lt(a, b),
        key_lt(b, c),
    ensures
        key_lt(a, c),
{
    if a.0 == b.0 && b.0 == c.0 {
        lemma_lex_trans(a.1, b.1, c.1);
    }
}

pub proof fn lemma_key_total(a: (bool, Seq<char>), b: (bool, Seq<char>))
    ensures
        key_lt(a, b) || key_lt(b, a) || (a.0 == b.0 && a.1 == b.1),
{
    if a.0 == b.0 {
        lemma_lex_total(a.1, b.1);
    }
}

pub proof fn lemma_key_asym(a: (bool, Seq<char>), b: (bool, Seq<char>))
    requires
        key_lt(a, b),
    ensures
        !key_lt(b, a),
{
    if a.0 == b.0 {
        lemma_lex_asym(a.1, b.1);
    }
}

/// `!key_lt(b, a)`: a is not after b.
pub open spec fn key_le(a: (bool, Seq<char>), b: (bool, Seq<char>)) -> bool {
    !key_lt(b, a)
}

pub proof fn lemma_key_lt_le(a: (bool, Seq<char>), b: (bool, Seq<char>), c: (bool, Seq<char>))
    requires
        key_lt(a, b),
        key_le(b, c),
    ensures
        key_lt(a, c),
{
    lemma_key_total(b, c);
    if key_lt(b, c) {
        lemma_key_trans(a, b, c);
    } else {
        assert(b == c);
    }
}

/// Inserting `x` after the pairs whose keys are not after its key.
pub open spec fn insert_keyed<T>(s: Seq<((bool, Seq<char>), T)>, x: ((bool, Seq<char>), T)) -> Seq<
    ((bool, Seq<char>), T),
>
    decreases s.len(),
{
    if s.len() == 0 {
        seq![x]
    } else if key_lt(x.0, s[0].0) {
        seq![x] + s
    } else {
        seq![s[0]] + insert_keyed(s.drop_first(), x)
    }
}

/// The pairs stably sorted by key (insertion sort).
pub open spec fn sort_keyed<T>(s: Seq<((bool, Seq<char>), T)>) -> Seq<((bool, Seq<char>), T)>
    decreases s.len(),
{
    if s.len() == 0 {
        s
    } else {
        insert_keyed(sort_keyed(s.drop_last()), s.last())
    }
}

/// The keys of the pairs do not decrease.
pub open spec fn keyed_sorted<T>(s: Seq<((bool, Seq<char>), T)>) -> bool {
    forall|i: int, j: int| 0 <= i < j < s.len() ==> key_le(#[trigger] s[i].0, #[trigger] s[j].0)
}

pub open spec fn key_views(ks: Seq<SortKey>) -> Seq<(bool, Seq<char>)> {
    ks.map_values(|k: SortKey| key_of(k))
}

/// The items paired with their keys.
pub open spec fn pair_up<T>(keys: Seq<(bool, Seq<char>)>, items: Seq<T>) -> Seq<((bool, Seq<char>), T)> {
    Seq::new(items.len(), |i: int| (keys[i], items[i]))
}

/// The items stably sorted by their keys.
pub open spec fn sorted_items<T>(keys: Seq<(bool, Seq<char>)>, items: Seq<T>) -> Seq<T> {
    sort_keyed(pair_up(keys, items)).map_values(|p: ((bool, Seq<char>), T)| p.1)
}

proof fn lemma_insert_keyed_at<T>(s: Seq<((bool, Seq<char>), T)>, x: ((bool, Seq<char>), T), p: int)
    requires
        0 <= p <= s.len(),
        forall|q: int| 0 <= q < p ==> !key_lt(x.0, #[trigger] s[q].0),
        p < s.len() ==> key_lt(x.0, s[p].0),
    ensures
        insert_keyed(s, x) == s.take(p).push(x) + s.skip(p),
    decreases p,
{
    if p == 0 {
        assert(s.take(0).push(x) + s.skip(0) =~= seq![x] + s);
        if s.len() == 0 {
            assert(seq![x] + s =~= seq![x]);
        }
    } else {
        let t = s.drop_first();
        assert forall|q: int| 0 <= q < p - 1 implies !key_lt(x.0, #[trigger] t[q].0) by {
            assert(t[q] == s[q + 1]);
        }
        lemma_insert_keyed_at(t, x, p - 1);
        assert(!key_lt(x.0, s[0].0));
        assert(seq![s[0]] + (t.take(p - 1).push(x) + t.skip(p - 1)) =~= s.take(p).push(x) + s.skip(
            p,
        ));
    }
}

fn key_lt_exec(a: &SortKey, b: &SortKey) -> (r: bool)
    ensures
        r == key_lt(key_of(*a), key_of(*b)),
{
    if a.present != b.present {
        !a.present
    } else if !a.present {
        assert(!lex_lt(Seq::<char>::empty(), Seq::<char>::empty()));
        false
    } else {
        chars_lt(&a.text, &b.text)
    }
}

/// Sorts items stably by their keys (`keys[i]` is the key of `items[i]`).
///
/// Insertion proceeds from the back, so input that is nearly in order is
/// sorted in about linear time.
pub fn sort_by_keys<T>(items: Vec<T>, keys: Vec<SortKey>) -> (r: Vec<T>)
    requires
        keys@.len() == items@.len(),
    ensures
        r@ == sorted_items(key_views(keys@), items@),
{
    let ghost ps = pair_up(key_views(keys@), items@);
    let mut out_keys: Vec<SortKey> = Vec::new();
    let mut out: Vec<T> = Vec::new();
    let ghost orig_items = items@;
    let ghost orig_keys = keys@;
    // reverse, so that popping yields the items from the front
    let mut src_items = items;
    let mut src_keys = keys;
    let mut items: Vec<T> = Vec::new();
    let mut keys: Vec<SortKey> = Vec::new();
    while src_items.len() > 0
        invariant
            src_items@.len() == src_keys@.len(),
            items@.len() == keys@.len(),
            src_items@.len() + items@.len() == orig_items.len(),
            orig_items.len() == orig_keys.len(),
            src_items@ == orig_items.take(src_items@.len() as int),
            src_keys@ == orig_keys.take(src_keys@.len() as int),
            forall|q: int| 0 <= q < items@.len() ==> items@[q] == orig_items[orig_items.len() - 1 - q],
            forall|q: int| 0 <= q < keys@.len() ==> keys@[q] == orig_keys[orig_keys.len() - 1 - q],
        decreases src_items.len(),
    {
        let x = src_items.pop().unwrap();
        let k = src_keys.pop().unwrap();
        items.push(x);
        keys.push(k);
        assert(src_items@ =~= orig_items.take(src_items@.len() as int));
        assert(src_keys@ =~= orig_keys.take(src_keys@.len() as int));
    }
    let ghost mut done: int = 0;
    while items.len() > 0
        invariant
            orig_items.len() == orig_keys.len(),
            ps == pair_up(key_views(orig_keys), orig_items),
            items@.len() == keys@.len(),
            0 <= done,
            done + items@.len() == orig_items.len(),
            forall|q: int| 0 <= q < items@.len() ==> items@[q] == orig_items[orig_items.len() - 1 - q],
            forall|q: int| 0 <= q < keys@.len() ==> keys@[q] == orig_keys[orig_keys.len() - 1 - q],
            out@.len() == out_keys@.len(),
            sort_keyed(ps.take(done)) == pair_up(key_views(out_keys@), out@),
            keyed_sorted(pair_up(key_views(out_keys@), out@)),
        decreases items.len(),
    {
        let x = items.pop().unwrap();
        let k = keys.pop().unwrap();
        let ghost s = pair_up(key_views(out_keys@), out@);
        let ghost xp = (key_of(k), x);
        assert(x == orig_items[done]);
        assert(k == orig_keys[done]);
        let mut p: usize = out.len();
        while p > 0 && key_lt_exec(&k, &out_keys[p - 1])
            invariant
                p <= out@.len(),
                out@.len() == out_keys@.len(),
                s == pair_up(key_views(out_keys@), out@),
                xp == (key_of(k), x),
                forall|q: int| p <= q < s.len() ==> key_lt(xp.0, #[trigger] s[q].0),
            decreases p,
        {
            p = p - 1;
        }
        proof {
            assert forall|q: int| 0 <= q < p implies !key_lt(xp.0, #[trigger] s[q].0) by {
                if key_lt(xp.0, s[q].0) {
                    // x < s[q] <= s[p - 1], yet s[p - 1] is not after x
                    if q < p - 1 {
                        assert(key_le(s[q].0, s[p - 1].0));
                        lemma_key_lt_le(xp.0, s[q].0, s[p - 1].0);
                    }
                    assert(key_lt(xp.0, s[p - 1].0));
                }
            }
            lemma_insert_keyed_at(s, xp, p as int);
            assert(ps.len() == orig_items.len());
            assert(done + 1 <= ps.len());
            assert(ps[done] == xp);
            assert(ps.take(done + 1).drop_last() =~= ps.take(done));
            assert(ps.take(done + 1).last() == xp);
        }
        out.insert(p, x);
        out_keys.insert(p, k);
        proof {
            let s2 = pair_up(key_views(out_keys@), out@);
            assert(s2 =~= s.take(p as int).push(xp) + s.skip(p as int));
            assert forall|i: int, j: int| 0 <= i < j < s2.len() implies key_le(
                #[trigger] s2[i].0,
                #[trigger] s2[j].0,
            ) by {
                if i < p && j < p {
                    assert(s2[i] == s[i] && s2[j] == s[j]);
                } else if i < p && j == p {
                    assert(s2[i] == s[i]);
                    lemma_key_total(s[i].0, xp.0);
                    if key_lt(xp.0, s[i].0) {
                    }
                } else if i < p && j > p {
                    assert(s2[i] == s[i] && s2[j] == s[j - 1]);
                } else if i == p {
                    assert(s2[j] == s[j - 1]);
                    lemma_key_asym(xp.0, s[j - 1].0);
                } else {
                    assert(s2[i] == s[i - 1] && s2[j] == s[j - 1]);
                }
            }
            done = done + 1;
        }
    }
    proof {
        assert(ps.take(done) =~= ps);
        assert(pair_up(key_views(out_keys@), out@).map_values(|p: ((bool, Seq<char>), T)| p.1) =~= out@);
    }
    out
}


pub open spec fn map_pairs<T, U>(s: Seq<((bool, Seq<char>), T)>, f: spec_fn(T) -> U) -> Seq<
    ((bool, Seq<char>), U),
> {
    s.map_values(|p: ((bool, Seq<char>), T)| (p.0, f(p.1)))
}

proof fn lemma_insert_map<T, U>(s: Seq<((bool, Seq<char>), T)>, x: ((bool, Seq<char>), T), f: spec_fn(T) -> U)
    ensures
        map_pairs(insert_keyed(s, x), f) == insert_keyed(map_pairs(s, f), (x.0, f(x.1))),
    decreases s.len(),
{
    let ms = map_pairs(s, f);
    if s.len() == 0 {
        assert(map_pairs(seq![x], f) =~= seq![(x.0, f(x.1))]);
    } else if key_lt(x.0, s[0].0) {
        assert(map_pairs(seq![x] + s, f) =~= seq![(x.0, f(x.1))] + ms);
    } else {
        lemma_insert_map(s.drop_first(), x, f);
        assert(ms.drop_first() =~= map_pairs(s.drop_first(), f));
        assert(map_pairs(seq![s[0]] + insert_keyed(s.drop_first(), x), f) =~= seq![ms[0]]
            + map_pairs(insert_keyed(s.drop_first(), x), f));
    }
}

proof fn lemma_sort_map<T, U>(s: Seq<((bool, Seq<char>), T)>, f: spec_fn(T) -> U)
    ensures
        map_pairs(sort_keyed(s), f) == sort_keyed(map_pairs(s, f)),
    decreases s.len(),
{
    if s.len() > 0 {
        lemma_sort_map(s.drop_last(), f);
        lemma_insert_map(sort_keyed(s.drop_last()), s.last(), f);
        assert(map_pairs(s, f).drop_last() =~= map_pairs(s.drop_last(), f));
    }
}

/// Sorting by keys depends on the keys alone: mapping the items commutes with it.
pub proof fn lemma_sorted_items_map<T, U>(keys: Seq<(bool, Seq<char>)>, items: Seq<T>, f: spec_fn(T) -> U)
    requires
        keys.len() == items.len(),
    ensures
        sorted_items(keys, items).map_values(f) == sorted_items(keys, items.map_values(f)),
{
    let ps = pair_up(keys, items);
    lemma_sort_map(ps, f);
    assert(map_pairs(ps, f) =~= pair_up(keys, items.map_values(f)));
    assert(sorted_items(keys, items).map_values(f) =~= map_pairs(sort_keyed(ps), f).map_values(
        |p: ((bool, Seq<char>), U)| p.1,
    ));
}

proof fn lemma_insert_keyed_all<T>(s: Seq<((bool, Seq<char>), T)>, x: ((bool, Seq<char>), T), p: spec_fn(T) -> bool)
    requires
        forall|i: int| 0 <= i < s.len() ==> p(#[trigger] s[i].1),
        p(x.1),
    ensures
        insert_keyed(s, x).len() == s.len() + 1,
        forall|i: int| 0 <= i < insert_keyed(s, x).len() ==> p(#[trigger] insert_keyed(s, x)[i].1),
    decreases s.len(),
{
    if s.len() == 0 {
    } else if key_lt(x.0, s[0].0) {
        let r = seq![x] + s;
        assert forall|i: int| 0 <= i < r.len() implies p(#[trigger] r[i].1) by {
            if i > 0 {
                assert(r[i] == s[i - 1]);
            }
        }
    } else {
        let t = s.drop_first();
        assert forall|i: int| 0 <= i < t.len() implies p(#[trigger] t[i].1) by {
            assert(t[i] == s[i + 1]);
        }
        lemma_insert_keyed_all(t, x, p);
        let r = seq![s[0]] + insert_keyed(t, x);
        assert forall|i: int| 0 <= i < r.len() implies p(#[trigger] r[i].1) by {
            if i > 0 {
                assert(r[i] == insert_keyed(t, x)[i - 1]);
            }
        }
    }
}

proof fn lemma_sort_keyed_all<T>(s: Seq<((bool, Seq<char>), T)>, p: spec_fn(T) -> bool)
    requires
        forall|i: int| 0 <= i < s.len() ==> p(#[trigger] s[i].1),
    ensures
        sort_keyed(s).len() == s.len(),
        forall|i: int| 0 <= i < sort_keyed(s).len() ==> p(#[trigger] sort_keyed(s)[i].1),
    decreases s.len(),
{
    if s.len() > 0 {
        let t = s.drop_last();
        assert forall|i: int| 0 <= i < t.len() implies p(#[trigger] t[i].1) by {
            assert(t[i] == s[i]);
        }
        lemma_sort_keyed_all(t, p);
        lemma_insert_keyed_all(sort_keyed(t), s.last(), p);
    }
}

/// Sorting keeps the number of items, and a property that every item has.
pub proof fn lemma_sorted_items_all<T>(keys: Seq<(bool, Seq<char>)>, items: Seq<T>, p: spec_fn(T) -> bool)
    requires
        keys.len() == items.len(),
        forall|i: int| 0 <= i < items.len() ==> p(#[trigger] items[i]),
    ensures
        sorted_items(keys, items).len() == items.len(),
        forall|i: int| 0 <= i < items.len() ==> p(#[trigger] sorted_items(keys, items)[i]),
{
    let ps = pair_up(keys, items);
    assert forall|i: int| 0 <= i < ps.len() implies p(#[trigger] ps[i].1) by {
        assert(ps[i].1 == items[i]);
    }
    lemma_sort_keyed_all(ps, p);
    let r = sorted_items(keys, items);
    assert forall|i: int| 0 <= i < items.len() implies p(#[trigger] r[i]) by {
        assert(r[i] == sort_keyed(ps)[i].1);
    }
}

/// The items stably sorted by their keys, last key first: items with equal
/// keys keep their order.
pub open spec fn sorted_items_desc<T>(keys: Seq<(bool, Seq<char>)>, items: Seq<T>) -> Seq<T> {
    sorted_items(keys.reverse(), items.reverse()).reverse()
}

/// Sorts items stably by their keys, last key first (`keys[i]` is the key
/// of `items[i]`).
pub fn sort_desc_by_keys<T>(items: Vec<T>, keys: Vec<SortKey>) -> (r: Vec<T>)
    requires
        keys@.len() == items@.len(),
    ensures
        r@ == sorted_items_desc(key_views(keys@), items@),
{
    let ghost kv = key_views(keys@);
    let ri = reversed(items);
    let rk = reversed(keys);
    assert(key_views(rk@) =~= kv.reverse());
    let sorted = sort_by_keys(ri, rk);
    reversed(sorted)
}

/// Sorting last key first depends on the keys alone: mapping the items commutes with it.
pub proof fn lemma_sorted_items_desc_map<T, U>(keys: Seq<(bool, Seq<char>)>, items: Seq<T>, f: spec_fn(T) -> U)
    requires
        keys.len() == items.len(),
    ensures
        sorted_items_desc(keys, items).map_values(f) == sorted_items_desc(keys, items.map_values(f)),
{
    lemma_sorted_items_map(keys.reverse(), items.reverse(), f);
    assert(items.reverse().map_values(f) =~= items.map_values(f).reverse());
    let s = sorted_items(keys.reverse(), items.reverse());
    assert(s.reverse().map_values(f) =~= s.map_values(f).reverse());
}

/// Inserting `x` after the pairs whose numbers are not smaller than its number.
pub open spec fn insert_desc<T>(s: Seq<(u64, T)>, x: (u64, T)) -> Seq<(u64, T)>
    decreases s.len(),
{
    if s.len() == 0 {
        seq![x]
    } else if x.0 > s[0].0 {
        seq![x] + s
    } else {
        seq![s[0]] + insert_desc(s.drop_first(), x)
    }
}

/// The pairs stably sorted by number, largest first (insertion sort).
pub open spec fn sort_desc<T>(s: Seq<(u64, T)>) -> Seq<(u64, T)>
    decreases s.len(),
{
    if s.len() == 0 {
        s
    } else {
        insert_desc(sort_desc(s.drop_last()), s.last())
    }
}

pub open spec fn pair_nums<T>(nums: Seq<u64>, items: Seq<T>) -> Seq<(u64, T)> {
    Seq::new(items.len(), |i: int| (nums[i], items[i]))
}

/// The items stably sorted by their numbers, largest first.
pub open spec fn sorted_by_num_desc<T>(nums: Seq<u64>, items: Seq<T>) -> Seq<T> {
    sort_desc(pair_nums(nums, items)).map_values(|p: (u64, T)| p.1)
}

proof fn lemma_insert_desc_at<T>(s: Seq<(u64, T)>, x: (u64, T), p: int)
    requires
        0 <= p <= s.len(),
        forall|q: int| 0 <= q < p ==> !(x.0 > #[trigger] s[q].0),
        p < s.len() ==> x.0 > s[p].0,
    ensures
        insert_desc(s, x) == s.take(p).push(x) + s.skip(p),
    decreases p,
{
    if p == 0 {
        assert(s.take(0).push(x) + s.skip(0) =~= seq![x] + s);
        if s.len() == 0 {
            assert(seq![x] + s =~= seq![x]);
        }
    } else {
        let t = s.drop_first();
        assert forall|q: int| 0 <= q < p - 1 implies !(x.0 > #[trigger] t[q].0) by {
            assert(t[q] == s[q + 1]);
        }
        lemma_insert_desc_at(t, x, p - 1);
        assert(!(x.0 > s[0].0));
        assert(seq![s[0]] + (t.take(p - 1).push(x) + t.skip(p - 1)) =~= s.take(p).push(x) + s.skip(p));
    }
}

/// Sorts items stably by their numbers, largest first (`nums[i]` is the
/// number of `items[i]`).
pub fn sort_by_num_desc<T>(items: Vec<T>, nums: Vec<u64>) -> (r: Vec<T>)
    requires
        nums@.len() == items@.len(),
    ensures
        r@ == sorted_by_num_desc(nums@, items@),
{
    let ghost ps = pair_nums(nums@, items@);
    let ghost orig_items = items@;
    let ghost orig_nums = nums@;
    let mut items = reversed(items);
    let mut nums = reversed(nums);
    let mut out: Vec<T> = Vec::new();
    let mut out_nums: Vec<u64> = Vec::new();
    let ghost mut done: int = 0;
    while items.len() > 0
        invariant
            orig_items.len() == orig_nums.len(),
            ps == pair_nums(orig_nums, orig_items),
            items@.len() == nums@.len(),
            0 <= done,
            done + items@.len() == orig_items.len(),
            forall|q: int| 0 <= q < items@.len() ==> items@[q] == orig_items[orig_items.len() - 1 - q],
            forall|q: int| 0 <= q < nums@.len() ==> nums@[q] == orig_nums[orig_nums.len() - 1 - q],
            out@.len() == out_nums@.len(),
            sort_desc(ps.take(done)) == pair_nums(out_nums@, out@),
            forall|i: int, j: int| 0 <= i < j < out_nums@.len() ==> out_nums@[i] >= out_nums@[j],
        decreases items.len(),
    {
        let x = items.pop().unwrap();
        let k = nums.pop().unwrap();
        let ghost s = pair_nums(out_nums@, out@);
        let ghost xp = (k, x);
        assert(x == orig_items[done]);
        assert(k == orig_nums[done]);
        let mut p: usize = out.len();
        while p > 0 && k > out_nums[p - 1]
            invariant
                p <= out@.len(),
                out@.len() == out_nums@.len(),
                forall|q: int| p <= q < out_nums@.len() ==> k > #[trigger] out_nums@[q],
            decreases p,
        {
            p = p - 1;
        }
        proof {
            assert forall|q: int| 0 <= q < p implies !(xp.0 > #[trigger] s[q].0) by {
                assert(s[q].0 == out_nums@[q]);
                assert(out_nums@[q] >= out_nums@[p - 1]);
            }
            lemma_insert_desc_at(s, xp, p as int);
            assert(ps[done] == xp);
            assert(ps.take(done + 1).drop_last() =~= ps.take(done));
            assert(ps.take(done + 1).last() == xp);
        }
        out.insert(p, x);
        out_nums.insert(p, k);
        proof {
            assert(pair_nums(out_nums@, out@) =~= s.take(p as int).push(xp) + s.skip(p as int));
            done = done + 1;
        }
    }
    proof {
        assert(ps.take(done) =~= ps);
        assert(pair_nums(out_nums@, out@).map_values(|p: (u64, T)| p.1) =~= out@);
    }
    out
}

proof fn lemma_insert_desc_map<T, U>(s: Seq<(u64, T)>, x: (u64, T), f: spec_fn(T) -> U)
    ensures
        insert_desc(s, x).map_values(|p: (u64, T)| (p.0, f(p.1))) == insert_desc(
            s.map_values(|p: (u64, T)| (p.0, f(p.1))),
            (x.0, f(x.1)),
        ),
    decreases s.len(),
{
    let g = |p: (u64, T)| (p.0, f(p.1));
    let ms = s.map_values(g);
    if s.len() == 0 {
        assert(seq![x].map_values(g) =~= seq![(x.0, f(x.1))]);
    } else if x.0 > s[0].0 {
        assert((seq![x] + s).map_values(g) =~= seq![(x.0, f(x.1))] + ms);
    } else {
        lemma_insert_desc_map(s.drop_first(), x, f);
        assert(ms.drop_first() =~= s.drop_first().map_values(g));
        assert((seq![s[0]] + insert_desc(s.drop_first(), x)).map_values(g) =~= seq![ms[0]]
            + insert_desc(s.drop_first(), x).map_values(g));
    }
}

proof fn lemma_sort_desc_map<T, U>(s: Seq<(u64, T)>, f: spec_fn(T) -> U)
    ensures
        sort_desc(s).map_values(|p: (u64, T)| (p.0, f(p.1))) == sort_desc(
            s.map_values(|p: (u64, T)| (p.0, f(p.1))),
        ),
    decreases s.len(),
{
    if s.len() > 0 {
        lemma_sort_desc_map(s.drop_last(), f);
        lemma_insert_desc_map(sort_desc(s.drop_last()), s.last(), f);
        assert(s.map_values(|p: (u64, T)| (p.0, f(p.1))).drop_last() =~= s.drop_last().map_values(
            |p: (u64, T)| (p.0, f(p.1)),
        ));
    }
}

/// Sorting by numbers depends on the numbers alone: mapping the items commutes with it.
pub proof fn lemma_sorted_by_num_desc_map<T, U>(nums: Seq<u64>, items: Seq<T>, f: spec_fn(T) -> U)
    requires
        nums.len() == items.len(),
    ensures
        sorted_by_num_desc(nums, items).map_values(f) == sorted_by_num_desc(nums, items.map_values(f)),
{
    let ps = pair_nums(nums, items);
    lemma_sort_desc_map(ps, f);
    assert(ps.map_values(|p: (u64, T)| (p.0, f(p.1))) =~= pair_nums(nums, items.map_values(f)));
    assert(sorted_by_num_desc(nums, items).map_values(f) =~= sort_desc(ps).map_values(
        |p: (u64, T)| (p.0, f(p.1)),
    ).map_values(|p: (u64, U)| p.1));
}

/// Where `insert_keyed` puts `x`: after the pairs whose keys are not after
/// its key, before the first pair whose key is after it.
pub proof fn lemma_insert_keyed_pos<T>(s: Seq<((bool, Seq<char>), T)>, x: ((bool, Seq<char>), T)) -> (p: int)
    ensures
        0 <= p <= s.len(),
        insert_keyed(s, x) == s.insert(p, x),
        forall|q: int| 0 <= q < p ==> !key_lt(x.0, #[trigger] s[q].0),
        p < s.len() ==> key_lt(x.0, s[p].0),
    decreases s.len(),
{
    if s.len() == 0 {
        assert(s.insert(0, x) =~= seq![x]);
        0
    } else if key_lt(x.0, s[0].0) {
        assert(s.insert(0, x) =~= seq![x] + s);
        0
    } else {
        let t = s.drop_first();
        let p1 = lemma_insert_keyed_pos(t, x);
        assert(seq![s[0]] + t.insert(p1, x) =~= s.insert(p1 + 1, x));
        assert forall|q: int| 0 <= q < p1 + 1 implies !key_lt(x.0, #[trigger] s[q].0) by {
            if q > 0 {
                assert(s[q] == t[q - 1]);
            }
        }
        if p1 < t.len() {
            assert(s[p1 + 1] == t[p1]);
        }
        p1 + 1
    }
}

proof fn lemma_sort_keyed_sorted<T>(s: Seq<((bool, Seq<char>), T)>)
    ensures
        keyed_sorted(sort_keyed(s)),
        sort_keyed(s).len() == s.len(),
    decreases s.len(),
{
    if s.len() > 0 {
        let a = sort_keyed(s.drop_last());
        lemma_sort_keyed_sorted(s.drop_last());
        let x = s.last();
        let p = lemma_insert_keyed_pos(a, x);
        let r = a.insert(p, x);
        assert forall|i: int, j: int| 0 <= i < j < r.len() implies key_le(
            #[trigger] r[i].0,
            #[trigger] r[j].0,
        ) by {
            if j < p {
                assert(r[i] == a[i] && r[j] == a[j]);
            } else if j == p {
                assert(r[i] == a[i] && r[j] == x);
                lemma_key_total(a[i].0, x.0);
            } else if i < p {
                assert(r[i] == a[i] && r[j] == a[j - 1]);
            } else if i == p {
                assert(r[i] == x && r[j] == a[j - 1]);
                if j - 1 > p {
                    assert(key_le(a[p].0, a[j - 1].0));
                    lemma_key_lt_le(x.0, a[p].0, a[j - 1].0);
                }
                lemma_key_asym(x.0, a[j - 1].0);
            } else {
                assert(r[i] == a[i - 1] && r[j] == a[j - 1]);
            }
        }
    }
}

proof fn lemma_sort_keyed_pairs<T>(s: Seq<((bool, Seq<char>), T)>, p: spec_fn(((bool, Seq<char>), T)) -> bool)
    requires
        forall|i: int| 0 <= i < s.len() ==> p(#[trigger] s[i]),
    ensures
        forall|i: int| 0 <= i < sort_keyed(s).len() ==> p(#[trigger] sort_keyed(s)[i]),
    decreases s.len(),
{
    if s.len() > 0 {
        let t = s.drop_last();
        assert forall|i: int| 0 <= i < t.len() implies p(#[trigger] t[i]) by {
            assert(t[i] == s[i]);
        }
        lemma_sort_keyed_pairs(t, p);
        let a = sort_keyed(t);
        let q = lemma_insert_keyed_pos(a, s.last());
        let r = a.insert(q, s.last());
        assert forall|i: int| 0 <= i < r.len() implies p(#[trigger] r[i]) by {
            if i < q {
                assert(r[i] == a[i]);
            } else if i > q {
                assert(r[i] == a[i - 1]);
            }
        }
    }
}

proof fn lemma_sort_keyed_perm<T, U>(s: Seq<((bool, Seq<char>), T)>, g: spec_fn(((bool, Seq<char>), T)) -> U)
    ensures
        sort_keyed(s).map_values(g).to_multiset() == s.map_values(g).to_multiset(),
    decreases s.len(),
{
    if s.len() > 0 {
        let t = s.drop_last();
        lemma_sort_keyed_perm(t, g);
        let a = sort_keyed(t);
        let x = s.last();
        let q = lemma_insert_keyed_pos(a, x);
        assert(a.insert(q, x).map_values(g) =~= a.map_values(g).insert(q, g(x)));
        vstd::seq_lib::to_multiset_insert(a.map_values(g), q, g(x));
        assert(s.map_values(g) =~= t.map_values(g).push(g(x)));
        vstd::seq_lib::to_multiset_build(t.map_values(g), g(x));
    }
}

/// The items sorted by keys that are a function `f` of them come in the
/// order of `f`, and are a rearrangement of the items (also after mapping
/// them by any `g`).
pub proof fn lemma_sorted_items_props<T, U>(
    keys: Seq<(bool, Seq<char>)>,
    items: Seq<T>,
    f: spec_fn(T) -> (bool, Seq<char>),
    g: spec_fn(T) -> U,
)
    requires
        keys == items.map_values(f),
    ensures
        sorted_items(keys, items).len() == items.len(),
        forall|i: int, j: int|
            0 <= i < j < items.len() ==> key_le(
                f(#[trigger] sorted_items(keys, items)[i]),
                f(#[trigger] sorted_items(keys, items)[j]),
            ),
        sorted_items(keys, items).map_values(g).to_multiset() == items.map_values(g).to_multiset(),
{
    let ps = pair_up(keys, items);
    let ss = sort_keyed(ps);
    lemma_sort_keyed_sorted(ps);
    let pf = |pr: ((bool, Seq<char>), T)| pr.0 == f(pr.1);
    assert forall|i: int| 0 <= i < ps.len() implies pf(#[trigger] ps[i]) by {}
    lemma_sort_keyed_pairs(ps, pf);
    let out = sorted_items(keys, items);
    assert forall|i: int, j: int| 0 <= i < j < items.len() implies key_le(
        f(#[trigger] out[i]),
        f(#[trigger] out[j]),
    ) by {
        assert(out[i] == ss[i].1 && out[j] == ss[j].1);
        assert(pf(ss[i]) && pf(ss[j]));
    }
    let gg = |pr: ((bool, Seq<char>), T)| g(pr.1);
    lemma_sort_keyed_perm(ps, gg);
    assert(out.map_values(g) =~= ss.map_values(gg));
    assert(ps.map_values(gg) =~= items.map_values(g));
}

/// The same for the items sorted last key first.
pub proof fn lemma_sorted_items_desc_props<T, U>(
    keys: Seq<(bool, Seq<char>)>,
    items: Seq<T>,
    f: spec_fn(T) -> (bool, Seq<char>),
    g: spec_fn(T) -> U,
)
    requires
        keys == items.map_values(f),
    ensures
        sorted_items_desc(keys, items).len() == items.len(),
        forall|i: int, j: int|
            0 <= i < j < items.len() ==> key_le(
                f(#[trigger] sorted_items_desc(keys, items)[j]),
                f(#[trigger] sorted_items_desc(keys, items)[i]),
            ),
        sorted_items_desc(keys, items).map_values(g).to_multiset() == items.map_values(g).to_multiset(),
{
    let rk = keys.reverse();
    let ri = items.reverse();
    assert(rk =~= ri.map_values(f));
    lemma_sorted_items_props(rk, ri, f, g);
    let a = sorted_items(rk, ri);
    let out = a.reverse();
    assert forall|i: int, j: int| 0 <= i < j < items.len() implies key_le(
        f(#[trigger] out[j]),
        f(#[trigger] out[i]),
    ) by {
        let n = items.len() as int;
        assert(out[j] == a[n - 1 - j] && out[i] == a[n - 1 - i]);
        assert(key_le(f(a[n - 1 - j]), f(a[n - 1 - i])));
    }
    assert(out.map_values(g) =~= a.map_values(g).reverse());
    a.map_values(g).lemma_reverse_to_multiset();
    assert(ri.map_values(g) =~= items.map_values(g).reverse());
    items.map_values(g).lemma_reverse_to_multiset();
}

proof fn lemma_insert_desc_pos<T>(s: Seq<(u64, T)>, x: (u64, T)) -> (p: int)
    ensures
        0 <= p <= s.len(),
        insert_desc(s, x) == s.insert(p, x),
        forall|q: int| 0 <= q < p ==> x.0 <= #[trigger] s[q].0,
        p < s.len() ==> x.0 > s[p].0,
    decreases s.len(),
{
    if s.len() == 0 {
        assert(s.insert(0, x) =~= seq![x]);
        0
    } else if x.0 > s[0].0 {
        assert(s.insert(0, x) =~= seq![x] + s);
        0
    } else {
        let t = s.drop_first();
        let p1 = lemma_insert_desc_pos(t, x);
        assert(seq![s[0]] + t.insert(p1, x) =~= s.insert(p1 + 1, x));
        assert forall|q: int| 0 <= q < p1 + 1 implies x.0 <= #[trigger] s[q].0 by {
            if q > 0 {
                assert(s[q] == t[q - 1]);
            }
        }
        if p1 < t.len() {
            assert(s[p1 + 1] == t[p1]);
        }
        p1 + 1
    }
}

proof fn lemma_sort_desc_props<T, U>(s: Seq<(u64, T)>, g: spec_fn((u64, T)) -> U, pr: spec_fn((u64, T)) -> bool)
    requires
        forall|i: int| 0 <= i < s.len() ==> pr(#[trigger] s[i]),
    ensures
        sort_desc(s).len() == s.len(),
        forall|i: int, j: int| 0 <= i < j < s.len() ==> #[trigger] sort_desc(s)[i].0 >= #[trigger] sort_desc(s)[j].0,
        forall|i: int| 0 <= i < s.len() ==> pr(#[trigger] sort_desc(s)[i]),
        sort_desc(s).map_values(g).to_multiset() == s.map_values(g).to_multiset(),
    decreases s.len(),
{
    if s.len() > 0 {
        let t = s.drop_last();
        assert forall|i: int| 0 <= i < t.len() implies pr(#[trigger] t[i]) by {
            assert(t[i] == s[i]);
        }
        lemma_sort_desc_props(t, g, pr);
        let a = sort_desc(t);
        let x = s.last();
        let q = lemma_insert_desc_pos(a, x);
        let r = a.insert(q, x);
        assert forall|i: int, j: int| 0 <= i < j < r.len() implies #[trigger] r[i].0 >= #[trigger] r[j].0 by {
            if j < q {
                assert(r[i] == a[i] && r[j] == a[j]);
            } else if j == q {
                assert(r[i] == a[i] && r[j] == x);
            } else if i < q {
                assert(r[i] == a[i] && r[j] == a[j - 1]);
            } else if i == q {
                assert(r[i] == x && r[j] == a[j - 1]);
                assert(a[q].0 >= a[j - 1].0 || q == j - 1);
            } else {
                assert(r[i] == a[i - 1] && r[j] == a[j - 1]);
            }
        }
        assert forall|i: int| 0 <= i < r.len() implies pr(#[trigger] r[i]) by {
            if i < q {
                assert(r[i] == a[i]);
            } else if i > q {
                assert(r[i] == a[i - 1]);
            }
        }
        assert(r.map_values(g) =~= a.map_values(g).insert(q, g(x)));
        vstd::seq_lib::to_multiset_insert(a.map_values(g), q, g(x));
        assert(s.map_values(g) =~= t.map_values(g).push(g(x)));
        vstd::seq_lib::to_multiset_build(t.map_values(g), g(x));
    }
}

/// The items sorted by numbers that are a function `f` of them come largest
/// first, and are a rearrangement of the items (also after mapping them by
/// any `g`).
pub proof fn lemma_sorted_by_num_desc_props<T, U>(
    nums: Seq<u64>,
    items: Seq<T>,
    f: spec_fn(T) -> u64,
    g: spec_fn(T) -> U,
)
    requires
        nums == items.map_values(f),
    ensures
        sorted_by_num_desc(nums, items).len() == items.len(),
        forall|i: int, j: int|
            0 <= i < j < items.len() ==> f(#[trigger] sorted_by_num_desc(nums, items)[i]) >= f(
                #[trigger] sorted_by_num_desc(nums, items)[j],
            ),
        sorted_by_num_desc(nums, items).map_values(g).to_multiset() == items.map_values(g).to_multiset(),
{
    let ps = pair_nums(nums, items);
    let gg = |p: (u64, T)| g(p.1);
    let pf = |p: (u64, T)| p.0 == f(p.1);
    assert forall|i: int| 0 <= i < ps.len() implies pf(#[trigger] ps[i]) by {}
    lemma_sort_desc_props(ps, gg, pf);
    let ss = sort_desc(ps);
    let out = sorted_by_num_desc(nums, items);
    assert forall|i: int, j: int| 0 <= i < j < items.len() implies f(#[trigger] out[i]) >= f(#[trigger] out[j]) by {
        assert(out[i] == ss[i].1 && out[j] == ss[j].1);
        assert(pf(ss[i]) && pf(ss[j]));
        assert(ss[i].0 >= ss[j].0);
    }
    assert(out.map_values(g) =~= ss.map_values(gg));
    assert(ps.map_values(gg) =~= items.map_values(g));
}

/// The items in reverse order.
pub fn reversed<T>(v: Vec<T>) -> (r: Vec<T>)
    ensures
        r@ == v@.reverse(),
{
    let ghost orig = v@;
    let mut src = v;
    let mut out: Vec<T> = Vec::new();
    while src.len() > 0
        invariant
            src@ == orig.take(src@.len() as int),
            out@.len() + src@.len() == orig.len(),
            forall|q: int| 0 <= q < out@.len() ==> out@[q] == orig[orig.len() - 1 - q],
        decreases src.len(),
    {
        let x = src.pop().unwrap();
        out.push(x);
        assert(src@ =~= orig.take(src@.len() as int));
    }
    assert(out@ =~= orig.reverse());
    out
}

} // verus!

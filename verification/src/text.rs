//! Character-level string helpers shared by the parsers and aggregators.
//!
//! Everything here works on the character view (`Seq<char>`) of strings.
use vstd::prelude::*;

verus! {

/// The characters of a string, in order.
pub(crate) fn to_chars(s: &str) -> (r: Vec<char>)
    ensures
        r@ == s@,
{
    let mut r: Vec<char> = Vec::new();
    for c in it: s.chars()
        invariant
            r@ == it.seq().take(it.index() as int),
    {
        r.push(c);
    }
    proof {
        vstd::string::axiom_spec_iter(s);
    }
    r
}

/// Appends a character at the end of `s`.
///
/// Trusted: calls `String::push`, which std documents as appending the character.
#[verifier::external_body]
fn push_char(s: &mut String, c: char)
    ensures
        final(s)@ == old(s)@.push(c),
{
    s.push(c)
}

/// The string made of the given characters.
pub(crate) fn from_chars(cs: &Vec<char>) -> (r: String)
    ensures
        r@ == cs@,
{
    let mut r = String::new();
    let mut i: usize = 0;
    while i < cs.len()
        invariant
            i <= cs@.len(),
            r@ == cs@.take(i as int),
        decreases cs.len() - i,
    {
        push_char(&mut r, cs[i]);
        assert(r@ =~= cs@.take(i + 1));
        i = i + 1;
    }
    assert(cs@.take(cs@.len() as int) =~= cs@);
    r
}

/// A copy of a string slice as an owned `String`.
pub(crate) fn owned(s: &str) -> (r: String)
    ensures
        r@ == s@,
{
    <String as vstd::string::StringExecFns>::from_str(s)
}

/// Appends `other` at the end of `s`.
pub(crate) fn push_str(s: &mut String, other: &str)
    ensures
        final(s)@ == old(s)@ + other@,
{
    vstd::string::StringExecFns::append(s, other);
}

/// The character of a decimal digit.
pub open spec fn digit_char(d: nat) -> char {
    if d == 0 {
        '0'
    } else if d == 1 {
        '1'
    } else if d == 2 {
        '2'
    } else if d == 3 {
        '3'
    } else if d == 4 {
        '4'
    } else if d == 5 {
        '5'
    } else if d == 6 {
        '6'
    } else if d == 7 {
        '7'
    } else if d == 8 {
        '8'
    } else {
        '9'
    }
}

/// A number written in decimal, as `Display` writes unsigned integers.
pub open spec fn decimal(n: nat) -> Seq<char>
    decreases n,
{
    if n < 10 {
        seq![digit_char(n)]
    } else {
        decimal(n / 10).push(digit_char(n % 10))
    }
}

fn digit_exec(d: usize) -> (c: char)
    requires
        d < 10,
    ensures
        c == digit_char(d as nat),
{
    if d == 0 {
        '0'
    } else if d == 1 {
        '1'
    } else if d == 2 {
        '2'
    } else if d == 3 {
        '3'
    } else if d == 4 {
        '4'
    } else if d == 5 {
        '5'
    } else if d == 6 {
        '6'
    } else if d == 7 {
        '7'
    } else if d == 8 {
        '8'
    } else {
        '9'
    }
}

fn decimal_chars(n: usize) -> (r: Vec<char>)
    ensures
        r@ == decimal(n as nat),
    decreases n,
{
    if n < 10 {
        let mut r: Vec<char> = Vec::new();
        r.push(digit_exec(n));
        assert(r@ =~= seq![digit_char(n as nat)]);
        r
    } else {
        let mut r = decimal_chars(n / 10);
        r.push(digit_exec(n % 10));
        r
    }
}

/// A number written in decimal (see `decimal`).
pub fn decimal_text(n: usize) -> (r: String)
    ensures
        r@ == decimal(n as nat),
{
    from_chars(&decimal_chars(n))
}

/// `char::is_whitespace`: the Unicode `White_Space` property.
pub open spec fn is_ws(c: char) -> bool {
    let u = c as u32;
    ||| (0x09 <= u && u <= 0x0d)
    ||| u == 0x20
    ||| u == 0x85
    ||| u == 0xa0
    ||| u == 0x1680
    ||| (0x2000 <= u && u <= 0x200a)
    ||| u == 0x2028
    ||| u == 0x2029
    ||| u == 0x202f
    ||| u == 0x205f
    ||| u == 0x3000
}

/// `s.trim().is_empty()`: every character is whitespace.
pub open spec fn all_ws(s: Seq<char>) -> bool {
    forall|i: int| 0 <= i < s.len() ==> #[trigger] is_ws(s[i])
}

pub fn char_is_ws(c: char) -> (b: bool)
    ensures
        b == is_ws(c),
{
    let u = c as u32;
    (0x09 <= u && u <= 0x0d) || u == 0x20 || u == 0x85 || u == 0xa0 || u == 0x1680 || (0x2000
        <= u && u <= 0x200a) || u == 0x2028 || u == 0x2029 || u == 0x202f || u == 0x205f || u
        == 0x3000
}

/// Whether the text is empty once surrounding whitespace is trimmed.
pub fn is_blank(s: &str) -> (b: bool)
    ensures
        b == all_ws(s@),
{
    let cs = to_chars(s);
    let mut i: usize = 0;
    while i < cs.len()
        invariant
            cs@ == s@,
            i <= cs.len(),
            forall|k: int| 0 <= k < i ==> #[trigger] is_ws(cs@[k]),
        decreases cs.len() - i,
    {
        if !char_is_ws(cs[i]) {
            return false;
        }
        i = i + 1;
    }
    true
}

/// Strict lexicographic order on character sequences, comparing code points:
/// the order of `String`'s `Ord` (UTF-8 byte order agrees with code point order).
pub open spec fn lex_lt(a: Seq<char>, b: Seq<char>) -> bool
    decreases a.len(),
{
    if b.len() == 0 {
        false
    } else if a.len() == 0 {
        true
    } else if (a[0] as int) < (b[0] as int) {
        true
    } else if a[0] == b[0] {
        lex_lt(a.drop_first(), b.drop_first())
    } else {
        false
    }
}

pub proof fn lemma_lex_irreflexive(a: Seq<char>)
    ensures
        !lex_lt(a, a),
    decreases a.len(),
{
    if a.len() > 0 {
        lemma_lex_irreflexive(a.drop_first());
    }
}

pub proof fn lemma_lex_trans(a: Seq<char>, b: Seq<char>, c: Seq<char>)
    requires
        lex_lt(a, b),
        lex_lt(b, c),
    ensures
        lex_lt(a, c),
    decreases a.len(),
{
    if a.len() > 0 && b.len() > 0 && c.len() > 0 && a[0] == b[0] && b[0] == c[0] {
        lemma_lex_trans(a.drop_first(), b.drop_first(), c.drop_first());
    }
}

pub proof fn lemma_lex_total(a: Seq<char>, b: Seq<char>)
    ensures
        lex_lt(a, b) || lex_lt(b, a) || a == b,
    decreases a.len(),
{
    if a.len() > 0 && b.len() > 0 && a[0] == b[0] {
        lemma_lex_total(a.drop_first(), b.drop_first());
        if a.drop_first() == b.drop_first() {
            assert(a =~= seq![a[0]] + a.drop_first());
            assert(b =~= seq![b[0]] + b.drop_first());
        }
    } else if a.len() == 0 && b.len() == 0 {
        assert(a =~= b);
    }
}

pub proof fn lemma_lex_asym(a: Seq<char>, b: Seq<char>)
    requires
        lex_lt(a, b),
    ensures
        !lex_lt(b, a),
        a != b,
{
    lemma_lex_irreflexive(a);
    if lex_lt(b, a) {
        lemma_lex_trans(a, b, a);
    }
}

/// `a < b` on the character views, as `String`'s `Ord` orders them.
pub fn str_lt(a: &str, b: &str) -> (r: bool)
    ensures
        r == lex_lt(a@, b@),
{
    let x = to_chars(a);
    let y = to_chars(b);
    chars_lt(&x, &y)
}

pub fn chars_lt(x: &Vec<char>, y: &Vec<char>) -> (r: bool)
    ensures
        r == lex_lt(x@, y@),
{
    let mut i: usize = 0;
    assert(x@.skip(0) =~= x@);
    assert(y@.skip(0) =~= y@);
    while i < x.len() && i < y.len()
        invariant
            i <= x.len(),
            i <= y.len(),
            x@.subrange(0, i as int) == y@.subrange(0, i as int),
            lex_lt(x@, y@) == lex_lt(x@.skip(i as int), y@.skip(i as int)),
        decreases x.len() - i,
    {
        if x[i] < y[i] {
            return true;
        }
        if x[i] != y[i] {
            return false;
        }
        assert(x@.skip(i as int).drop_first() =~= x@.skip(i + 1));
        assert(y@.skip(i as int).drop_first() =~= y@.skip(i + 1));
        assert(x@.subrange(0, i + 1) =~= x@.subrange(0, i as int).push(x@[i as int]));
        assert(y@.subrange(0, i + 1) =~= y@.subrange(0, i as int).push(y@[i as int]));
        i = i + 1;
    }
    i < y.len()
}

/// Character-wise equality of two strings.
pub fn str_eq(a: &str, b: &str) -> (r: bool)
    ensures
        r == (a@ == b@),
{
    let x = owned(a);
    let y = owned(b);
    x == y
}

/// Whether `p` occurs in `s` at position `at`.
pub open spec fn occurs_at(s: Seq<char>, p: Seq<char>, at: int) -> bool {
    0 <= at && at + p.len() <= s.len() && s.subrange(at, at + p.len()) == p
}

/// `str::contains`: `p` occurs somewhere in `s`.
pub open spec fn contains(s: Seq<char>, p: Seq<char>) -> bool {
    exists|at: int| occurs_at(s, p, at)
}

pub open spec fn starts_with(s: Seq<char>, p: Seq<char>) -> bool {
    occurs_at(s, p, 0)
}

pub open spec fn ends_with(s: Seq<char>, p: Seq<char>) -> bool {
    s.len() >= p.len() && occurs_at(s, p, s.len() - p.len())
}

fn occurs_at_exec(s: &Vec<char>, p: &Vec<char>, at: usize) -> (r: bool)
    ensures
        r == occurs_at(s@, p@, at as int),
{
    if at > s.len() || p.len() > s.len() - at {
        return false;
    }
    let mut k: usize = 0;
    while k < p.len()
        invariant
            at + p.len() <= s.len(),
            k <= p.len(),
            forall|j: int| 0 <= j < k ==> s@[at + j] == p@[j],
        decreases p.len() - k,
    {
        if s[at + k] != p[k] {
            assert(s@.subrange(at as int, at + p.len())[k as int] != p@[k as int]);
            return false;
        }
        k = k + 1;
    }
    assert(s@.subrange(at as int, at + p.len()) =~= p@);
    true
}

pub fn chars_contains(s: &Vec<char>, p: &Vec<char>) -> (r: bool)
    ensures
        r == contains(s@, p@),
{
    let mut at: usize = 0;
    while at < s.len()
        invariant
            at <= s.len(),
            forall|j: int| 0 <= j < at ==> !occurs_at(s@, p@, j),
        decreases s.len() - at,
    {
        if occurs_at_exec(s, p, at) {
            return true;
        }
        at = at + 1;
    }
    if occurs_at_exec(s, p, at) {
        return true;
    }
    assert forall|j: int| !occurs_at(s@, p@, j) by {
        if 0 <= j && j <= at {
        }
    }
    false
}

/// `s.contains(p)`.
pub fn str_contains(s: &str, p: &str) -> (r: bool)
    ensures
        r == contains(s@, p@),
{
    let x = to_chars(s);
    let y = to_chars(p);
    chars_contains(&x, &y)
}

/// `s.starts_with(p)`.
pub fn str_starts_with(s: &str, p: &str) -> (r: bool)
    ensures
        r == starts_with(s@, p@),
{
    let x = to_chars(s);
    let y = to_chars(p);
    occurs_at_exec(&x, &y, 0)
}

/// `s.ends_with(p)`.
pub fn str_ends_with(s: &str, p: &str) -> (r: bool)
    ensures
        r == ends_with(s@, p@),
{
    let x = to_chars(s);
    let y = to_chars(p);
    if x.len() < y.len() {
        return false;
    }
    occurs_at_exec(&x, &y, x.len() - y.len())
}

/// The index just after the last occurrence of `c` in `s` (0 when there is none):
/// where the last `c`-separated piece of `s` begins.
pub open spec fn last_piece_start(s: Seq<char>, c: char) -> int
    decreases s.len(),
{
    if s.len() == 0 {
        0
    } else if s.last() == c {
        s.len() as int
    } else {
        last_piece_start(s.drop_last(), c)
    }
}

/// `s.split(c).last()`: the text after the last `c` (all of `s` without one).
pub open spec fn last_piece(s: Seq<char>, c: char) -> Seq<char> {
    s.skip(last_piece_start(s, c))
}

pub proof fn lemma_last_piece_start(s: Seq<char>, c: char)
    ensures
        0 <= last_piece_start(s, c) <= s.len(),
        last_piece_start(s, c) > 0 ==> s[last_piece_start(s, c) - 1] == c,
        forall|k: int| last_piece_start(s, c) <= k < s.len() ==> s[k] != c,
    decreases s.len(),
{
    if s.len() > 0 && s.last() != c {
        lemma_last_piece_start(s.drop_last(), c);
        assert forall|k: int| last_piece_start(s, c) <= k < s.len() implies s[k] != c by {
            if k < s.len() - 1 {
                assert(s.drop_last()[k] == s[k]);
            }
        }
    }
}

/// The text after the last `c` in `s`, as `s.split(c).last()` gives it.
pub fn last_piece_exec(s: &Vec<char>, c: char) -> (r: Vec<char>)
    ensures
        r@ == last_piece(s@, c),
{
    let mut start: usize = s.len();
    assert(s@.subrange(0, s.len() as int) =~= s@);
    while start > 0 && s[start - 1] != c
        invariant
            start <= s.len(),
            last_piece_start(s@, c) == last_piece_start(s@.subrange(0, start as int), c),
        decreases start,
    {
        assert(s@.subrange(0, start as int).drop_last() =~= s@.subrange(0, start - 1));
        start = start - 1;
    }
    assert(start == 0 ==> s@.subrange(0, start as int) =~= Seq::<char>::empty());
    let mut r: Vec<char> = Vec::new();
    let mut i: usize = start;
    while i < s.len()
        invariant
            start <= i <= s.len(),
            start == last_piece_start(s@, c),
            r@ == s@.subrange(start as int, i as int),
        decreases s.len() - i,
    {
        r.push(s[i]);
        assert(s@.subrange(start as int, i + 1) =~= s@.subrange(start as int, i as int).push(
            s@[i as int],
        ));
        i = i + 1;
    }
    assert(s@.skip(start as int) =~= s@.subrange(start as int, s.len() as int));
    r
}

/// The characters of `s` before its first `c` (all of `s` without one):
/// `s.split(c).next()`.
pub open spec fn first_piece(s: Seq<char>, c: char) -> Seq<char>
    decreases s.len(),
{
    if s.len() == 0 {
        s
    } else if s[0] == c {
        Seq::empty()
    } else {
        seq![s[0]] + first_piece(s.drop_first(), c)
    }
}

pub fn first_piece_exec(s: &Vec<char>, c: char) -> (r: Vec<char>)
    ensures
        r@ == first_piece(s@, c),
{
    let mut r: Vec<char> = Vec::new();
    let mut i: usize = 0;
    assert(s@.skip(0) =~= s@);
    while i < s.len() && s[i] != c
        invariant
            i <= s.len(),
            r@ == s@.subrange(0, i as int),
            forall|k: int| 0 <= k < i ==> s@[k] != c,
            first_piece(s@, c) == r@ + first_piece(s@.skip(i as int), c),
        decreases s.len() - i,
    {
        assert(s@.skip(i as int).drop_first() =~= s@.skip(i + 1));
        assert(seq![s@[i as int]] + first_piece(s@.skip(i + 1), c) == first_piece(
            s@.skip(i as int),
            c,
        ));
        r.push(s[i]);
        assert(r@ + first_piece(s@.skip(i + 1), c) =~= s@.subrange(0, i as int) + (seq![
            s@[i as int],
        ] + first_piece(s@.skip(i + 1), c)));
        i = i + 1;
    }
    if i < s.len() {
        assert(s@.skip(i as int)[0] == c);
    } else {
        assert(s@.skip(i as int).len() == 0);
    }
    assert(r@ + first_piece(s@.skip(i as int), c) =~= r@);
    r
}


/// Inserting `x` into `s` after the elements that are not greater than it.
pub open spec fn insert_sorted(s: Seq<Seq<char>>, x: Seq<char>) -> Seq<Seq<char>>
    decreases s.len(),
{
    if s.len() == 0 {
        seq![x]
    } else if lex_lt(x, s[0]) {
        seq![x] + s
    } else {
        seq![s[0]] + insert_sorted(s.drop_first(), x)
    }
}

/// The strings of `s` in ascending order (as `sort` on `String`s gives them).
pub open spec fn sort_seq(s: Seq<Seq<char>>) -> Seq<Seq<char>>
    decreases s.len(),
{
    if s.len() == 0 {
        s
    } else {
        insert_sorted(sort_seq(s.drop_last()), s.last())
    }
}

/// `parts.join(sep)`.
pub open spec fn join(parts: Seq<Seq<char>>, sep: Seq<char>) -> Seq<char>
    decreases parts.len(),
{
    if parts.len() == 0 {
        Seq::empty()
    } else if parts.len() == 1 {
        parts[0]
    } else {
        join(parts.drop_last(), sep) + sep + parts.last()
    }
}

pub open spec fn views(v: Seq<String>) -> Seq<Seq<char>> {
    v.map_values(|s: String| s@)
}

proof fn lemma_insert_at(s: Seq<Seq<char>>, x: Seq<char>, p: int)
    requires
        0 <= p <= s.len(),
        forall|q: int| 0 <= q < p ==> !lex_lt(x, #[trigger] s[q]),
        p < s.len() ==> lex_lt(x, s[p]),
    ensures
        insert_sorted(s, x) == s.take(p).push(x) + s.skip(p),
    decreases p,
{
    if p == 0 {
        assert(s.take(0).push(x) + s.skip(0) =~= seq![x] + s);
        if s.len() == 0 {
            assert(seq![x] + s =~= seq![x]);
        }
    } else {
        let t = s.drop_first();
        assert forall|q: int| 0 <= q < p - 1 implies !lex_lt(x, #[trigger] t[q]) by {
            assert(t[q] == s[q + 1]);
        }
        lemma_insert_at(t, x, p - 1);
        assert(!lex_lt(x, s[0]));
        assert(seq![s[0]] + (t.take(p - 1).push(x) + t.skip(p - 1)) =~= s.take(p).push(x) + s.skip(
            p,
        ));
    }
}

/// Inserts `x` into the sorted list `out`, after its elements not greater than `x`.
fn insert_sorted_exec(out: &mut Vec<String>, x: String)
    ensures
        views(final(out)@) == insert_sorted(views(old(out)@), x@),
{
    let ghost s = views(out@);
    let mut p: usize = 0;
    while p < out.len() && !str_lt(x.as_str(), out[p].as_str())
        invariant
            p <= out@.len(),
            s == views(out@),
            forall|q: int| 0 <= q < p ==> !lex_lt(x@, #[trigger] s[q]),
        decreases out.len() - p,
    {
        p = p + 1;
    }
    proof {
        lemma_insert_at(s, x@, p as int);
    }
    out.insert(p, x);
    assert(views(out@) =~= s.take(p as int).push(x@) + s.skip(p as int));
}

/// The strings in ascending order.
pub fn sort_strings(v: &Vec<String>) -> (r: Vec<String>)
    ensures
        views(r@) == sort_seq(views(v@)),
{
    let mut out: Vec<String> = Vec::new();
    let mut i: usize = 0;
    while i < v.len()
        invariant
            i <= v@.len(),
            views(out@) == sort_seq(views(v@).take(i as int)),
        decreases v.len() - i,
    {
        let x = v[i].clone();
        insert_sorted_exec(&mut out, x);
        proof {
            let t = views(v@).take(i + 1);
            assert(t.drop_last() =~= views(v@).take(i as int));
            assert(t.last() == v@[i as int]@);
        }
        i = i + 1;
    }
    assert(views(v@).take(v@.len() as int) =~= views(v@));
    out
}

/// `parts.join(sep)`.
pub fn join_strings(parts: &Vec<String>, sep: &str) -> (r: String)
    ensures
        r@ == join(views(parts@), sep@),
{
    let mut out = String::new();
    let mut i: usize = 0;
    while i < parts.len()
        invariant
            i <= parts@.len(),
            out@ == join(views(parts@).take(i as int), sep@),
        decreases parts.len() - i,
    {
        proof {
            let t = views(parts@).take(i + 1);
            assert(t.drop_last() =~= views(parts@).take(i as int));
            assert(t.last() == parts@[i as int]@);
        }
        if i > 0 {
            push_str(&mut out, sep);
        } else {
            assert(views(parts@).take(0).len() == 0);
            assert(views(parts@).take(1) =~= seq![parts@[0]@]);
        }
        push_str(&mut out, parts[i].as_str());
        i = i + 1;
    }
    assert(views(parts@).take(parts@.len() as int) =~= views(parts@));
    out
}


pub proof fn lemma_first_piece_stop(t: Seq<char>, c: char, m: int)
    requires
        0 <= m <= t.len(),
        forall|k: int| 0 <= k < m ==> t[k] != c,
        m < t.len() ==> t[m] == c,
    ensures
        first_piece(t, c) == t.take(m),
    decreases m,
{
    if m == 0 {
        if t.len() == 0 {
            assert(t.take(0) =~= t);
        } else {
            assert(t.take(0) =~= Seq::<char>::empty());
        }
    } else {
        let u = t.drop_first();
        assert forall|k: int| 0 <= k < m - 1 implies u[k] != c by {
            assert(u[k] == t[k + 1]);
        }
        lemma_first_piece_stop(u, c, m - 1);
        assert(seq![t[0]] + u.take(m - 1) =~= t.take(m));
    }
}

/// A line without its terminating carriage return.
pub open spec fn strip_cr(l: Seq<char>) -> Seq<char> {
    if l.len() > 0 && l.last() == '\r' {
        l.drop_last()
    } else {
        l
    }
}

/// `str::lines`: the text split at `\n` (a `\r` right before it is dropped);
/// a final `\n` ends the last line rather than starting an empty one.
pub open spec fn lines_of(s: Seq<char>) -> Seq<Seq<char>>
    decreases s.len(),
{
    if s.len() == 0 {
        Seq::empty()
    } else {
        let l = first_piece(s, '\n');
        if l.len() >= s.len() {
            seq![l]
        } else {
            seq![strip_cr(l)] + lines_of(s.skip(l.len() as int + 1))
        }
    }
}

/// `first_piece(s, c)` is the prefix of `s` before its first `c`.
pub proof fn lemma_first_piece_props(s: Seq<char>, c: char)
    ensures
        first_piece(s, c).len() <= s.len(),
        first_piece(s, c) == s.take(first_piece(s, c).len() as int),
        forall|k: int| 0 <= k < first_piece(s, c).len() ==> s[k] != c,
        first_piece(s, c).len() < s.len() ==> s[first_piece(s, c).len() as int] == c,
    decreases s.len(),
{
    if s.len() == 0 {
        assert(s.take(0) =~= s);
    } else if s[0] == c {
        assert(s.take(0) =~= Seq::<char>::empty());
    } else {
        let t = s.drop_first();
        lemma_first_piece_props(t, c);
        let n: int = first_piece(t, c).len() as int;
        assert(seq![s[0]] + t.take(n) =~= s.take(n + 1));
        assert forall|k: int| 0 <= k < n + 1 implies s[k] != c by {
            if k > 0 {
                assert(s[k] == t[k - 1]);
            }
        }
        if n < t.len() {
            assert(s[n + 1] == t[n]);
        }
    }
}

proof fn lemma_first_piece_len(s: Seq<char>, c: char)
    ensures
        first_piece(s, c).len() <= s.len(),
    decreases s.len(),
{
    if s.len() > 0 && s[0] != c {
        lemma_first_piece_len(s.drop_first(), c);
    }
}

fn strip_cr_exec(l: Vec<char>) -> (r: Vec<char>)
    ensures
        r@ == strip_cr(l@),
{
    let mut l = l;
    if l.len() > 0 && l[l.len() - 1] == '\r' {
        l.pop();
    }
    l
}

/// The lines of a text, as `str::lines` gives them.
pub fn split_lines(text: &str) -> (r: Vec<String>)
    ensures
        views(r@) == lines_of(text@),
{
    let cs = to_chars(text);
    let ghost s = cs@;
    let mut out: Vec<String> = Vec::new();
    let mut cur: Vec<char> = Vec::new();
    let mut start: usize = 0;
    let mut i: usize = 0;
    assert(s.skip(0) =~= s);
    while i < cs.len()
        invariant
            s == cs@,
            start <= i <= s.len(),
            cur@ == s.subrange(start as int, i as int),
            forall|k: int| start <= k < i ==> s[k] != '\n',
            lines_of(s) == views(out@) + lines_of(s.skip(start as int)),
        decreases cs.len() - i,
    {
        if cs[i] == '\n' {
            proof {
                let t = s.skip(start as int);
                lemma_first_piece_stop(t, '\n', i - start);
                assert(t.take(i - start) =~= cur@);
                assert(t.skip(i - start + 1) =~= s.skip(i + 1));
                assert(lines_of(t) == seq![strip_cr(cur@)] + lines_of(s.skip(i + 1)));
            }
            let line = strip_cr_exec(cur);
            let ghost before = out@;
            out.push(from_chars(&line));
            proof {
                assert(views(out@) =~= views(before).push(line@));
                assert(views(out@) + lines_of(s.skip(i + 1)) =~= views(before) + (seq![line@]
                    + lines_of(s.skip(i + 1))));
            }
            cur = Vec::new();
            start = i + 1;
            assert(s.subrange(start as int, start as int) =~= Seq::<char>::empty());
        } else {
            cur.push(cs[i]);
            assert(cur@ =~= s.subrange(start as int, i + 1));
        }
        i = i + 1;
    }
    proof {
        let t = s.skip(start as int);
        assert(t =~= cur@);
        lemma_first_piece_stop(t, '\n', t.len() as int);
        assert(t.take(t.len() as int) =~= t);
    }
    if cur.len() > 0 {
        let ghost before = out@;
        out.push(from_chars(&cur));
        assert(views(out@) =~= views(before).push(cur@));
        assert(lines_of(cur@) == seq![cur@]);
        assert(views(before) + seq![cur@] =~= views(out@));
    } else {
        assert(views(out@) + lines_of(cur@) =~= views(out@));
    }
    out
}

} // verus!

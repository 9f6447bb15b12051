//! Splitting and joining character sequences on a separator, as `str::split`
//! and `join` do.
use vstd::prelude::*;
use vstd::string::StrSliceExecFns;

use crate::util::chars_of;

verus! {

/// The pieces of `s` between occurrences of `sep` (`n` separators give `n + 1`
/// pieces, empty ones included), as `str::split` yields them.
pub open spec fn split_on(s: Seq<char>, sep: char) -> Seq<Seq<char>>
    decreases s.len(),
{
    if s.len() == 0 {
        seq![seq![]]
    } else if s.last() == sep {
        split_on(s.drop_last(), sep).push(seq![])
    } else {
        let p = split_on(s.drop_last(), sep);
        p.update(p.len() - 1, p.last().push(s.last()))
    }
}

/// The pieces joined with `sep` between them.
pub open spec fn join_on(ps: Seq<Seq<char>>, sep: char) -> Seq<char>
    decreases ps.len(),
{
    if ps.len() == 0 {
        seq![]
    } else if ps.len() == 1 {
        ps[0]
    } else {
        join_on(ps.drop_last(), sep).push(sep) + ps.last()
    }
}

/// There is always at least one piece.
pub proof fn lemma_split_len(s: Seq<char>, sep: char)
    ensures
        split_on(s, sep).len() >= 1,
    decreases s.len(),
{
    if s.len() > 0 {
        lemma_split_len(s.drop_last(), sep);
    }
}

/// Joining the pieces of `s` gives `s` back.
pub proof fn lemma_join_split(s: Seq<char>, sep: char)
    ensures
        join_on(split_on(s, sep), sep) == s,
    decreases s.len(),
{
    if s.len() > 0 {
        let prev = s.drop_last();
        lemma_join_split(prev, sep);
        lemma_split_len(prev, sep);
        let p = split_on(prev, sep);
        if s.last() == sep {
            let q = p.push(seq![]);
            assert(q.drop_last() =~= p);
            assert(join_on(q, sep) =~= s);
        } else {
            let q = p.update(p.len() - 1, p.last().push(s.last()));
            if p.len() == 1 {
                assert(join_on(p, sep) == p[0]);
                assert(q.len() == 1);
                assert(q[0] == p[0].push(s.last()));
                assert(join_on(q, sep) == q[0]);
                assert(prev.push(s.last()) =~= s);
            } else {
                assert(q.drop_last() =~= p.drop_last());
                assert(q.last() == p.last().push(s.last()));
                let head = join_on(p.drop_last(), sep).push(sep);
                assert(join_on(p, sep) == head + p.last());
                assert(join_on(q, sep) == head + p.last().push(s.last()));
                assert((head + p.last()).push(s.last()) =~= head + p.last().push(s.last()));
                assert(prev.push(s.last()) =~= s);
            }
        }
    }
}

/// Splitting after appending characters other than `sep` extends the last piece.
proof fn lemma_split_append(s: Seq<char>, e: Seq<char>, sep: char)
    requires
        !e.contains(sep),
    ensures
        ({
            let p = split_on(s, sep);
            split_on(s + e, sep) == p.update(p.len() - 1, p.last() + e)
        }),
    decreases e.len(),
{
    lemma_split_len(s, sep);
    let p = split_on(s, sep);
    if e.len() == 0 {
        assert(s + e =~= s);
        assert(p.update(p.len() - 1, p.last() + e) =~= p);
    } else {
        let e0 = e.drop_last();
        assert(!e0.contains(sep)) by {
            if e0.contains(sep) {
                let k = choose|k: int| 0 <= k < e0.len() && e0[k] == sep;
                assert(e[k] == sep);
            }
        }
        assert(e.last() != sep) by {
            assert(e[e.len() - 1] == e.last());
        }
        lemma_split_append(s, e0, sep);
        assert((s + e).drop_last() =~= s + e0);
        assert((s + e).last() == e.last());
        let q = split_on(s + e0, sep);
        let l = p.len() - 1;
        assert(q.len() == p.len());
        assert(q.last() == p.last() + e0);
        assert((p.last() + e0).push(e.last()) =~= p.last() + e);
        assert(q.update(l, q.last().push(e.last())) =~= p.update(l, p.last() + e));
    }
}

/// Splitting a join of pieces free of `sep` gives the pieces back.
pub proof fn lemma_split_join(ps: Seq<Seq<char>>, sep: char)
    requires
        ps.len() >= 1,
        forall|i: int| 0 <= i < ps.len() ==> !(#[trigger] ps[i]).contains(sep),
    ensures
        split_on(join_on(ps, sep), sep) == ps,
    decreases ps.len(),
{
    if ps.len() == 1 {
        lemma_split_append(Seq::<char>::empty(), ps[0], sep);
        assert(Seq::<char>::empty() + ps[0] =~= ps[0]);
        assert(split_on(Seq::<char>::empty(), sep).update(0, Seq::<char>::empty() + ps[0]) =~= ps);
    } else {
        let prev = ps.drop_last();
        assert forall|i: int| 0 <= i < prev.len() implies !(#[trigger] prev[i]).contains(sep) by {
            assert(prev[i] == ps[i]);
        }
        lemma_split_join(prev, sep);
        let j = join_on(prev, sep).push(sep);
        assert(split_on(j, sep) == ps.drop_last().push(seq![])) by {
            assert(j.drop_last() =~= join_on(prev, sep));
        }
        assert(!ps.last().contains(sep)) by {
            assert(ps[ps.len() - 1] == ps.last());
        }
        lemma_split_append(j, ps.last(), sep);
        assert(ps.drop_last().push(seq![]).update(ps.len() - 1, Seq::<char>::empty() + ps.last()) =~= ps);
    }
}

/// Split `s` on `sep`, as `s.split(sep)` does.
pub fn split_str(s: &str, sep: char) -> (parts: Vec<String>)
    ensures
        parts@.map_values(|p: String| p@) == split_on(s@, sep),
{
    let chars = chars_of(s);
    let mut parts: Vec<String> = Vec::new();
    let mut start: usize = 0;
    let mut i: usize = 0;
    proof {
        assert(s@.take(0) =~= Seq::<char>::empty());
        assert(s@.subrange(0, 0) =~= Seq::<char>::empty());
        assert(parts@.map_values(|p: String| p@).push(s@.subrange(0, 0)) =~= seq![Seq::<char>::empty()]);
    }
    while i < chars.len()
        invariant
            chars@ == s@,
            start <= i <= chars@.len(),
            split_on(s@.take(i as int), sep) == parts@.map_values(|p: String| p@).push(
                s@.subrange(start as int, i as int),
            ),
        decreases chars@.len() - i,
    {
        let ghost before = parts@.map_values(|p: String| p@);
        proof {
            assert(s@.take(i + 1).drop_last() =~= s@.take(i as int));
            assert(s@.take(i + 1).last() == s@[i as int]);
        }
        if chars[i] == sep {
            let piece = String::from_str(s.substring_char(start, i));
            let ghost pv = piece@;
            parts.push(piece);
            start = i + 1;
            proof {
                assert(parts@.map_values(|p: String| p@) =~= before.push(pv));
                assert(s@.subrange(start as int, i + 1) =~= Seq::<char>::empty());
            }
        } else {
            proof {
                assert(s@.subrange(start as int, i as int).push(s@[i as int]) =~= s@.subrange(start as int, i + 1));
            }
        }
        i = i + 1;
    }
    let last = String::from_str(s.substring_char(start, chars.len()));
    let ghost before = parts@.map_values(|p: String| p@);
    let ghost lv = last@;
    parts.push(last);
    proof {
        assert(s@.take(s@.len() as int) =~= s@);
        assert(parts@.map_values(|p: String| p@) =~= before.push(lv));
    }
    parts
}

/// `char::is_whitespace`: the characters of the Unicode `White_Space` property.
pub open spec fn is_whitespace(c: char) -> bool {
    let u = c as u32;
    ||| 9 <= u <= 13
    ||| u == 32
    ||| u == 0x85
    ||| u == 0xA0
    ||| u == 0x1680
    ||| 0x2000 <= u <= 0x200A
    ||| u == 0x2028
    ||| u == 0x2029
    ||| u == 0x202F
    ||| u == 0x205F
    ||| u == 0x3000
}

/// Whether `c` is stripped: whitespace when `q` is `None`, else the character `q`.
pub open spec fn stripped(c: char, q: Option<char>) -> bool {
    match q {
        None => is_whitespace(c),
        Some(x) => c == x,
    }
}

/// `s` without its leading stripped characters.
pub open spec fn trim_start(s: Seq<char>, q: Option<char>) -> Seq<char>
    decreases s.len(),
{
    if s.len() > 0 && stripped(s[0], q) {
        trim_start(s.drop_first(), q)
    } else {
        s
    }
}

/// `s` without its trailing stripped characters.
pub open spec fn trim_end(s: Seq<char>, q: Option<char>) -> Seq<char>
    decreases s.len(),
{
    if s.len() > 0 && stripped(s.last(), q) {
        trim_end(s.drop_last(), q)
    } else {
        s
    }
}

/// `s` without leading and trailing whitespace (`str::trim`), or, with
/// `Some(c)`, without leading and trailing `c`s (`str::trim_matches(c)`).
pub open spec fn trim(s: Seq<char>, q: Option<char>) -> Seq<char> {
    trim_end(trim_start(s, q), q)
}

/// Whether `c` is whitespace.
pub fn is_whitespace_char(c: char) -> (b: bool)
    ensures
        b == is_whitespace(c),
{
    let u = c as u32;
    (9 <= u && u <= 13) || u == 32 || u == 0x85 || u == 0xA0 || u == 0x1680 || (0x2000 <= u && u <= 0x200A)
        || u == 0x2028 || u == 0x2029 || u == 0x202F || u == 0x205F || u == 0x3000
}

fn is_stripped(c: char, q: Option<char>) -> (b: bool)
    ensures
        b == stripped(c, q),
{
    match q {
        None => is_whitespace_char(c),
        Some(x) => c == x,
    }
}

/// The bounds of `cs[lo..hi]` trimmed.
pub fn trim_range(cs: &Vec<char>, lo: usize, hi: usize, q: Option<char>) -> (r: (usize, usize))
    requires
        lo <= hi <= cs@.len(),
    ensures
        lo <= r.0 <= r.1 <= hi,
        cs@.subrange(r.0 as int, r.1 as int) == trim(cs@.subrange(lo as int, hi as int), q),
{
    let mut a = lo;
    while a < hi && is_stripped(cs[a], q)
        invariant
            lo <= a <= hi <= cs@.len(),
            trim_start(cs@.subrange(lo as int, hi as int), q) == trim_start(cs@.subrange(a as int, hi as int), q),
        decreases hi - a,
    {
        assert(cs@.subrange(a as int, hi as int).drop_first() =~= cs@.subrange(a + 1, hi as int));
        a = a + 1;
    }
    let mut b = hi;
    while b > a && is_stripped(cs[b - 1], q)
        invariant
            lo <= a <= b <= hi <= cs@.len(),
            trim_end(cs@.subrange(a as int, hi as int), q) == trim_end(cs@.subrange(a as int, b as int), q),
        decreases b - a,
    {
        assert(cs@.subrange(a as int, b as int).drop_last() =~= cs@.subrange(a as int, b - 1));
        b = b - 1;
    }
    (a, b)
}

/// The index of the first `c` in `s`.
pub open spec fn find_char(s: Seq<char>, c: char) -> Option<nat>
    decreases s.len(),
{
    if s.len() == 0 {
        None
    } else if s[0] == c {
        Some(0)
    } else {
        match find_char(s.drop_first(), c) {
            Some(i) => Some(i + 1),
            None => None,
        }
    }
}

/// The index of the first `c` in `cs[lo..hi]`, counted from `lo`.
pub fn find_in_range(cs: &Vec<char>, lo: usize, hi: usize, c: char) -> (r: Option<usize>)
    requires
        lo <= hi <= cs@.len(),
    ensures
        match find_char(cs@.subrange(lo as int, hi as int), c) {
            Some(i) => r == Some((lo + i) as usize),
            None => r is None,
        },
{
    let mut k = lo;
    while k < hi
        invariant
            lo <= k <= hi <= cs@.len(),
            find_char(cs@.subrange(lo as int, hi as int), c) == (match find_char(cs@.subrange(k as int, hi as int), c) {
                Some(i) => Some((i + k - lo) as nat),
                None => None::<nat>,
            }),
        decreases hi - k,
    {
        if cs[k] == c {
            return Some(k);
        }
        assert(cs@.subrange(k as int, hi as int).drop_first() =~= cs@.subrange(k + 1, hi as int));
        k = k + 1;
    }
    None
}

/// The bounds of the pieces of `cs[lo..hi]` between occurrences of `sep`.
pub fn split_ranges(cs: &Vec<char>, lo: usize, hi: usize, sep: char) -> (r: Vec<(usize, usize)>)
    requires
        lo <= hi <= cs@.len(),
    ensures
        r@.map_values(|p: (usize, usize)| cs@.subrange(p.0 as int, p.1 as int)) == split_on(
            cs@.subrange(lo as int, hi as int),
            sep,
        ),
        forall|j: int| 0 <= j < r@.len() ==> lo <= (#[trigger] r@[j]).0 <= r@[j].1 <= hi,
{
    let ghost s = cs@.subrange(lo as int, hi as int);
    let mut parts: Vec<(usize, usize)> = Vec::new();
    let mut start = lo;
    let mut i = lo;
    proof {
        assert(s.take(0) =~= Seq::<char>::empty());
        assert(cs@.subrange(lo as int, lo as int) =~= Seq::<char>::empty());
        assert(parts@.map_values(|p: (usize, usize)| cs@.subrange(p.0 as int, p.1 as int)).push(
            cs@.subrange(lo as int, lo as int),
        ) =~= seq![Seq::<char>::empty()]);
    }
    while i < hi
        invariant
            lo <= start <= i <= hi <= cs@.len(),
            s == cs@.subrange(lo as int, hi as int),
            split_on(s.take(i - lo), sep) == parts@.map_values(
                |p: (usize, usize)| cs@.subrange(p.0 as int, p.1 as int),
            ).push(cs@.subrange(start as int, i as int)),
            forall|j: int| 0 <= j < parts@.len() ==> lo <= (#[trigger] parts@[j]).0 <= parts@[j].1 <= hi,
        decreases hi - i,
    {
        let ghost before = parts@.map_values(|p: (usize, usize)| cs@.subrange(p.0 as int, p.1 as int));
        proof {
            assert(s.take(i + 1 - lo).drop_last() =~= s.take(i - lo));
            assert(s.take(i + 1 - lo).last() == cs@[i as int]);
        }
        if cs[i] == sep {
            parts.push((start, i));
            proof {
                assert(parts@.map_values(|p: (usize, usize)| cs@.subrange(p.0 as int, p.1 as int)) =~= before.push(
                    cs@.subrange(start as int, i as int),
                ));
                assert(cs@.subrange(i + 1, i + 1) =~= Seq::<char>::empty());
            }
            start = i + 1;
        } else {
            proof {
                assert(cs@.subrange(start as int, i as int).push(cs@[i as int]) =~= cs@.subrange(start as int, i + 1));
            }
        }
        i = i + 1;
    }
    let ghost before = parts@.map_values(|p: (usize, usize)| cs@.subrange(p.0 as int, p.1 as int));
    parts.push((start, hi));
    proof {
        assert(s.take(hi - lo) =~= s);
        assert(parts@.map_values(|p: (usize, usize)| cs@.subrange(p.0 as int, p.1 as int)) =~= before.push(
            cs@.subrange(start as int, hi as int),
        ));
    }
    parts
}

/// Whether `cs[lo..hi]` holds the characters of `word`.
pub fn range_is(cs: &Vec<char>, lo: usize, hi: usize, word: &str) -> (b: bool)
    requires
        lo <= hi <= cs@.len(),
    ensures
        b == (cs@.subrange(lo as int, hi as int) == word@),
{
    let w = chars_of(word);
    if hi - lo != w.len() {
        return false;
    }
    let mut k: usize = 0;
    while k < w.len()
        invariant
            w@ == word@,
            lo <= hi <= cs@.len(),
            hi - lo == w@.len(),
            k <= w@.len(),
            forall|j: int| 0 <= j < k ==> cs@[lo + j] == w@[j],
        decreases w@.len() - k,
    {
        if cs[lo + k] != w[k] {
            assert(cs@.subrange(lo as int, hi as int)[k as int] != word@[k as int]);
            return false;
        }
        k = k + 1;
    }
    assert(cs@.subrange(lo as int, hi as int) =~= word@);
    true
}

/// The first `c` found is a `c`, within `s`.
pub proof fn lemma_find_char(s: Seq<char>, c: char)
    ensures
        find_char(s, c) matches Some(i) ==> i < s.len() && s[i as int] == c,
    decreases s.len(),
{
    if s.len() > 0 && s[0] != c {
        lemma_find_char(s.drop_first(), c);
    }
}

/// Trimming leaves alone what has nothing to strip at either end.
pub proof fn lemma_trim_unchanged(s: Seq<char>, q: Option<char>)
    requires
        s.len() > 0,
        !stripped(s[0], q),
        !stripped(s.last(), q),
    ensures
        trim(s, q) == s,
{
}

/// Trimming skips stripped characters in front of a text that starts with a kept one.
pub proof fn lemma_trim_start_skips(w: Seq<char>, x: Seq<char>, q: Option<char>)
    requires
        forall|i: int| 0 <= i < w.len() ==> stripped(#[trigger] w[i], q),
        x.len() > 0,
        !stripped(x[0], q),
    ensures
        trim_start(w + x, q) == x,
    decreases w.len(),
{
    if w.len() == 0 {
        assert(w + x =~= x);
    } else {
        assert((w + x)[0] == w[0]);
        assert((w + x).drop_first() =~= w.drop_first() + x);
        let w1 = w.drop_first();
        assert forall|i: int| 0 <= i < w1.len() implies stripped(#[trigger] w1[i], q) by {
            assert(w1[i] == w[i + 1]);
        }
        lemma_trim_start_skips(w1, x, q);
    }
}

/// Trimming skips stripped characters behind a text that ends with a kept one.
pub proof fn lemma_trim_end_skips(x: Seq<char>, w: Seq<char>, q: Option<char>)
    requires
        forall|i: int| 0 <= i < w.len() ==> stripped(#[trigger] w[i], q),
        x.len() > 0,
        !stripped(x.last(), q),
    ensures
        trim_end(x + w, q) == x,
    decreases w.len(),
{
    if w.len() == 0 {
        assert(x + w =~= x);
    } else {
        assert((x + w).last() == w.last());
        assert(w.last() == w[w.len() - 1]);
        assert((x + w).drop_last() =~= x + w.drop_last());
        let w1 = w.drop_last();
        assert forall|i: int| 0 <= i < w1.len() implies stripped(#[trigger] w1[i], q) by {
            assert(w1[i] == w[i]);
        }
        lemma_trim_end_skips(x, w1, q);
    }
}

/// Trimming the end of a text that starts with a kept character leaves that character.
pub proof fn lemma_trim_end_nonempty(x: Seq<char>, q: Option<char>)
    requires
        x.len() > 0,
        !stripped(x[0], q),
    ensures
        trim_end(x, q).len() > 0,
    decreases x.len(),
{
    if x.len() > 1 && stripped(x.last(), q) {
        assert(x.drop_last()[0] == x[0]);
        lemma_trim_end_nonempty(x.drop_last(), q);
    } else if x.len() == 1 {
        assert(x.last() == x[0]);
    }
}

/// A prefix without `c` shifts where `c` is first found.
pub proof fn lemma_find_char_after(p: Seq<char>, q: Seq<char>, c: char)
    requires
        !p.contains(c),
    ensures
        find_char(p + q, c) == (match find_char(q, c) {
            Some(i) => Some(i + p.len()),
            None => None::<nat>,
        }),
    decreases p.len(),
{
    if p.len() == 0 {
        assert(p + q =~= q);
    } else {
        assert(p[0] != c);
        let p1 = p.drop_first();
        assert(!p1.contains(c)) by {
            if p1.contains(c) {
                let k = choose|k: int| 0 <= k < p1.len() && p1[k] == c;
                assert(p[k + 1] == c);
            }
        }
        lemma_find_char_after(p1, q, c);
        assert((p + q).drop_first() =~= p1 + q);
    }
}

/// Two pieces joined.
pub proof fn lemma_join2(a: Seq<char>, b: Seq<char>, sep: char)
    ensures
        join_on(seq![a, b], sep) == a.push(sep) + b,
{
    let ps = seq![a, b];
    assert(ps.drop_last() =~= seq![a]);
    assert(join_on(seq![a], sep) == a);
    assert(ps.last() == b);
}

} // verus!

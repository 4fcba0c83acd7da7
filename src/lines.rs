//! Lines of a text and `key<sep>value` entries on them.
use vstd::prelude::*;
use crate::text::{trim, trim_bounds};

verus! {

/// The pieces of `s` between `\n` characters; there is one more piece than there are
/// `\n` characters.
pub open spec fn pieces(s: Seq<char>) -> Seq<Seq<char>>
    decreases s.len(),
{
    if s.len() == 0 {
        seq![Seq::empty()]
    } else if s.last() == '\n' {
        pieces(s.drop_last()).push(Seq::empty())
    } else {
        let p = pieces(s.drop_last());
        p.update(p.len() - 1, p.last().push(s.last()))
    }
}

/// `l` without one `\r` at its end.
pub open spec fn strip_cr(l: Seq<char>) -> Seq<char> {
    if l.len() > 0 && l.last() == '\r' {
        l.drop_last()
    } else {
        l
    }
}

/// The lines of `s`: each ends at a `\n` or at the end of `s`, a `\r` before the `\n`
/// is dropped, and an empty piece after the last `\n` is no line.
pub open spec fn line_list(s: Seq<char>) -> Seq<Seq<char>> {
    let p = pieces(s);
    let n = if p.last().len() == 0 {
        p.len() - 1
    } else {
        p.len() as int
    };
    Seq::new(
        n as nat,
        |i: int|
            if i < p.len() - 1 {
                strip_cr(p[i])
            } else {
                p[i]
            },
    )
}

pub open spec fn range_views(v: Seq<char>, r: Seq<(usize, usize)>) -> Seq<Seq<char>> {
    Seq::new(r.len(), |i: int| v.subrange(r[i].0 as int, r[i].1 as int))
}

pub open spec fn ranges_within(v: Seq<char>, r: Seq<(usize, usize)>) -> bool {
    forall|i: int| 0 <= i < r.len() ==> #[trigger] r[i].0 <= r[i].1 <= v.len()
}

proof fn lemma_pieces_len(s: Seq<char>)
    ensures
        pieces(s).len() >= 1,
    decreases s.len(),
{
    if s.len() > 0 {
        lemma_pieces_len(s.drop_last());
    }
}

/// The lines of `v`, each as the bounds of its characters.
pub fn line_ranges(v: &Vec<char>) -> (r: Vec<(usize, usize)>)
    ensures
        ranges_within(v@, r@),
        range_views(v@, r@) == line_list(v@),
{
    let mut done: Vec<(usize, usize)> = Vec::new();
    let mut start: usize = 0;
    let mut i: usize = 0;
    assert(v@.take(0) =~= Seq::<char>::empty());
    assert(range_views(v@, done@).push(v@.subrange(0, 0)) =~= seq![Seq::<char>::empty()]);
    while i < v.len()
        invariant
            start <= i <= v@.len(),
            ranges_within(v@, done@),
            forall|j: int| 0 <= j < done@.len() ==> (#[trigger] done@[j]).1 < v@.len() && v@[done@[j].1 as int] == '\n',
            pieces(v@.take(i as int)) == range_views(v@, done@).push(
                v@.subrange(start as int, i as int),
            ),
        decreases v.len() - i,
    {
        let ghost t = v@.take(i + 1);
        assert(t.drop_last() =~= v@.take(i as int));
        proof {
            lemma_pieces_len(v@.take(i as int));
        }
        let ghost before = range_views(v@, done@);
        if v[i] == '\n' {
            assert(t.last() == '\n');
            assert(pieces(t) == pieces(v@.take(i as int)).push(Seq::empty()));
            done.push((start, i));
            assert(range_views(v@, done@) =~= before.push(v@.subrange(start as int, i as int)));
            start = i + 1;
            assert(v@.subrange(start as int, i + 1) =~= Seq::<char>::empty());
            assert(pieces(t) =~= range_views(v@, done@).push(v@.subrange(start as int, i + 1)));
        } else {
            assert(v@.subrange(start as int, i + 1) =~= v@.subrange(start as int, i as int).push(
                v@[i as int],
            ));
            assert(pieces(t) =~= range_views(v@, done@).push(v@.subrange(start as int, i + 1)));
        }
        i = i + 1;
    }
    assert(v@.take(i as int) =~= v@);
    let ghost p = pieces(v@);
    let mut r: Vec<(usize, usize)> = Vec::new();
    let mut j: usize = 0;
    while j < done.len()
        invariant
            j <= done@.len(),
            start <= v@.len(),
            p == pieces(v@),
            p == range_views(v@, done@).push(v@.subrange(start as int, v@.len() as int)),
            ranges_within(v@, done@),
            ranges_within(v@, r@),
            r@.len() == j,
            forall|k: int| 0 <= k < j ==> v@.subrange((#[trigger] r@[k]).0 as int, r@[k].1 as int) == strip_cr(p[k]),
        decreases done.len() - j,
    {
        let (a, b) = done[j];
        assert(p[j as int] == v@.subrange(a as int, b as int));
        if a < b && v[b - 1] == '\r' {
            assert(v@.subrange(a as int, b - 1) =~= v@.subrange(a as int, b as int).drop_last());
            r.push((a, b - 1));
        } else {
            r.push((a, b));
        }
        j = j + 1;
    }
    if start < v.len() {
        r.push((start, v.len()));
    }
    assert(range_views(v@, r@) =~= line_list(v@));
    r
}

/// `k` is the first position of `c` in `l`.
pub open spec fn is_first(l: Seq<char>, c: char, k: int) -> bool {
    0 <= k < l.len() && l[k] == c && forall|j: int| 0 <= j < k ==> l[j] != c
}

/// `l` cut at the first `c`, which belongs to neither part.
pub open spec fn split_once(l: Seq<char>, c: char) -> Option<(Seq<char>, Seq<char>)> {
    if exists|k: int| is_first(l, c, k) {
        let k = choose|k: int| is_first(l, c, k);
        Some((l.take(k), l.skip(k + 1)))
    } else {
        None
    }
}

/// The trimmed key and value of an entry `key<c>value`, if `l` holds `c`.
pub open spec fn entry(l: Seq<char>, c: char) -> Option<(Seq<char>, Seq<char>)> {
    match split_once(l, c) {
        Some(kv) => Some((trim(kv.0), trim(kv.1))),
        None => None,
    }
}

/// The bounds of the trimmed key and the trimmed value of the entry on `v[lo..hi]`
/// that `c` separates.
pub fn entry_bounds(v: &Vec<char>, lo: usize, hi: usize, c: char) -> (r: Option<
    ((usize, usize), (usize, usize)),
>)
    requires
        lo <= hi <= v@.len(),
    ensures
        match (r, entry(v@.subrange(lo as int, hi as int), c)) {
            (Some(((ka, kb), (va, vb))), Some((key, value))) => {
                &&& ka <= kb <= v@.len()
                &&& va <= vb <= v@.len()
                &&& v@.subrange(ka as int, kb as int) == key
                &&& v@.subrange(va as int, vb as int) == value
            },
            (None, None) => true,
            _ => false,
        },
{
    let ghost l = v@.subrange(lo as int, hi as int);
    let mut k: usize = lo;
    while k < hi && v[k] != c
        invariant
            lo <= k <= hi <= v@.len(),
            l == v@.subrange(lo as int, hi as int),
            forall|j: int| 0 <= j < k - lo ==> l[j] != c,
        decreases hi - k,
    {
        k = k + 1;
    }
    if k == hi {
        assert(!exists|m: int| is_first(l, c, m));
        return None;
    }
    let ghost m = k - lo;
    assert(is_first(l, c, m));
    assert forall|m2: int| is_first(l, c, m2) implies m2 == m by {
        if m2 < m {
            assert(l[m2] != c);
        } else if m2 > m {
            assert(l[m] != c);
        }
    }
    assert(l.take(m) =~= v@.subrange(lo as int, k as int));
    assert(l.skip(m + 1) =~= v@.subrange(k + 1, hi as int));
    let kb = trim_bounds(v, lo, k);
    let vb = trim_bounds(v, k + 1, hi);
    Some((kb, vb))
}

/// Whether `v[lo..hi]` is `w`.
pub fn range_eq(v: &Vec<char>, lo: usize, hi: usize, w: &Vec<char>) -> (r: bool)
    requires
        lo <= hi <= v@.len(),
    ensures
        r == (v@.subrange(lo as int, hi as int) == w@),
{
    if hi - lo != w.len() {
        return false;
    }
    let mut i: usize = 0;
    while i < w.len()
        invariant
            hi - lo == w@.len(),
            lo <= hi <= v@.len(),
            i <= w@.len(),
            forall|j: int| 0 <= j < i ==> v@[lo + j] == w@[j],
        decreases w.len() - i,
    {
        if v[lo + i] != w[i] {
            assert(v@.subrange(lo as int, hi as int)[i as int] != w@[i as int]);
            return false;
        }
        i = i + 1;
    }
    assert(v@.subrange(lo as int, hi as int) =~= w@);
    true
}

} // verus!

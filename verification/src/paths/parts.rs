//! The components of a path that was joined or cut.
use vstd::prelude::*;

use crate::paths::{
    absolute, below, comps, first_part, joined, last_part, lemma_spans, names, parent_of,
    root_part, spans, under,
};
use crate::text::{index_from, lemma_index_from, lemma_index_from_skip};

verus! {

proof fn lemma_index_agrees(p: Seq<char>, n: int, i: int)
    requires
        0 <= i <= n <= p.len(),
        n == p.len() || p[n] == '/' || (n > 0 && p[n - 1] == '/' && i < n),
    ensures
        index_from(p, '/', i) == index_from(p.take(n), '/', i) || (i == n),
        i < n ==> index_from(p, '/', i) <= n,
    decreases n - i,
{
    if i < n {
        if p[i] != '/' {
            lemma_index_agrees(p, n, i + 1);
            if i + 1 == n {
                assert(p.take(n)[i] == p[i]);
                assert(index_from(p.take(n), '/', n) == n);
                if n < p.len() {
                    assert(p[n] == '/');
                    assert(index_from(p, '/', n) == n);
                } else {
                    assert(index_from(p, '/', n) == n);
                }
            }
        }
        assert(p.take(n)[i] == p[i]);
    }
}

/// The names of a path are those before a separator and those behind it.
proof fn lemma_spans_cut(p: Seq<char>, n: int, i: int)
    requires
        0 <= i <= n <= p.len(),
        n == p.len() || p[n] == '/' || (n > 0 && p[n - 1] == '/'),
    ensures
        spans(p, i) == spans(p.take(n), i) + spans(p, n),
    decreases n - i,
{
    let b = p.take(n);
    if i == n {
        assert(spans(b, i) =~= Seq::empty());
        assert(spans(b, i) + spans(p, n) =~= spans(p, n));
    } else {
        assert(b[i] == p[i]);
        if p[i] == '/' {
            lemma_spans_cut(p, n, i + 1);
        } else {
            lemma_index_agrees(p, n, i);
            let j = index_from(p, '/', i);
            lemma_index_from(p, '/', i);
            lemma_index_from(p, '/', i + 1);
            assert(b.subrange(i, j) =~= p.subrange(i, j));
            lemma_spans_cut(p, n, j);
            if !(i > 0 && p.subrange(i, j) =~= seq!['.']) {
                assert(seq![(i, j)] + (spans(b, j) + spans(p, n)) =~= (seq![(i, j)] + spans(b, j))
                    + spans(p, n));
            }
        }
    }
}

/// The extents moved to the right.
spec fn shifted(s: Seq<(int, int)>, m: int) -> Seq<(int, int)> {
    Seq::new(s.len(), |k: int| (s[k].0 + m, s[k].1 + m))
}

/// The names of the end of a path are those of the path, unless it starts with
/// a dot.
proof fn lemma_spans_skip(p: Seq<char>, m: int, i: int)
    requires
        0 < m <= p.len(),
        0 <= i <= p.len() - m,
        i > 0 || !(spans(p.skip(m), 0).len() > 0 && names(p.skip(m), spans(p.skip(m), 0))[0]
            == seq!['.']),
    ensures
        spans(p, m + i) == shifted(spans(p.skip(m), i), m),
    decreases p.len() - m - i,
{
    let r = p.skip(m);
    if i < r.len() {
        assert(r[i] == p[m + i]);
        if r[i] == '/' {
            lemma_spans_skip_later(p, m, i + 1);
        } else {
            lemma_index_from_skip(p, '/', m, i);
            let j = index_from(r, '/', i);
            lemma_index_from(r, '/', i);
            lemma_index_from(r, '/', i + 1);
            assert(r.subrange(i, j) =~= p.subrange(m + i, m + j));
            lemma_spans_skip_later(p, m, j);
            if i == 0 {
                assert(spans(r, 0) == seq![(0int, j)] + spans(r, j));
                assert(names(r, spans(r, 0))[0] == r.subrange(0, j));
                assert(shifted(seq![(i, j)] + spans(r, j), m) =~= seq![(m + i, m + j)] + shifted(
                    spans(r, j),
                    m,
                ));
            } else if !(r.subrange(i, j) =~= seq!['.']) {
                assert(shifted(seq![(i, j)] + spans(r, j), m) =~= seq![(m + i, m + j)] + shifted(
                    spans(r, j),
                    m,
                ));
            }
        }
    } else {
        assert(shifted(spans(r, i), m) =~= spans(p, m + i));
    }
}

proof fn lemma_spans_skip_later(p: Seq<char>, m: int, i: int)
    requires
        0 < m <= p.len(),
        0 < i <= p.len() - m,
    ensures
        spans(p, m + i) == shifted(spans(p.skip(m), i), m),
    decreases p.len() - m - i,
{
    let r = p.skip(m);
    if i < r.len() {
        assert(r[i] == p[m + i]);
        if r[i] == '/' {
            lemma_spans_skip_later(p, m, i + 1);
        } else {
            lemma_index_from_skip(p, '/', m, i);
            let j = index_from(r, '/', i);
            lemma_index_from(r, '/', i);
            lemma_index_from(r, '/', i + 1);
            assert(r.subrange(i, j) =~= p.subrange(m + i, m + j));
            lemma_spans_skip_later(p, m, j);
            if !(r.subrange(i, j) =~= seq!['.']) {
                assert(shifted(seq![(i, j)] + spans(r, j), m) =~= seq![(m + i, m + j)] + shifted(
                    spans(r, j),
                    m,
                ));
            }
        }
    } else {
        assert(shifted(spans(r, i), m) =~= spans(p, m + i));
    }
}

/// The extents reach from one separator to the next, and none of them but one
/// at the start is a dot.
spec fn between(p: Seq<char>, s: Seq<(int, int)>) -> bool {
    forall|k: int|
        0 <= k < s.len() ==> {
            &&& 0 <= (#[trigger] s[k]).0 < s[k].1 <= p.len()
            &&& s[k].1 == p.len() || p[s[k].1] == '/'
            &&& s[k].0 > 0 ==> p[s[k].0 - 1] == '/' && p.subrange(s[k].0, s[k].1) != seq!['.']
            &&& forall|x: int| s[k].0 <= x < s[k].1 ==> p[x] != '/'
        }
}

proof fn lemma_between(p: Seq<char>, i: int)
    requires
        0 <= i <= p.len(),
        i == 0 || i == p.len() || p[i - 1] == '/' || p[i] == '/',
    ensures
        between(p, spans(p, i)),
    decreases p.len() - i,
{
    if i < p.len() {
        if p[i] == '/' {
            lemma_between(p, i + 1);
        } else {
            lemma_index_from(p, '/', i);
            lemma_index_from(p, '/', i + 1);
            let j = index_from(p, '/', i);
            lemma_between(p, j);
            let rest = spans(p, j);
            if !(i > 0 && p.subrange(i, j) =~= seq!['.']) {
                let all = spans(p, i);
                assert(all =~= seq![(i, j)] + rest);
                assert forall|k: int| 0 <= k < all.len() implies {
                    &&& 0 <= (#[trigger] all[k]).0 < all[k].1 <= p.len()
                    &&& all[k].1 == p.len() || p[all[k].1] == '/'
                    &&& all[k].0 > 0 ==> p[all[k].0 - 1] == '/' && p.subrange(all[k].0, all[k].1)
                        != seq!['.']
                    &&& forall|x: int| all[k].0 <= x < all[k].1 ==> p[x] != '/'
                } by {
                    if k > 0 {
                        assert(all[k] == rest[k - 1]);
                    }
                }
            }
        }
    }
}

/// Cut behind its `k`-th name, a path has its first `k` names.
proof fn lemma_first_names(p: Seq<char>, k: int)
    requires
        0 < k <= spans(p, 0).len(),
    ensures
        spans(p.take(spans(p, 0)[k - 1].1), 0) == spans(p, 0).take(k),
        spans(p, spans(p, 0)[k - 1].1) == spans(p, 0).skip(k),
{
    let s = spans(p, 0);
    let e = s[k - 1].1;
    lemma_spans(p, 0);
    lemma_between(p, 0);
    lemma_spans_cut(p, e, 0);
    let q = p.take(e);
    let a = spans(q, 0);
    let b = spans(p, e);
    lemma_spans(q, 0);
    lemma_spans(p, e);
    assert(s == a + b);
    if a.len() < k {
        assert(s[k - 1] == b[k - 1 - a.len()]);
        assert(b[k - 1 - a.len()].0 >= e);
    }
    if a.len() > k {
        assert(s[k] == a[k]);
        assert(s[k - 1].1 <= s[k].0);
        assert(a[k].0 < a[k].1 <= e);
    }
    assert(s.take(k) =~= a);
    assert(s.skip(k) =~= b);
}

/// A path up to its `n`-th component has its first `n` components.
pub proof fn lemma_first_part(p: Seq<char>, n: int)
    requires
        0 <= n <= comps(p).len(),
    ensures
        comps(first_part(p, n)) == comps(p).take(n),
        n > 0 ==> absolute(first_part(p, n)) == absolute(p),
{
    let s = spans(p, 0);
    let k = n - root_part(p).len();
    if n == 0 {
        let f = first_part(p, n);
        assert(spans(f, 0) =~= Seq::empty());
        assert(comps(f) =~= comps(p).take(n));
    } else if k <= 0 {
        let f = seq!['/'];
        assert(first_part(p, n) == f);
        assert(spans(f, 1) =~= Seq::empty());
        assert(spans(f, 0) =~= Seq::empty());
        assert(comps(f) =~= comps(p).take(n));
    } else {
        lemma_first_names(p, k);
        lemma_spans(p, 0);
        let e = s[k - 1].1;
        let f = p.take(e);
        assert(names(f, s.take(k)) =~= names(p, s).take(k)) by {
            assert forall|i: int| 0 <= i < k implies names(f, s.take(k))[i] == names(p, s)[i] by {
                assert(s[i].1 <= e) by {
                    if i < k - 1 {
                        assert(s[i].1 <= s[k - 1].0);
                    }
                }
                assert(f.subrange(s[i].0, s[i].1) =~= p.subrange(s[i].0, s[i].1));
            }
        }
        assert(comps(f) =~= comps(p).take(n));
    }
}

/// The components of the parent are all but the last.
pub proof fn lemma_parent(p: Seq<char>)
    ensures
        parent_of(p) matches Some(q) ==> comps(q) == comps(p).drop_last() && comps(p).len() > 0,
{
    if parent_of(p) is Some {
        lemma_first_part(p, comps(p).len() - 1);
        assert(comps(p).take(comps(p).len() - 1) =~= comps(p).drop_last());
    }
}

/// From the start of its `k`-th name on, a path has the names from there.
proof fn lemma_spans_from(q: Seq<char>, k: int)
    requires
        0 <= k < spans(q, 0).len(),
        spans(q, 0)[k].0 > 0,
    ensures
        spans(q, spans(q, 0)[k].0) == spans(q, 0).skip(k),
{
    let s = spans(q, 0);
    let m = s[k].0;
    lemma_spans(q, 0);
    lemma_between(q, 0);
    lemma_spans_cut(q, m, 0);
    let a = spans(q.take(m), 0);
    let b = spans(q, m);
    lemma_spans(q.take(m), 0);
    lemma_spans(q, m);
    assert(s == a + b);
    if a.len() > k {
        assert(s[k] == a[k]);
    }
    if a.len() < k {
        assert(s[a.len() as int] == b[0]);
        assert(s[a.len() as int].1 <= s[k].0);
        assert(b[0].0 >= m);
    }
    assert(b =~= s.skip(k));
}

/// The text from the `k`-th name to the last has the names from there.
proof fn lemma_last_names(p: Seq<char>, k: int)
    requires
        0 <= k < spans(p, 0).len(),
    ensures
        ({
            let s = spans(p, 0);
            let rel = p.subrange(s[k].0, s.last().1);
            &&& rel.len() > 0
            &&& rel[0] != '/'
            &&& names(rel, spans(rel, 0)) == names(p, s).skip(k)
        }),
{
    let s = spans(p, 0);
    let m = s[k].0;
    let e = s.last().1;
    let q = p.take(e);
    lemma_spans(p, 0);
    lemma_between(p, 0);
    lemma_first_names(p, s.len() as int);
    assert(s.take(s.len() as int) =~= s);
    assert forall|i: int| 0 <= i < s.len() implies (#[trigger] s[i]).1 <= e by {
        if i < s.len() - 1 {
            assert(s[i].1 <= s[s.len() - 1].0);
        }
    }
    let rel = p.subrange(m, e);
    assert(s[k].1 <= e);
    assert(rel[0] == p[m]);
    assert(rel =~= q.skip(m));
    let r = spans(rel, 0);
    if m == 0 {
        assert(k == 0) by {
            if k > 0 {
                assert(s[0].1 <= s[k].0);
            }
        }
        assert(rel =~= q);
        assert forall|i: int| 0 <= i < s.len() implies names(rel, r)[i] == names(p, s)[i] by {
            assert(s[i].1 <= e);
            assert(rel.subrange(s[i].0, s[i].1) =~= p.subrange(s[i].0, s[i].1));
        }
        assert(names(rel, r) =~= names(p, s).skip(k));
    } else {
        assert(spans(q, 0) == s);
        lemma_spans_from(q, k);
        let b = spans(q, m);
        assert(b == s.skip(k));
        assert(b[0] == s[k]);
        assert(q.subrange(m, s[k].1) =~= p.subrange(m, s[k].1));
        assert(q[m] == p[m]);
        lemma_first_name(q, m);
        lemma_spans_skip(q, m, 0);
        assert(b == shifted(r, m));
        assert(r.len() == s.len() - k);
        assert forall|i: int| 0 <= i < r.len() implies names(rel, r)[i] == names(p, s)[k + i] by {
            assert(s.skip(k)[i] == s[k + i]);
            assert(b[i] == s[k + i]);
            assert(b[i] == shifted(r, m)[i]);
            assert(s[k + i].1 <= e);
            assert(rel.subrange(r[i].0, r[i].1) =~= p.subrange(s[k + i].0, s[k + i].1));
        }
        assert(names(rel, r) =~= names(p, s).skip(k));
    }
}

/// The rest of a path below another has the components that are left.
pub proof fn lemma_below(p: Seq<char>, base: Seq<char>)
    requires
        under(p, base),
        comps(base).len() > 0,
    ensures
        below(p, base) matches Some(rel) && comps(rel) == comps(p).skip(comps(base).len() as int)
            && !absolute(rel) && (rel.len() == 0) == (comps(rel).len() == 0),
{
    let n = comps(base).len() as int;
    let s = spans(p, 0);
    let k = n - root_part(p).len();
    let rel = last_part(p, n);
    if s.len() == 0 || k >= s.len() {
        assert(spans(rel, 0) =~= Seq::empty());
        assert(comps(rel) =~= comps(p).skip(n));
    } else {
        lemma_last_names(p, k);
        assert(comps(rel) =~= comps(p).skip(n));
    }
}

/// The name that starts inside a path is no dot.
proof fn lemma_first_name(q: Seq<char>, m: int)
    requires
        0 < m < q.len(),
        q[m] != '/',
        spans(q, m).len() > 0,
        spans(q, m)[0].0 == m,
        q.subrange(m, spans(q, m)[0].1) != seq!['.'],
    ensures
        spans(q.skip(m), 0).len() > 0,
        names(q.skip(m), spans(q.skip(m), 0))[0] != seq!['.'],
{
    let r = q.skip(m);
    lemma_index_from_skip(q, '/', m, 0);
    lemma_index_from(q, '/', m);
    lemma_index_from(q, '/', m + 1);
    let j = index_from(q, '/', m);
    assert(r[0] == q[m]);
    assert(index_from(r, '/', 0) == j - m);
    assert(spans(r, 0) == seq![(0int, j - m)] + spans(r, j - m));
    assert(names(r, spans(r, 0))[0] == r.subrange(0, j - m));
    assert(r.subrange(0, j - m) =~= q.subrange(m, j));
    if q.subrange(m, j) =~= seq!['.'] {
        assert(spans(q, m) == spans(q, j));
        lemma_spans(q, j);
    } else {
        assert(spans(q, m) == seq![(m, j)] + spans(q, j));
    }
}

/// The components of a joined path are those of its two halves.
pub proof fn lemma_joined(base: Seq<char>, rel: Seq<char>)
    requires
        base.len() > 0,
        !absolute(rel),
        comps(rel).len() > 0 ==> comps(rel)[0] != seq!['.'],
    ensures
        comps(joined(base, rel)) == comps(base) + comps(rel),
{
    let p = joined(base, rel);
    let n = base.len() as int;
    let m = if base.last() == '/' {
        n
    } else {
        n + 1
    };
    assert(p.take(n) =~= base);
    assert(p.skip(m) =~= rel);
    assert(p[0] == base[0]);
    lemma_spans_cut(p, n, 0);
    lemma_spans(base, 0);
    let a = spans(base, 0);
    let r = spans(rel, 0);
    lemma_spans(rel, 0);
    assert(spans(p, n) == spans(p, m)) by {
        if m > n {
            assert(p[n] == '/');
        }
    }
    assert(comps(rel) =~= names(rel, r));
    lemma_spans_skip(p, m, 0);
    let s = spans(p, 0);
    assert(s == a + shifted(r, m));
    assert(names(p, s) =~= names(base, a) + names(rel, r)) by {
        assert forall|i: int| 0 <= i < s.len() implies names(p, s)[i] == (names(base, a) + names(
            rel,
            r,
        ))[i] by {
            if i < a.len() {
                assert(s[i] == a[i]);
                assert(p.subrange(a[i].0, a[i].1) =~= base.subrange(a[i].0, a[i].1));
            } else {
                let k = i - a.len();
                assert(s[i] == shifted(r, m)[k]);
                assert(p.subrange(r[k].0 + m, r[k].1 + m) =~= rel.subrange(r[k].0, r[k].1));
            }
        }
    }
    assert(comps(p) =~= comps(base) + comps(rel));
}

/// A name that is placed below a path is its last component.
pub proof fn lemma_joined_name(base: Seq<char>, name: Seq<char>)
    requires
        base.len() > 0,
        name.len() > 0,
        !name.contains('/'),
        name != seq!['.'],
    ensures
        comps(joined(base, name)) == comps(base).push(name),
{
    lemma_one_name(name);
    lemma_joined(base, name);
    assert(comps(base) + seq![name] =~= comps(base).push(name));
}

/// A text without a separator is a path of one name.
pub proof fn lemma_one_name(name: Seq<char>)
    requires
        name.len() > 0,
        !name.contains('/'),
    ensures
        comps(name) == seq![name],
        !absolute(name),
{
    assert forall|i: int| 0 <= i < name.len() implies name[i] != '/' by {
        if name[i] == '/' {
            assert(name.contains('/'));
        }
    }
    lemma_index_from(name, '/', 0);
    let j = index_from(name, '/', 0);
    assert(j == name.len());
    assert(spans(name, j) =~= Seq::empty());
    assert(spans(name, 0) =~= seq![(0int, j)]);
    assert(name.subrange(0, j) =~= name);
    assert(comps(name) =~= seq![name]);
}

/// The names of a path hold no separator.
pub proof fn lemma_names_are_plain(p: Seq<char>, i: int)
    requires
        root_part(p).len() <= i < comps(p).len(),
    ensures
        comps(p)[i].len() > 0,
        !comps(p)[i].contains('/'),
        i > 0 ==> comps(p)[i] != seq!['.'],
{
    let s = spans(p, 0);
    let k = i - root_part(p).len();
    lemma_spans(p, 0);
    lemma_between(p, 0);
    let name = p.subrange(s[k].0, s[k].1);
    assert(comps(p)[i] == name);
    assert forall|x: int| 0 <= x < name.len() implies name[x] != '/' by {
        assert(name[x] == p[s[k].0 + x]);
    }
    if i > 0 {
        assert(s[k].0 > 0) by {
            if k > 0 {
                assert(s[0].1 <= s[k].0);
            } else {
                assert(absolute(p));
            }
        }
    }
}

} // verus!

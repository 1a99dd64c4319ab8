//! Unix paths as text: components, prefixes and joining.
//!
//! A path is a string. Its components are its root (written `/`), when it is
//! absolute, followed by the names between the separators; repeated
//! separators and `.` names are skipped, except for a `.` at the very start
//! of a relative path.
pub mod parts;

use vstd::prelude::*;

use crate::text::{chars_of, find_char, index_from, lemma_index_from, opt_view, owned, same, string_of, views};

verus! {

/// The extents of the names of `p` from position `i` on.
pub open spec fn spans(p: Seq<char>, i: int) -> Seq<(int, int)>
    decreases p.len() - i,
    when 0 <= i
    via spans_decreases
{
    if i >= p.len() {
        Seq::empty()
    } else if p[i] == '/' {
        spans(p, i + 1)
    } else {
        let j = index_from(p, '/', i);
        if i > 0 && p.subrange(i, j) =~= seq!['.'] {
            spans(p, j)
        } else {
            seq![(i, j)] + spans(p, j)
        }
    }
}

#[via_fn]
proof fn spans_decreases(p: Seq<char>, i: int) {
    if i < p.len() && p[i] != '/' {
        lemma_index_from(p, '/', i + 1);
    }
}

/// The text of each extent.
pub open spec fn names(p: Seq<char>, s: Seq<(int, int)>) -> Seq<Seq<char>> {
    Seq::new(s.len(), |k: int| p.subrange(s[k].0, s[k].1))
}

/// The path starts at the root.
pub open spec fn absolute(p: Seq<char>) -> bool {
    p.len() > 0 && p[0] == '/'
}

/// The root component, when there is one.
pub open spec fn root_part(p: Seq<char>) -> Seq<Seq<char>> {
    if absolute(p) {
        seq![seq!['/']]
    } else {
        Seq::empty()
    }
}

/// The components of a path.
pub open spec fn comps(p: Seq<char>) -> Seq<Seq<char>> {
    root_part(p) + names(p, spans(p, 0))
}

/// Two paths name the same place.
pub open spec fn same_path(a: Seq<char>, b: Seq<char>) -> bool {
    comps(a) == comps(b)
}

/// `p` is `base` or lies below it.
pub open spec fn under(p: Seq<char>, base: Seq<char>) -> bool {
    comps(base).is_prefix_of(comps(p))
}

/// The last component, when it is a name.
pub open spec fn last_name(p: Seq<char>) -> Option<Seq<char>> {
    let c = comps(p);
    if c.len() == 0 || c.last() =~= seq!['/'] || c.last() =~= seq!['.'] || c.last() =~= seq![
        '.',
        '.',
    ] {
        None
    } else {
        Some(c.last())
    }
}

/// `p` up to the end of its `n`-th component.
pub open spec fn first_part(p: Seq<char>, n: int) -> Seq<char> {
    let k = n - root_part(p).len();
    if n <= 0 {
        Seq::empty()
    } else if k <= 0 {
        seq!['/']
    } else {
        p.take(spans(p, 0)[k - 1].1)
    }
}

/// `p` without its first `n` components.
pub open spec fn last_part(p: Seq<char>, n: int) -> Seq<char> {
    let s = spans(p, 0);
    let k = n - root_part(p).len();
    if n <= 0 && absolute(p) {
        first_part(p, comps(p).len() as int)
    } else if s.len() == 0 || k >= s.len() {
        Seq::empty()
    } else if k <= 0 {
        p.subrange(s[0].0, s.last().1)
    } else {
        p.subrange(s[k].0, s.last().1)
    }
}

/// The path without its last component; a root or an empty path has none.
pub open spec fn parent_of(p: Seq<char>) -> Option<Seq<char>> {
    let n = comps(p).len();
    if n == 0 || (n == 1 && absolute(p)) {
        None
    } else {
        Some(first_part(p, n - 1))
    }
}

/// `rel` placed below `base`, or `rel` itself when it is absolute.
pub open spec fn joined(base: Seq<char>, rel: Seq<char>) -> Seq<char> {
    if absolute(rel) {
        rel
    } else if base.len() == 0 || base.last() == '/' {
        base + rel
    } else {
        base.push('/') + rel
    }
}

/// The rest of `p` below `base`.
pub open spec fn below(p: Seq<char>, base: Seq<char>) -> Option<Seq<char>> {
    if under(p, base) {
        Some(last_part(p, comps(base).len() as int))
    } else {
        None
    }
}

/// `p` with its last name replaced by `name`.
pub open spec fn renamed(p: Seq<char>, name: Seq<char>) -> Seq<char> {
    match last_name(p) {
        Some(_) => joined(first_part(p, comps(p).len() - 1), name),
        None => joined(p, name),
    }
}

/// The extents `s` lie in `p` from `i` on, in order, and each begins with no separator.
pub(crate) open spec fn in_order(p: Seq<char>, i: int, s: Seq<(int, int)>) -> bool {
    &&& forall|k: int|
        0 <= k < s.len() ==> i <= (#[trigger] s[k]).0 < s[k].1 <= p.len() && p[s[k].0] != '/'
    &&& forall|k: int, m: int| 0 <= k < m < s.len() ==> (#[trigger] s[k]).1 <= (#[trigger] s[m]).0
}

pub(crate) proof fn lemma_spans(p: Seq<char>, i: int)
    requires
        0 <= i <= p.len(),
    ensures
        in_order(p, i, spans(p, i)),
    decreases p.len() - i,
{
    if i < p.len() {
        if p[i] == '/' {
            lemma_spans(p, i + 1);
            assert(spans(p, i) == spans(p, i + 1));
        } else {
            lemma_index_from(p, '/', i);
            lemma_index_from(p, '/', i + 1);
            let j = index_from(p, '/', i);
            let rest = spans(p, j);
            lemma_spans(p, j);
            if !(i > 0 && p.subrange(i, j) =~= seq!['.']) {
                let all = spans(p, i);
                assert(all =~= seq![(i, j)] + rest);
                assert forall|k: int| 0 <= k < all.len() implies i <= (#[trigger] all[k]).0
                    < all[k].1 <= p.len() && p[all[k].0] != '/' by {
                    if k > 0 {
                        assert(all[k] == rest[k - 1]);
                    }
                }
                assert forall|k: int, m: int| 0 <= k < m < all.len() implies (
                #[trigger] all[k]).1 <= (#[trigger] all[m]).0 by {
                    assert(all[m] == rest[m - 1]);
                    if k > 0 {
                        assert(all[k] == rest[k - 1]);
                    }
                }
            } else {
                assert(spans(p, i) == rest);
            }
        }
    } else {
        assert(spans(p, i) =~= Seq::empty());
    }
}

/// The extents of the names of a path.
fn find_spans(p: &Vec<char>) -> (r: Vec<(usize, usize)>)
    ensures
        r@.len() == spans(p@, 0).len(),
        forall|k: int|
            0 <= k < r@.len() ==> (#[trigger] r@[k]).0 == spans(p@, 0)[k].0 && r@[k].1 == spans(
                p@,
                0,
            )[k].1,
{
    let mut r: Vec<(usize, usize)> = Vec::new();
    let ghost mut seen: Seq<(int, int)> = Seq::empty();
    let mut i: usize = 0;
    assert(seen + spans(p@, 0) =~= spans(p@, 0));
    while i < p.len()
        invariant
            i <= p@.len(),
            seen + spans(p@, i as int) == spans(p@, 0),
            r@.len() == seen.len(),
            forall|k: int|
                0 <= k < r@.len() ==> (#[trigger] r@[k]).0 == seen[k].0 && r@[k].1 == seen[k].1,
        decreases p@.len() - i,
    {
        if p[i] == '/' {
            i = i + 1;
        } else {
            let j: usize = find_char(p, '/', i);
            proof {
                lemma_index_from(p@, '/', i + 1);
                lemma_index_from(p@, '/', i as int);
            }
            let dot = i > 0 && j == i + 1 && p[i] == '.';
            assert(dot == (i > 0 && p@.subrange(i as int, j as int) =~= seq!['.'])) by {
                if j == i + 1 {
                    assert(p@.subrange(i as int, j as int)[0] == p@[i as int]);
                    if p@[i as int] == '.' {
                        assert(p@.subrange(i as int, j as int) =~= seq!['.']);
                    }
                } else {
                    assert(p@.subrange(i as int, j as int).len() != 1);
                }
            }
            if !dot {
                r.push((i, j));
                proof {
                    let next = seen.push((i as int, j as int));
                    assert(next + spans(p@, j as int) =~= seen + (seq![(i as int, j as int)]
                        + spans(p@, j as int)));
                    seen = next;
                }
            }
            i = j;
        }
    }
    assert(seen =~= spans(p@, 0));
    r
}

/// The components of a path, the root first.
pub fn components(p: &str) -> (r: Vec<String>)
    ensures
        views(r@) == comps(p@),
{
    let v = chars_of(p);
    let s = find_spans(&v);
    proof {
        lemma_spans(p@, 0);
    }
    let mut r: Vec<String> = Vec::new();
    if v.len() > 0 && v[0] == '/' {
        let mut root = String::new();
        root.push('/');
        assert(root@ =~= seq!['/']);
        r.push(root);
    }
    assert(views(r@) =~= root_part(p@));
    let mut k: usize = 0;
    while k < s.len()
        invariant
            v@ == p@,
            k <= s@.len(),
            s@.len() == spans(p@, 0).len(),
            forall|j: int|
                0 <= j < s@.len() ==> (#[trigger] s@[j]).0 == spans(p@, 0)[j].0 && s@[j].1
                    == spans(p@, 0)[j].1,
            forall|j: int|
                0 <= j < spans(p@, 0).len() ==> 0 <= (#[trigger] spans(p@, 0)[j]).0 < spans(
                    p@,
                    0,
                )[j].1 <= p@.len(),
            views(r@) == root_part(p@) + names(p@, spans(p@, 0)).take(k as int),
        decreases s@.len() - k,
    {
        let (a, b) = s[k];
        let name = string_of(&v, a, b);
        let ghost before = views(r@);
        r.push(name);
        assert(views(r@) =~= before.push(name@));
        assert(views(r@) =~= root_part(p@) + names(p@, spans(p@, 0)).take(k + 1));
        k = k + 1;
    }
    assert(views(r@) =~= comps(p@));
    r
}

/// `a` begins with the entries of `b`.
fn starts_with_all(a: &Vec<String>, b: &Vec<String>) -> (r: bool)
    ensures
        r == views(b@).is_prefix_of(views(a@)),
{
    if b.len() > a.len() {
        return false;
    }
    let mut i: usize = 0;
    while i < b.len()
        invariant
            i <= b@.len() <= a@.len(),
            forall|j: int| 0 <= j < i ==> views(a@)[j] == views(b@)[j],
        decreases b@.len() - i,
    {
        if !same(&a[i], &b[i]) {
            assert(views(a@)[i as int] != views(b@)[i as int]);
            return false;
        }
        i = i + 1;
    }
    assert(views(b@) =~= views(a@).subrange(0, b@.len() as int));
    true
}

/// `p` is `base` or lies below it.
pub fn is_under(p: &str, base: &str) -> (r: bool)
    ensures
        r == under(p@, base@),
{
    let a = components(p);
    let b = components(base);
    starts_with_all(&a, &b)
}

/// Two paths name the same place.
pub fn path_eq(a: &str, b: &str) -> (r: bool)
    ensures
        r == same_path(a@, b@),
{
    let x = components(a);
    let y = components(b);
    let r = x.len() == y.len() && starts_with_all(&x, &y);
    proof {
        if r {
            assert(comps(b@) =~= comps(a@));
        } else if same_path(a@, b@) {
            assert(comps(b@) =~= comps(a@).subrange(0, comps(b@).len() as int));
        }
    }
    r
}

/// The path is absolute.
pub fn is_absolute(p: &str) -> (r: bool)
    ensures
        r == absolute(p@),
{
    let v = chars_of(p);
    v.len() > 0 && v[0] == '/'
}

/// `rel` placed below `base`.
pub fn join_path(base: &str, rel: &str) -> (r: String)
    ensures
        r@ == joined(base@, rel@),
{
    if is_absolute(rel) {
        return owned(rel);
    }
    let v = chars_of(base);
    let mut r = owned(base);
    if v.len() > 0 && v[v.len() - 1] != '/' {
        r.push('/');
    }
    r.append(rel);
    r
}

/// `p` up to the end of its `n`-th component.
fn head(p: &str, n: usize) -> (r: String)
    requires
        n <= comps(p@).len(),
    ensures
        r@ == first_part(p@, n as int),
{
    let v = chars_of(p);
    let s = find_spans(&v);
    proof {
        lemma_spans(p@, 0);
    }
    let root: usize = if v.len() > 0 && v[0] == '/' { 1 } else { 0 };
    if n == 0 {
        return String::new();
    }
    if n <= root {
        let mut r = String::new();
        r.push('/');
        assert(r@ =~= seq!['/']);
        return r;
    }
    let (_, b) = s[n - root - 1];
    let r = string_of(&v, 0, b);
    assert(r@ =~= p@.take(b as int));
    r
}

/// The path without its last component.
pub fn parent(p: &str) -> (r: Option<String>)
    ensures
        opt_view(r) == parent_of(p@),
{
    let n: usize = components(p).len();
    if n == 0 || (n == 1 && is_absolute(p)) {
        None
    } else {
        Some(head(p, n - 1))
    }
}

/// The last component, when it is a name.
pub fn file_name(p: &str) -> (r: Option<String>)
    ensures
        opt_view(r) == last_name(p@),
{
    let c = components(p);
    if c.len() == 0 {
        return None;
    }
    let last = c[c.len() - 1].clone();
    assert(last@ == comps(p@).last());
    proof {
        reveal_strlit("/");
        reveal_strlit(".");
        reveal_strlit("..");
        assert("/"@ =~= seq!['/']);
        assert("."@ =~= seq!['.']);
        assert(".."@ =~= seq!['.', '.']);
    }
    if same(&last, "/") || same(&last, ".") || same(&last, "..") {
        None
    } else {
        Some(last)
    }
}

/// `p` with its last name replaced.
pub fn with_file_name(p: &str, name: &str) -> (r: String)
    ensures
        r@ == renamed(p@, name@),
{
    match file_name(p) {
        Some(_) => {
            let n: usize = components(p).len();
            let dir = head(p, n - 1);
            join_path(&dir, name)
        },
        None => join_path(p, name),
    }
}

/// The rest of `p` below `base`.
pub fn strip_base(p: &str, base: &str) -> (r: Option<String>)
    ensures
        opt_view(r) == below(p@, base@),
{
    let a = components(p);
    let b = components(base);
    if !starts_with_all(&a, &b) {
        return None;
    }
    let v = chars_of(p);
    let s = find_spans(&v);
    proof {
        lemma_spans(p@, 0);
    }
    let root: usize = if v.len() > 0 && v[0] == '/' { 1 } else { 0 };
    let n: usize = b.len();
    if n == 0 && root == 1 {
        return Some(head(p, a.len()));
    }
    if s.len() == 0 || (n >= root && n - root >= s.len()) {
        return Some(String::new());
    }
    let k: usize = if n <= root { 0 } else { n - root };
    let (x, _) = s[k];
    let (_, y) = s[s.len() - 1];
    Some(string_of(&v, x, y))
}

} // verus!

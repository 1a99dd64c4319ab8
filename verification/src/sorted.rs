//! Lists that are kept in order, without repetition.
use vstd::prelude::*;

use crate::order::{
    before, is_before, lemma_before_irreflexive, lemma_before_total, lemma_before_transitive,
};
use crate::paths::{components, comps};
use crate::text::{same, views};

verus! {

/// Values that can be put in order. Those of which neither precedes the other
/// stand for the same thing.
pub trait Ranked: View + Sized {
    /// `a` comes before `b`.
    spec fn precedes(a: Self::V, b: Self::V) -> bool;

    proof fn lemma_irreflexive(a: Self::V)
        ensures
            !Self::precedes(a, a),
    ;

    proof fn lemma_transitive(a: Self::V, b: Self::V, c: Self::V)
        requires
            Self::precedes(a, b),
            Self::precedes(b, c),
        ensures
            Self::precedes(a, c),
    ;

    /// What comes before one of two that stand for the same comes before the
    /// other; so does what comes after.
    proof fn lemma_ties(a: Self::V, b: Self::V, c: Self::V)
        requires
            !Self::precedes(a, b),
            !Self::precedes(b, a),
        ensures
            Self::precedes(a, c) == Self::precedes(b, c),
            Self::precedes(c, a) == Self::precedes(c, b),
    ;

    fn comes_before(&self, other: &Self) -> (r: bool)
        ensures
            r == Self::precedes(self@, other@),
    ;
}

/// The two stand for the same thing.
pub open spec fn tied<T: Ranked>(a: T::V, b: T::V) -> bool {
    !T::precedes(a, b) && !T::precedes(b, a)
}

/// Each element precedes the next ones.
pub open spec fn ascending<T: Ranked>(s: Seq<T::V>) -> bool {
    forall|i: int, j: int| 0 <= i < j < s.len() ==> T::precedes(#[trigger] s[i], #[trigger] s[j])
}

/// How many of the leading elements precede `x`.
pub open spec fn slot<T: Ranked>(s: Seq<T::V>, x: T::V) -> int
    decreases s.len(),
{
    if s.len() > 0 && T::precedes(s[0], x) {
        1 + slot::<T>(s.skip(1), x)
    } else {
        0
    }
}

/// The list with one more element, unless one that stands for the same is there.
pub open spec fn merged<T: Ranked>(s: Seq<T::V>, x: T::V) -> Seq<T::V> {
    let i = slot::<T>(s, x);
    if i < s.len() && !T::precedes(x, s[i]) {
        s
    } else {
        s.insert(i, x)
    }
}

/// The elements in order; of those that stand for the same, the first.
pub open spec fn sorted<T: Ranked>(s: Seq<T::V>) -> Seq<T::V>
    decreases s.len(),
{
    if s.len() == 0 {
        seq![]
    } else {
        merged::<T>(sorted::<T>(s.drop_last()), s.last())
    }
}

proof fn lemma_slot<T: Ranked>(s: Seq<T::V>, x: T::V)
    ensures
        0 <= slot::<T>(s, x) <= s.len(),
        forall|i: int| 0 <= i < slot::<T>(s, x) ==> T::precedes(#[trigger] s[i], x),
        slot::<T>(s, x) < s.len() ==> !T::precedes(s[slot::<T>(s, x)], x),
    decreases s.len(),
{
    if s.len() > 0 && T::precedes(s[0], x) {
        let r = s.skip(1);
        lemma_slot::<T>(r, x);
        assert forall|i: int| 0 <= i < slot::<T>(s, x) implies T::precedes(#[trigger] s[i], x) by {
            if i > 0 {
                assert(s[i] == r[i - 1]);
            }
        }
        let k = slot::<T>(r, x);
        if k < r.len() {
            assert(s[k + 1] == r[k]);
        }
    }
}

/// An ordered list stays ordered.
pub proof fn lemma_merged<T: Ranked>(s: Seq<T::V>, x: T::V)
    requires
        ascending::<T>(s),
    ensures
        ascending::<T>(merged::<T>(s, x)),
        forall|y: T::V| #[trigger] merged::<T>(s, x).contains(y) ==> s.contains(y) || y == x,
        forall|y: T::V| #[trigger] s.contains(y) ==> merged::<T>(s, x).contains(y),
        exists|i: int|
            0 <= i < merged::<T>(s, x).len() && tied::<T>(#[trigger] merged::<T>(s, x)[i], x),
{
    lemma_slot::<T>(s, x);
    let k = slot::<T>(s, x);
    let r = merged::<T>(s, x);
    if k < s.len() && !T::precedes(x, s[k]) {
        assert(tied::<T>(r[k], x));
    } else {
        assert(r == s.insert(k, x));
        assert(r[k] == x);
        T::lemma_irreflexive(x);
        assert(tied::<T>(r[k], x));
        assert forall|i: int, j: int| 0 <= i < j < r.len() implies T::precedes(
            #[trigger] r[i],
            #[trigger] r[j],
        ) by {
            let a = if i < k {
                i
            } else {
                i - 1
            };
            let b = if j < k {
                j
            } else {
                j - 1
            };
            if i == k {
                assert(r[j] == s[b]);
                if b > k {
                    T::lemma_transitive(x, s[k], s[b]);
                }
            } else if j == k {
                assert(r[i] == s[a]);
            } else {
                assert(r[i] == s[a] && r[j] == s[b]);
            }
        }
        assert forall|y: T::V| #[trigger] s.contains(y) implies r.contains(y) by {
            let i = choose|i: int| 0 <= i < s.len() && s[i] == y;
            if i < k {
                assert(r[i] == y);
            } else {
                assert(r[i + 1] == y);
            }
        }
        assert forall|y: T::V| #[trigger] r.contains(y) implies s.contains(y) || y == x by {
            let i = choose|i: int| 0 <= i < r.len() && r[i] == y;
            if i < k {
                assert(s[i] == y);
            } else if i > k {
                assert(s[i - 1] == y);
            }
        }
    }
}

/// Sorting orders the elements, adds none and leaves none unrepresented.
pub proof fn lemma_sorted<T: Ranked>(s: Seq<T::V>)
    ensures
        ascending::<T>(sorted::<T>(s)),
        forall|y: T::V| #[trigger] sorted::<T>(s).contains(y) ==> s.contains(y),
        forall|i: int|
            0 <= i < s.len() ==> exists|j: int|
                0 <= j < sorted::<T>(s).len() && tied::<T>(
                    #[trigger] sorted::<T>(s)[j],
                    #[trigger] s[i],
                ),
    decreases s.len(),
{
    if s.len() > 0 {
        let d = s.drop_last();
        let x = s.last();
        lemma_sorted::<T>(d);
        let r = sorted::<T>(d);
        lemma_merged::<T>(r, x);
        let m = merged::<T>(r, x);
        assert(sorted::<T>(s) == m);
        assert forall|y: T::V| #[trigger] m.contains(y) implies s.contains(y) by {
            if r.contains(y) {
                assert(d.contains(y));
                let i = choose|i: int| 0 <= i < d.len() && d[i] == y;
                assert(s[i] == y);
            } else {
                assert(s[s.len() - 1] == y);
            }
        }
        assert forall|i: int| 0 <= i < s.len() implies exists|j: int|
            0 <= j < m.len() && tied::<T>(#[trigger] m[j], #[trigger] s[i]) by {
            if i < d.len() {
                assert(d[i] == s[i]);
                let j = choose|j: int|
                    0 <= j < r.len() && tied::<T>(#[trigger] r[j], #[trigger] d[i]);
                assert(r.contains(r[j]));
                assert(m.contains(r[j]));
                let k = choose|k: int| 0 <= k < m.len() && m[k] == r[j];
                assert(tied::<T>(m[k], s[i]));
            } else {
                let j = choose|j: int| 0 <= j < m.len() && tied::<T>(#[trigger] m[j], x);
                assert(tied::<T>(m[j], s[i]));
            }
        }
    }
}

/// Put an element in its place, unless one that stands for the same is there.
pub fn insert_sorted<T: Ranked>(list: &mut Vec<T>, x: T)
    ensures
        views(final(list)@) == merged::<T>(views(old(list)@), x@),
{
    let ghost s = views(list@);
    let mut i: usize = 0;
    assert(s.skip(0) =~= s);
    proof {
        lemma_slot::<T>(s, x@);
    }
    while i < list.len() && list[i].comes_before(&x)
        invariant
            views(list@) == s,
            i <= list@.len(),
            slot::<T>(s, x@) == i + slot::<T>(s.skip(i as int), x@),
        decreases list@.len() - i,
    {
        assert(s.skip(i as int)[0] == list@[i as int]@);
        assert(s.skip(i as int).skip(1) =~= s.skip(i + 1));
        i = i + 1;
    }
    if i < list.len() {
        assert(s.skip(i as int)[0] == list@[i as int]@);
        assert(s[i as int] == list@[i as int]@);
    }
    assert(slot::<T>(s, x@) == i);
    if i < list.len() && !x.comes_before(&list[i]) {
        return;
    }
    list.insert(i, x);
    assert(views(list@) =~= s.insert(i as int, x@));
}

/// Where a component stands among others: the root, then the dots, then names.
pub open spec fn comp_rank(c: Seq<char>) -> int {
    if c == seq!['/'] {
        0
    } else if c == seq!['.'] {
        1
    } else if c == seq!['.', '.'] {
        2
    } else {
        3
    }
}

/// One component comes before another.
pub open spec fn comp_before(a: Seq<char>, b: Seq<char>) -> bool {
    comp_rank(a) < comp_rank(b) || (comp_rank(a) == 3 && comp_rank(b) == 3 && before(a, b))
}

/// One list of components comes before another.
pub open spec fn comps_before(a: Seq<Seq<char>>, b: Seq<Seq<char>>) -> bool
    decreases a.len(),
{
    if b.len() == 0 {
        false
    } else if a.len() == 0 {
        true
    } else if a[0] == b[0] {
        comps_before(a.skip(1), b.skip(1))
    } else {
        comp_before(a[0], b[0])
    }
}

/// One path comes before another, component by component.
pub open spec fn path_before(a: Seq<char>, b: Seq<char>) -> bool {
    comps_before(comps(a), comps(b))
}

proof fn lemma_comp_total(a: Seq<char>, b: Seq<char>)
    ensures
        comp_before(a, b) || a == b || comp_before(b, a),
        !(comp_before(a, b) && comp_before(b, a)),
        !comp_before(a, a),
{
    lemma_before_total(a, b);
    lemma_before_irreflexive(a);
    if before(a, b) && before(b, a) {
        lemma_before_transitive(a, b, a);
    }
}

proof fn lemma_comps_irreflexive(a: Seq<Seq<char>>)
    ensures
        !comps_before(a, a),
    decreases a.len(),
{
    if a.len() > 0 {
        lemma_comps_irreflexive(a.skip(1));
    }
}

proof fn lemma_comps_transitive(a: Seq<Seq<char>>, b: Seq<Seq<char>>, c: Seq<Seq<char>>)
    requires
        comps_before(a, b),
        comps_before(b, c),
    ensures
        comps_before(a, c),
    decreases a.len(),
{
    if a.len() > 0 {
        if a[0] == b[0] && b[0] == c[0] {
            lemma_comps_transitive(a.skip(1), b.skip(1), c.skip(1));
        } else if a[0] != b[0] && b[0] != c[0] {
            if a[0] == c[0] {
                lemma_comp_total(a[0], b[0]);
            }
            if comp_rank(a[0]) == 3 && comp_rank(c[0]) == 3 && comp_rank(b[0]) == 3 {
                lemma_before_transitive(a[0], b[0], c[0]);
            }
        }
    }
}

/// Two lists of components are the same, or one comes before the other.
pub proof fn lemma_comps_total(a: Seq<Seq<char>>, b: Seq<Seq<char>>)
    ensures
        comps_before(a, b) || a == b || comps_before(b, a),
    decreases a.len(),
{
    if a.len() == 0 || b.len() == 0 {
        if a.len() == b.len() {
            assert(a =~= b);
        }
    } else if a[0] == b[0] {
        lemma_comps_total(a.skip(1), b.skip(1));
        assert(a =~= seq![a[0]] + a.skip(1));
        assert(b =~= seq![b[0]] + b.skip(1));
    } else {
        lemma_comp_total(a[0], b[0]);
    }
}

/// A path comes before what lies below it.
pub proof fn lemma_prefix_before(a: Seq<Seq<char>>, b: Seq<Seq<char>>)
    requires
        a.is_prefix_of(b),
        a.len() < b.len(),
    ensures
        comps_before(a, b),
    decreases a.len(),
{
    if a.len() > 0 {
        assert(a[0] == b[0]);
        assert(a.skip(1).is_prefix_of(b.skip(1))) by {
            assert(b.skip(1).subrange(0, a.len() - 1) =~= a.skip(1));
        }
        lemma_prefix_before(a.skip(1), b.skip(1));
    }
}

fn rank_of(c: &str) -> (r: u8)
    ensures
        r == comp_rank(c@),
{
    proof {
        reveal_strlit("/");
        reveal_strlit(".");
        reveal_strlit("..");
        assert("/"@ =~= seq!['/']);
        assert("."@ =~= seq!['.']);
        assert(".."@ =~= seq!['.', '.']);
    }
    if same(c, "/") {
        0
    } else if same(c, ".") {
        1
    } else if same(c, "..") {
        2
    } else {
        3
    }
}

/// One path comes before another, component by component.
pub fn is_path_before(a: &str, b: &str) -> (r: bool)
    ensures
        r == path_before(a@, b@),
{
    let x = components(a);
    let y = components(b);
    let ghost p = views(x@);
    let ghost q = views(y@);
    let mut i: usize = 0;
    assert(p.skip(0) =~= p);
    assert(q.skip(0) =~= q);
    while i < x.len() && i < y.len()
        invariant
            p == views(x@),
            q == views(y@),
            p == comps(a@),
            q == comps(b@),
            i <= x@.len(),
            i <= y@.len(),
            comps_before(p, q) == comps_before(p.skip(i as int), q.skip(i as int)),
        decreases x@.len() - i,
    {
        let ghost s = p.skip(i as int);
        let ghost t = q.skip(i as int);
        assert(s[0] == x@[i as int]@);
        assert(t[0] == y@[i as int]@);
        assert(s.skip(1) =~= p.skip(i + 1));
        assert(t.skip(1) =~= q.skip(i + 1));
        if !same(&x[i], &y[i]) {
            let m: u8 = rank_of(&x[i]);
            let n: u8 = rank_of(&y[i]);
            return m < n || (m == 3 && n == 3 && is_before(&x[i], &y[i]));
        }
        i = i + 1;
    }
    i < y.len()
}

impl Ranked for String {
    open spec fn precedes(a: Seq<char>, b: Seq<char>) -> bool {
        path_before(a, b)
    }

    proof fn lemma_irreflexive(a: Seq<char>) {
        lemma_comps_irreflexive(comps(a));
        assert(!path_before(a, a));
        assert(!Self::precedes(a, a));
    }

    proof fn lemma_transitive(a: Seq<char>, b: Seq<char>, c: Seq<char>) {
        lemma_comps_transitive(comps(a), comps(b), comps(c));
    }

    proof fn lemma_ties(a: Seq<char>, b: Seq<char>, c: Seq<char>) {
        lemma_comps_total(comps(a), comps(b));
    }

    fn comes_before(&self, other: &Self) -> (r: bool) {
        is_path_before(self, other)
    }
}

/// Two paths of which neither comes before the other name the same place.
pub proof fn lemma_tied_paths(a: Seq<char>, b: Seq<char>)
    ensures
        tied::<String>(a, b) == (comps(a) == comps(b)),
{
    lemma_comps_total(comps(a), comps(b));
    lemma_comps_irreflexive(comps(a));
}

} // verus!

//! What is picked out of a list, in the order of the list.
use vstd::prelude::*;

verus! {

/// The places are those below `n` that are to be kept, each once, in order.
pub open spec fn places(at: Seq<int>, n: int, keep: spec_fn(int) -> bool) -> bool {
    &&& forall|k: int| 0 <= k < at.len() ==> 0 <= #[trigger] at[k] < n && keep(at[k])
    &&& forall|j: int, k: int| 0 <= j < k < at.len() ==> #[trigger] at[j] < #[trigger] at[k]
    &&& forall|i: int| 0 <= i < n && keep(i) ==> #[trigger] at.contains(i)
}

/// What is at the places.
pub open spec fn at_places<T>(list: Seq<T>, at: Seq<int>) -> Seq<T> {
    Seq::new(at.len(), |k: int| list[at[k]])
}

/// The one list holds what is at the places of the other that are to be kept,
/// and nothing else, in the same order.
pub open spec fn picked<T>(list: Seq<T>, out: Seq<T>, keep: spec_fn(int) -> bool) -> bool {
    exists|at: Seq<int>| #[trigger]
        places(at, list.len() as int, keep) && out == at_places(list, at)
}

pub proof fn lemma_picked_none<T>(list: Seq<T>, out: Seq<T>, keep: spec_fn(int) -> bool)
    requires
        list.len() == 0,
        out.len() == 0,
    ensures
        picked(list, out, keep),
{
    let at = Seq::<int>::empty();
    assert(places(at, 0, keep));
    assert(out =~= at_places(list, at));
}

pub proof fn lemma_picked_more<T>(list: Seq<T>, out: Seq<T>, keep: spec_fn(int) -> bool)
    requires
        list.len() > 0,
        picked(list.drop_last(), out, keep),
    ensures
        keep(list.len() - 1) ==> picked(list, out.push(list.last()), keep),
        !keep(list.len() - 1) ==> picked(list, out, keep),
{
    let d = list.drop_last();
    let n = list.len() - 1;
    let at = choose|at: Seq<int>| #[trigger]
        places(at, d.len() as int, keep) && out == at_places(d, at);
    if keep(n) {
        let more = at.push(n);
        assert forall|i: int| 0 <= i < n + 1 && keep(i) implies #[trigger] more.contains(i) by {
            if i < n {
                assert(at.contains(i));
                let k = choose|k: int| 0 <= k < at.len() && at[k] == i;
                assert(more[k] == i);
            } else {
                assert(more[at.len() as int] == i);
            }
        }
        assert(places(more, n + 1, keep));
        assert(out.push(list.last()) =~= at_places(list, more));
    } else {
        assert forall|i: int| 0 <= i < n + 1 && keep(i) implies #[trigger] at.contains(i) by {
            assert(i < n);
        }
        assert(places(at, n + 1, keep));
        assert(out =~= at_places(list, at));
    }
}

/// What is picked is what is to be kept, no more and no less.
pub proof fn lemma_picked<T>(list: Seq<T>, out: Seq<T>, keep: spec_fn(int) -> bool)
    requires
        picked(list, out, keep),
    ensures
        out.len() <= list.len(),
        forall|i: int| 0 <= i < list.len() && keep(i) ==> out.contains(#[trigger] list[i]),
        forall|x: T| #[trigger]
            out.contains(x) ==> exists|i: int|
                0 <= i < list.len() && keep(i) && #[trigger] list[i] == x,
        out.len() > 0 <==> exists|i: int| 0 <= i < list.len() && #[trigger] keep(i),
{
    let n = list.len() as int;
    let at = choose|at: Seq<int>| #[trigger] places(at, n, keep) && out == at_places(list, at);
    lemma_ascent(at, n);
    assert forall|i: int| 0 <= i < n && keep(i) implies out.contains(#[trigger] list[i]) by {
        assert(at.contains(i));
        let k = choose|k: int| 0 <= k < at.len() && at[k] == i;
        assert(out[k] == list[i]);
    }
    assert forall|x: T| #[trigger] out.contains(x) implies exists|i: int|
        0 <= i < n && keep(i) && #[trigger] list[i] == x by {
        let k = choose|k: int| 0 <= k < out.len() && out[k] == x;
        assert(keep(at[k]) && list[at[k]] == x);
    }
    if out.len() > 0 {
        assert(keep(at[0]));
    }
    if exists|i: int| 0 <= i < n && #[trigger] keep(i) {
        let i = choose|i: int| 0 <= i < n && #[trigger] keep(i);
        assert(at.contains(i));
    }
}

/// It does not matter what would be kept beyond the list.
pub proof fn lemma_same_choice<T>(
    list: Seq<T>,
    out: Seq<T>,
    a: spec_fn(int) -> bool,
    b: spec_fn(int) -> bool,
)
    requires
        picked(list, out, a),
        forall|i: int| 0 <= i < list.len() ==> #[trigger] a(i) == b(i),
    ensures
        picked(list, out, b),
{
    let n = list.len() as int;
    let at = choose|at: Seq<int>| #[trigger] places(at, n, a) && out == at_places(list, at);
    assert(places(at, n, b)) by {
        assert forall|k: int| 0 <= k < at.len() implies 0 <= #[trigger] at[k] < n && b(at[k]) by {
            assert(a(at[k]));
        }
        assert forall|i: int| 0 <= i < n && b(i) implies #[trigger] at.contains(i) by {
            assert(a(i));
        }
    }
}

/// Different numbers below `n`, in order, are no more than `n`.
proof fn lemma_ascent(at: Seq<int>, n: int)
    requires
        n >= 0,
        forall|k: int| 0 <= k < at.len() ==> 0 <= #[trigger] at[k] < n,
        forall|j: int, k: int| 0 <= j < k < at.len() ==> #[trigger] at[j] < #[trigger] at[k],
    ensures
        at.len() <= n,
    decreases at.len(),
{
    if at.len() > 0 {
        let d = at.drop_last();
        let m = at.last();
        assert forall|k: int| 0 <= k < d.len() implies 0 <= #[trigger] d[k] < m by {
            assert(at[k] < at[at.len() - 1]);
        }
        assert forall|j: int, k: int| 0 <= j < k < d.len() implies #[trigger] d[j]
            < #[trigger] d[k] by {
            assert(at[j] < at[k]);
        }
        lemma_ascent(d, m);
    }
}

} // verus!

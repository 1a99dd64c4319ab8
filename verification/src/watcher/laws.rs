//! Which halves of renames wait, and what events raw events give.
use vstd::prelude::*;

use crate::picks::{
    lemma_picked, lemma_picked_more, lemma_picked_none, lemma_same_choice, picked,
};
use crate::watcher::{
    classified, paired, partner, pruned, EventView, PendingView, RawKind, RenameMode,
};

verus! {

/// A half is dropped once it has waited longer than the limit, and not before;
/// the others stay, in their order.
pub proof fn lemma_halves_wait_so_long(s: Seq<PendingView>, now: u64, ttl: u64)
    ensures
        picked(s, pruned(s, now, ttl), |i: int| now - s[i].when <= ttl),
    decreases s.len(),
{
    let keep = |i: int| now - s[i].when <= ttl;
    if s.len() == 0 {
        lemma_picked_none(s, pruned(s, now, ttl), keep);
    } else {
        let d = s.drop_last();
        let kept = |i: int| now - d[i].when <= ttl;
        lemma_halves_wait_so_long(d, now, ttl);
        lemma_same_choice(d, pruned(d, now, ttl), kept, keep);
        lemma_picked_more(s, pruned(d, now, ttl), keep);
    }
}

proof fn lemma_oldest(s: Seq<PendingView>, cookie: Option<usize>)
    ensures
        0 <= partner(s, cookie) <= s.len(),
        partner(s, cookie) < s.len() ==> s[partner(s, cookie)].cookie == cookie,
        forall|i: int| 0 <= i < partner(s, cookie) ==> (#[trigger] s[i]).cookie != cookie,
    decreases s.len(),
{
    if s.len() > 0 && s[0].cookie != cookie {
        let r = s.skip(1);
        lemma_oldest(r, cookie);
        assert forall|i: int| 0 <= i < partner(s, cookie) implies (#[trigger] s[i]).cookie
            != cookie by {
            if i > 0 {
                assert(s[i] == r[i - 1]);
            }
        }
    }
}

/// A half is paired exactly if one of the same cookie waits that has not waited
/// too long. The waiting half is where the move came from, the new one where it
/// went. The half that was paired waits no longer; every other that has not
/// waited too long still does, as does a new half that was not paired.
pub proof fn lemma_half_is_paired_or_waits(
    s: Seq<PendingView>,
    path: Seq<char>,
    cookie: Option<usize>,
    now: u64,
    ttl: u64,
)
    ensures
        ({
            let (event, waiting) = paired(s, path, cookie, now, ttl);
            let live = pruned(s, now, ttl);
            &&& event is Some <==> exists|i: int|
                0 <= i < s.len() && (#[trigger] s[i]).cookie == cookie && now - s[i].when <= ttl
            &&& event matches Some(e) ==> exists|k: int|
                {
                    &&& 0 <= k < live.len()
                    &&& (#[trigger] live[k]).cookie == cookie
                    &&& forall|j: int| 0 <= j < k ==> (#[trigger] live[j]).cookie != cookie
                    &&& e == (EventView::Moved { from: Some(live[k].path), to: Some(path) })
                    &&& waiting == live.take(k) + live.skip(k + 1)
                }
            &&& event is None ==> waiting == live.push(PendingView { path, cookie, when: now })
        }),
{
    let live = pruned(s, now, ttl);
    let keep = |i: int| now - s[i].when <= ttl;
    lemma_halves_wait_so_long(s, now, ttl);
    lemma_picked(s, live, keep);
    lemma_oldest(live, cookie);
    let k = partner(live, cookie);
    if k < live.len() {
        assert(live.contains(live[k]));
        let i = choose|i: int| 0 <= i < s.len() && keep(i) && #[trigger] s[i] == live[k];
        assert(s[i].cookie == cookie);
        assert(live.remove(k) =~= live.take(k) + live.skip(k + 1));
    } else if exists|i: int|
        0 <= i < s.len() && (#[trigger] s[i]).cookie == cookie && now - s[i].when <= ttl {
        let i = choose|i: int|
            0 <= i < s.len() && (#[trigger] s[i]).cookie == cookie && now - s[i].when <= ttl;
        assert(keep(i));
        assert(live.contains(s[i]));
        let j = choose|j: int| 0 <= j < live.len() && live[j] == s[i];
        assert(live[j].cookie != cookie);
    }
}

/// A raw event with both sides of a rename is a move from its first path to its
/// second; a creation or removal is one of its first path. None of these, and
/// no other kind of event, changes which halves wait.
pub proof fn lemma_raw_events(
    s: Seq<PendingView>,
    paths: Seq<Seq<char>>,
    cookie: Option<usize>,
    now: u64,
    ttl: u64,
)
    requires
        paths.len() >= 2,
    ensures
        classified(s, RawKind::Rename(RenameMode::Both), paths, cookie, now, ttl) == (
            seq![EventView::Moved { from: Some(paths[0]), to: Some(paths[1]) }],
            s,
        ),
        classified(s, RawKind::Create, paths, cookie, now, ttl) == (
            seq![EventView::Created(paths[0])],
            s,
        ),
        classified(s, RawKind::Remove, paths, cookie, now, ttl) == (
            seq![EventView::Removed(paths[0])],
            s,
        ),
        classified(s, RawKind::Other, paths, cookie, now, ttl) == (Seq::<EventView>::empty(), s),
        classified(s, RawKind::Rename(RenameMode::From), paths, cookie, now, ttl) == classified(
            s,
            RawKind::Rename(RenameMode::Any),
            paths,
            cookie,
            now,
            ttl,
        ),
        classified(s, RawKind::Rename(RenameMode::To), paths, cookie, now, ttl) == classified(
            s,
            RawKind::Rename(RenameMode::Any),
            paths,
            cookie,
            now,
            ttl,
        ),
        ({
            let (events, waiting) = classified(
                s,
                RawKind::Rename(RenameMode::Any),
                paths,
                cookie,
                now,
                ttl,
            );
            let (event, left) = paired(s, paths[0], cookie, now, ttl);
            &&& waiting == left
            &&& event is None ==> events.len() == 0
            &&& event matches Some(e) ==> events == seq![e]
        }),
{
}

} // verus!

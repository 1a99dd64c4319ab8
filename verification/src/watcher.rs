//! From raw file-system events to the moves that matter.
//!
//! A move mostly arrives in halves: the path that went away and the path that
//! appeared, linked by a cookie or by nothing but their order. The halves are
//! held for a short while and paired.
pub mod laws;

use vstd::prelude::*;

use crate::text::{opt_view, views};

verus! {

/// How long a half of a rename is held, in milliseconds.
pub const RENAME_PAIRING_TTL: u64 = 500;

/// Something that happened to a directory.
#[derive(Debug, PartialEq, Eq)]
pub enum SessionEvent {
    /// It was moved, as far as is known from where to where.
    Moved { from: Option<String>, to: Option<String> },
    Removed(String),
    Created(String),
}

/// The model of a [`SessionEvent`].
pub enum EventView {
    Moved { from: Option<Seq<char>>, to: Option<Seq<char>> },
    Removed(Seq<char>),
    Created(Seq<char>),
}

impl View for SessionEvent {
    type V = EventView;

    open spec fn view(&self) -> EventView {
        match self {
            SessionEvent::Moved { from, to } => EventView::Moved {
                from: opt_view(*from),
                to: opt_view(*to),
            },
            SessionEvent::Removed(p) => EventView::Removed(p@),
            SessionEvent::Created(p) => EventView::Created(p@),
        }
    }
}

/// Which side of a rename an event tells of.
#[derive(Debug, Clone, Copy, PartialEq, Eq, Structural)]
pub enum RenameMode {
    Both,
    From,
    To,
    Any,
    Other,
}

/// The kind of a raw event.
#[derive(Debug, Clone, Copy, PartialEq, Eq, Structural)]
pub enum RawKind {
    Create,
    Remove,
    Rename(RenameMode),
    Other,
}

/// An event as the file system reports it.
#[derive(Debug, PartialEq, Eq)]
pub struct RawEvent {
    pub kind: RawKind,
    pub paths: Vec<String>,
    /// What links the halves of a rename, where the system gives it.
    pub cookie: Option<usize>,
}

/// Half of a rename that waits for the other.
#[derive(Debug, PartialEq, Eq)]
pub struct PendingRename {
    pub path: String,
    pub cookie: Option<usize>,
    pub when: u64,
}

/// The model of a [`PendingRename`].
pub struct PendingView {
    pub path: Seq<char>,
    pub cookie: Option<usize>,
    pub when: u64,
}

impl View for PendingRename {
    type V = PendingView;

    open spec fn view(&self) -> PendingView {
        PendingView { path: self.path@, cookie: self.cookie, when: self.when }
    }
}

/// The halves of renames that wait for the others.
#[derive(Debug)]
pub struct RenameBuffer {
    pending: Vec<PendingRename>,
    ttl: u64,
}

impl View for RenameBuffer {
    type V = Seq<PendingView>;

    closed spec fn view(&self) -> Seq<PendingView> {
        views(self.pending@)
    }
}

/// A half has not waited too long.
pub open spec fn fresh(p: PendingView, now: u64, ttl: u64) -> bool {
    now <= p.when || now - p.when <= ttl
}

/// The halves that have not waited too long.
pub open spec fn pruned(s: Seq<PendingView>, now: u64, ttl: u64) -> Seq<PendingView>
    decreases s.len(),
{
    if s.len() == 0 {
        seq![]
    } else {
        let rest = pruned(s.drop_last(), now, ttl);
        if fresh(s.last(), now, ttl) {
            rest.push(s.last())
        } else {
            rest
        }
    }
}

/// The oldest half with the same cookie, or none where both have none; the
/// number of halves when there is no such half.
pub open spec fn partner(s: Seq<PendingView>, cookie: Option<usize>) -> int
    decreases s.len(),
{
    if s.len() == 0 || s[0].cookie == cookie {
        0
    } else {
        1 + partner(s.skip(1), cookie)
    }
}

/// What becomes of a half: the move it completes, and the halves that wait.
pub open spec fn paired(
    s: Seq<PendingView>,
    path: Seq<char>,
    cookie: Option<usize>,
    now: u64,
    ttl: u64,
) -> (Option<EventView>, Seq<PendingView>) {
    let live = pruned(s, now, ttl);
    let i = partner(live, cookie);
    if i < live.len() {
        (Some(EventView::Moved { from: Some(live[i].path), to: Some(path) }), live.remove(i))
    } else {
        (None, live.push(PendingView { path, cookie, when: now }))
    }
}

/// The events that a raw event gives, and the halves that wait after it.
pub open spec fn classified(
    s: Seq<PendingView>,
    kind: RawKind,
    paths: Seq<Seq<char>>,
    cookie: Option<usize>,
    now: u64,
    ttl: u64,
) -> (Seq<EventView>, Seq<PendingView>) {
    match kind {
        RawKind::Create => if paths.len() > 0 {
            (seq![EventView::Created(paths[0])], s)
        } else {
            (seq![], s)
        },
        RawKind::Remove => if paths.len() > 0 {
            (seq![EventView::Removed(paths[0])], s)
        } else {
            (seq![], s)
        },
        RawKind::Rename(RenameMode::Both) => if paths.len() >= 2 {
            (seq![EventView::Moved { from: Some(paths[0]), to: Some(paths[1]) }], s)
        } else {
            (seq![], s)
        },
        RawKind::Rename(_) => if paths.len() > 0 {
            match paired(s, paths[0], cookie, now, ttl) {
                (Some(e), rest) => (seq![e], rest),
                (None, rest) => (seq![], rest),
            }
        } else {
            (seq![], s)
        },
        RawKind::Other => (seq![], s),
    }
}

proof fn lemma_partner(s: Seq<PendingView>, cookie: Option<usize>)
    ensures
        0 <= partner(s, cookie) <= s.len(),
        partner(s, cookie) < s.len() ==> s[partner(s, cookie)].cookie == cookie,
        forall|i: int| 0 <= i < partner(s, cookie) ==> (#[trigger] s[i]).cookie != cookie,
    decreases s.len(),
{
    if s.len() > 0 && s[0].cookie != cookie {
        let r = s.skip(1);
        lemma_partner(r, cookie);
        assert forall|i: int| 0 <= i < partner(s, cookie) implies (#[trigger] s[i]).cookie != cookie by {
            if i > 0 {
                assert(s[i] == r[i - 1]);
            }
        }
        let k = partner(r, cookie);
        if k < r.len() {
            assert(s[k + 1] == r[k]);
        }
    }
}

proof fn lemma_pruned(s: Seq<PendingView>, now: u64, ttl: u64)
    ensures
        forall|i: int|
            0 <= i < pruned(s, now, ttl).len() ==> fresh(
                #[trigger] pruned(s, now, ttl)[i],
                now,
                ttl,
            ) && s.contains(pruned(s, now, ttl)[i]),
    decreases s.len(),
{
    if s.len() > 0 {
        let d = s.drop_last();
        lemma_pruned(d, now, ttl);
        let rest = pruned(d, now, ttl);
        let all = pruned(s, now, ttl);
        assert forall|i: int| 0 <= i < all.len() implies fresh(#[trigger] all[i], now, ttl)
            && s.contains(all[i]) by {
            if i < rest.len() {
                assert(all[i] == rest[i]);
                let k = choose|k: int| 0 <= k < d.len() && d[k] == rest[i];
                assert(s[k] == all[i]);
            } else {
                assert(s[s.len() - 1] == all[i]);
            }
        }
    }
}

impl RenameBuffer {
    /// How long a half is held.
    pub closed spec fn limit(self) -> u64 {
        self.ttl
    }

    /// Nothing waits yet.
    pub fn new(ttl: u64) -> (r: RenameBuffer)
        ensures
            r@ == Seq::<PendingView>::empty(),
            r.limit() == ttl,
    {
        let pending: Vec<PendingRename> = Vec::new();
        assert(views(pending@) =~= Seq::<PendingView>::empty());
        RenameBuffer { pending, ttl }
    }

    /// Drop the halves that have waited too long.
    pub fn prune(&mut self, now: u64)
        ensures
            final(self)@ == pruned(old(self)@, now, old(self).limit()),
            final(self).limit() == old(self).limit(),
    {
        let ghost start = self@;
        let ttl: u64 = self.ttl;
        let mut all: Vec<PendingRename> = Vec::new();
        std::mem::swap(&mut all, &mut self.pending);
        let mut kept: Vec<PendingRename> = Vec::new();
        let mut i: usize = 0;
        assert(start.take(0) =~= Seq::<PendingView>::empty());
        assert(views(kept@) =~= Seq::<PendingView>::empty());
        while i < all.len()
            invariant
                start == views(all@),
                i <= all@.len(),
                views(kept@) == pruned(start.take(i as int), now, ttl),
            decreases all@.len() - i,
        {
            let p = &all[i];
            let ghost so_far = views(kept@);
            proof {
                assert(start.take(i + 1).drop_last() =~= start.take(i as int));
                assert(start.take(i + 1).last() == p@);
            }
            if now <= p.when || now - p.when <= ttl {
                kept.push(
                    PendingRename { path: p.path.clone(), cookie: p.cookie, when: p.when },
                );
                assert(views(kept@) =~= so_far.push(p@));
            }
            i = i + 1;
        }
        assert(start.take(i as int) =~= start);
        self.pending = kept;
    }

    /// Take half of a rename: either it completes a move, or it waits. Halves
    /// with cookies go together by their cookies, those without by their order.
    pub fn observe_half(&mut self, path: &str, cookie: Option<usize>, now: u64) -> (r: Option<
        SessionEvent,
    >)
        ensures
            (opt_view(r), final(self)@) == paired(
                old(self)@,
                path@,
                cookie,
                now,
                old(self).limit(),
            ),
            final(self).limit() == old(self).limit(),
    {
        self.prune(now);
        let ghost live = self@;
        let mut i: usize = 0;
        assert(live.skip(0) =~= live);
        while i < self.pending.len()
            invariant
                live == self@,
                i <= self.pending@.len(),
                partner(live, cookie) == i + partner(live.skip(i as int), cookie),
                live == pruned(old(self)@, now, old(self).limit()),
                self.limit() == old(self).limit(),
            decreases self.pending@.len() - i,
        {
            let p = &self.pending[i];
            assert(live.skip(i as int)[0] == p@);
            assert(live.skip(i as int).skip(1) =~= live.skip(i + 1));
            let alike = match (p.cookie, cookie) {
                (Some(a), Some(b)) => a == b,
                (None, None) => true,
                _ => false,
            };
            if alike {
                let half = self.pending.remove(i);
                assert(half@ == live[i as int]);
                assert(self@ =~= live.remove(i as int));
                return Some(
                    SessionEvent::Moved {
                        from: Some(half.path),
                        to: Some(crate::text::owned(path)),
                    },
                );
            }
            i = i + 1;
        }
        let half = PendingRename { path: crate::text::owned(path), cookie, when: now };
        self.pending.push(half);
        assert(self@ =~= live.push(half@));
        None
    }
}

/// The events that a raw event gives. Half of a rename gives none until the
/// other half is seen.
pub fn classify_event(event: &RawEvent, buf: &mut RenameBuffer, now: u64) -> (r: Vec<SessionEvent>)
    ensures
        (views(r@), final(buf)@) == classified(
            old(buf)@,
            event.kind,
            views(event.paths@),
            event.cookie,
            now,
            old(buf).limit(),
        ),
        final(buf).limit() == old(buf).limit(),
{
    let ghost paths = views(event.paths@);
    let mut out: Vec<SessionEvent> = Vec::new();
    assert(views(out@) =~= Seq::<EventView>::empty());
    let n: usize = event.paths.len();
    if n > 0 {
        assert(paths[0] == event.paths@[0]@);
    }
    match event.kind {
        RawKind::Create => {
            if n > 0 {
                out.push(SessionEvent::Created(event.paths[0].clone()));
                assert(views(out@) =~= seq![EventView::Created(paths[0])]);
            }
        },
        RawKind::Remove => {
            if n > 0 {
                out.push(SessionEvent::Removed(event.paths[0].clone()));
                assert(views(out@) =~= seq![EventView::Removed(paths[0])]);
            }
        },
        RawKind::Rename(mode) => {
            classify_rename(mode, event, buf, now, &mut out);
        },
        RawKind::Other => {},
    }
    out
}

fn classify_rename(
    mode: RenameMode,
    event: &RawEvent,
    buf: &mut RenameBuffer,
    now: u64,
    out: &mut Vec<SessionEvent>,
)
    requires
        event.kind == RawKind::Rename(mode),
        old(out)@.len() == 0,
    ensures
        (views(final(out)@), final(buf)@) == classified(
            old(buf)@,
            event.kind,
            views(event.paths@),
            event.cookie,
            now,
            old(buf).limit(),
        ),
        final(buf).limit() == old(buf).limit(),
{
    let ghost paths = views(event.paths@);
    assert(views(out@) =~= Seq::<EventView>::empty());
    let n: usize = event.paths.len();
    match mode {
        RenameMode::Both => {
            if n >= 2 {
                assert(paths[0] == event.paths@[0]@);
                assert(paths[1] == event.paths@[1]@);
                out.push(
                    SessionEvent::Moved {
                        from: Some(event.paths[0].clone()),
                        to: Some(event.paths[1].clone()),
                    },
                );
                assert(views(out@) =~= seq![
                    EventView::Moved { from: Some(paths[0]), to: Some(paths[1]) },
                ]);
            }
        },
        _ => {
            if n > 0 {
                assert(paths[0] == event.paths@[0]@);
                if let Some(e) = buf.observe_half(&event.paths[0], event.cookie, now) {
                    let ghost v = e@;
                    out.push(e);
                    assert(views(out@) =~= seq![v]);
                }
            }
        },
    }
}

/// The waiting half and the new one belong together, and give this move.
pub open spec fn pairs_with(
    s: Seq<PendingView>,
    half: PendingView,
    e: EventView,
    path: Seq<char>,
    cookie: Option<usize>,
    now: u64,
    ttl: u64,
) -> bool {
    &&& s.contains(half)
    &&& half.cookie == cookie
    &&& fresh(half, now, ttl)
    &&& e == (EventView::Moved { from: Some(half.path), to: Some(path) })
}

/// Only halves that belong together are paired: they carry the same cookie, or
/// neither carries one; the first has not waited too long; and of several the
/// oldest is taken.
pub proof fn lemma_pairs_belong_together(
    s: Seq<PendingView>,
    path: Seq<char>,
    cookie: Option<usize>,
    now: u64,
    ttl: u64,
)
    ensures
        paired(s, path, cookie, now, ttl).0 matches Some(e) ==> exists|i: int|
            0 <= i < pruned(s, now, ttl).len() && pairs_with(
                s,
                #[trigger] pruned(s, now, ttl)[i],
                e,
                path,
                cookie,
                now,
                ttl,
            ) && forall|j: int|
                0 <= j < i ==> (#[trigger] pruned(s, now, ttl)[j]).cookie != cookie,
{
    let live = pruned(s, now, ttl);
    let k = partner(live, cookie);
    lemma_partner(live, cookie);
    lemma_pruned(s, now, ttl);
    if k < live.len() {
        let e = EventView::Moved { from: Some(live[k].path), to: Some(path) };
        assert(pairs_with(s, live[k], e, path, cookie, now, ttl));
    }
}

/// A half that can be paired with none is not lost: it waits for its other.
pub proof fn lemma_two_halves_make_a_move(
    s: Seq<PendingView>,
    from: Seq<char>,
    to: Seq<char>,
    cookie: Option<usize>,
    now: u64,
    later: u64,
    ttl: u64,
)
    requires
        now <= later,
        later - now <= ttl,
        forall|i: int| 0 <= i < s.len() ==> (#[trigger] s[i]).cookie != cookie,
    ensures
        paired(s, from, cookie, now, ttl).0 is None,
        paired(paired(s, from, cookie, now, ttl).1, to, cookie, later, ttl).0 == Some(
            EventView::Moved { from: Some(from), to: Some(to) },
        ),
{
    let live = pruned(s, now, ttl);
    lemma_pruned(s, now, ttl);
    lemma_partner(live, cookie);
    let k = partner(live, cookie);
    if k < live.len() {
        assert(s.contains(live[k]));
        let i = choose|i: int| 0 <= i < s.len() && s[i] == live[k];
        assert(s[i].cookie != cookie);
    }
    let half = PendingView { path: from, cookie, when: now };
    let held = live.push(half);
    assert(held.drop_last() =~= live);
    let again = pruned(live, later, ttl);
    let l2 = pruned(held, later, ttl);
    assert(l2 == again.push(half));
    lemma_pruned(live, later, ttl);
    lemma_partner(l2, cookie);
    let m = partner(l2, cookie);
    assert(l2[again.len() as int] == half);
    if m < again.len() {
        assert(l2[m] == again[m]);
        assert(live.contains(again[m]));
        let j = choose|j: int| 0 <= j < live.len() && live[j] == again[m];
        assert(s.contains(live[j]));
        let i = choose|i: int| 0 <= i < s.len() && s[i] == live[j];
        assert(s[i].cookie != cookie);
    }
    assert(m == again.len());
}

} // verus!

//! A whole migration and its undo, and what they do to the file system.
use vstd::prelude::*;

use crate::migrate::restore::{
    agree, aloof, copies, disk_then, editing, kept, lemma_files_are_edited,
    lemma_files_are_restored, lemma_one_more, lemma_prefixes, lemma_symlink_is_installed,
    lemma_symlink_is_undone, lemma_told_before, linking, set_apart, told, undoing, Disk, Thing,
};
use crate::migrate::rewrite::{
    aside_of, config_plan, retain_plan, symlink_plan, undo_plan, unedit_plan,
};
use crate::migrate::run::{fresh_run, PhaseView, ReplyView, RequestView, RunView};
use crate::migrate::steps::{Answer, Op, Plan};
use crate::migrate::types::{
    BackupView, RetainedView, RewriteView, UndoView,
};
use crate::migrate::undo::{undo_course, wake_up, UndoAnswer, UndoOp, UndoPlan};
use crate::tools::{FieldView, HomeDirDiscovery, ToolView};

verus! {

/// One reply to a run: what it said, when, and what was done for it.
pub struct Turn {
    pub reply: ReplyView,
    pub now: u64,
    /// The stamp that names what was kept aside, or copied.
    pub stamp: u64,
    /// The answers to the procedure that was carried out.
    pub seen: Seq<Answer>,
    /// The copy that was made.
    pub copy: Thing,
}

/// The keeping of the source, as a procedure.
pub open spec fn retaining(src: Seq<char>, outcome: RewriteView, stamp: u64) -> spec_fn(
    Seq<Answer>,
) -> Plan<RetainedView> {
    |seen: Seq<Answer>| retain_plan(src, outcome, stamp, seen)
}

/// The config files of the tool.
pub open spec fn config_files(run: RunView) -> Seq<FieldView> {
    match run.layout {
        Some(l) => l.config_files,
        None => Seq::empty(),
    }
}

/// The reply answers what the run asked for, and is true of the file system.
pub open spec fn answered(run: RunView, disk: Disk, home: Option<Seq<char>>, t: Turn) -> bool {
    match run.next() {
        RequestView::Begin => t.reply is Begin,
        RequestView::Exists { path } => t.reply == ReplyView::Exists(disk.there(path)),
        RequestView::Quiesce { .. } => t.reply is Quiesced,
        RequestView::Measure { .. } => t.reply is Measured,
        RequestView::Copy { dst, .. } => t.reply matches ReplyView::Copied(c) && (c is Ok ==> {
            &&& !disk.things.contains_key(dst)
            &&& t.copy is Tree
        }),
        RequestView::Verify { .. } => t.reply is Verified,
        RequestView::RewriteSymlink { src, dst } => t.reply matches ReplyView::Rewritten(w) && (
        w matches Ok(o) ==> {
            &&& told(linking(src, dst, t.stamp), disk, t.seen)
            &&& symlink_plan(src, dst, t.stamp, t.seen) == Plan::<RewriteView>::Give(o)
        }),
        RequestView::RewriteConfig { src, dst } => t.reply matches ReplyView::Rewritten(w) && (
        w matches Ok(o) ==> {
            let files = config_files(run);
            &&& told(editing(files, home, src, dst, t.stamp, Seq::empty()), disk, t.seen)
            &&& config_plan(files, home, src, dst, t.stamp, Seq::empty(), t.seen) == Plan::<
                RewriteView,
            >::Give(o)
        }),
        RequestView::RewriteEnv { .. } => t.reply matches ReplyView::Rewritten(w) && (
        w matches Ok(o) ==> o is EnvOverridden),
        RequestView::Resume { .. } => t.reply is Resumed,
        RequestView::Validate => t.reply is Validated,
        RequestView::UndoRewrite { .. } => t.reply is Undone,
        RequestView::Retain { src, outcome } => t.reply matches ReplyView::Retained(w) && (
        w matches Ok(o) ==> {
            &&& told(retaining(src, outcome, t.stamp), disk, t.seen)
            &&& retain_plan(src, outcome, t.stamp, t.seen) == Plan::<RetainedView>::Give(o)
        }),
        RequestView::Finished => false,
    }
}

/// The file system after what was asked for was done; after a failure nothing
/// is said of it. An override of the environment is kept by the service
/// manager, apart from the file system.
pub open spec fn served(run: RunView, disk: Disk, home: Option<Seq<char>>, t: Turn) -> Disk {
    match run.next() {
        RequestView::Copy { dst, .. } => Disk { things: disk.things.insert(dst, t.copy), ..disk },
        RequestView::RewriteSymlink { src, dst } => disk_then(
            linking(src, dst, t.stamp),
            disk,
            t.seen,
        ),
        RequestView::RewriteConfig { src, dst } => disk_then(
            editing(config_files(run), home, src, dst, t.stamp, Seq::empty()),
            disk,
            t.seen,
        ),
        RequestView::Retain { src, outcome } => disk_then(
            retaining(src, outcome, t.stamp),
            disk,
            t.seen,
        ),
        _ => disk,
    }
}

/// The run and the file system after the turns.
pub open spec fn journey(
    run: RunView,
    disk: Disk,
    home: Option<Seq<char>>,
    turns: Seq<Turn>,
) -> (RunView, Disk)
    decreases turns.len(),
{
    if turns.len() == 0 {
        (run, disk)
    } else {
        let (r, d) = journey(run, disk, home, turns.drop_last());
        let t = turns.last();
        (r.advance(t.reply, t.now).0, served(r, d, home, t))
    }
}

/// Every turn answers what was asked for, truly.
pub open spec fn honest(
    run: RunView,
    disk: Disk,
    home: Option<Seq<char>>,
    turns: Seq<Turn>,
) -> bool
    decreases turns.len(),
{
    turns.len() == 0 || {
        let (r, d) = journey(run, disk, home, turns.drop_last());
        honest(run, disk, home, turns.drop_last()) && answered(r, d, home, turns.last())
    }
}

/// The file system with the copy.
pub open spec fn with_copy(disk: Disk, dst: Seq<char>, copy: Thing) -> Disk {
    Disk { things: disk.things.insert(dst, copy), ..disk }
}

/// The turn made the rewrite of the run, from the one file system to the other.
spec fn rewrote(run: RunView, d: Disk, e: Disk, home: Option<Seq<char>>, t: Turn) -> bool {
    match run.layout {
        None => false,
        Some(l) => match l.discovery {
            HomeDirDiscovery::Symlink => {
                &&& told(linking(run.src, run.dst, t.stamp), d, t.seen)
                &&& symlink_plan(run.src, run.dst, t.stamp, t.seen) == Plan::<RewriteView>::Give(
                    run.rewrite_outcome,
                )
                &&& e == disk_then(linking(run.src, run.dst, t.stamp), d, t.seen)
            },
            HomeDirDiscovery::Config => {
                let edit = editing(
                    l.config_files,
                    home,
                    run.src,
                    run.dst,
                    t.stamp,
                    Seq::empty(),
                );
                &&& told(edit, d, t.seen)
                &&& config_plan(
                    l.config_files,
                    home,
                    run.src,
                    run.dst,
                    t.stamp,
                    Seq::empty(),
                    t.seen,
                ) == Plan::<RewriteView>::Give(run.rewrite_outcome)
                &&& e == disk_then(edit, d, t.seen)
            },
            _ => run.rewrite_outcome is EnvOverridden && e == d,
        },
    }
}

/// The turn kept the source, from the one file system to the other.
spec fn put_aside(run: RunView, e: Disk, f: Disk, t: Turn, retained_at: Option<Seq<char>>) -> bool {
    &&& told(retaining(run.src, run.rewrite_outcome, t.stamp), e, t.seen)
    &&& retain_plan(run.src, run.rewrite_outcome, t.stamp, t.seen) matches Plan::Give(o)
    &&& f == disk_then(retaining(run.src, run.rewrite_outcome, t.stamp), e, t.seen)
    &&& retained_at == match o {
        RetainedView::RenamedAside { to, .. } => Some(to),
        _ => None,
    }
}

/// What a run has made of the file system so far.
spec fn so_far(
    run: RunView,
    start: Disk,
    disk: Disk,
    home: Option<Seq<char>>,
    turns: Seq<Turn>,
) -> bool {
    match run.phase {
        PhaseView::Begin => disk == start,
        PhaseView::Source => disk == start,
        PhaseView::Destination => disk == start,
        PhaseView::Quiesce => disk == start,
        PhaseView::MeasureCopy => false,
        PhaseView::MeasureVerify => false,
        PhaseView::Copy => disk == start,
        PhaseView::Verify => exists|j: int| #[trigger] copied(run, start, disk, turns, j),
        PhaseView::Rewrite => exists|j: int| #[trigger] copied(run, start, disk, turns, j),
        PhaseView::Resume => exists|j: int, k: int| #[trigger]
            pointed(run, start, disk, home, turns, j, k),
        PhaseView::Validate => exists|j: int, k: int| #[trigger]
            pointed(run, start, disk, home, turns, j, k),
        PhaseView::Retain => exists|j: int, k: int| #[trigger]
            pointed(run, start, disk, home, turns, j, k),
        PhaseView::Complete { retained_at } => exists|j: int, k: int, m: int| #[trigger]
            finished(run, start, disk, home, turns, j, k, m, retained_at),
        _ => true,
    }
}

/// The copy was made in turn `j`.
spec fn copied(run: RunView, start: Disk, disk: Disk, turns: Seq<Turn>, j: int) -> bool {
    &&& 0 <= j < turns.len()
    &&& !start.things.contains_key(run.dst)
    &&& turns[j].copy is Tree
    &&& disk == with_copy(start, run.dst, turns[j].copy)
}

/// The copy was made in turn `j`, and the tool pointed at it in turn `k`.
spec fn pointed(
    run: RunView,
    start: Disk,
    disk: Disk,
    home: Option<Seq<char>>,
    turns: Seq<Turn>,
    j: int,
    k: int,
) -> bool {
    &&& 0 <= k < turns.len()
    &&& copied(run, start, with_copy(start, run.dst, turns[j].copy), turns, j)
    &&& rewrote(run, with_copy(start, run.dst, turns[j].copy), disk, home, turns[k])
    &&& run.layout matches Some(l) ==> l.discovery == HomeDirDiscovery::Config ==> set_apart(
        start,
        copies(l.config_files, home, turns[k].stamp),
    )
}

/// The same, and the source kept in turn `m`.
spec fn finished(
    run: RunView,
    start: Disk,
    disk: Disk,
    home: Option<Seq<char>>,
    turns: Seq<Turn>,
    j: int,
    k: int,
    m: int,
    retained_at: Option<Seq<char>>,
) -> bool {
    &&& 0 <= m < turns.len()
    &&& exists|e: Disk| #[trigger]
        pointed(run, start, e, home, turns, j, k) && put_aside(
            run,
            e,
            disk,
            turns[m],
            retained_at,
        )
}

/// Where config files were edited, none of them lay where a copy was put, and no
/// dangling symlink did.
pub open spec fn room_for_copies(
    run: RunView,
    start: Disk,
    home: Option<Seq<char>>,
    turns: Seq<Turn>,
) -> bool {
    forall|i: int|
        0 <= i < turns.len() && journey(
            run,
            start,
            home,
            #[trigger] turns.take(i),
        ).0.next() is RewriteConfig ==> set_apart(
            start,
            copies(config_files(run), home, turns[i].stamp),
        )
}

proof fn lemma_room_before(run: RunView, start: Disk, home: Option<Seq<char>>, turns: Seq<Turn>)
    requires
        room_for_copies(run, start, home, turns),
        turns.len() > 0,
    ensures
        room_for_copies(run, start, home, turns.drop_last()),
        journey(run, start, home, turns.drop_last()).0.next() is RewriteConfig ==> set_apart(
            start,
            copies(config_files(run), home, turns.last().stamp),
        ),
{
    let before = turns.drop_last();
    assert(turns.take(turns.len() - 1) =~= before);
    assert forall|i: int|
        0 <= i < before.len() && journey(
            run,
            start,
            home,
            #[trigger] before.take(i),
        ).0.next() is RewriteConfig implies set_apart(
        start,
        copies(config_files(run), home, before[i].stamp),
    ) by {
        assert(before.take(i) =~= turns.take(i));
        assert(before[i] == turns[i]);
    }
}

proof fn lemma_so_far(
    tool: ToolView,
    src: Seq<char>,
    dst: Seq<char>,
    start: Disk,
    home: Option<Seq<char>>,
    turns: Seq<Turn>,
)
    requires
        honest(fresh_run(tool, src, dst, false), start, home, turns),
        room_for_copies(fresh_run(tool, src, dst, false), start, home, turns),
    ensures
        ({
            let (run, disk) = journey(fresh_run(tool, src, dst, false), start, home, turns);
            &&& run.src == src
            &&& run.dst == dst
            &&& !run.dry_run
            &&& run.layout == tool.home_dir_layout
            &&& so_far(run, start, disk, home, turns)
        }),
    decreases turns.len(),
{
    let first = fresh_run(tool, src, dst, false);
    if turns.len() > 0 {
        let before = turns.drop_last();
        let t = turns.last();
        let n = turns.len() - 1;
        assert(forall|i: int| 0 <= i < before.len() ==> #[trigger] before[i] == turns[i]);
        lemma_room_before(first, start, home, turns);
        lemma_so_far(tool, src, dst, start, home, before);
        let (r, d) = journey(first, start, home, before);
        let (run, disk) = journey(first, start, home, turns);
        assert(turns[n] == t);
        match r.phase {
            PhaseView::Copy => {
                if run.phase is Verify {
                    assert(copied(run, start, disk, turns, n));
                }
            },
            PhaseView::Verify => {
                let j = choose|j: int| #[trigger] copied(r, start, d, before, j);
                assert(copied(run, start, disk, turns, j));
            },
            PhaseView::Rewrite => {
                let j = choose|j: int| #[trigger] copied(r, start, d, before, j);
                if run.phase is Resume {
                    assert(copied(run, start, d, turns, j));
                    assert(rewrote(run, d, disk, home, turns[n]));
                    assert(pointed(run, start, disk, home, turns, j, n));
                }
            },
            PhaseView::Resume => {
                let (j, k) = choose|j: int, k: int| #[trigger]
                    pointed(r, start, d, home, before, j, k);
                assert(before[j] == turns[j] && before[k] == turns[k]);
                assert(pointed(run, start, disk, home, turns, j, k));
            },
            PhaseView::Validate => {
                let (j, k) = choose|j: int, k: int| #[trigger]
                    pointed(r, start, d, home, before, j, k);
                assert(before[j] == turns[j] && before[k] == turns[k]);
                assert(pointed(run, start, disk, home, turns, j, k));
            },
            PhaseView::Retain => {
                let (j, k) = choose|j: int, k: int| #[trigger]
                    pointed(r, start, d, home, before, j, k);
                assert(before[j] == turns[j] && before[k] == turns[k]);
                if run.phase is Complete {
                    let at = run.phase->retained_at;
                    assert(pointed(run, start, d, home, turns, j, k));
                    assert(put_aside(run, d, disk, turns[n], at));
                    assert(finished(run, start, disk, home, turns, j, k, n, at));
                }
            },
            _ => {},
        }
    }
}

/// One answer to an undo: what it said, and what was done for it.
pub struct UndoTurn {
    pub answer: UndoAnswer,
    /// The answers to the procedure that was carried out.
    pub seen: Seq<Answer>,
}

/// What was said in the turns.
pub open spec fn said(turns: Seq<UndoTurn>) -> Seq<UndoAnswer> {
    Seq::new(turns.len(), |i: int| turns[i].answer)
}

/// The answer is one to what was asked for, and true of the file system.
pub open spec fn undo_answered(op: UndoOp, disk: Disk, t: UndoTurn) -> bool {
    match op {
        UndoOp::UndoRewrite { outcome } => t.answer is Failed || {
            &&& told(undoing(outcome), disk, t.seen)
            &&& undo_plan(outcome, t.seen) is Give
        },
        UndoOp::Exists { path } => (t.answer == UndoAnswer::Yes) == disk.there(path),
        UndoOp::Rename { from, .. } => t.answer is Failed || disk.things.contains_key(from),
        _ => true,
    }
}

/// The file system after what was asked for was done; one that failed has
/// changed nothing that is spoken of here.
pub open spec fn undo_served(op: UndoOp, disk: Disk, t: UndoTurn) -> Disk {
    if t.answer is Failed {
        disk
    } else {
        match op {
            UndoOp::UndoRewrite { outcome } => disk_then(undoing(outcome), disk, t.seen),
            UndoOp::Rename { from, to } => disk.with(Op::Rename { from, to }, Answer::Yes),
            UndoOp::RemoveTree { path } => disk.with(Op::RemoveTree { path }, Answer::Yes),
            _ => disk,
        }
    }
}

/// The file system after the turns of an undo.
pub open spec fn undone(plan: UndoView, disk: Disk, turns: Seq<UndoTurn>) -> Disk
    decreases turns.len(),
{
    if turns.len() == 0 {
        disk
    } else {
        let before = turns.drop_last();
        match undo_course(plan, false, said(before)) {
            UndoPlan::Ask(op) => undo_served(op, undone(plan, disk, before), turns.last()),
            _ => undone(plan, disk, before),
        }
    }
}

/// Every turn answers what the undo asked for, truly.
pub open spec fn undo_honest(plan: UndoView, disk: Disk, turns: Seq<UndoTurn>) -> bool
    decreases turns.len(),
{
    turns.len() == 0 || {
        let before = turns.drop_last();
        &&& undo_honest(plan, disk, before)
        &&& undo_course(plan, false, said(before)) matches UndoPlan::Ask(op) && undo_answered(
            op,
            undone(plan, disk, before),
            turns.last(),
        )
    }
}

/// One more turn of an undo.
proof fn lemma_undo_turn(plan: UndoView, disk: Disk, turns: Seq<UndoTurn>, i: int)
    requires
        undo_honest(plan, disk, turns),
        0 <= i < turns.len(),
    ensures
        undo_course(plan, false, said(turns).take(i)) matches UndoPlan::Ask(op) && undo_answered(
            op,
            undone(plan, disk, turns.take(i)),
            turns[i],
        ) && undone(plan, disk, turns.take(i + 1)) == undo_served(
            op,
            undone(plan, disk, turns.take(i)),
            turns[i],
        ),
    decreases turns.len() - i,
{
    lemma_undo_before(plan, disk, turns, i + 1);
    let t = turns.take(i + 1);
    assert(t.drop_last() =~= turns.take(i));
    assert(t.last() == turns[i]);
    assert(said(turns.take(i)) =~= said(turns).take(i));
}

proof fn lemma_undo_before(plan: UndoView, disk: Disk, turns: Seq<UndoTurn>, i: int)
    requires
        undo_honest(plan, disk, turns),
        0 <= i <= turns.len(),
    ensures
        undo_honest(plan, disk, turns.take(i)),
    decreases turns.len(),
{
    if i < turns.len() {
        lemma_undo_before(plan, disk, turns.drop_last(), i);
        assert(turns.drop_last().take(i) =~= turns.take(i));
    } else {
        assert(turns.take(i) =~= turns);
    }
}

/// A source that is put aside is all that changes.
proof fn lemma_put_aside(
    src: Seq<char>,
    outcome: RewriteView,
    stamp: u64,
    disk: Disk,
    seen: Seq<Answer>,
)
    requires
        !(outcome is SymlinkInstalled),
        disk.things.contains_key(src),
        disk.things[src] is Tree,
        told(retaining(src, outcome, stamp), disk, seen),
        retain_plan(src, outcome, stamp, seen) is Give,
    ensures
        !disk.things.contains_key(aside_of(src, stamp)),
        retain_plan(src, outcome, stamp, seen)->Give_0 == (RetainedView::RenamedAside {
            from: src,
            to: aside_of(src, stamp),
        }),
        disk_then(retaining(src, outcome, stamp), disk, seen) == (Disk {
            things: disk.things.remove(src).insert(aside_of(src, stamp), disk.things[src]),
            ..disk
        }),
{
    let plan = retaining(src, outcome, stamp);
    lemma_prefixes(seen);
    assert(seen.len() > 0);
    lemma_told_before(plan, disk, seen, 1);
    lemma_one_more(plan, disk, seen, 0);
    assert(seen[0] == Answer::Yes);
    assert(seen.len() >= 3);
    assert(forall|m: int, i: int| 0 <= i < m <= seen.len() ==> #[trigger] seen.take(m)[i]
        == seen[i]);
    lemma_told_before(plan, disk, seen, 3);
    lemma_one_more(plan, disk, seen, 2);
    lemma_one_more(plan, disk, seen, 1);
    if seen.len() > 3 {
        lemma_told_before(plan, disk, seen, 4);
        lemma_one_more(plan, disk, seen, 3);
        assert(seen.take(3)[0] == seen[0] && seen.take(3)[1] == seen[1] && seen.take(3)[2]
            == seen[2]);
    }
}

/// The file system with the source put aside.
spec fn with_aside(disk: Disk, src: Seq<char>, aside: Seq<char>) -> Disk {
    Disk { things: disk.things.remove(src).insert(aside, disk.things[src]), ..disk }
}

/// What was copied of config files is so whether the source was put aside or not.
proof fn lemma_kept_aside(was: Disk, now: Disk, c: Seq<BackupView>, src: Seq<char>, aside: Seq<char>)
    requires
        kept(was, now, c),
        aloof(src, c),
        aloof(aside, c),
        was.things.contains_key(src),
    ensures
        kept(with_aside(was, src, aside), with_aside(now, src, aside), c),
{
    let a = with_aside(was, src, aside);
    let b = with_aside(now, src, aside);
    assert(agree(was, now, src));
    assert forall|i: int| 0 <= i < c.len() implies a.things.contains_key(
        (#[trigger] c[i]).original,
    ) && a.things[c[i].original] is File && b.things.contains_key(c[i].backup)
        && b.things[c[i].backup] == a.things[c[i].original] && b.things.contains_key(c[i].original)
        && !a.things.contains_key(c[i].backup) by {
        assert(was.things.contains_key(c[i].original));
        assert(now.things.contains_key(c[i].backup));
        assert(now.things.contains_key(c[i].original));
        assert(!was.things.contains_key(c[i].backup));
        assert(c[i].original != src && c[i].backup != src);
        assert(c[i].original != aside && c[i].backup != aside);
    }
    assert forall|p: Seq<char>| #[trigger] aloof(p, c) implies agree(a, b, p) by {
        assert(agree(was, now, p));
    }
}

/// The undo of a migration.
pub open spec fn way_back(run: RunView) -> UndoView {
    UndoView {
        tool_name: run.tool_name,
        src: run.src,
        dst: run.dst,
        rewrite_outcome: run.rewrite_outcome,
        retained_at: run.result().retained_at,
    }
}

/// A migration that was completed is undone as a whole: after its undo the
/// source is the directory that it was, nothing is at the destination, and every
/// config file holds what it held, where the source was a directory and, if
/// config files were edited, there was room for their copies.
pub proof fn lemma_migration_is_undone(
    tool: ToolView,
    src: Seq<char>,
    dst: Seq<char>,
    home: Option<Seq<char>>,
    start: Disk,
    turns: Seq<Turn>,
    undo_turns: Seq<UndoTurn>,
)
    requires
        start.things.contains_key(src),
        start.things[src] is Tree,
        room_for_copies(fresh_run(tool, src, dst, false), start, home, turns),
        honest(fresh_run(tool, src, dst, false), start, home, turns),
        journey(fresh_run(tool, src, dst, false), start, home, turns).0.phase is Complete,
        ({
            let (run, disk) = journey(fresh_run(tool, src, dst, false), start, home, turns);
            &&& undo_honest(way_back(run), disk, undo_turns)
            &&& undo_course(way_back(run), false, said(undo_turns)) is Give
        }),
    ensures
        ({
            let (run, disk) = journey(fresh_run(tool, src, dst, false), start, home, turns);
            undone(way_back(run), disk, undo_turns) == start
        }),
{
    let first = fresh_run(tool, src, dst, false);
    let (run, disk) = journey(first, start, home, turns);
    lemma_so_far(tool, src, dst, start, home, turns);
    let at = run.phase->retained_at;
    let (j, k, m) = choose|j: int, k: int, m: int| #[trigger]
        finished(run, start, disk, home, turns, j, k, m, at);
    let e = choose|e: Disk| #[trigger]
        pointed(run, start, e, home, turns, j, k) && put_aside(run, e, disk, turns[m], at);
    if run.layout->0.discovery == HomeDirDiscovery::Symlink {
        lemma_symlink_way_back(run, start, e, disk, home, turns, j, k, m, undo_turns);
    } else {
        lemma_other_way_back(run, start, e, disk, home, turns, j, k, m, undo_turns);
    }
}

proof fn lemma_symlink_way_back(
    run: RunView,
    start: Disk,
    e: Disk,
    disk: Disk,
    home: Option<Seq<char>>,
    turns: Seq<Turn>,
    j: int,
    k: int,
    m: int,
    undo_turns: Seq<UndoTurn>,
)
    requires
        run.phase is Complete,
        run.layout matches Some(l) && l.discovery == HomeDirDiscovery::Symlink,
        pointed(run, start, e, home, turns, j, k),
        put_aside(run, e, disk, turns[m], run.phase->retained_at),
        start.things.contains_key(run.src),
        start.things[run.src] is Tree,
        undo_honest(way_back(run), disk, undo_turns),
        undo_course(way_back(run), false, said(undo_turns)) is Give,
    ensures
        undone(way_back(run), disk, undo_turns) == start,
{
    let d1 = with_copy(start, run.dst, turns[j].copy);
    let plan = way_back(run);
    let s = turns[k].stamp;
    lemma_symlink_is_installed(run.src, run.dst, s, d1, turns[k].seen);
    assert(run.rewrite_outcome matches RewriteView::SymlinkInstalled { moved_aside: Some(_), .. });
    assert(disk == e) by {
        let keep = retaining(run.src, run.rewrite_outcome, turns[m].stamp);
        if turns[m].seen.len() > 0 {
            lemma_told_before(keep, e, turns[m].seen, 1);
            lemma_one_more(keep, e, turns[m].seen, 0);
        }
    }
    lemma_undo_head(plan, disk, undo_turns);
    lemma_symlink_is_undone(run.src, run.dst, s, d1, turns[k].seen, undo_turns[1].seen);
    lemma_only_the_copy_is_left(plan, disk, undo_turns, start, turns[j].copy);
}

proof fn lemma_other_way_back(
    run: RunView,
    start: Disk,
    e: Disk,
    disk: Disk,
    home: Option<Seq<char>>,
    turns: Seq<Turn>,
    j: int,
    k: int,
    m: int,
    undo_turns: Seq<UndoTurn>,
)
    requires
        run.phase is Complete,
        run.layout matches Some(l) && l.discovery != HomeDirDiscovery::Symlink,
        pointed(run, start, e, home, turns, j, k),
        put_aside(run, e, disk, turns[m], run.phase->retained_at),
        start.things.contains_key(run.src),
        start.things[run.src] is Tree,
        undo_honest(way_back(run), disk, undo_turns),
        undo_course(way_back(run), false, said(undo_turns)) is Give,
    ensures
        undone(way_back(run), disk, undo_turns) == start,
{
    let d1 = with_copy(start, run.dst, turns[j].copy);
    let plan = way_back(run);
    let by_config = run.layout->0.discovery == HomeDirDiscovery::Config;
    let aside = aside_of(run.src, turns[m].stamp);
    let c = copies(config_files(run), home, turns[k].stamp);
    if by_config {
        lemma_edited_by(run, start, e, home, turns, j, k, c);
        lemma_aloof(d1, e, c, run.src);
        lemma_aloof(d1, e, c, run.dst);
    }
    assert(e.things.contains_key(run.src) && e.things[run.src] == start.things[run.src]);
    lemma_put_aside(run.src, run.rewrite_outcome, turns[m].stamp, e, turns[m].seen);
    assert(e.things.contains_key(run.dst));
    if by_config {
        lemma_aloof_from_all(d1, e, c, aside);
    }
    assert(!start.things.contains_key(aside));
    assert(disk == with_aside(e, run.src, aside));
    let d2 = with_aside(d1, run.src, aside);
    lemma_undo_head(plan, disk, undo_turns);
    let seen = undo_turns[1].seen;
    assert(undone(plan, disk, undo_turns.take(2)) == d2) by {
        if by_config {
            lemma_kept_aside(d1, e, c, run.src, aside);
            let back = |s: Seq<Answer>| unedit_plan(c, s);
            assert(undoing(run.rewrite_outcome) =~= back);
            lemma_files_are_restored(d2, disk, c, seen);
        } else {
            lemma_nothing_on_disk(run.rewrite_outcome, disk, seen);
        }
    }
    lemma_source_comes_back(plan, disk, undo_turns, start, turns[j].copy, aside);
}

/// A directory has nothing to do with the copies, and stays as it was.
proof fn lemma_aloof(was: Disk, now: Disk, c: Seq<BackupView>, p: Seq<char>)
    requires
        kept(was, now, c),
        was.things.contains_key(p),
        was.things[p] is Tree,
    ensures
        aloof(p, c),
        agree(was, now, p),
{
    assert forall|i: int| 0 <= i < c.len() implies (#[trigger] c[i]).original != p && c[i].backup
        != p by {
        assert(was.things[c[i].original] is File);
        assert(!was.things.contains_key(c[i].backup));
    }
    assert(aloof(p, c));
}

/// A place where nothing lies has nothing to do with the copies.
proof fn lemma_aloof_from_all(was: Disk, now: Disk, c: Seq<BackupView>, p: Seq<char>)
    requires
        kept(was, now, c),
        !now.things.contains_key(p),
    ensures
        aloof(p, c),
        agree(was, now, p),
{
    assert forall|i: int| 0 <= i < c.len() implies (#[trigger] c[i]).original != p && c[i].backup
        != p by {
        assert(now.things.contains_key(c[i].original));
        assert(now.things.contains_key(c[i].backup));
    }
    assert(aloof(p, c));
}

/// What the editing of config files did.
proof fn lemma_edited_by(
    run: RunView,
    start: Disk,
    e: Disk,
    home: Option<Seq<char>>,
    turns: Seq<Turn>,
    j: int,
    k: int,
    c: Seq<BackupView>,
)
    requires
        run.layout matches Some(l) && l.discovery == HomeDirDiscovery::Config && c == copies(
            l.config_files,
            home,
            turns[k].stamp,
        ),
        pointed(run, start, e, home, turns, j, k),
    ensures
        kept(with_copy(start, run.dst, turns[j].copy), e, c),
        run.rewrite_outcome == (RewriteView::ConfigEdited { backups: c }),
{
    let d1 = with_copy(start, run.dst, turns[j].copy);
    let files = run.layout->0.config_files;
    assert(set_apart(d1, c)) by {
        assert forall|i: int|
            0 <= i < c.len() && d1.things.contains_key((#[trigger] c[i]).backup) implies d1.there(
            c[i].backup,
        ) by {
            if c[i].backup != run.dst {
                assert(start.there(c[i].backup));
            }
        }
    }
    lemma_files_are_edited(
        files,
        home,
        run.src,
        run.dst,
        turns[k].stamp,
        Seq::empty(),
        d1,
        turns[k].seen,
    );
    assert(Seq::<BackupView>::empty() + c =~= c);
}

/// Taking back an override of the environment changes nothing on the disk.
proof fn lemma_nothing_on_disk(outcome: RewriteView, disk: Disk, seen: Seq<Answer>)
    requires
        outcome is EnvOverridden,
        told(undoing(outcome), disk, seen),
        undo_plan(outcome, seen) is Give,
    ensures
        disk_then(undoing(outcome), disk, seen) == disk,
{
    let plan = undoing(outcome);
    lemma_prefixes(seen);
    assert(seen.len() > 0);
    lemma_told_before(plan, disk, seen, 1);
    lemma_one_more(plan, disk, seen, 0);
    if seen.len() > 1 {
        lemma_told_before(plan, disk, seen, 2);
        lemma_one_more(plan, disk, seen, 1);
        assert(seen.take(1)[0] == seen[0]);
    }
}

/// The first two turns of an undo: the tool comes to rest, and the rewrite is
/// taken back.
proof fn lemma_undo_head(plan: UndoView, disk: Disk, turns: Seq<UndoTurn>)
    requires
        undo_honest(plan, disk, turns),
        undo_course(plan, false, said(turns)) is Give,
    ensures
        turns.len() > 2,
        !(turns[0].answer is Failed),
        !(turns[1].answer is Failed),
        told(undoing(plan.rewrite_outcome), disk, turns[1].seen),
        undo_plan(plan.rewrite_outcome, turns[1].seen) is Give,
        undone(plan, disk, turns.take(2)) == disk_then(
            undoing(plan.rewrite_outcome),
            disk,
            turns[1].seen,
        ),
{
    let a = said(turns);
    assert(turns.len() > 0);
    assert(a[0] == turns[0].answer);
    assert(turns.len() > 1);
    assert(a[1] == turns[1].answer);
    lemma_undo_turn(plan, disk, turns, 0);
    lemma_undo_turn(plan, disk, turns, 1);
    assert(a.take(1)[0] == a[0]);
    assert(turns.take(0) =~= Seq::<UndoTurn>::empty());
}

/// What is left of an undo once only the copy is to go.
proof fn lemma_only_the_copy_is_left(
    plan: UndoView,
    disk: Disk,
    turns: Seq<UndoTurn>,
    start: Disk,
    copy: Thing,
)
    requires
        undo_honest(plan, disk, turns),
        undo_course(plan, false, said(turns)) is Give,
        plan.retained_at is None,
        undone(plan, disk, turns.take(2)) == with_copy(start, plan.dst, copy),
        copy is Tree,
        !start.things.contains_key(plan.dst),
    ensures
        undone(plan, disk, turns) == start,
{
    lemma_undo_head(plan, disk, turns);
    let a = said(turns);
    let n = turns.len() as int;
    assert(forall|i: int| 0 <= i < n ==> #[trigger] a[i] == turns[i].answer);
    assert(forall|m: int, i: int| 0 <= i < m <= n ==> #[trigger] a.take(m)[i] == a[i]);
    lemma_undo_turn(plan, disk, turns, 2);
    assert(turns[2].answer == UndoAnswer::Yes);
    assert(n >= 5);
    lemma_undo_turn(plan, disk, turns, 3);
    lemma_undo_turn(plan, disk, turns, 4);
    if n > 5 {
        lemma_undo_turn(plan, disk, turns, 5);
    }
    assert(turns.take(5) =~= turns);
    assert(undone(plan, disk, turns).things =~= start.things);
}

/// What is left of an undo once the source is to come back.
proof fn lemma_source_comes_back(
    plan: UndoView,
    disk: Disk,
    turns: Seq<UndoTurn>,
    start: Disk,
    copy: Thing,
    aside: Seq<char>,
)
    requires
        undo_honest(plan, disk, turns),
        undo_course(plan, false, said(turns)) is Give,
        plan.retained_at == Some(aside),
        undone(plan, disk, turns.take(2)) == with_aside(
            with_copy(start, plan.dst, copy),
            plan.src,
            aside,
        ),
        copy is Tree,
        !start.things.contains_key(plan.dst),
        !start.things.contains_key(aside),
        start.things.contains_key(plan.src),
        start.things[plan.src] is Tree,
        plan.src != plan.dst,
        aside != plan.dst,
        aside != plan.src,
    ensures
        undone(plan, disk, turns) == start,
{
    lemma_undo_head(plan, disk, turns);
    let a = said(turns);
    let n = turns.len() as int;
    assert(forall|i: int| 0 <= i < n ==> #[trigger] a[i] == turns[i].answer);
    assert(forall|m: int, i: int| 0 <= i < m <= n ==> #[trigger] a.take(m)[i] == a[i]);
    lemma_undo_turn(plan, disk, turns, 2);
    assert(turns[2].answer != UndoAnswer::Yes);
    assert(n > 3);
    lemma_undo_turn(plan, disk, turns, 3);
    assert(turns[3].answer == UndoAnswer::Yes);
    assert(n > 4);
    lemma_undo_turn(plan, disk, turns, 4);
    assert(!(turns[4].answer is Failed));
    let back = undone(plan, disk, turns.take(5));
    assert(back.things =~= with_copy(start, plan.dst, copy).things);
    assert(n > 5);
    lemma_undo_turn(plan, disk, turns, 5);
    assert(turns[5].answer == UndoAnswer::Yes);
    assert(n >= 8);
    lemma_undo_turn(plan, disk, turns, 6);
    lemma_undo_turn(plan, disk, turns, 7);
    if n > 8 {
        lemma_undo_turn(plan, disk, turns, 8);
    }
    assert(turns.take(8) =~= turns);
    assert(undone(plan, disk, turns).things =~= start.things);
}

/// An undo that was carried through brought the tool to rest once, at its
/// beginning, and back up once, at its end, with what the former gave; and in
/// between, an override of the environment was handed back.
pub proof fn lemma_undo_rests_and_rises(plan: UndoView, disk: Disk, turns: Seq<UndoTurn>)
    requires
        undo_honest(plan, disk, turns),
        undo_course(plan, false, said(turns)) is Give,
    ensures
        turns.len() > 2,
        undo_course(plan, false, said(turns).take(0)) == UndoPlan::Ask(
            UndoOp::Quiesce { dry_run: false },
        ),
        undo_course(plan, false, said(turns).take(turns.len() - 1)) == UndoPlan::Ask(
            UndoOp::Resume { action: wake_up(said(turns)), dry_run: false },
        ),
        forall|i: int|
            0 < i < turns.len() - 1 ==> (#[trigger] undo_course(
                plan,
                false,
                said(turns).take(i),
            ) matches UndoPlan::Ask(op) && !(op is Quiesce) && !(op is Resume)),
        undo_course(plan, false, said(turns).take(1)) == UndoPlan::Ask(
            UndoOp::UndoRewrite { outcome: plan.rewrite_outcome },
        ),
        plan.rewrite_outcome matches RewriteView::EnvOverridden { record } ==> undo_plan(
            plan.rewrite_outcome,
            Seq::empty(),
        ) == Plan::<()>::Ask(Op::Uninstall { record }) && turns[1].seen.len() > 0,
{
    lemma_undo_head(plan, disk, turns);
    let a = said(turns);
    let n = turns.len() as int;
    assert(forall|i: int| 0 <= i < n ==> #[trigger] a[i] == turns[i].answer);
    assert(forall|m: int, i: int| 0 <= i < m <= n ==> #[trigger] a.take(m)[i] == a[i]);
    assert forall|i: int| 0 < i < n - 1 implies (#[trigger] undo_course(
        plan,
        false,
        a.take(i),
    ) matches UndoPlan::Ask(op) && !(op is Quiesce) && !(op is Resume)) by {
        lemma_undo_turn(plan, disk, turns, i);
        lemma_undo_turn(plan, disk, turns, i + 1);
    }
    lemma_undo_turn(plan, disk, turns, 0);
    lemma_undo_turn(plan, disk, turns, n - 1);
    assert(a.take(n) =~= a);
}

} // verus!

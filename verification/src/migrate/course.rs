//! What a migration and its parts ask for, where, and after which replies.
use vstd::prelude::*;

use crate::inventory::expanded;
use crate::migrate::copy::{
    byte_count, file_count, lacking, remapped, step_for, tallied, CopyStep, EntryKind, EntryView,
};
use crate::migrate::rewrite::{
    aside_of, backup_of, config_plan, edit_plan, retain_plan, symlink_plan, validate_decision,
    ValidateSeen, ValidateStep,
};
use crate::migrate::run::{CleanUpView, PhaseView, ReplyView, RequestView, RunView};
use crate::migrate::service::{
    declared_unit, install_plan, scoped_args, unit_absent,
};
use crate::migrate::steps::{Answer, Op, Plan};
use crate::migrate::types::{
    BackupView, CopySummary, ErrorView, RecordView, RetainedView, ResumeView, RewriteView, UndoView,
};
use crate::migrate::undo::{
    item_for, removal_for, total, undo_course, CleanupItem, PathState, Removal, UndoAnswer, UndoOp,
    UndoPlan,
};
use crate::paths::parts::{
    lemma_below, lemma_first_part, lemma_joined, lemma_joined_name, lemma_names_are_plain,
};
use crate::paths::{absolute, comps, first_part, joined, last_name, renamed, under};
use crate::text::{dec, has, lower};
use crate::tools::{FieldView, HomeDirDiscovery, LayoutView, QuiesceView, ValidateView};

verus! {

/// Every request of a run is about the run's own places: the tree is copied
/// from the source to the destination and compared so, the tool is pointed at
/// the destination, and the source is what is kept. What is taken back is what
/// was rewritten, and what brings the tool up is what brought it to rest.
pub proof fn lemma_requests_name_their_places(run: RunView)
    ensures
        match run.next() {
            RequestView::Exists { path } => path == if run.phase is Source {
                run.src
            } else {
                run.dst
            },
            RequestView::Quiesce { dry_run } => dry_run == run.dry_run,
            RequestView::Measure { path } => path == run.src,
            RequestView::Copy { src, dst } => src == run.src && dst == run.dst,
            RequestView::Verify { src, dst } => src == run.src && dst == run.dst,
            RequestView::RewriteSymlink { src, dst } => src == run.src && dst == run.dst && (
            run.layout matches Some(l) && l.discovery == HomeDirDiscovery::Symlink),
            RequestView::RewriteConfig { src, dst } => src == run.src && dst == run.dst && (
            run.layout matches Some(l) && l.discovery == HomeDirDiscovery::Config),
            RequestView::RewriteEnv { dst } => dst == run.dst && (run.layout matches Some(l)
                && l.discovery != HomeDirDiscovery::Symlink && l.discovery
                != HomeDirDiscovery::Config),
            RequestView::Resume { action, dry_run } => action == run.resume_action && dry_run
                == run.dry_run,
            RequestView::UndoRewrite { outcome } => outcome == run.rewrite_outcome,
            RequestView::Retain { src, outcome } => src == run.src && outcome
                == run.rewrite_outcome,
            _ => true,
        },
{
}

/// The run goes on to this request, with nothing to clean up.
pub open spec fn asks_next(next: (RunView, Seq<CleanUpView>), request: RequestView) -> bool {
    next.0.next() == request && next.1.len() == 0
}

/// The run has failed with this error, and nothing is to be cleaned up.
pub open spec fn gives_up(next: (RunView, Seq<CleanUpView>), error: ErrorView) -> bool {
    next.0.phase == (PhaseView::Aborted { error }) && next.1.len() == 0
}

/// A migration in earnest goes forward one request at a time, as long as the
/// replies are good: the source has to be there and the destination not, the
/// tool comes to rest, the tree is copied and has to compare equal, the tool is
/// pointed at the copy, comes up again and is validated, and the source is
/// kept.
pub proof fn lemma_good_replies_lead_on(run: RunView, now: u64)
    requires
        run.layout matches Some(l) && l.discovery != HomeDirDiscovery::Compile,
        !run.dry_run,
    ensures
        run.phase is Begin ==> asks_next(
            run.advance(ReplyView::Begin, now),
            RequestView::Exists { path: run.src },
        ),
        run.phase is Source ==> asks_next(
            run.advance(ReplyView::Exists(true), now),
            RequestView::Exists { path: run.dst },
        ),
        run.phase is Destination ==> asks_next(
            run.advance(ReplyView::Exists(false), now),
            RequestView::Quiesce { dry_run: false },
        ),
        forall|q: crate::migrate::types::QuiescedView, a: ResumeView|
            run.phase is Quiesce ==> {
                let next = #[trigger] run.advance(ReplyView::Quiesced(Ok((q, a))), now);
                &&& asks_next(next, RequestView::Copy { src: run.src, dst: run.dst })
                &&& next.0.resume_action == a
            },
        forall|s: crate::migrate::types::CopySummary|
            run.phase is Copy ==> asks_next(
                #[trigger] run.advance(ReplyView::Copied(Ok(s)), now),
                RequestView::Verify { src: run.src, dst: run.dst },
            ),
        forall|v: crate::migrate::types::VerifyView|
            run.phase is Verify && v.matches ==> {
                let next = #[trigger] run.advance(ReplyView::Verified(Ok(v)), now);
                &&& next.1.len() == 0
                &&& match run.layout->0.discovery {
                    HomeDirDiscovery::Symlink => next.0.next() is RewriteSymlink,
                    HomeDirDiscovery::Config => next.0.next() is RewriteConfig,
                    _ => next.0.next() is RewriteEnv,
                }
            },
        forall|o: RewriteView|
            run.phase is Rewrite ==> {
                let next = #[trigger] run.advance(ReplyView::Rewritten(Ok(o)), now);
                &&& asks_next(
                    next,
                    RequestView::Resume { action: run.resume_action, dry_run: false },
                )
                &&& next.0.rewrite_outcome == o
            },
        run.phase is Resume ==> asks_next(
            run.advance(ReplyView::Resumed(Ok(())), now),
            RequestView::Validate,
        ),
        forall|o: crate::migrate::types::ValidatedView|
            run.phase is Validate ==> asks_next(
                #[trigger] run.advance(ReplyView::Validated(Ok(o)), now),
                RequestView::Retain { src: run.src, outcome: run.rewrite_outcome },
            ),
        forall|o: RetainedView|
            run.phase is Retain ==> {
                let next = #[trigger] run.advance(ReplyView::Retained(Ok(o)), now);
                &&& asks_next(next, RequestView::Finished)
                &&& next.0.phase == PhaseView::Complete {
                    retained_at: match o {
                        RetainedView::RenamedAside { to, .. } => Some(to),
                        _ => None,
                    },
                }
            },
{
}

/// A bad reply never leads on. Before anything was changed the run just fails:
/// without a layout, with one that cannot be migrated, without a source, with
/// something at the destination, or where the tool could not be brought to
/// rest. A copy that failed or does not compare equal is removed, and the tool
/// brought up again, with the failure for the run's error. After the rewrite a
/// failure first has the rewrite taken back.
pub proof fn lemma_bad_replies_do_not_lead_on(run: RunView, error: ErrorView, now: u64)
    ensures
        run.phase is Begin && run.layout is None ==> gives_up(
            run.advance(ReplyView::Begin, now),
            ErrorView::NoLayout(run.tool_name),
        ),
        run.phase is Begin && (run.layout matches Some(l) && l.discovery
            == HomeDirDiscovery::Compile) ==> gives_up(
            run.advance(ReplyView::Begin, now),
            ErrorView::CompileBaked,
        ),
        run.phase is Source ==> gives_up(
            run.advance(ReplyView::Exists(false), now),
            ErrorView::SourceMissing(run.src),
        ),
        run.phase is Destination ==> gives_up(
            run.advance(ReplyView::Exists(true), now),
            ErrorView::DestinationExists(run.dst),
        ),
        run.phase is Quiesce ==> gives_up(run.advance(ReplyView::Quiesced(Err(error)), now), error),
        run.phase is Copy ==> run.advance(ReplyView::Copied(Err(error)), now).0.phase == (
        PhaseView::Aborted { error }),
        run.phase is Verify ==> run.advance(ReplyView::Verified(Err(error)), now).0.phase == (
        PhaseView::Aborted { error }),
        forall|v: crate::migrate::types::VerifyView|
            run.phase is Verify && !v.matches ==> (#[trigger] run.advance(
                ReplyView::Verified(Ok(v)),
                now,
            )).0.phase is Aborted,
        run.phase is Rewrite ==> run.advance(ReplyView::Rewritten(Err(error)), now).0.phase == (
        PhaseView::Aborted { error }),
        run.phase is Resume ==> run.advance(ReplyView::Resumed(Err(error)), now).0.phase == (
        PhaseView::ResumeFailed { error }),
        run.phase is Validate ==> run.advance(ReplyView::Validated(Err(error)), now).0.phase == (
        PhaseView::ValidateFailed { error }) && run.advance(
            ReplyView::Validated(Err(error)),
            now,
        ).1 == seq![CleanUpView::Quiesce],
        run.phase is Retain ==> run.advance(ReplyView::Retained(Err(error)), now).0.phase == (
        PhaseView::RetainFailed { error }) && run.advance(
            ReplyView::Retained(Err(error)),
            now,
        ).1 == seq![CleanUpView::Quiesce],
{
}

/// A symlink that points into the source points to the same place in the copy;
/// a relative one, and one that points elsewhere, is copied as it is.
pub proof fn lemma_links_follow_the_copy(target: Seq<char>, src: Seq<char>, dst: Seq<char>)
    requires
        absolute(src),
        dst.len() > 0,
    ensures
        !absolute(target) ==> remapped(target, src, dst) == target,
        !comps(src).is_prefix_of(comps(target)) ==> remapped(target, src, dst) == target,
        absolute(target) && comps(src).is_prefix_of(comps(target)) ==> comps(
            remapped(target, src, dst),
        ) == comps(dst) + comps(target).skip(comps(src).len() as int),
{
    if absolute(target) && under(target, src) {
        let n = comps(src).len() as int;
        lemma_below(target, src);
        let rel = crate::paths::below(target, src)->0;
        if rel.len() > 0 {
            lemma_names_are_plain(target, n);
            assert(comps(rel)[0] == comps(target)[n]);
        }
        lemma_joined(dst, rel);
    }
}

/// The files and bytes of a tree add up: a symlink counts for neither.
pub proof fn lemma_tree_sizes_add_up(a: Seq<EntryView>, b: Seq<EntryView>)
    ensures
        file_count(a + b) == file_count(a) + file_count(b),
        byte_count(a + b) == byte_count(a) + byte_count(b),
        forall|e: EntryView|
            #![trigger file_count(seq![e])]
            file_count(seq![e]) == (if e is File {
                1nat
            } else {
                0
            }),
        forall|e: EntryView|
            #![trigger byte_count(seq![e])]
            byte_count(seq![e]) == (match e {
                EntryView::File { size, .. } => size as nat,
                EntryView::Link { .. } => 0,
            }),
    decreases b.len(),
{
    assert forall|e: EntryView|
        #![trigger file_count(seq![e])]
        file_count(seq![e]) == (if e is File {
            1nat
        } else {
            0
        }) by {
        assert(seq![e].drop_last() =~= Seq::empty());
        reveal_with_fuel(file_count, 2);
    }
    assert forall|e: EntryView|
        #![trigger byte_count(seq![e])]
        byte_count(seq![e]) == (match e {
            EntryView::File { size, .. } => size as nat,
            EntryView::Link { .. } => 0,
        }) by {
        assert(seq![e].drop_last() =~= Seq::empty());
        reveal_with_fuel(byte_count, 2);
    }
    if b.len() == 0 {
        assert(a + b =~= a);
    } else {
        lemma_tree_sizes_add_up(a, b.drop_last());
        assert((a + b).drop_last() =~= a + b.drop_last());
        assert((a + b).last() == b.last());
    }
}

/// The copy has the entry, as it should be there.
pub open spec fn is_copied(
    e: EntryView,
    dst: Seq<EntryView>,
    src_root: Seq<char>,
    dst_root: Seq<char>,
) -> bool {
    exists|j: int|
        0 <= j < dst.len() && match (e, #[trigger] dst[j]) {
            (EntryView::File { rel, size }, EntryView::File { rel: r, size: s }) => r == rel && s
                == size,
            (EntryView::Link { rel, target }, EntryView::Link { rel: r, target: t }) => r == rel
                && t == remapped(target, src_root, dst_root),
            _ => false,
        }
}

/// What is told of a comparison are the paths of the entries that the copy does
/// not have as they should be, and of those that the source does not have at
/// all, and no others.
pub proof fn lemma_mismatches_are_told(
    src: Seq<EntryView>,
    dst: Seq<EntryView>,
    src_root: Seq<char>,
    dst_root: Seq<char>,
)
    ensures
        forall|i: int|
            0 <= i < src.len() && !is_copied(#[trigger] src[i], dst, src_root, dst_root)
                ==> lacking(src, dst, src_root, dst_root).contains(src[i].rel()),
        forall|p: Seq<char>| #[trigger]
            lacking(src, dst, src_root, dst_root).contains(p) ==> exists|i: int|
                0 <= i < src.len() && !is_copied(#[trigger] src[i], dst, src_root, dst_root)
                    && src[i].rel() == p,
    decreases src.len(),
{
    let all = lacking(src, dst, src_root, dst_root);
    if src.len() > 0 {
        let d = src.drop_last();
        let n = src.len() - 1;
        lemma_mismatches_are_told(d, dst, src_root, dst_root);
        let rest = lacking(d, dst, src_root, dst_root);
        let last = src[n];
        assert(dst.contains(last.copy(src_root, dst_root)) == is_copied(
            last,
            dst,
            src_root,
            dst_root,
        )) by {
            if dst.contains(last.copy(src_root, dst_root)) {
                let j = choose|j: int|
                    0 <= j < dst.len() && dst[j] == last.copy(src_root, dst_root);
                assert(dst[j] == dst[j]);
            }
            if is_copied(last, dst, src_root, dst_root) {
                let j = choose|j: int|
                    0 <= j < dst.len() && match (last, #[trigger] dst[j]) {
                        (EntryView::File { rel, size }, EntryView::File { rel: r, size: s }) => r
                            == rel && s == size,
                        (
                            EntryView::Link { rel, target },
                            EntryView::Link { rel: r, target: t },
                        ) => r == rel && t == remapped(target, src_root, dst_root),
                        _ => false,
                    };
                assert(dst[j] == last.copy(src_root, dst_root));
            }
        }
        assert forall|i: int| 0 <= i < src.len() && !is_copied(
            #[trigger] src[i],
            dst,
            src_root,
            dst_root,
        ) implies all.contains(src[i].rel()) by {
            if i < n {
                assert(d[i] == src[i]);
                let k = choose|k: int| 0 <= k < rest.len() && rest[k] == d[i].rel();
                assert(all[k] == rest[k]);
            } else {
                assert(all[rest.len() as int] == last.rel());
            }
        }
        assert forall|p: Seq<char>| #[trigger] all.contains(p) implies exists|i: int|
            0 <= i < src.len() && !is_copied(#[trigger] src[i], dst, src_root, dst_root)
                && src[i].rel() == p by {
            let k = choose|k: int| 0 <= k < all.len() && all[k] == p;
            if k < rest.len() {
                assert(rest[k] == p);
                assert(rest.contains(p));
                let i = choose|i: int|
                    0 <= i < d.len() && !is_copied(#[trigger] d[i], dst, src_root, dst_root)
                        && d[i].rel() == p;
                assert(src[i] == d[i]);
            } else {
                assert(src[n].rel() == p);
            }
        }
    }
}

/// What is kept of a directory or a config file lies beside it, under its name
/// with a mark and the time behind it.
pub proof fn lemma_kept_beside(p: Seq<char>, stamp: u64)
    requires
        last_name(p) is Some,
        comps(p).len() > 1,
    ensures
        comps(aside_of(p, stamp)) == comps(p).drop_last().push(
            last_name(p)->0 + ".migrated-"@ + dec(stamp as nat),
        ),
        comps(backup_of(p, stamp)) == comps(p).drop_last().push(
            last_name(p)->0 + ".sessionguard-backup-"@ + dec(stamp as nat),
        ),
        aside_of(p, stamp) != p,
        backup_of(p, stamp) != p,
{
    reveal_strlit(".migrated-");
    reveal_strlit(".sessionguard-backup-");
    let name = last_name(p)->0;
    let a = name + ".migrated-"@ + dec(stamp as nat);
    let b = name + ".sessionguard-backup-"@ + dec(stamp as nat);
    lemma_last_is_plain(p);
    lemma_digits(stamp as nat);
    assert(!a.contains('/')) by {
        if a.contains('/') {
            let i = choose|i: int| 0 <= i < a.len() && a[i] == '/';
            if i < name.len() {
                assert(name[i] == '/');
                assert(name.contains('/'));
            }
        }
    }
    assert(!b.contains('/')) by {
        if b.contains('/') {
            let i = choose|i: int| 0 <= i < b.len() && b[i] == '/';
            if i < name.len() {
                assert(name[i] == '/');
                assert(name.contains('/'));
            }
        }
    }
    assert(a.len() > 1 && b.len() > 1);
    lemma_renamed(p, a);
    lemma_renamed(p, b);
    assert(comps(p).drop_last().push(a).last() == a);
    assert(comps(p).drop_last().push(b).last() == b);
    assert(a.len() > name.len() && b.len() > name.len());
    assert(comps(p).last() == name);
}

/// The digits of a number hold no separator.
proof fn lemma_digits(n: nat)
    ensures
        forall|i: int| 0 <= i < dec(n).len() ==> #[trigger] dec(n)[i] != '/',
    decreases n,
{
    if n >= 10 {
        lemma_digits(n / 10);
        let rest = dec(n / 10);
        assert forall|i: int| 0 <= i < dec(n).len() implies #[trigger] dec(n)[i] != '/' by {
            if i < rest.len() {
                assert(dec(n)[i] == rest[i]);
            }
        }
    }
}

/// A last name holds no separator.
proof fn lemma_last_is_plain(p: Seq<char>)
    requires
        last_name(p) is Some,
    ensures
        !last_name(p)->0.contains('/'),
        last_name(p)->0.len() > 0,
{
    let n = comps(p).len() - 1;
    if n == 0 && absolute(p) {
        assert(comps(p)[0] == seq!['/']);
        assert(comps(p).last() =~= seq!['/']);
    }
    lemma_names_are_plain(p, n);
}

/// A path under another name has its other components.
proof fn lemma_renamed(p: Seq<char>, name: Seq<char>)
    requires
        last_name(p) is Some,
        comps(p).len() > 1,
        name.len() > 1,
        !name.contains('/'),
    ensures
        comps(renamed(p, name)) == comps(p).drop_last().push(name),
{
    let n = comps(p).len() - 1;
    lemma_first_part(p, n);
    let dir = first_part(p, n);
    assert(comps(p).take(n) =~= comps(p).drop_last());
    if dir.len() == 0 {
        assert(crate::paths::spans(dir, 0) =~= Seq::empty());
        assert(comps(dir) =~= Seq::empty());
    }
    lemma_joined_name(dir, name);
}

/// A directory is moved aside only where it is there, the copy is there and the
/// place aside is free; the symlink is made only once it was moved.
pub proof fn lemma_symlink_needs_its_places(
    canonical: Seq<char>,
    target: Seq<char>,
    stamp: u64,
    seen: Seq<Answer>,
)
    ensures
        symlink_plan(canonical, target, stamp, seen) matches Plan::Ask(Op::Symlink { target: t, link })
            ==> t == target && link == canonical && seen.len() == 4 && seen[3].fine(),
        symlink_plan(canonical, target, stamp, seen) matches Plan::Ask(Op::Rename { from, to })
            ==> (from == canonical && to == aside_of(canonical, stamp) && seen.len() == 3 && seen[0]
            == Answer::Yes && seen[1] == Answer::Yes && seen[2] != Answer::Yes) || (from
            == aside_of(canonical, stamp) && to == canonical && seen.len() == 5
            && !seen[4].fine()),
        seen.len() > 0 && seen[0] != Answer::Yes ==> symlink_plan(
            canonical,
            target,
            stamp,
            seen,
        ) is Fail,
        seen.len() > 1 && seen[1] != Answer::Yes ==> symlink_plan(
            canonical,
            target,
            stamp,
            seen,
        ) is Fail,
        seen.len() > 2 && seen[2] == Answer::Yes ==> symlink_plan(
            canonical,
            target,
            stamp,
            seen,
        ) is Fail,
{
}

/// A source is kept aside only where it is there and the place aside is free; a
/// source that a symlink has taken the place of is kept already.
pub proof fn lemma_source_is_kept_once(
    src: Seq<char>,
    outcome: RewriteView,
    stamp: u64,
    seen: Seq<Answer>,
)
    ensures
        retain_plan(src, outcome, stamp, seen) matches Plan::Ask(Op::Rename { from, to }) ==> from
            == src && to == aside_of(src, stamp) && seen.len() == 2 && seen[0] == Answer::Yes
            && seen[1] != Answer::Yes,
        outcome matches RewriteView::SymlinkInstalled { moved_aside: Some(a), .. } ==> retain_plan(
            src,
            outcome,
            stamp,
            seen,
        ) == Plan::Give(RetainedView::PreservedInRewrite { aside: a }),
{
}

/// The undo brings the source back only where nothing is at its place and it is
/// still kept, and removes the copy only where it is there.
pub proof fn lemma_undo_looks_first(plan: UndoView, seen: Seq<UndoAnswer>)
    ensures
        undo_course(plan, false, seen) matches UndoPlan::Ask(UndoOp::Rename { from, to }) ==> {
            &&& plan.retained_at == Some(from)
            &&& to == plan.src
            &&& seen.len() == 4
            &&& undo_course(plan, false, seen.take(2)) == UndoPlan::Ask(
                UndoOp::Exists { path: plan.src },
            )
            &&& seen[2] != UndoAnswer::Yes
            &&& undo_course(plan, false, seen.take(3)) == UndoPlan::Ask(
                UndoOp::Exists { path: from },
            )
            &&& seen[3] == UndoAnswer::Yes
        },
        undo_course(plan, false, seen) matches UndoPlan::Ask(UndoOp::RemoveTree { path }) ==> {
            &&& path == plan.dst
            &&& seen.last() == UndoAnswer::Yes
            &&& undo_course(plan, false, seen.drop_last()) == UndoPlan::Ask(
                UndoOp::Exists { path: plan.dst },
            )
        },
        undo_course(plan, false, seen) matches UndoPlan::Ask(UndoOp::Resume { action, dry_run })
            ==> !dry_run && (seen[0] matches UndoAnswer::Quiesced { action: a } ==> action == a),
        seen.len() > 0 ==> (seen[0] matches UndoAnswer::Failed { error } ==> undo_course(
            plan,
            false,
            seen,
        ) == UndoPlan::Fail(error)),
        seen.len() > 1 && !(seen[0] is Failed) ==> (seen[1] matches UndoAnswer::Failed { error }
            ==> undo_course(plan, false, seen) == UndoPlan::Fail(error)),
{
    if seen.len() >= 2 {
        assert(forall|n: int, i: int| 0 <= i < n <= seen.len() ==> #[trigger] seen.take(n)[i]
            == seen[i]);
        assert(seen.drop_last() =~= seen.take(seen.len() - 1));
    }
}

/// What a clean-up can reclaim is the source that was kept aside, the directory
/// that a symlink took the place of, and the copies of config files; nothing
/// else, and never the source or the copy themselves by their own names.
pub proof fn lemma_clean_up_reclaims_what_was_kept(plan: UndoView)
    ensures
        plan.retained_at matches Some(s) ==> plan.preserved().contains(s),
        plan.rewrite_outcome matches RewriteView::SymlinkInstalled { moved_aside: Some(p), .. }
            ==> plan.preserved().contains(p),
        plan.rewrite_outcome matches RewriteView::ConfigEdited { backups } ==> forall|i: int|
            0 <= i < backups.len() ==> plan.preserved().contains((#[trigger] backups[i]).backup),
        forall|p: Seq<char>| #[trigger]
            plan.preserved().contains(p) ==> plan.retained_at == Some(p) || (
            plan.rewrite_outcome matches RewriteView::SymlinkInstalled { moved_aside: Some(a), .. }
                && a == p) || (plan.rewrite_outcome matches RewriteView::ConfigEdited { backups }
                && exists|i: int| 0 <= i < backups.len() && (#[trigger] backups[i]).backup == p),
{
    let all = plan.preserved();
    let n: int = if plan.retained_at is Some {
        1
    } else {
        0
    };
    if let Some(s) = plan.retained_at {
        assert(all[0] == s);
    }
    match plan.rewrite_outcome {
        RewriteView::SymlinkInstalled { moved_aside: Some(p), .. } => {
            assert(all[n] == p);
        },
        RewriteView::ConfigEdited { backups } => {
            assert forall|i: int| 0 <= i < backups.len() implies all.contains(
                (#[trigger] backups[i]).backup,
            ) by {
                assert(all[n + i] == backups[i].backup);
            }
            assert forall|p: Seq<char>| #[trigger] all.contains(p) implies plan.retained_at
                == Some(p) || exists|i: int|
                0 <= i < backups.len() && (#[trigger] backups[i]).backup == p by {
                let k = choose|k: int| 0 <= k < all.len() && all[k] == p;
                if k >= n {
                    assert(backups[k - n].backup == p);
                }
            }
        },
        _ => {},
    }
}

/// The bytes of a clean-up are the sum over its items.
pub proof fn lemma_reclaimed_bytes_add_up(a: Seq<CleanupItem>, b: Seq<CleanupItem>)
    ensures
        total(a + b) == total(a) + total(b),
        forall|x: CleanupItem| #[trigger] total(seq![x]) == x.bytes,
    decreases b.len(),
{
    assert forall|x: CleanupItem| #[trigger] total(seq![x]) == x.bytes by {
        assert(seq![x].drop_last() =~= Seq::empty());
        reveal_with_fuel(total, 2);
    }
    if b.len() == 0 {
        assert(a + b =~= a);
    } else {
        lemma_reclaimed_bytes_add_up(a, b.drop_last());
        assert((a + b).drop_last() =~= a + b.drop_last());
        assert((a + b).last() == b.last());
    }
}

/// The unit that is brought to rest is the user's where one is declared, else
/// the system's; the service manager is called for the user only in the former
/// case.
pub proof fn lemma_user_unit_is_preferred(q: QuiesceView, verb: Seq<char>)
    ensures
        q.user matches Some(u) ==> declared_unit(q) == Some(("user"@, u)) && scoped_args(
            "user"@,
            seq![verb, u],
        ) == seq!["--user"@, verb, u],
        q.user is None ==> (q.system matches Some(u) ==> declared_unit(q) == Some(("system"@, u))
            && scoped_args("system"@, seq![verb, u]) == seq![verb, u]),
        q.user is None && q.system is None ==> declared_unit(q) is None,
{
    reveal_strlit("user");
    reveal_strlit("system");
    assert("user"@.len() != "system"@.len());
    if let Some(u) = q.user {
        assert(seq!["--user"@] + seq![verb, u] =~= seq!["--user"@, verb, u]);
    }
}

/// An override is written to a file of its own among the drop-ins of the
/// declared unit, never over one that is there; it sets the variable to the
/// value, and counts once the service manager has reloaded. One that could not
/// be made to count is removed again.
pub proof fn lemma_override_is_installed(
    layout: LayoutView,
    env_var: Seq<char>,
    value: Seq<char>,
    home: Option<Seq<char>>,
    seen: Seq<Answer>,
)
    ensures
        install_plan(layout, env_var, value, true, home, seen) == Plan::<Option<RecordView>>::Give(
            None,
        ),
        install_plan(layout, env_var, value, false, home, seen) matches Plan::Ask(
            Op::Write { path, text },
        ) ==> {
            &&& text == "[Service]\nEnvironment="@ + env_var + "="@ + value + "\n"@
            &&& seen.len() == 2
            &&& seen[1] != Answer::Yes
            &&& layout.quiesce.user matches Some(u) ==> (home matches Some(h) && path == joined(
                joined(joined(h, ".config/systemd/user"@), u + ".d"@),
                "sessionguard-migrate.conf"@,
            ))
            &&& layout.quiesce.user is None ==> (layout.quiesce.system matches Some(u) && path
                == joined(
                joined("/etc/systemd/system"@, u + ".d"@),
                "sessionguard-migrate.conf"@,
            ))
        },
        install_plan(layout, env_var, value, false, home, seen) matches Plan::Give(r) ==> (
        r matches Some(record) && record.env_var == env_var && record.value == value && seen.len()
            >= 4 && seen[3].fine() && declared_unit(layout.quiesce) == Some(
            (record.scope, record.unit),
        )),
        install_plan(layout, env_var, value, false, home, seen) matches Plan::Ask(
            Op::RemoveFile { .. },
        ) ==> seen.len() == 4 && !seen[3].fine(),
{
    reveal_strlit("user");
    reveal_strlit("system");
    assert("user"@.len() != "system"@.len());
}

/// The operation is one on a config file of the tool: it is looked at, copied
/// beside itself and edited, the source's path there for the destination's.
pub open spec fn edits_file(
    op: Op,
    f: FieldView,
    home: Option<Seq<char>>,
    src: Seq<char>,
    dst: Seq<char>,
    stamp: u64,
) -> bool {
    let path = expanded(home, f.file);
    match op {
        Op::Exists { path: p } => p == path || p == backup_of(path, stamp),
        Op::CopyFile { from, to } => from == path && to == backup_of(path, stamp),
        Op::RewriteField { path: p, field, format, old, new } => p == path && field == f.field
            && format == f.format && old == src && new == dst,
        _ => false,
    }
}

/// What the editing of config files asks for is about one of the files, or puts
/// back one that was copied.
pub proof fn lemma_config_edits_go_to_the_destination(
    files: Seq<FieldView>,
    home: Option<Seq<char>>,
    src: Seq<char>,
    dst: Seq<char>,
    stamp: u64,
    backups: Seq<BackupView>,
    seen: Seq<Answer>,
)
    ensures
        config_plan(files, home, src, dst, stamp, backups, seen) matches Plan::Ask(op) ==> (exists|
            i: int,
        |
            0 <= i < files.len() && edits_file(op, #[trigger] files[i], home, src, dst, stamp)) || (
        op is Rename),
        edit_plan(Seq::empty(), home, src, dst, stamp, seen) is Fail,
        files.len() > 0 ==> edit_plan(files, home, src, dst, stamp, seen) == config_plan(
            files,
            home,
            src,
            dst,
            stamp,
            Seq::empty(),
            seen,
        ),
    decreases files.len(),
{
    if files.len() > 0 {
        let plan = config_plan(files, home, src, dst, stamp, backups, seen);
        if let Plan::Ask(op) = plan {
            if seen.len() >= 4 && seen[0] == Answer::Yes && seen[1] != Answer::Yes
                && seen[2].fine() && seen[3] == Answer::Yes {
                let path = expanded(home, files[0].file);
                let more = backups.push(
                    BackupView { original: path, backup: backup_of(path, stamp) },
                );
                let rest = files.skip(1);
                lemma_config_edits_go_to_the_destination(
                    rest,
                    home,
                    src,
                    dst,
                    stamp,
                    more,
                    seen.skip(4),
                );
                if !(op is Rename) {
                    let i = choose|i: int|
                        0 <= i < rest.len() && edits_file(
                            op,
                            #[trigger] rest[i],
                            home,
                            src,
                            dst,
                            stamp,
                        );
                    assert(files[i + 1] == rest[i]);
                }
            } else if seen.len() < 4 && !(op is Rename) {
                assert(edits_file(op, files[0], home, src, dst, stamp));
            }
        }
    }
}

/// A file that is there, whose copy has a free place and was made, is edited;
/// where all files are, the rewrite is done, with one copy for each.
pub proof fn lemma_config_files_are_edited_in_turn(
    files: Seq<FieldView>,
    home: Option<Seq<char>>,
    src: Seq<char>,
    dst: Seq<char>,
    stamp: u64,
    backups: Seq<BackupView>,
)
    ensures
        ({
            let plan = |seen: Seq<Answer>|
                config_plan(files, home, src, dst, stamp, backups, seen);
            let path = expanded(home, files[0].file);
            &&& files.len() == 0 ==> plan(Seq::empty()) == Plan::Give(
                RewriteView::ConfigEdited { backups },
            )
            &&& files.len() > 0 ==> plan(Seq::empty()) == Plan::<RewriteView>::Ask(
                Op::Exists { path },
            )
            &&& files.len() > 0 ==> plan(seq![Answer::Yes]) == Plan::<RewriteView>::Ask(
                Op::Exists { path: backup_of(path, stamp) },
            )
            &&& files.len() > 0 ==> plan(seq![Answer::Yes, Answer::No]) == Plan::<RewriteView>::Ask(
                Op::CopyFile { from: path, to: backup_of(path, stamp) },
            )
            &&& files.len() > 0 ==> plan(seq![Answer::Yes, Answer::No, Answer::Yes]) == Plan::<
                RewriteView,
            >::Ask(
                Op::RewriteField {
                    path,
                    field: files[0].field,
                    format: files[0].format,
                    old: src,
                    new: dst,
                },
            )
        }),
{
}

/// A validation passes if its command exits well, and is not waited for longer
/// than was declared, or ten seconds; then it is killed. Without a command
/// there is none.
pub proof fn lemma_validation_is_not_waited_for_long(
    v: ValidateView,
    elapsed: u128,
    code: Option<i32>,
    step: ValidateStep,
)
    requires
        v.command.len() > 0,
    ensures
        validate_decision(v, ValidateSeen::NotStarted, step) ==> (step matches ValidateStep::Spawn {
            argv,
        } && crate::text::views(argv@) == v.command),
        validate_decision(v, ValidateSeen::Running { elapsed_ms: elapsed }, step)
            && v.timeout_seconds is None ==> (step is Wait <==> elapsed < 10_000) && (elapsed
            >= 10_000 ==> (step matches ValidateStep::Fail { kill, .. } && kill)),
        validate_decision(v, ValidateSeen::Running { elapsed_ms: elapsed }, step) ==> (
        v.timeout_seconds matches Some(t) ==> (step is Wait <==> elapsed < t * 1000)),
        validate_decision(
            v,
            ValidateSeen::Exited { success: true, code, elapsed_ms: elapsed },
            step,
        ) ==> step is Give,
        validate_decision(
            v,
            ValidateSeen::Exited { success: false, code, elapsed_ms: elapsed },
            step,
        ) ==> step is Fail,
{
}

/// A clean-up removes a directory with all that is in it and a single file or
/// symlink alone, even where the symlink leads to a directory; a rehearsal
/// removes nothing, and neither is anything removed that is not there.
pub proof fn lemma_clean_up_does_not_follow_links(s: PathState, dry_run: bool)
    ensures
        dry_run ==> removal_for(s, dry_run) is Keep,
        !s.exists && !s.is_symlink ==> removal_for(s, dry_run) is Keep,
        !dry_run && s.is_symlink ==> removal_for(s, dry_run) is Single,
        !dry_run && s.exists && !s.is_symlink && s.is_dir ==> removal_for(s, dry_run) is Tree,
        !dry_run && s.exists && !s.is_dir ==> removal_for(s, dry_run) is Single,
{
}

/// What a clean-up says of a path: that it was there, that it was removed, and
/// its size, that of a symlink being its own.
pub proof fn lemma_clean_up_tells_what_it_did(
    path: Seq<char>,
    s: PathState,
    dry_run: bool,
    item: CleanupItem,
)
    requires
        item_for(path, s, dry_run, item),
    ensures
        item.path@ == path,
        item.existed <==> s.exists || s.is_symlink,
        item.removed <==> !(removal_for(s, dry_run) is Keep),
        !item.existed ==> item.bytes == 0,
        s.is_symlink ==> (s.own_bytes matches Some(b) ==> item.bytes == b),
        s.exists && s.is_dir && !s.is_symlink ==> item.bytes == s.tree_bytes,
{
}

/// An entry of a tree is copied to its name below the copied directory, as what
/// it is; what is neither a directory, a file nor a symlink is left out.
pub proof fn lemma_entries_keep_their_names(
    name: Seq<char>,
    target: String,
    dst_dir: Seq<char>,
    src: Seq<char>,
    dst: Seq<char>,
    step: CopyStep,
)
    ensures
        step_for(EntryKind::Dir, name, dst_dir, src, dst, step) ==> (step matches CopyStep::Dir {
            path,
        } && path@ == joined(dst_dir, name)),
        step_for(EntryKind::File, name, dst_dir, src, dst, step) ==> (step matches CopyStep::File {
            path,
        } && path@ == joined(dst_dir, name)),
        step_for(EntryKind::Link { target }, name, dst_dir, src, dst, step) ==> (
        step matches CopyStep::Link { target: t, path } && path@ == joined(dst_dir, name) && t@
            == remapped(target@, src, dst)),
        step_for(EntryKind::Other, name, dst_dir, src, dst, step) ==> step is Skip,
{
}

/// Each step that was carried out is counted once, for what it was.
pub proof fn lemma_copies_are_counted(s: CopySummary, step: CopyStep, bytes: u64)
    requires
        s.files_copied < usize::MAX,
        s.dirs_created < usize::MAX,
        s.symlinks_copied < usize::MAX,
        s.bytes_copied + bytes <= u64::MAX,
    ensures
        ({
            let t = tallied(s, step, bytes);
            &&& t.files_copied - s.files_copied == (if step is File {
                1int
            } else {
                0
            })
            &&& t.dirs_created - s.dirs_created == (if step is Dir {
                1int
            } else {
                0
            })
            &&& t.symlinks_copied - s.symlinks_copied == (if step is Link {
                1int
            } else {
                0
            })
            &&& t.bytes_copied - s.bytes_copied == (if step is File {
                bytes as int
            } else {
                0
            })
        }),
{
}

/// That a unit could not be stopped is no failure where the unit is not known
/// here, by the code or the words of the service manager, in whatever case.
pub proof fn lemma_absent_units_need_no_stop(code: Option<i32>, stderr: Seq<char>)
    ensures
        unit_absent(Some(5), stderr),
        has(lower(stderr), "not loaded"@) ==> unit_absent(code, stderr),
        has(lower(stderr), "no such unit"@) ==> unit_absent(code, stderr),
        has(lower(stderr), "not found"@) ==> unit_absent(code, stderr),
        has(lower(stderr), "unit file"@) && has(lower(stderr), "does not exist"@) ==> unit_absent(
            code,
            stderr,
        ),
        unit_absent(code, stderr) ==> code == Some(5i32) || has(lower(stderr), "not loaded"@)
            || has(lower(stderr), "no such unit"@) || has(lower(stderr), "not found"@) || has(
            lower(stderr),
            "does not exist"@,
        ),
{
}

} // verus!

//! Reversing a finished migration, and cleaning up after one.
use vstd::prelude::*;

use crate::migrate::types::{
    BackupView, ErrorView, MigrateError, MigrationUndo, ResumeAction, ResumeView, RewriteOutcome,
    RewriteView, Stage, UndoView,
};
use crate::text::{dec, decimal_len, owned, views};

verus! {

/// What an undo did, or would do.
#[derive(Debug, PartialEq, Eq)]
pub struct MigrationUndoReport {
    /// Nothing was touched.
    pub dry_run: bool,
    /// The steps, for people.
    pub steps: Vec<String>,
}

/// The model of a [`MigrationUndoReport`].
pub struct UndoReportView {
    pub dry_run: bool,
    pub steps: Seq<Seq<char>>,
}

impl View for MigrationUndoReport {
    type V = UndoReportView;

    open spec fn view(&self) -> UndoReportView {
        UndoReportView { dry_run: self.dry_run, steps: views(self.steps@) }
    }
}

/// What an undo asks for.
#[allow(inconsistent_fields)]
#[derive(Debug)]
pub enum UndoRequest {
    /// Bring the tool to rest; answered by [`UndoReply::Quiesced`].
    Quiesce { dry_run: bool },
    /// Take the rewrite back.
    UndoRewrite { outcome: RewriteOutcome },
    /// Is there anything at the path?
    Exists { path: String },
    /// Rename a directory.
    Rename { from: String, to: String },
    /// Remove a directory with all that is in it.
    RemoveTree { path: String },
    /// Bring the tool back up.
    Resume { action: ResumeAction, dry_run: bool },
}

/// The model of an [`UndoRequest`].
#[allow(inconsistent_fields)]
pub enum UndoOp {
    Quiesce { dry_run: bool },
    UndoRewrite { outcome: RewriteView },
    Exists { path: Seq<char> },
    Rename { from: Seq<char>, to: Seq<char> },
    RemoveTree { path: Seq<char> },
    Resume { action: ResumeView, dry_run: bool },
}

impl View for UndoRequest {
    type V = UndoOp;

    open spec fn view(&self) -> UndoOp {
        match self {
            UndoRequest::Quiesce { dry_run } => UndoOp::Quiesce { dry_run: *dry_run },
            UndoRequest::UndoRewrite { outcome } => UndoOp::UndoRewrite { outcome: outcome@ },
            UndoRequest::Exists { path } => UndoOp::Exists { path: path@ },
            UndoRequest::Rename { from, to } => UndoOp::Rename { from: from@, to: to@ },
            UndoRequest::RemoveTree { path } => UndoOp::RemoveTree { path: path@ },
            UndoRequest::Resume { action, dry_run } => UndoOp::Resume {
                action: action@,
                dry_run: *dry_run,
            },
        }
    }
}

/// What came of it.
#[derive(Debug)]
pub enum UndoReply {
    /// The tool is at rest; this brings it back up.
    Quiesced { action: ResumeAction },
    /// Yes, or done.
    Yes,
    /// No.
    No,
    /// It failed.
    Failed { error: MigrateError },
}

/// The model of an [`UndoReply`].
pub enum UndoAnswer {
    Quiesced { action: ResumeView },
    Yes,
    No,
    Failed { error: ErrorView },
}

impl View for UndoReply {
    type V = UndoAnswer;

    open spec fn view(&self) -> UndoAnswer {
        match self {
            UndoReply::Quiesced { action } => UndoAnswer::Quiesced { action: action@ },
            UndoReply::Yes => UndoAnswer::Yes,
            UndoReply::No => UndoAnswer::No,
            UndoReply::Failed { error } => UndoAnswer::Failed { error: error@ },
        }
    }
}

/// What an undo does next.
#[derive(Debug)]
pub enum UndoStep {
    Ask(UndoRequest),
    Give(MigrationUndoReport),
    Fail(MigrateError),
}

/// The model of an [`UndoStep`].
pub enum UndoPlan {
    Ask(UndoOp),
    Give(UndoReportView),
    Fail(ErrorView),
}

impl View for UndoStep {
    type V = UndoPlan;

    open spec fn view(&self) -> UndoPlan {
        match self {
            UndoStep::Ask(r) => UndoPlan::Ask(r@),
            UndoStep::Give(r) => UndoPlan::Give(r@),
            UndoStep::Fail(e) => UndoPlan::Fail(e@),
        }
    }
}

/// A rewrite, for the report of its undo.
pub open spec fn reversal_text(o: RewriteView) -> Seq<char> {
    match o {
        RewriteView::SymlinkInstalled { canonical, .. } => "remove symlink "@ + canonical
            + " and restore original"@,
        RewriteView::ConfigEdited { backups } => "restore "@ + dec(backups.len())
            + " config backup(s)"@,
        RewriteView::EnvOverridden { record } => "uninstall systemd drop-in "@
            + record.drop_in_path,
        RewriteView::DryRunSkipped => "nothing (dry-run rewrite)"@,
        RewriteView::Deferred { reason } => "nothing (deferred: "@ + reason + ")"@,
    }
}

/// A rewrite, for the report of its undo.
pub fn describe_rewrite_for_undo(outcome: &RewriteOutcome) -> (r: String)
    ensures
        r@ == reversal_text(outcome@),
{
    match outcome {
        RewriteOutcome::SymlinkInstalled { canonical, .. } => owned("remove symlink ").concat(
            canonical,
        ).concat(" and restore original"),
        RewriteOutcome::ConfigEdited { backups } => owned("restore ").concat(
            &decimal_len(backups.len()),
        ).concat(" config backup(s)"),
        RewriteOutcome::EnvOverridden { record } => owned("uninstall systemd drop-in ").concat(
            &record.drop_in_path,
        ),
        RewriteOutcome::DryRunSkipped => owned("nothing (dry-run rewrite)"),
        RewriteOutcome::Deferred { reason } => owned("nothing (deferred: ").concat(reason).concat(
            ")",
        ),
    }
}

pub open spec fn rested_text(a: ResumeView) -> Seq<char> {
    match a {
        ResumeView::StartUnit { scope, unit } => "quiesced "@ + scope + " unit `"@ + unit
            + "` (will resume after)"@,
        ResumeView::Nothing => "no unit to quiesce"@,
    }
}

fn rested_step(a: &ResumeAction) -> (r: String)
    ensures
        r@ == rested_text(a@),
{
    match a {
        ResumeAction::StartUnit { scope, unit } => owned("quiesced ").concat(scope).concat(
            " unit `",
        ).concat(unit).concat("` (will resume after)"),
        ResumeAction::Nothing => owned("no unit to quiesce"),
    }
}

pub open spec fn risen_text(a: ResumeView, dry_run: bool) -> Seq<char> {
    match a {
        ResumeView::StartUnit { scope, unit } => if dry_run {
            "dry-run: would resume "@ + scope + " unit `"@ + unit + "`"@
        } else {
            "resumed "@ + scope + " unit `"@ + unit + "`"@
        },
        ResumeView::Nothing => "nothing to resume"@,
    }
}

fn risen_step(a: &ResumeAction, dry_run: bool) -> (r: String)
    ensures
        r@ == risen_text(a@, dry_run),
{
    match a {
        ResumeAction::StartUnit { scope, unit } => {
            if dry_run {
                owned("dry-run: would resume ").concat(scope).concat(" unit `").concat(
                    unit,
                ).concat("`")
            } else {
                owned("resumed ").concat(scope).concat(" unit `").concat(unit).concat("`")
            }
        },
        ResumeAction::Nothing => owned("nothing to resume"),
    }
}

/// The end of an undo: the tool comes back up.
pub open spec fn resume_part(
    dry_run: bool,
    action: ResumeView,
    seen: Seq<UndoAnswer>,
    i: int,
    steps: Seq<Seq<char>>,
) -> UndoPlan {
    if seen.len() <= i {
        UndoPlan::Ask(UndoOp::Resume { action, dry_run })
    } else {
        match seen[i] {
            UndoAnswer::Failed { error } => UndoPlan::Fail(error),
            _ => UndoPlan::Give(
                UndoReportView { dry_run, steps: steps.push(risen_text(action, dry_run)) },
            ),
        }
    }
}

/// The removal of the copy, and what follows.
pub open spec fn removal_part(
    plan: UndoView,
    action: ResumeView,
    seen: Seq<UndoAnswer>,
    i: int,
    steps: Seq<Seq<char>>,
) -> UndoPlan {
    if seen.len() <= i {
        UndoPlan::Ask(UndoOp::Exists { path: plan.dst })
    } else if seen[i] != UndoAnswer::Yes {
        resume_part(
            false,
            action,
            seen,
            i + 1,
            steps.push("copy at "@ + plan.dst + " already gone"@),
        )
    } else if seen.len() <= i + 1 {
        UndoPlan::Ask(UndoOp::RemoveTree { path: plan.dst })
    } else {
        match seen[i + 1] {
            UndoAnswer::Failed { error } => UndoPlan::Fail(
                ErrorView::StageFailed(
                    Stage::Copy,
                    "undo: failed to remove dst `"@ + plan.dst + "`: "@ + error.text(),
                ),
            ),
            _ => resume_part(
                false,
                action,
                seen,
                i + 2,
                steps.push("removed copy at "@ + plan.dst),
            ),
        }
    }
}

/// The restoration of the source, and what follows.
pub open spec fn source_part(
    plan: UndoView,
    action: ResumeView,
    seen: Seq<UndoAnswer>,
    steps: Seq<Seq<char>>,
) -> UndoPlan {
    match plan.retained_at {
        None => removal_part(plan, action, seen, 2, steps),
        Some(sidecar) => {
            let left = steps.push(
                "source "@ + plan.src + " already present; left sidecar "@ + sidecar
                    + " in place"@,
            );
            if seen.len() <= 2 {
                UndoPlan::Ask(UndoOp::Exists { path: plan.src })
            } else if seen[2] == UndoAnswer::Yes {
                removal_part(plan, action, seen, 3, left)
            } else if seen.len() <= 3 {
                UndoPlan::Ask(UndoOp::Exists { path: sidecar })
            } else if seen[3] != UndoAnswer::Yes {
                removal_part(plan, action, seen, 4, left)
            } else if seen.len() <= 4 {
                UndoPlan::Ask(UndoOp::Rename { from: sidecar, to: plan.src })
            } else {
                match seen[4] {
                    UndoAnswer::Failed { error } => UndoPlan::Fail(error),
                    _ => removal_part(
                        plan,
                        action,
                        seen,
                        5,
                        steps.push("restored source "@ + plan.src + " from "@ + sidecar),
                    ),
                }
            }
        },
    }
}

/// The steps that a dry run of an undo announces.
pub open spec fn announced(plan: UndoView, action: ResumeView) -> Seq<Seq<char>> {
    let s = seq![
        rested_text(action),
        "dry-run: would reverse rewrite ("@ + reversal_text(plan.rewrite_outcome) + ")"@,
    ];
    let t = match plan.retained_at {
        Some(sidecar) => s.push("dry-run: would rename "@ + sidecar + " back to "@ + plan.src),
        None => s,
    };
    t.push("dry-run: would remove copy at "@ + plan.dst)
}

/// What brings the tool back up, from the first answer.
pub open spec fn wake_up(seen: Seq<UndoAnswer>) -> ResumeView {
    match seen[0] {
        UndoAnswer::Quiesced { action } => action,
        _ => ResumeView::Nothing,
    }
}

/// What an undo does after the answers `seen`: the tool comes to rest, the
/// rewrite is taken back, the source comes back to its place, the copy goes,
/// and the tool comes back up.
pub open spec fn undo_course(plan: UndoView, dry_run: bool, seen: Seq<UndoAnswer>) -> UndoPlan {
    if seen.len() == 0 {
        UndoPlan::Ask(UndoOp::Quiesce { dry_run })
    } else if seen[0] is Failed {
        UndoPlan::Fail(seen[0]->error)
    } else if dry_run {
        resume_part(true, wake_up(seen), seen, 1, announced(plan, wake_up(seen)))
    } else if seen.len() == 1 {
        UndoPlan::Ask(UndoOp::UndoRewrite { outcome: plan.rewrite_outcome })
    } else {
        match seen[1] {
            UndoAnswer::Failed { error } => UndoPlan::Fail(error),
            _ => source_part(
                plan,
                wake_up(seen),
                seen,
                seq![
                    rested_text(wake_up(seen)),
                    "reversed rewrite ("@ + reversal_text(plan.rewrite_outcome) + ")"@,
                ],
            ),
        }
    }
}

fn add(steps: &mut Vec<String>, s: String)
    ensures
        views(final(steps)@) == views(old(steps)@).push(s@),
{
    let ghost before = views(steps@);
    steps.push(s);
    assert(views(steps@) =~= before.push(s@));
}

fn said_yes(r: &UndoReply) -> (b: bool)
    ensures
        b == (r@ == UndoAnswer::Yes),
{
    match r {
        UndoReply::Yes => true,
        _ => false,
    }
}

fn resume_step(
    dry_run: bool,
    action: &ResumeAction,
    seen: &Vec<UndoReply>,
    i: usize,
    steps: Vec<String>,
) -> (r: UndoStep)
    ensures
        r@ == resume_part(dry_run, action@, views(seen@), i as int, views(steps@)),
{
    if seen.len() <= i {
        return UndoStep::Ask(UndoRequest::Resume { action: action.clone(), dry_run });
    }
    assert(views(seen@)[i as int] == seen@[i as int]@);
    match &seen[i] {
        UndoReply::Failed { error } => UndoStep::Fail(error.clone()),
        _ => {
            let mut all = steps;
            self::add(&mut all, risen_step(action, dry_run));
            UndoStep::Give(MigrationUndoReport { dry_run, steps: all })
        },
    }
}

fn removal_step(
    plan: &MigrationUndo,
    action: &ResumeAction,
    seen: &Vec<UndoReply>,
    i: usize,
    steps: Vec<String>,
) -> (r: UndoStep)
    requires
        i <= 5,
    ensures
        r@ == removal_part(plan@, action@, views(seen@), i as int, views(steps@)),
{
    if seen.len() <= i {
        return UndoStep::Ask(UndoRequest::Exists { path: plan.dst.clone() });
    }
    let mut all = steps;
    assert(views(seen@)[i as int] == seen@[i as int]@);
    if !said_yes(&seen[i]) {
        self::add(&mut all, owned("copy at ").concat(&plan.dst).concat(" already gone"));
        return resume_step(false, action, seen, i + 1, all);
    }
    if seen.len() <= i + 1 {
        return UndoStep::Ask(UndoRequest::RemoveTree { path: plan.dst.clone() });
    }
    assert(views(seen@)[i + 1] == seen@[i + 1]@);
    match &seen[i + 1] {
        UndoReply::Failed { error } => UndoStep::Fail(
            MigrateError::StageFailed(
                Stage::Copy,
                owned("undo: failed to remove dst `").concat(&plan.dst).concat("`: ").concat(
                    &error.message(),
                ),
            ),
        ),
        _ => {
            self::add(&mut all, owned("removed copy at ").concat(&plan.dst));
            resume_step(false, action, seen, i + 2, all)
        },
    }
}

/// The next step of reversing a migration.
pub fn undo_migration(plan: &MigrationUndo, dry_run: bool, seen: &Vec<UndoReply>) -> (r: UndoStep)
    ensures
        r@ == undo_course(plan@, dry_run, views(seen@)),
{
    let ghost s = views(seen@);
    assert(forall|i: int| 0 <= i < seen@.len() ==> #[trigger] s[i] == seen@[i]@);
    if seen.len() == 0 {
        return UndoStep::Ask(UndoRequest::Quiesce { dry_run });
    }
    let action = match &seen[0] {
        UndoReply::Failed { error } => {
            return UndoStep::Fail(error.clone());
        },
        UndoReply::Quiesced { action } => action.clone(),
        _ => ResumeAction::Nothing,
    };
    let mut steps: Vec<String> = Vec::new();
    assert(views(steps@) =~= Seq::<Seq<char>>::empty());
    self::add(&mut steps, rested_step(&action));
    let what = describe_rewrite_for_undo(&plan.rewrite_outcome);
    if dry_run {
        self::add(
            &mut steps,
            owned("dry-run: would reverse rewrite (").concat(&what).concat(")"),
        );
        assert(views(steps@) =~= seq![
            rested_text(action@),
            "dry-run: would reverse rewrite ("@ + reversal_text(plan@.rewrite_outcome) + ")"@,
        ]);
        match &plan.retained_at {
            Some(sidecar) => self::add(
                &mut steps,
                owned("dry-run: would rename ").concat(sidecar).concat(" back to ").concat(
                    &plan.src,
                ),
            ),
            None => {},
        }
        self::add(&mut steps, owned("dry-run: would remove copy at ").concat(&plan.dst));
        return resume_step(true, &action, seen, 1, steps);
    }
    if seen.len() == 1 {
        return UndoStep::Ask(UndoRequest::UndoRewrite { outcome: plan.rewrite_outcome.clone() });
    }
    match &seen[1] {
        UndoReply::Failed { error } => {
            return UndoStep::Fail(error.clone());
        },
        _ => {},
    }
    self::add(&mut steps, owned("reversed rewrite (").concat(&what).concat(")"));
    assert(views(steps@) =~= seq![
        rested_text(action@),
        "reversed rewrite ("@ + reversal_text(plan@.rewrite_outcome) + ")"@,
    ]);
    match &plan.retained_at {
        None => removal_step(plan, &action, seen, 2, steps),
        Some(sidecar) => {
            if seen.len() <= 2 {
                return UndoStep::Ask(UndoRequest::Exists { path: plan.src.clone() });
            }
            let left = owned("source ").concat(&plan.src).concat(
                " already present; left sidecar ",
            ).concat(sidecar).concat(" in place");
            if said_yes(&seen[2]) {
                self::add(&mut steps, left);
                return removal_step(plan, &action, seen, 3, steps);
            }
            if seen.len() <= 3 {
                return UndoStep::Ask(UndoRequest::Exists { path: sidecar.clone() });
            }
            if !said_yes(&seen[3]) {
                self::add(&mut steps, left);
                return removal_step(plan, &action, seen, 4, steps);
            }
            if seen.len() <= 4 {
                return UndoStep::Ask(
                    UndoRequest::Rename { from: sidecar.clone(), to: plan.src.clone() },
                );
            }
            match &seen[4] {
                UndoReply::Failed { error } => UndoStep::Fail(error.clone()),
                _ => {
                    self::add(
                        &mut steps,
                        owned("restored source ").concat(&plan.src).concat(" from ").concat(
                            sidecar,
                        ),
                    );
                    removal_step(plan, &action, seen, 5, steps)
                },
            }
        },
    }
}

/// A dry run of an undo asks for nothing but the dry runs of rest and resume.
pub proof fn lemma_dry_undo_changes_nothing(plan: UndoView, seen: Seq<UndoAnswer>)
    ensures
        undo_course(plan, true, seen) matches UndoPlan::Ask(op) ==> (op == UndoOp::Quiesce {
            dry_run: true,
        } || op == UndoOp::Resume { action: wake_up(seen), dry_run: true }),
{
}

/// An undo removes the copy only after the rewrite has been taken back, and it
/// removes nothing but the copy.
pub proof fn lemma_undo_removes_only_the_copy(
    plan: UndoView,
    dry_run: bool,
    seen: Seq<UndoAnswer>,
    path: Seq<char>,
)
    requires
        undo_course(plan, dry_run, seen) == UndoPlan::Ask(UndoOp::RemoveTree { path }),
    ensures
        path == plan.dst,
        !dry_run,
        seen.len() >= 2,
        undo_course(plan, dry_run, seen.take(1)) == UndoPlan::Ask(
            UndoOp::UndoRewrite { outcome: plan.rewrite_outcome },
        ),
        !(seen[1] is Failed),
{
    assert(seen.take(1)[0] == seen[0]);
}

/// The paths of the backups.
pub open spec fn backup_paths(b: Seq<BackupView>) -> Seq<Seq<char>> {
    Seq::new(b.len(), |i: int| b[i].backup)
}

impl UndoView {
    /// What the migration kept and a clean-up can reclaim.
    pub open spec fn preserved(self) -> Seq<Seq<char>> {
        let first = match self.retained_at {
            Some(s) => seq![s],
            None => Seq::empty(),
        };
        match self.rewrite_outcome {
            RewriteView::SymlinkInstalled { moved_aside: Some(p), .. } => first.push(p),
            RewriteView::ConfigEdited { backups } => first + backup_paths(backups),
            _ => first,
        }
    }
}

impl MigrationUndo {
    /// What the migration kept and a clean-up can reclaim: the source that was
    /// moved aside and the backups of config files.
    pub fn preserved_paths(&self) -> (r: Vec<String>)
        ensures
            views(r@) == self@.preserved(),
    {
        let mut paths: Vec<String> = Vec::new();
        assert(views(paths@) =~= Seq::<Seq<char>>::empty());
        match &self.retained_at {
            Some(s) => {
                self::add(&mut paths, s.clone());
                assert(views(paths@) =~= seq![s@]);
            },
            None => {},
        }
        let ghost first = views(paths@);
        match &self.rewrite_outcome {
            RewriteOutcome::SymlinkInstalled { moved_aside: Some(p), .. } => {
                self::add(&mut paths, p.clone());
            },
            RewriteOutcome::ConfigEdited { backups } => {
                let mut i: usize = 0;
                assert(first + backup_paths(views(backups@)).take(0) =~= first);
                while i < backups.len()
                    invariant
                        i <= backups@.len(),
                        views(paths@) == first + backup_paths(views(backups@)).take(i as int),
                    decreases backups@.len() - i,
                {
                    self::add(&mut paths, backups[i].backup.clone());
                    assert(views(paths@) =~= first + backup_paths(views(backups@)).take(i + 1));
                    i = i + 1;
                }
                assert(backup_paths(views(backups@)).take(i as int) =~= backup_paths(
                    views(backups@),
                ));
            },
            _ => {},
        }
        paths
    }
}

/// One thing that a clean-up reclaims.
#[derive(Debug, PartialEq, Eq)]
pub struct CleanupItem {
    pub path: String,
    /// Its size; zero when it is gone.
    pub bytes: u64,
    /// It was there.
    pub existed: bool,
    /// It was removed.
    pub removed: bool,
}

/// What a clean-up did, or would do.
#[derive(Debug, PartialEq, Eq)]
pub struct CleanupReport {
    pub dry_run: bool,
    pub items: Vec<CleanupItem>,
}

/// The sum of the sizes.
pub open spec fn total(items: Seq<CleanupItem>) -> nat
    decreases items.len(),
{
    if items.len() == 0 {
        0
    } else {
        total(items.drop_last()) + items.last().bytes as nat
    }
}

proof fn lemma_total_monotone(items: Seq<CleanupItem>, i: int)
    requires
        0 <= i <= items.len(),
    ensures
        total(items.take(i)) <= total(items),
    decreases items.len() - i,
{
    if i == items.len() {
        assert(items.take(i) =~= items);
    } else {
        lemma_total_monotone(items, i + 1);
        assert(items.take(i + 1).drop_last() =~= items.take(i));
    }
}

impl CleanupReport {
    /// The bytes reclaimed, or reclaimable.
    pub fn total_bytes(&self) -> (r: u64)
        requires
            total(self.items@) <= u64::MAX,
        ensures
            r == total(self.items@),
    {
        let mut sum: u64 = 0;
        let mut i: usize = 0;
        while i < self.items.len()
            invariant
                i <= self.items@.len(),
                total(self.items@) <= u64::MAX,
                sum == total(self.items@.take(i as int)),
            decreases self.items@.len() - i,
        {
            proof {
                lemma_total_monotone(self.items@, i + 1);
                assert(self.items@.take(i + 1).drop_last() =~= self.items@.take(i as int));
            }
            sum = sum + self.items[i].bytes;
            i = i + 1;
        }
        assert(self.items@.take(i as int) =~= self.items@);
        sum
    }
}

/// What was seen at a path.
#[derive(Debug, Clone, Copy)]
pub struct PathState {
    /// There is something, following symlinks.
    pub exists: bool,
    /// It is a symlink.
    pub is_symlink: bool,
    /// It is a directory, following symlinks.
    pub is_dir: bool,
    /// The bytes in the files below it.
    pub tree_bytes: u64,
    /// The size of the entry itself, when it is known.
    pub own_bytes: Option<u64>,
}

/// How something is removed.
#[derive(Debug, Clone, Copy, PartialEq, Eq, Structural)]
pub enum Removal {
    /// Not at all.
    Keep,
    /// As a directory with all that is in it.
    Tree,
    /// As a single file or symlink.
    Single,
}

/// What the clean-up decides about a path.
pub open spec fn item_for(path: Seq<char>, s: PathState, dry_run: bool, item: CleanupItem) -> bool {
    &&& item.path@ == path
    &&& item.existed == (s.exists || s.is_symlink)
    &&& item.removed == (item.existed && !dry_run)
    &&& item.bytes == if !item.existed {
        0
    } else if s.is_dir && !s.is_symlink {
        s.tree_bytes
    } else {
        match s.own_bytes {
            Some(b) => b,
            None => 0,
        }
    }
}

/// How the clean-up removes a path.
pub open spec fn removal_for(s: PathState, dry_run: bool) -> Removal {
    if dry_run || !(s.exists || s.is_symlink) {
        Removal::Keep
    } else if s.is_dir && !s.is_symlink {
        Removal::Tree
    } else {
        Removal::Single
    }
}

/// Decide about each path that the migration kept, from what was seen there.
/// Nothing else is ever removed, and a dry run removes nothing.
pub fn cleanup_migration(plan: &MigrationUndo, seen: &Vec<PathState>, dry_run: bool) -> (r: (
    CleanupReport,
    Vec<Removal>,
))
    requires
        seen@.len() == plan@.preserved().len(),
    ensures
        r.0.dry_run == dry_run,
        r.0.items@.len() == seen@.len(),
        r.1@.len() == seen@.len(),
        forall|i: int|
            0 <= i < seen@.len() ==> item_for(
                plan@.preserved()[i],
                seen@[i],
                dry_run,
                #[trigger] r.0.items@[i],
            ),
        forall|i: int|
            0 <= i < seen@.len() ==> #[trigger] r.1@[i] == removal_for(seen@[i], dry_run),
{
    let paths = plan.preserved_paths();
    let mut items: Vec<CleanupItem> = Vec::new();
    let mut removals: Vec<Removal> = Vec::new();
    let mut i: usize = 0;
    while i < paths.len()
        invariant
            views(paths@) == plan@.preserved(),
            seen@.len() == paths@.len(),
            i <= paths@.len(),
            items@.len() == i,
            removals@.len() == i,
            forall|k: int|
                0 <= k < i ==> item_for(
                    plan@.preserved()[k],
                    seen@[k],
                    dry_run,
                    #[trigger] items@[k],
                ),
            forall|k: int|
                0 <= k < i ==> #[trigger] removals@[k] == removal_for(seen@[k], dry_run),
        decreases paths@.len() - i,
    {
        let s = seen[i];
        let existed = s.exists || s.is_symlink;
        let whole = s.is_dir && !s.is_symlink;
        let bytes: u64 = if !existed {
            0
        } else if whole {
            s.tree_bytes
        } else {
            match s.own_bytes {
                Some(b) => b,
                None => 0,
            }
        };
        assert(views(paths@)[i as int] == paths@[i as int]@);
        items.push(
            CleanupItem { path: paths[i].clone(), bytes, existed, removed: existed && !dry_run },
        );
        removals.push(
            if dry_run || !existed {
                Removal::Keep
            } else if whole {
                Removal::Tree
            } else {
                Removal::Single
            },
        );
        i = i + 1;
    }
    (CleanupReport { dry_run, items }, removals)
}

} // verus!

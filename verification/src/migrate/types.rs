//! The vocabulary of a migration: stages, events, outcomes and errors.
use vstd::prelude::*;

use crate::text::{copy_list, copy_opt, opt_view, owned, views};

verus! {

/// A stage of a migration, in the order in which they are walked.
#[derive(Debug, Clone, Copy, PartialEq, Eq, Structural)]
pub enum Stage {
    Preflight,
    Snapshot,
    Quiesce,
    Copy,
    Verify,
    Rewrite,
    Resume,
    Validate,
    Retain,
    Done,
}

impl Stage {
    /// The name of the stage.
    pub open spec fn label(self) -> Seq<char> {
        match self {
            Stage::Preflight => "Preflight"@,
            Stage::Snapshot => "Snapshot"@,
            Stage::Quiesce => "Quiesce"@,
            Stage::Copy => "Copy"@,
            Stage::Verify => "Verify"@,
            Stage::Rewrite => "Rewrite"@,
            Stage::Resume => "Resume"@,
            Stage::Validate => "Validate"@,
            Stage::Retain => "Retain"@,
            Stage::Done => "Done"@,
        }
    }

    /// How far along the stage is.
    pub open spec fn rank(self) -> int {
        match self {
            Stage::Preflight => 0,
            Stage::Snapshot => 1,
            Stage::Quiesce => 2,
            Stage::Copy => 3,
            Stage::Verify => 4,
            Stage::Rewrite => 5,
            Stage::Resume => 6,
            Stage::Validate => 7,
            Stage::Retain => 8,
            Stage::Done => 9,
        }
    }

    /// The name of the stage.
    pub fn name(self) -> (r: &'static str)
        ensures
            r@ == self.label(),
    {
        match self {
            Stage::Preflight => "Preflight",
            Stage::Snapshot => "Snapshot",
            Stage::Quiesce => "Quiesce",
            Stage::Copy => "Copy",
            Stage::Verify => "Verify",
            Stage::Rewrite => "Rewrite",
            Stage::Resume => "Resume",
            Stage::Validate => "Validate",
            Stage::Retain => "Retain",
            Stage::Done => "Done",
        }
    }
}

/// One recorded stage transition.
#[derive(Debug)]
pub struct MigrationEvent {
    pub tool_name: String,
    pub src: String,
    pub dst: String,
    pub stage: Stage,
    /// Whether the run only pretends.
    pub dry_run: bool,
    /// What happened.
    pub detail: String,
    /// When, in seconds since the epoch.
    pub at_unix_seconds: u64,
}

/// The model of a [`MigrationEvent`].
pub struct EventView {
    pub tool_name: Seq<char>,
    pub src: Seq<char>,
    pub dst: Seq<char>,
    pub stage: Stage,
    pub dry_run: bool,
    pub detail: Seq<char>,
    pub at: u64,
}

impl View for MigrationEvent {
    type V = EventView;

    open spec fn view(&self) -> EventView {
        EventView {
            tool_name: self.tool_name@,
            src: self.src@,
            dst: self.dst@,
            stage: self.stage,
            dry_run: self.dry_run,
            detail: self.detail@,
            at: self.at_unix_seconds,
        }
    }
}

impl Clone for MigrationEvent {
    fn clone(&self) -> (r: Self)
        ensures
            r@ == self@,
    {
        MigrationEvent {
            tool_name: self.tool_name.clone(),
            src: self.src.clone(),
            dst: self.dst.clone(),
            stage: self.stage,
            dry_run: self.dry_run,
            detail: self.detail.clone(),
            at_unix_seconds: self.at_unix_seconds,
        }
    }
}

/// Why a migration did not happen.
#[derive(Debug)]
pub enum MigrateError {
    NoLayout(String),
    DestinationExists(String),
    SourceMissing(String),
    CompileBaked,
    StageFailed(Stage, String),
    Io(String),
}

/// The model of a [`MigrateError`].
pub enum ErrorView {
    NoLayout(Seq<char>),
    DestinationExists(Seq<char>),
    SourceMissing(Seq<char>),
    CompileBaked,
    StageFailed(Stage, Seq<char>),
    Io(Seq<char>),
}

impl View for MigrateError {
    type V = ErrorView;

    open spec fn view(&self) -> ErrorView {
        match self {
            MigrateError::NoLayout(t) => ErrorView::NoLayout(t@),
            MigrateError::DestinationExists(p) => ErrorView::DestinationExists(p@),
            MigrateError::SourceMissing(p) => ErrorView::SourceMissing(p@),
            MigrateError::CompileBaked => ErrorView::CompileBaked,
            MigrateError::StageFailed(s, m) => ErrorView::StageFailed(*s, m@),
            MigrateError::Io(m) => ErrorView::Io(m@),
        }
    }
}

impl Clone for MigrateError {
    fn clone(&self) -> (r: Self)
        ensures
            r@ == self@,
    {
        match self {
            MigrateError::NoLayout(t) => MigrateError::NoLayout(t.clone()),
            MigrateError::DestinationExists(p) => MigrateError::DestinationExists(p.clone()),
            MigrateError::SourceMissing(p) => MigrateError::SourceMissing(p.clone()),
            MigrateError::CompileBaked => MigrateError::CompileBaked,
            MigrateError::StageFailed(s, m) => MigrateError::StageFailed(*s, m.clone()),
            MigrateError::Io(m) => MigrateError::Io(m.clone()),
        }
    }
}

impl ErrorView {
    /// The text of the error.
    pub open spec fn text(self) -> Seq<char> {
        match self {
            ErrorView::NoLayout(t) => "tool `"@ + t
                + "` has no home_dir_layout declared; nothing to migrate"@,
            ErrorView::DestinationExists(p) => "destination `"@ + p
                + "` already exists; refuse to overwrite. Choose another --to or `mv` it aside first."@,
            ErrorView::SourceMissing(p) => "source `"@ + p
                + "` does not exist on disk; nothing to copy"@,
            ErrorView::CompileBaked =>
                "`discovery = \"compile\"` is not migratable: tool config is baked into the binary"@,
            ErrorView::StageFailed(s, m) => "stage `"@ + s.label() + "` failed: "@ + m,
            ErrorView::Io(m) => m,
        }
    }
}

impl MigrateError {
    /// The error as a sentence for people.
    pub fn message(&self) -> (r: String)
        ensures
            r@ == self@.text(),
    {
        match self {
            MigrateError::NoLayout(t) => owned("tool `").concat(t).concat(
                "` has no home_dir_layout declared; nothing to migrate",
            ),
            MigrateError::DestinationExists(p) => owned("destination `").concat(p).concat(
                "` already exists; refuse to overwrite. Choose another --to or `mv` it aside first.",
            ),
            MigrateError::SourceMissing(p) => owned("source `").concat(p).concat(
                "` does not exist on disk; nothing to copy",
            ),
            MigrateError::CompileBaked => owned(
                "`discovery = \"compile\"` is not migratable: tool config is baked into the binary",
            ),
            MigrateError::StageFailed(s, m) => owned("stage `").concat(s.name()).concat(
                "` failed: ",
            ).concat(m),
            MigrateError::Io(m) => m.clone(),
        }
    }
}

/// How a tool was brought to rest.
#[allow(inconsistent_fields)]
#[derive(Debug, PartialEq, Eq)]
pub enum QuiesceOutcome {
    /// A unit was stopped; `scope` is `user` or `system`.
    UnitStopped { scope: String, unit: String },
    /// No unit is declared; the operator is warned and the run goes on.
    NoUnitWarning,
    /// The declared unit is not known on this host; there is nothing to stop.
    UnitAbsent { scope: String, unit: String },
    /// A dry run stops nothing.
    DryRunSkipped,
}

/// The model of a [`QuiesceOutcome`].
#[allow(inconsistent_fields)]
pub enum QuiescedView {
    UnitStopped { scope: Seq<char>, unit: Seq<char> },
    NoUnitWarning,
    UnitAbsent { scope: Seq<char>, unit: Seq<char> },
    DryRunSkipped,
}

impl View for QuiesceOutcome {
    type V = QuiescedView;

    open spec fn view(&self) -> QuiescedView {
        match self {
            QuiesceOutcome::UnitStopped { scope, unit } => QuiescedView::UnitStopped {
                scope: scope@,
                unit: unit@,
            },
            QuiesceOutcome::NoUnitWarning => QuiescedView::NoUnitWarning,
            QuiesceOutcome::UnitAbsent { scope, unit } => QuiescedView::UnitAbsent {
                scope: scope@,
                unit: unit@,
            },
            QuiesceOutcome::DryRunSkipped => QuiescedView::DryRunSkipped,
        }
    }
}

/// How to bring a tool back up.
#[derive(Debug, PartialEq, Eq)]
pub enum ResumeAction {
    /// Start this unit.
    StartUnit { scope: String, unit: String },
    /// Nothing was stopped.
    Nothing,
}

/// The model of a [`ResumeAction`].
pub enum ResumeView {
    StartUnit { scope: Seq<char>, unit: Seq<char> },
    Nothing,
}

impl View for ResumeAction {
    type V = ResumeView;

    open spec fn view(&self) -> ResumeView {
        match self {
            ResumeAction::StartUnit { scope, unit } => ResumeView::StartUnit {
                scope: scope@,
                unit: unit@,
            },
            ResumeAction::Nothing => ResumeView::Nothing,
        }
    }
}

impl Clone for ResumeAction {
    fn clone(&self) -> (r: Self)
        ensures
            r@ == self@,
    {
        match self {
            ResumeAction::StartUnit { scope, unit } => ResumeAction::StartUnit {
                scope: scope.clone(),
                unit: unit.clone(),
            },
            ResumeAction::Nothing => ResumeAction::Nothing,
        }
    }
}

impl Default for ResumeAction {
    fn default() -> (r: Self)
        ensures
            r@ == ResumeView::Nothing,
    {
        ResumeAction::Nothing
    }
}

/// A drop-in that sets an environment variable of a unit.
#[derive(Debug, PartialEq, Eq)]
pub struct EnvOverrideRecord {
    /// `user` or `system`.
    pub scope: String,
    pub unit: String,
    /// The file that was written.
    pub drop_in_path: String,
    pub env_var: String,
    /// The new data directory.
    pub value: String,
}

/// The model of an [`EnvOverrideRecord`].
pub struct RecordView {
    pub scope: Seq<char>,
    pub unit: Seq<char>,
    pub drop_in_path: Seq<char>,
    pub env_var: Seq<char>,
    pub value: Seq<char>,
}

impl View for EnvOverrideRecord {
    type V = RecordView;

    open spec fn view(&self) -> RecordView {
        RecordView {
            scope: self.scope@,
            unit: self.unit@,
            drop_in_path: self.drop_in_path@,
            env_var: self.env_var@,
            value: self.value@,
        }
    }
}

impl Clone for EnvOverrideRecord {
    fn clone(&self) -> (r: Self)
        ensures
            r@ == self@,
    {
        EnvOverrideRecord {
            scope: self.scope.clone(),
            unit: self.unit.clone(),
            drop_in_path: self.drop_in_path.clone(),
            env_var: self.env_var.clone(),
            value: self.value.clone(),
        }
    }
}

/// A config file and the copy that was made of it before it was edited.
#[derive(Debug, PartialEq, Eq)]
pub struct ConfigBackup {
    pub original: String,
    pub backup: String,
}

/// The model of a [`ConfigBackup`].
pub struct BackupView {
    pub original: Seq<char>,
    pub backup: Seq<char>,
}

impl View for ConfigBackup {
    type V = BackupView;

    open spec fn view(&self) -> BackupView {
        BackupView { original: self.original@, backup: self.backup@ }
    }
}

impl Clone for ConfigBackup {
    fn clone(&self) -> (r: Self)
        ensures
            r@ == self@,
    {
        ConfigBackup { original: self.original.clone(), backup: self.backup.clone() }
    }
}

/// How the tool was pointed at its new data directory.
#[derive(Debug, PartialEq, Eq)]
pub enum RewriteOutcome {
    /// The source was moved aside and a symlink put in its place.
    SymlinkInstalled { canonical: String, target: String, moved_aside: Option<String> },
    /// A dry run rewrites nothing.
    DryRunSkipped,
    /// Config files were edited; each was backed up first.
    ConfigEdited { backups: Vec<ConfigBackup> },
    /// A drop-in sets the tool's environment variable.
    EnvOverridden { record: EnvOverrideRecord },
    /// Nothing was done, for the given reason.
    Deferred { reason: String },
}

/// The model of a [`RewriteOutcome`].
pub enum RewriteView {
    SymlinkInstalled {
        canonical: Seq<char>,
        target: Seq<char>,
        moved_aside: Option<Seq<char>>,
    },
    DryRunSkipped,
    ConfigEdited { backups: Seq<BackupView> },
    EnvOverridden { record: RecordView },
    Deferred { reason: Seq<char> },
}

impl View for RewriteOutcome {
    type V = RewriteView;

    open spec fn view(&self) -> RewriteView {
        match self {
            RewriteOutcome::SymlinkInstalled { canonical, target, moved_aside } => {
                RewriteView::SymlinkInstalled {
                    canonical: canonical@,
                    target: target@,
                    moved_aside: opt_view(*moved_aside),
                }
            },
            RewriteOutcome::DryRunSkipped => RewriteView::DryRunSkipped,
            RewriteOutcome::ConfigEdited { backups } => RewriteView::ConfigEdited {
                backups: views(backups@),
            },
            RewriteOutcome::EnvOverridden { record } => RewriteView::EnvOverridden {
                record: record@,
            },
            RewriteOutcome::Deferred { reason } => RewriteView::Deferred { reason: reason@ },
        }
    }
}

impl Clone for RewriteOutcome {
    fn clone(&self) -> (r: Self)
        ensures
            r@ == self@,
    {
        match self {
            RewriteOutcome::SymlinkInstalled { canonical, target, moved_aside } => {
                RewriteOutcome::SymlinkInstalled {
                    canonical: canonical.clone(),
                    target: target.clone(),
                    moved_aside: copy_opt(moved_aside),
                }
            },
            RewriteOutcome::DryRunSkipped => RewriteOutcome::DryRunSkipped,
            RewriteOutcome::ConfigEdited { backups } => RewriteOutcome::ConfigEdited {
                backups: copy_list(backups),
            },
            RewriteOutcome::EnvOverridden { record } => RewriteOutcome::EnvOverridden {
                record: record.clone(),
            },
            RewriteOutcome::Deferred { reason } => RewriteOutcome::Deferred {
                reason: reason.clone(),
            },
        }
    }
}

/// What a copy wrote.
#[derive(Debug, Clone, Copy, PartialEq, Eq, Structural)]
pub struct CopySummary {
    pub files_copied: usize,
    pub bytes_copied: u64,
    pub dirs_created: usize,
    pub symlinks_copied: usize,
}

/// How two trees compare.
#[derive(Debug, PartialEq, Eq)]
pub struct VerifyOutcome {
    pub src_files: usize,
    pub dst_files: usize,
    pub src_bytes: u64,
    pub dst_bytes: u64,
    /// The trees agree entry by entry.
    pub matches: bool,
    /// The entries that are missing, different or extra.
    pub mismatches: Vec<String>,
}

/// The model of a [`VerifyOutcome`].
pub struct VerifyView {
    pub src_files: usize,
    pub dst_files: usize,
    pub src_bytes: u64,
    pub dst_bytes: u64,
    pub matches: bool,
    pub mismatches: Seq<Seq<char>>,
}

impl View for VerifyOutcome {
    type V = VerifyView;

    open spec fn view(&self) -> VerifyView {
        VerifyView {
            src_files: self.src_files,
            dst_files: self.dst_files,
            src_bytes: self.src_bytes,
            dst_bytes: self.dst_bytes,
            matches: self.matches,
            mismatches: views(self.mismatches@),
        }
    }
}

/// How the validation went.
#[derive(Debug, PartialEq, Eq)]
pub enum ValidateOutcome {
    /// No command is declared.
    Skipped,
    /// The command exited zero in time.
    Passed { command: String, took_ms: u128 },
}

/// The model of a [`ValidateOutcome`].
pub enum ValidatedView {
    Skipped,
    Passed { command: Seq<char>, took_ms: u128 },
}

impl View for ValidateOutcome {
    type V = ValidatedView;

    open spec fn view(&self) -> ValidatedView {
        match self {
            ValidateOutcome::Skipped => ValidatedView::Skipped,
            ValidateOutcome::Passed { command, took_ms } => ValidatedView::Passed {
                command: command@,
                took_ms: *took_ms,
            },
        }
    }
}

/// Where the source went.
#[derive(Debug, PartialEq, Eq)]
pub enum RetainOutcome {
    /// It was moved aside when the symlink was installed.
    PreservedInRewrite { aside: String },
    /// It was renamed.
    RenamedAside { from: String, to: String },
    /// It was not there.
    Nothing,
    /// A dry run renames nothing.
    DryRunSkipped,
}

/// The model of a [`RetainOutcome`].
pub enum RetainedView {
    PreservedInRewrite { aside: Seq<char> },
    RenamedAside { from: Seq<char>, to: Seq<char> },
    Nothing,
    DryRunSkipped,
}

impl View for RetainOutcome {
    type V = RetainedView;

    open spec fn view(&self) -> RetainedView {
        match self {
            RetainOutcome::PreservedInRewrite { aside } => RetainedView::PreservedInRewrite {
                aside: aside@,
            },
            RetainOutcome::RenamedAside { from, to } => RetainedView::RenamedAside {
                from: from@,
                to: to@,
            },
            RetainOutcome::Nothing => RetainedView::Nothing,
            RetainOutcome::DryRunSkipped => RetainedView::DryRunSkipped,
        }
    }
}

/// A finished migration.
#[derive(Debug)]
pub struct MigrationResult {
    pub tool_name: String,
    pub src: String,
    pub dst: String,
    pub dry_run: bool,
    pub final_stage: Stage,
    pub success: bool,
    pub events: Vec<MigrationEvent>,
    /// Why the run was aborted, if it was.
    pub error: Option<String>,
    /// What brings the tool back up.
    pub resume_action: ResumeAction,
    /// How the tool was pointed at its new directory.
    pub rewrite_outcome: Option<RewriteOutcome>,
    /// Where the source was renamed to, if it was.
    pub retained_at: Option<String>,
}

/// The model of a [`MigrationResult`].
pub struct ResultView {
    pub tool_name: Seq<char>,
    pub src: Seq<char>,
    pub dst: Seq<char>,
    pub dry_run: bool,
    pub final_stage: Stage,
    pub success: bool,
    pub events: Seq<EventView>,
    pub error: Option<Seq<char>>,
    pub resume_action: ResumeView,
    pub rewrite_outcome: Option<RewriteView>,
    pub retained_at: Option<Seq<char>>,
}

impl View for MigrationResult {
    type V = ResultView;

    open spec fn view(&self) -> ResultView {
        ResultView {
            tool_name: self.tool_name@,
            src: self.src@,
            dst: self.dst@,
            dry_run: self.dry_run,
            final_stage: self.final_stage,
            success: self.success,
            events: views(self.events@),
            error: opt_view(self.error),
            resume_action: self.resume_action@,
            rewrite_outcome: opt_view(self.rewrite_outcome),
            retained_at: opt_view(self.retained_at),
        }
    }
}

impl Clone for MigrationResult {
    fn clone(&self) -> (r: Self)
        ensures
            r@ == self@,
    {
        MigrationResult {
            tool_name: self.tool_name.clone(),
            src: self.src.clone(),
            dst: self.dst.clone(),
            dry_run: self.dry_run,
            final_stage: self.final_stage,
            success: self.success,
            events: copy_list(&self.events),
            error: copy_opt(&self.error),
            resume_action: self.resume_action.clone(),
            rewrite_outcome: match &self.rewrite_outcome {
                Some(o) => Some(o.clone()),
                None => None,
            },
            retained_at: copy_opt(&self.retained_at),
        }
    }
}

/// What is needed to reverse a finished migration.
#[derive(Debug)]
pub struct MigrationUndo {
    pub tool_name: String,
    pub src: String,
    pub dst: String,
    pub rewrite_outcome: RewriteOutcome,
    /// Where the source was renamed to; none when the rewrite moved it aside.
    pub retained_at: Option<String>,
}

/// The model of a [`MigrationUndo`].
pub struct UndoView {
    pub tool_name: Seq<char>,
    pub src: Seq<char>,
    pub dst: Seq<char>,
    pub rewrite_outcome: RewriteView,
    pub retained_at: Option<Seq<char>>,
}

impl View for MigrationUndo {
    type V = UndoView;

    open spec fn view(&self) -> UndoView {
        UndoView {
            tool_name: self.tool_name@,
            src: self.src@,
            dst: self.dst@,
            rewrite_outcome: self.rewrite_outcome@,
            retained_at: opt_view(self.retained_at),
        }
    }
}

impl ResultView {
    /// There is something to undo: a real, successful run that rewrote something.
    pub open spec fn reversible(self) -> bool {
        &&& !self.dry_run
        &&& self.success
        &&& self.rewrite_outcome matches Some(o)
        &&& !(o is DryRunSkipped)
        &&& !(o is Deferred)
    }
}

impl MigrationResult {
    /// The undo plan of a successful real migration.
    pub fn undo_plan(&self) -> (r: Option<MigrationUndo>)
        ensures
            match r {
                Some(u) => self@.reversible() && u@ == (UndoView {
                    tool_name: self@.tool_name,
                    src: self@.src,
                    dst: self@.dst,
                    rewrite_outcome: self@.rewrite_outcome->0,
                    retained_at: self@.retained_at,
                }),
                None => !self@.reversible(),
            },
    {
        if self.dry_run || !self.success {
            return None;
        }
        match &self.rewrite_outcome {
            None => None,
            Some(o) => {
                match o {
                    RewriteOutcome::DryRunSkipped => None,
                    RewriteOutcome::Deferred { .. } => None,
                    _ => Some(
                        MigrationUndo {
                            tool_name: self.tool_name.clone(),
                            src: self.src.clone(),
                            dst: self.dst.clone(),
                            rewrite_outcome: o.clone(),
                            retained_at: copy_opt(&self.retained_at),
                        },
                    ),
                }
            },
        }
    }
}

} // verus!

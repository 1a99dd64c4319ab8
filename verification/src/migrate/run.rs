//! The course of a migration: what is done next, from what has come back.
//!
//! A run starts with [`migrate`]. Its next request is [`MigrationRun::next`];
//! whoever drives it carries the request out and hands the reply to
//! [`migrate_with_backends`], which records the stage and names the clean-up
//! that is due at once. A reply that answers another question changes nothing.
use vstd::prelude::*;

use crate::migrate::service::{rewrite_via_env, EnvWriter, Quiescer};
use crate::migrate::types::{
    BackupView, CopySummary, ErrorView, EventView, MigrateError, MigrationEvent,
    MigrationResult, QuiesceOutcome, QuiescedView, ResultView, ResumeAction, ResumeView,
    RetainOutcome, RetainedView, RewriteOutcome, RewriteView, Stage, ValidateOutcome,
    ValidatedView, VerifyOutcome, VerifyView,
};
use crate::text::{
    copy_list, copy_opt, dec, decimal, decimal_len, decimal_wide, join, join_all, opt_view, owned,
    views,
};
use crate::tools::{
    FieldView, HomeDirConfigFile, HomeDirDiscovery, HomeDirLayout, LayoutView, ToolDefinition,
    ToolView,
};

verus! {

/// Where a run stands.
#[derive(Debug)]
pub enum Phase {
    Begin,
    Source,
    Destination,
    Quiesce,
    MeasureCopy,
    MeasureVerify,
    Copy,
    Verify,
    Rewrite,
    Resume,
    ResumeFailed { error: MigrateError },
    Validate,
    ValidateFailed { error: MigrateError },
    Retain,
    RetainFailed { error: MigrateError },
    Complete { retained_at: Option<String> },
    Aborted { error: MigrateError },
}

/// The model of a [`Phase`].
#[allow(inconsistent_fields)]
pub enum PhaseView {
    Begin,
    Source,
    Destination,
    Quiesce,
    MeasureCopy,
    MeasureVerify,
    Copy,
    Verify,
    Rewrite,
    Resume,
    ResumeFailed { error: ErrorView },
    Validate,
    ValidateFailed { error: ErrorView },
    Retain,
    RetainFailed { error: ErrorView },
    Complete { retained_at: Option<Seq<char>> },
    Aborted { error: ErrorView },
}

impl View for Phase {
    type V = PhaseView;

    open spec fn view(&self) -> PhaseView {
        match self {
            Phase::Begin => PhaseView::Begin,
            Phase::Source => PhaseView::Source,
            Phase::Destination => PhaseView::Destination,
            Phase::Quiesce => PhaseView::Quiesce,
            Phase::MeasureCopy => PhaseView::MeasureCopy,
            Phase::MeasureVerify => PhaseView::MeasureVerify,
            Phase::Copy => PhaseView::Copy,
            Phase::Verify => PhaseView::Verify,
            Phase::Rewrite => PhaseView::Rewrite,
            Phase::Resume => PhaseView::Resume,
            Phase::ResumeFailed { error } => PhaseView::ResumeFailed { error: error@ },
            Phase::Validate => PhaseView::Validate,
            Phase::ValidateFailed { error } => PhaseView::ValidateFailed { error: error@ },
            Phase::Retain => PhaseView::Retain,
            Phase::RetainFailed { error } => PhaseView::RetainFailed { error: error@ },
            Phase::Complete { retained_at } => PhaseView::Complete {
                retained_at: opt_view(*retained_at),
            },
            Phase::Aborted { error } => PhaseView::Aborted { error: error@ },
        }
    }
}

/// A migration under way.
#[derive(Debug)]
pub struct MigrationRun {
    tool_name: String,
    layout: Option<HomeDirLayout>,
    src: String,
    dst: String,
    dry_run: bool,
    events: Vec<MigrationEvent>,
    resume_action: ResumeAction,
    rewrite_outcome: RewriteOutcome,
    phase: Phase,
}

/// The model of a [`MigrationRun`].
pub struct RunView {
    pub tool_name: Seq<char>,
    pub layout: Option<LayoutView>,
    pub src: Seq<char>,
    pub dst: Seq<char>,
    pub dry_run: bool,
    pub events: Seq<EventView>,
    pub resume_action: ResumeView,
    pub rewrite_outcome: RewriteView,
    pub phase: PhaseView,
}

impl View for MigrationRun {
    type V = RunView;

    closed spec fn view(&self) -> RunView {
        RunView {
            tool_name: self.tool_name@,
            layout: opt_view(self.layout),
            src: self.src@,
            dst: self.dst@,
            dry_run: self.dry_run,
            events: views(self.events@),
            resume_action: self.resume_action@,
            rewrite_outcome: self.rewrite_outcome@,
            phase: self.phase@,
        }
    }
}

/// What a run asks for next.
#[derive(Debug)]
pub enum MigrateRequest {
    /// Begin; answered by [`MigrateReply::Begin`].
    Begin,
    /// Is there anything at the path?
    Exists { path: String },
    /// Bring the tool to rest.
    Quiesce { dry_run: bool },
    /// How many files and bytes are there below the path?
    Measure { path: String },
    /// Copy the tree.
    Copy { src: String, dst: String },
    /// Compare the tree with its copy.
    Verify { src: String, dst: String },
    /// Install a symlink.
    RewriteSymlink { src: String, dst: String },
    /// Edit the config files of the layout.
    RewriteConfig { src: String, dst: String },
    /// Set the environment variable of the layout.
    RewriteEnv { dst: String },
    /// Bring the tool back up.
    Resume { action: ResumeAction, dry_run: bool },
    /// Run the validation of the layout.
    Validate,
    /// Take the rewrite back.
    UndoRewrite { outcome: RewriteOutcome },
    /// Keep the source aside.
    Retain { src: String, outcome: RewriteOutcome },
    /// Nothing; the run is over.
    Finished,
}

/// The model of a [`MigrateRequest`].
#[allow(inconsistent_fields)]
pub enum RequestView {
    Begin,
    Exists { path: Seq<char> },
    Quiesce { dry_run: bool },
    Measure { path: Seq<char> },
    Copy { src: Seq<char>, dst: Seq<char> },
    Verify { src: Seq<char>, dst: Seq<char> },
    RewriteSymlink { src: Seq<char>, dst: Seq<char> },
    RewriteConfig { src: Seq<char>, dst: Seq<char> },
    RewriteEnv { dst: Seq<char> },
    Resume { action: ResumeView, dry_run: bool },
    Validate,
    UndoRewrite { outcome: RewriteView },
    Retain { src: Seq<char>, outcome: RewriteView },
    Finished,
}

impl View for MigrateRequest {
    type V = RequestView;

    open spec fn view(&self) -> RequestView {
        match self {
            MigrateRequest::Begin => RequestView::Begin,
            MigrateRequest::Exists { path } => RequestView::Exists { path: path@ },
            MigrateRequest::Quiesce { dry_run } => RequestView::Quiesce { dry_run: *dry_run },
            MigrateRequest::Measure { path } => RequestView::Measure { path: path@ },
            MigrateRequest::Copy { src, dst } => RequestView::Copy { src: src@, dst: dst@ },
            MigrateRequest::Verify { src, dst } => RequestView::Verify { src: src@, dst: dst@ },
            MigrateRequest::RewriteSymlink { src, dst } => RequestView::RewriteSymlink {
                src: src@,
                dst: dst@,
            },
            MigrateRequest::RewriteConfig { src, dst } => RequestView::RewriteConfig {
                src: src@,
                dst: dst@,
            },
            MigrateRequest::RewriteEnv { dst } => RequestView::RewriteEnv { dst: dst@ },
            MigrateRequest::Resume { action, dry_run } => RequestView::Resume {
                action: action@,
                dry_run: *dry_run,
            },
            MigrateRequest::Validate => RequestView::Validate,
            MigrateRequest::UndoRewrite { outcome } => RequestView::UndoRewrite {
                outcome: outcome@,
            },
            MigrateRequest::Retain { src, outcome } => RequestView::Retain {
                src: src@,
                outcome: outcome@,
            },
            MigrateRequest::Finished => RequestView::Finished,
        }
    }
}

impl RequestView {
    /// Carrying the request out changes the file system or a service.
    pub open spec fn mutating(self) -> bool {
        match self {
            RequestView::Begin => false,
            RequestView::Exists { .. } => false,
            RequestView::Quiesce { dry_run } => !dry_run,
            RequestView::Measure { .. } => false,
            RequestView::Copy { .. } => true,
            RequestView::Verify { .. } => false,
            RequestView::RewriteSymlink { .. } => true,
            RequestView::RewriteConfig { .. } => true,
            RequestView::RewriteEnv { .. } => true,
            RequestView::Resume { dry_run, .. } => !dry_run,
            RequestView::Validate => true,
            RequestView::UndoRewrite { outcome } => outcome != RewriteView::DryRunSkipped,
            RequestView::Retain { .. } => true,
            RequestView::Finished => false,
        }
    }
}

/// What came of a request.
#[derive(Debug)]
pub enum MigrateReply {
    Begin,
    Exists(bool),
    Quiesced(Result<(QuiesceOutcome, ResumeAction), MigrateError>),
    Measured { files: usize, bytes: u64 },
    Copied(Result<CopySummary, MigrateError>),
    Verified(Result<VerifyOutcome, MigrateError>),
    Rewritten(Result<RewriteOutcome, MigrateError>),
    Resumed(Result<(), MigrateError>),
    Validated(Result<ValidateOutcome, MigrateError>),
    Undone(Result<(), MigrateError>),
    Retained(Result<RetainOutcome, MigrateError>),
}

/// The model of a [`MigrateReply`].
pub enum ReplyView {
    Begin,
    Exists(bool),
    Quiesced(Result<(QuiescedView, ResumeView), ErrorView>),
    Measured { files: usize, bytes: u64 },
    Copied(Result<CopySummary, ErrorView>),
    Verified(Result<VerifyView, ErrorView>),
    Rewritten(Result<RewriteView, ErrorView>),
    Resumed(Result<(), ErrorView>),
    Validated(Result<ValidatedView, ErrorView>),
    Undone(Result<(), ErrorView>),
    Retained(Result<RetainedView, ErrorView>),
}

/// The view of a result.
pub open spec fn res_view<T: View>(r: Result<T, MigrateError>) -> Result<T::V, ErrorView> {
    match r {
        Ok(t) => Ok(t@),
        Err(e) => Err(e@),
    }
}

impl View for MigrateReply {
    type V = ReplyView;

    open spec fn view(&self) -> ReplyView {
        match self {
            MigrateReply::Begin => ReplyView::Begin,
            MigrateReply::Exists(b) => ReplyView::Exists(*b),
            MigrateReply::Quiesced(r) => ReplyView::Quiesced(
                match r {
                    Ok((o, a)) => Ok((o@, a@)),
                    Err(e) => Err(e@),
                },
            ),
            MigrateReply::Measured { files, bytes } => ReplyView::Measured {
                files: *files,
                bytes: *bytes,
            },
            MigrateReply::Copied(r) => ReplyView::Copied(
                match r {
                    Ok(s) => Ok(*s),
                    Err(e) => Err(e@),
                },
            ),
            MigrateReply::Verified(r) => ReplyView::Verified(res_view(*r)),
            MigrateReply::Rewritten(r) => ReplyView::Rewritten(res_view(*r)),
            MigrateReply::Resumed(r) => ReplyView::Resumed(res_view(*r)),
            MigrateReply::Validated(r) => ReplyView::Validated(res_view(*r)),
            MigrateReply::Undone(r) => ReplyView::Undone(res_view(*r)),
            MigrateReply::Retained(r) => ReplyView::Retained(res_view(*r)),
        }
    }
}

/// Something to be done at once, whatever comes of it.
#[derive(Debug)]
pub enum CleanUp {
    /// Remove the copy, if there is one.
    RemoveCopy { dst: String },
    /// Bring the tool back up.
    Resume { action: ResumeAction, dry_run: bool },
    /// Bring the tool to rest.
    Quiesce,
}

/// The model of a [`CleanUp`].
pub enum CleanUpView {
    RemoveCopy { dst: Seq<char> },
    Resume { action: ResumeView, dry_run: bool },
    Quiesce,
}

impl View for CleanUp {
    type V = CleanUpView;

    open spec fn view(&self) -> CleanUpView {
        match self {
            CleanUp::RemoveCopy { dst } => CleanUpView::RemoveCopy { dst: dst@ },
            CleanUp::Resume { action, dry_run } => CleanUpView::Resume {
                action: action@,
                dry_run: *dry_run,
            },
            CleanUp::Quiesce => CleanUpView::Quiesce,
        }
    }
}

// What is recorded of each stage.

pub open spec fn discovery_text(d: HomeDirDiscovery) -> Seq<char> {
    match d {
        HomeDirDiscovery::Env => "Env"@,
        HomeDirDiscovery::Config => "Config"@,
        HomeDirDiscovery::Symlink => "Symlink"@,
        HomeDirDiscovery::Compile => "Compile"@,
    }
}

fn discovery_name(d: HomeDirDiscovery) -> (r: &'static str)
    ensures
        r@ == discovery_text(d),
{
    match d {
        HomeDirDiscovery::Env => "Env",
        HomeDirDiscovery::Config => "Config",
        HomeDirDiscovery::Symlink => "Symlink",
        HomeDirDiscovery::Compile => "Compile",
    }
}

pub open spec fn preflight_text(l: LayoutView, src: Seq<char>, dst: Seq<char>) -> Seq<char> {
    "preflight ok: discovery="@ + discovery_text(l.discovery) + ", src="@ + src + ", dst="@ + dst
}

pub open spec fn quiesce_text(o: QuiescedView, l: LayoutView) -> Seq<char> {
    match o {
        QuiescedView::UnitStopped { scope, unit } => "stopped systemd "@ + scope + " unit `"@ + unit
            + "`"@,
        QuiescedView::NoUnitWarning =>
            "no quiesce hook declared; operator must ensure tool isn't writing mid-migrate"@,
        QuiescedView::UnitAbsent { scope, unit } => "declared systemd "@ + scope + " unit `"@ + unit
            + "` is not loaded here; nothing to stop — proceeding (ensure the tool isn't writing mid-migrate)"@,
        QuiescedView::DryRunSkipped => match (l.quiesce.user, l.quiesce.system) {
            (Some(u), _) => "dry-run: would stop systemd --user unit `"@ + u + "`"@,
            (None, Some(u)) => "dry-run: would stop systemd unit `"@ + u + "`"@,
            _ => "dry-run: no quiesce hook declared; no-op"@,
        },
    }
}

fn quiesce_detail(o: &QuiesceOutcome, l: &HomeDirLayout) -> (r: String)
    ensures
        r@ == quiesce_text(o@, l@),
{
    match o {
        QuiesceOutcome::UnitStopped { scope, unit } => owned("stopped systemd ").concat(
            scope,
        ).concat(" unit `").concat(unit).concat("`"),
        QuiesceOutcome::NoUnitWarning => owned(
            "no quiesce hook declared; operator must ensure tool isn't writing mid-migrate",
        ),
        QuiesceOutcome::UnitAbsent { scope, unit } => owned("declared systemd ").concat(
            scope,
        ).concat(" unit `").concat(unit).concat(
            "` is not loaded here; nothing to stop — proceeding (ensure the tool isn't writing mid-migrate)",
        ),
        QuiesceOutcome::DryRunSkipped => match (
            &l.quiesce.systemd_user_unit,
            &l.quiesce.systemd_system_unit,
        ) {
            (Some(u), _) => owned("dry-run: would stop systemd --user unit `").concat(u).concat("`"),
            (None, Some(u)) => owned("dry-run: would stop systemd unit `").concat(u).concat("`"),
            _ => owned("dry-run: no quiesce hook declared; no-op"),
        },
    }
}

pub open spec fn would_copy_text(
    src: Seq<char>,
    dst: Seq<char>,
    files: usize,
    bytes: u64,
) -> Seq<char> {
    "rsync "@ + src + " → "@ + dst + " ("@ + dec(files as nat) + " files, "@ + dec(bytes as nat)
        + " bytes)"@
}

/// What a copy would do, in one line.
pub fn describe_copy(src: &str, dst: &str, files: usize, bytes: u64) -> (r: String)
    ensures
        r@ == would_copy_text(src@, dst@, files, bytes),
{
    owned("rsync ").concat(src).concat(" → ").concat(dst).concat(" (").concat(
        &decimal_len(files),
    ).concat(" files, ").concat(&decimal(bytes)).concat(" bytes)")
}

pub open spec fn copied_text(s: CopySummary, dst: Seq<char>) -> Seq<char> {
    "copied "@ + dec(s.files_copied as nat) + " files ("@ + dec(s.bytes_copied as nat)
        + " bytes), "@ + dec(s.symlinks_copied as nat) + " symlinks, into "@ + dec(
        s.dirs_created as nat,
    ) + " directories at "@ + dst
}

fn copied_detail(s: &CopySummary, dst: &str) -> (r: String)
    ensures
        r@ == copied_text(*s, dst@),
{
    owned("copied ").concat(&decimal_len(s.files_copied)).concat(" files (").concat(
        &decimal(s.bytes_copied),
    ).concat(" bytes), ").concat(&decimal_len(s.symlinks_copied)).concat(
        " symlinks, into ",
    ).concat(&decimal_len(s.dirs_created)).concat(" directories at ").concat(dst)
}

pub open spec fn source_text(files: usize, bytes: u64) -> Seq<char> {
    "dry-run: source has "@ + dec(files as nat) + " files, "@ + dec(bytes as nat) + " bytes total"@
}

pub open spec fn verified_text(v: VerifyView) -> Seq<char> {
    "verify ok: "@ + dec(v.src_files as nat) + " files, "@ + dec(v.src_bytes as nat)
        + " bytes in both src and dst"@
}

fn verified_detail(v: &VerifyOutcome) -> (r: String)
    ensures
        r@ == verified_text(v@),
{
    owned("verify ok: ").concat(&decimal_len(v.src_files)).concat(" files, ").concat(
        &decimal(v.src_bytes),
    ).concat(" bytes in both src and dst")
}

pub open spec fn mismatch_text(v: VerifyView) -> Seq<char> {
    "verify mismatch — src: "@ + dec(v.src_files as nat) + " files / "@ + dec(v.src_bytes as nat)
        + " bytes, dst: "@ + dec(v.dst_files as nat) + " files / "@ + dec(v.dst_bytes as nat)
        + " bytes (partial dst removed)"@
}

fn mismatch_detail(v: &VerifyOutcome) -> (r: String)
    ensures
        r@ == mismatch_text(v@),
{
    owned("verify mismatch — src: ").concat(&decimal_len(v.src_files)).concat(
        " files / ",
    ).concat(&decimal(v.src_bytes)).concat(" bytes, dst: ").concat(
        &decimal_len(v.dst_files),
    ).concat(" files / ").concat(&decimal(v.dst_bytes)).concat(" bytes (partial dst removed)")
}

/// The originals of the backups, as texts.
pub open spec fn originals(b: Seq<BackupView>) -> Seq<Seq<char>> {
    Seq::new(b.len(), |i: int| b[i].original)
}

/// One config file in the announcement of a dry run.
pub open spec fn file_text(f: FieldView) -> Seq<char> {
    f.file + " (field `"@ + f.field + "`, "@ + f.format + ")"@
}

/// The config files in the announcement of a dry run.
pub open spec fn file_texts(f: Seq<FieldView>) -> Seq<Seq<char>> {
    Seq::new(f.len(), |i: int| file_text(f[i]))
}

pub open spec fn would_rewrite_text(l: LayoutView, src: Seq<char>, dst: Seq<char>) -> Seq<char> {
    match l.discovery {
        HomeDirDiscovery::Symlink => "dry-run: would install symlink "@ + src + " -> "@ + dst
            + " and preserve original"@,
        HomeDirDiscovery::Config => "dry-run: would rewrite "@ + dec(l.config_files.len())
            + " config file(s) ["@ + join(file_texts(l.config_files), ", "@) + "]"@,
        HomeDirDiscovery::Env => "dry-run: would install systemd drop-in for "@ + (
        match l.quiesce.user {
            Some(u) => "--user "@ + u,
            None => match l.quiesce.system {
                Some(u) => "--system "@ + u,
                None => "<no unit declared — real run would refuse>"@,
            },
        }) + " setting "@ + (match l.env_var {
            Some(v) => v,
            None => "<unset>"@,
        }) + "="@ + dst,
        HomeDirDiscovery::Compile =>
            "dry-run: discovery=compile is not migratable (rejected at preflight)"@,
    }
}

fn describe_file(f: &HomeDirConfigFile) -> (r: String)
    ensures
        r@ == file_text(f@),
{
    f.file.clone().concat(" (field `").concat(&f.field).concat("`, ").concat(&f.format).concat(")")
}

fn would_rewrite_detail(l: &HomeDirLayout, src: &str, dst: &str) -> (r: String)
    ensures
        r@ == would_rewrite_text(l@, src@, dst@),
{
    match l.discovery {
        HomeDirDiscovery::Symlink => owned("dry-run: would install symlink ").concat(src).concat(
            " -> ",
        ).concat(dst).concat(" and preserve original"),
        HomeDirDiscovery::Config => {
            let mut files: Vec<String> = Vec::new();
            let mut i: usize = 0;
            while i < l.config_files.len()
                invariant
                    i <= l.config_files@.len(),
                    views(files@) == file_texts(l@.config_files).take(i as int),
                decreases l.config_files@.len() - i,
            {
                let ghost before = views(files@);
                let d = describe_file(&l.config_files[i]);
                files.push(d);
                assert(views(files@) =~= before.push(d@));
                assert(views(files@) =~= file_texts(l@.config_files).take(i + 1));
                i = i + 1;
            }
            assert(views(files@) =~= file_texts(l@.config_files));
            owned("dry-run: would rewrite ").concat(&decimal_len(l.config_files.len())).concat(
                " config file(s) [",
            ).concat(&join_all(&files, ", ")).concat("]")
        },
        HomeDirDiscovery::Env => {
            let unit = match &l.quiesce.systemd_user_unit {
                Some(u) => owned("--user ").concat(u),
                None => match &l.quiesce.systemd_system_unit {
                    Some(u) => owned("--system ").concat(u),
                    None => owned("<no unit declared — real run would refuse>"),
                },
            };
            let var = match &l.env_var {
                Some(v) => v.clone(),
                None => owned("<unset>"),
            };
            owned("dry-run: would install systemd drop-in for ").concat(&unit).concat(
                " setting ",
            ).concat(&var).concat("=").concat(dst)
        },
        HomeDirDiscovery::Compile => owned(
            "dry-run: discovery=compile is not migratable (rejected at preflight)",
        ),
    }
}

pub open spec fn rewritten_text(
    o: RewriteView,
    l: LayoutView,
    src: Seq<char>,
    dst: Seq<char>,
) -> Seq<char> {
    match o {
        RewriteView::SymlinkInstalled { canonical, target, moved_aside: Some(aside) } =>
            "installed symlink "@ + canonical + " -> "@ + target + "; preserved original at "@
            + aside,
        RewriteView::SymlinkInstalled { moved_aside: None, .. } =>
            "symlink installed (no preserved original recorded)"@,
        RewriteView::ConfigEdited { backups } => "rewrote "@ + dec(backups.len())
            + " config file(s) ["@ + join(originals(backups), ", "@)
            + "]; backups taken alongside each"@,
        RewriteView::EnvOverridden { record } => "installed systemd "@ + record.scope
            + " drop-in for `"@ + record.unit + "` at "@ + record.drop_in_path + " setting "@
            + record.env_var + "="@ + record.value,
        RewriteView::DryRunSkipped => would_rewrite_text(l, src, dst),
        RewriteView::Deferred { reason } => "rewrite deferred: "@ + reason,
    }
}

fn rewritten_detail(o: &RewriteOutcome, l: &HomeDirLayout, src: &str, dst: &str) -> (r: String)
    ensures
        r@ == rewritten_text(o@, l@, src@, dst@),
{
    match o {
        RewriteOutcome::SymlinkInstalled { canonical, target, moved_aside } => match moved_aside {
            Some(aside) => owned("installed symlink ").concat(canonical).concat(" -> ").concat(
                target,
            ).concat("; preserved original at ").concat(aside),
            None => owned("symlink installed (no preserved original recorded)"),
        },
        RewriteOutcome::ConfigEdited { backups } => {
            let mut names: Vec<String> = Vec::new();
            let mut i: usize = 0;
            while i < backups.len()
                invariant
                    i <= backups@.len(),
                    views(names@) == originals(views(backups@)).take(i as int),
                decreases backups@.len() - i,
            {
                let ghost before = views(names@);
                let d = backups[i].original.clone();
                names.push(d);
                assert(views(names@) =~= before.push(d@));
                assert(views(names@) =~= originals(views(backups@)).take(i + 1));
                i = i + 1;
            }
            assert(views(names@) =~= originals(views(backups@)));
            owned("rewrote ").concat(&decimal_len(backups.len())).concat(
                " config file(s) [",
            ).concat(&join_all(&names, ", ")).concat("]; backups taken alongside each")
        },
        RewriteOutcome::EnvOverridden { record } => owned("installed systemd ").concat(
            &record.scope,
        ).concat(" drop-in for `").concat(&record.unit).concat("` at ").concat(
            &record.drop_in_path,
        ).concat(" setting ").concat(&record.env_var).concat("=").concat(&record.value),
        RewriteOutcome::DryRunSkipped => would_rewrite_detail(l, src, dst),
        RewriteOutcome::Deferred { reason } => owned("rewrite deferred: ").concat(reason),
    }
}

pub open spec fn resumed_text(a: ResumeView, dry_run: bool) -> Seq<char> {
    match a {
        ResumeView::StartUnit { scope, unit } => if dry_run {
            "dry-run: would start systemd "@ + scope + " unit `"@ + unit + "`"@
        } else {
            "started systemd "@ + scope + " unit `"@ + unit + "`"@
        },
        ResumeView::Nothing => "no resume action declared; nothing to start"@,
    }
}

fn resumed_detail(a: &ResumeAction, dry_run: bool) -> (r: String)
    ensures
        r@ == resumed_text(a@, dry_run),
{
    match a {
        ResumeAction::StartUnit { scope, unit } => {
            if dry_run {
                owned("dry-run: would start systemd ").concat(scope).concat(" unit `").concat(
                    unit,
                ).concat("`")
            } else {
                owned("started systemd ").concat(scope).concat(" unit `").concat(unit).concat("`")
            }
        },
        ResumeAction::Nothing => owned("no resume action declared; nothing to start"),
    }
}

pub open spec fn would_validate_text(l: LayoutView) -> Seq<char> {
    if l.validate.command.len() == 0 {
        "dry-run: no validate command declared"@
    } else {
        "dry-run: would run `"@ + join(l.validate.command, " "@) + "` (timeout "@ + dec(
            match l.validate.timeout_seconds {
                Some(t) => t as nat,
                None => 10,
            },
        ) + "s)"@
    }
}

fn would_validate_detail(l: &HomeDirLayout) -> (r: String)
    ensures
        r@ == would_validate_text(l@),
{
    if l.validate.command.len() == 0 {
        return owned("dry-run: no validate command declared");
    }
    let timeout: u64 = match l.validate.timeout_seconds {
        Some(t) => t,
        None => 10,
    };
    owned("dry-run: would run `").concat(&join_all(&l.validate.command, " ")).concat(
        "` (timeout ",
    ).concat(&decimal(timeout)).concat("s)")
}

pub open spec fn validated_text(o: ValidatedView) -> Seq<char> {
    match o {
        ValidatedView::Skipped => "no validate command declared; skipping"@,
        ValidatedView::Passed { command, took_ms } => "validate `"@ + command + "` exited 0 in "@
            + dec(took_ms as nat) + "ms"@,
    }
}

fn validated_detail(o: &ValidateOutcome) -> (r: String)
    ensures
        r@ == validated_text(o@),
{
    match o {
        ValidateOutcome::Skipped => owned("no validate command declared; skipping"),
        ValidateOutcome::Passed { command, took_ms } => owned("validate `").concat(
            command,
        ).concat("` exited 0 in ").concat(&decimal_wide(*took_ms)).concat("ms"),
    }
}

pub open spec fn retained_text(o: RetainedView) -> Seq<char> {
    match o {
        RetainedView::PreservedInRewrite { aside } =>
            "source already preserved during Rewrite at "@ + aside,
        RetainedView::RenamedAside { from, to } => "renamed source "@ + from + " → "@ + to
            + " (operator-driven cleanup later)"@,
        RetainedView::Nothing => "source preservation not applicable"@,
        RetainedView::DryRunSkipped => "dry-run: would rename source aside"@,
    }
}

fn retained_detail(o: &RetainOutcome) -> (r: String)
    ensures
        r@ == retained_text(o@),
{
    match o {
        RetainOutcome::PreservedInRewrite { aside } => owned(
            "source already preserved during Rewrite at ",
        ).concat(aside),
        RetainOutcome::RenamedAside { from, to } => owned("renamed source ").concat(from).concat(
            " → ",
        ).concat(to).concat(" (operator-driven cleanup later)"),
        RetainOutcome::Nothing => owned("source preservation not applicable"),
        RetainOutcome::DryRunSkipped => owned("dry-run: would rename source aside"),
    }
}

// The course of a run.

impl RunView {
    /// The run with one more event.
    pub open spec fn note(self, stage: Stage, detail: Seq<char>, now: u64) -> RunView {
        RunView {
            events: self.events.push(
                EventView {
                    tool_name: self.tool_name,
                    src: self.src,
                    dst: self.dst,
                    stage,
                    dry_run: self.dry_run,
                    detail,
                    at: now,
                },
            ),
            ..self
        }
    }

    /// The run in another phase.
    pub open spec fn at(self, phase: PhaseView) -> RunView {
        RunView { phase, ..self }
    }

    /// The run, failed.
    pub open spec fn fail(self, error: ErrorView) -> RunView {
        self.at(PhaseView::Aborted { error })
    }

    /// The run is over.
    pub open spec fn over(self) -> bool {
        self.phase is Complete || self.phase is Aborted
    }

    /// What is due when a run fails while the tool is at rest: the copy goes,
    /// and the tool comes back up.
    pub open spec fn abort_clean_up(self) -> Seq<CleanUpView> {
        seq![
            CleanUpView::RemoveCopy { dst: self.dst },
            CleanUpView::Resume { action: self.resume_action, dry_run: self.dry_run },
        ]
    }

    /// What the run asks for next.
    pub open spec fn next(self) -> RequestView {
        match self.phase {
            PhaseView::Begin => RequestView::Begin,
            PhaseView::Source => RequestView::Exists { path: self.src },
            PhaseView::Destination => RequestView::Exists { path: self.dst },
            PhaseView::Quiesce => RequestView::Quiesce { dry_run: self.dry_run },
            PhaseView::MeasureCopy => RequestView::Measure { path: self.src },
            PhaseView::MeasureVerify => RequestView::Measure { path: self.src },
            PhaseView::Copy => RequestView::Copy { src: self.src, dst: self.dst },
            PhaseView::Verify => RequestView::Verify { src: self.src, dst: self.dst },
            PhaseView::Rewrite => match self.layout {
                Some(l) => match l.discovery {
                    HomeDirDiscovery::Symlink => RequestView::RewriteSymlink {
                        src: self.src,
                        dst: self.dst,
                    },
                    HomeDirDiscovery::Config => RequestView::RewriteConfig {
                        src: self.src,
                        dst: self.dst,
                    },
                    _ => RequestView::RewriteEnv { dst: self.dst },
                },
                None => RequestView::Finished,
            },
            PhaseView::Resume => RequestView::Resume {
                action: self.resume_action,
                dry_run: self.dry_run,
            },
            PhaseView::ResumeFailed { .. } => RequestView::UndoRewrite {
                outcome: self.rewrite_outcome,
            },
            PhaseView::Validate => RequestView::Validate,
            PhaseView::ValidateFailed { .. } => RequestView::UndoRewrite {
                outcome: self.rewrite_outcome,
            },
            PhaseView::Retain => RequestView::Retain {
                src: self.src,
                outcome: self.rewrite_outcome,
            },
            PhaseView::RetainFailed { .. } => RequestView::UndoRewrite {
                outcome: self.rewrite_outcome,
            },
            PhaseView::Complete { .. } => RequestView::Finished,
            PhaseView::Aborted { .. } => RequestView::Finished,
        }
    }

    /// The result of a run that is complete.
    pub open spec fn result(self) -> ResultView {
        ResultView {
            tool_name: self.tool_name,
            src: self.src,
            dst: self.dst,
            dry_run: self.dry_run,
            final_stage: Stage::Done,
            success: true,
            events: self.events,
            error: None,
            resume_action: self.resume_action,
            rewrite_outcome: Some(self.rewrite_outcome),
            retained_at: match self.phase {
                PhaseView::Complete { retained_at } => retained_at,
                _ => None,
            },
        }
    }

    /// The last two stages.
    pub open spec fn complete(self, o: RetainedView, now: u64) -> RunView {
        self.note(Stage::Retain, retained_text(o), now).note(
            Stage::Done,
            "migration complete"@,
            now,
        ).at(
            PhaseView::Complete {
                retained_at: match o {
                    RetainedView::RenamedAside { to, .. } => Some(to),
                    _ => None,
                },
            },
        )
    }

    /// The run after a reply, and the clean-up that is due at once.
    pub open spec fn advance(self, reply: ReplyView, now: u64) -> (RunView, Seq<CleanUpView>) {
        let none = Seq::<CleanUpView>::empty();
        match (self.phase, reply) {
            (PhaseView::Begin, ReplyView::Begin) => {
                let r = self.note(Stage::Preflight, "begin preflight"@, now);
                match self.layout {
                    None => (r.fail(ErrorView::NoLayout(self.tool_name)), none),
                    Some(l) => if l.discovery == HomeDirDiscovery::Compile {
                        (r.fail(ErrorView::CompileBaked), none)
                    } else {
                        (r.at(PhaseView::Source), none)
                    },
                }
            },
            (PhaseView::Source, ReplyView::Exists(b)) => if b {
                (self.at(PhaseView::Destination), none)
            } else {
                (self.fail(ErrorView::SourceMissing(self.src)), none)
            },
            (PhaseView::Destination, ReplyView::Exists(b)) => if b {
                (self.fail(ErrorView::DestinationExists(self.dst)), none)
            } else {
                (
                    self.note(
                        Stage::Preflight,
                        preflight_text(self.layout->0, self.src, self.dst),
                        now,
                    ).note(
                        Stage::Snapshot,
                        "snapshot stage stubbed; no btrfs detection yet"@,
                        now,
                    ).at(PhaseView::Quiesce),
                    none,
                )
            },
            (PhaseView::Quiesce, ReplyView::Quiesced(q)) => match q {
                Err(e) => (self.fail(e), none),
                Ok((o, a)) => {
                    let r = RunView { resume_action: a, ..self }.note(
                        Stage::Quiesce,
                        quiesce_text(o, self.layout->0),
                        now,
                    );
                    if self.dry_run {
                        (r.at(PhaseView::MeasureCopy), none)
                    } else {
                        (r.at(PhaseView::Copy), none)
                    }
                },
            },
            (PhaseView::MeasureCopy, ReplyView::Measured { files, bytes }) => (
                self.note(
                    Stage::Copy,
                    "dry-run: would "@ + would_copy_text(self.src, self.dst, files, bytes),
                    now,
                ).at(PhaseView::MeasureVerify),
                none,
            ),
            (PhaseView::MeasureVerify, ReplyView::Measured { files, bytes }) => (
                RunView { rewrite_outcome: RewriteView::DryRunSkipped, ..self }.note(
                    Stage::Verify,
                    source_text(files, bytes),
                    now,
                ).note(
                    Stage::Rewrite,
                    rewritten_text(
                        RewriteView::DryRunSkipped,
                        self.layout->0,
                        self.src,
                        self.dst,
                    ),
                    now,
                ).at(PhaseView::Resume),
                none,
            ),
            (PhaseView::Copy, ReplyView::Copied(c)) => match c {
                Ok(s) => (
                    self.note(Stage::Copy, copied_text(s, self.dst), now).at(PhaseView::Verify),
                    none,
                ),
                Err(e) => (
                    self.note(
                        Stage::Copy,
                        "copy failed and partial dst removed: "@ + e.text(),
                        now,
                    ).fail(e),
                    self.abort_clean_up(),
                ),
            },
            (PhaseView::Verify, ReplyView::Verified(v)) => match v {
                Ok(o) => if o.matches {
                    (self.note(Stage::Verify, verified_text(o), now).at(PhaseView::Rewrite), none)
                } else {
                    (
                        self.note(Stage::Verify, mismatch_text(o), now).fail(
                            ErrorView::StageFailed(Stage::Verify, mismatch_text(o)),
                        ),
                        self.abort_clean_up(),
                    )
                },
                Err(e) => (self.fail(e), self.abort_clean_up()),
            },
            (PhaseView::Rewrite, ReplyView::Rewritten(w)) => match w {
                Ok(o) => (
                    RunView { rewrite_outcome: o, ..self }.note(
                        Stage::Rewrite,
                        rewritten_text(o, self.layout->0, self.src, self.dst),
                        now,
                    ).at(PhaseView::Resume),
                    none,
                ),
                Err(e) => (self.fail(e), self.abort_clean_up()),
            },
            (PhaseView::Resume, ReplyView::Resumed(x)) => match x {
                Ok(()) => {
                    let r = self.note(
                        Stage::Resume,
                        resumed_text(self.resume_action, self.dry_run),
                        now,
                    );
                    if self.dry_run {
                        (
                            r.note(
                                Stage::Validate,
                                would_validate_text(self.layout->0),
                                now,
                            ).complete(RetainedView::DryRunSkipped, now),
                            none,
                        )
                    } else {
                        (r.at(PhaseView::Validate), none)
                    }
                },
                Err(e) => (self.at(PhaseView::ResumeFailed { error: e }), none),
            },
            (PhaseView::ResumeFailed { error }, ReplyView::Undone(u)) => (
                match u {
                    Ok(()) => self.fail(error),
                    Err(e) => self.note(
                        Stage::Resume,
                        "Resume failed AND undo of Rewrite failed: "@ + e.text(),
                        now,
                    ).fail(error),
                },
                seq![CleanUpView::RemoveCopy { dst: self.dst }],
            ),
            (PhaseView::Validate, ReplyView::Validated(v)) => match v {
                Ok(o) => (
                    self.note(Stage::Validate, validated_text(o), now).at(PhaseView::Retain),
                    none,
                ),
                Err(e) => (
                    self.at(PhaseView::ValidateFailed { error: e }),
                    seq![CleanUpView::Quiesce],
                ),
            },
            (PhaseView::ValidateFailed { error }, ReplyView::Undone(u)) => (
                match u {
                    Ok(()) => self.note(
                        Stage::Validate,
                        "validate failed: "@ + error.text() + "; rolled back Rewrite"@,
                        now,
                    ).fail(error),
                    Err(e) => self.note(
                        Stage::Validate,
                        "Validate failed AND undo of Rewrite failed: "@ + e.text(),
                        now,
                    ).fail(error),
                },
                seq![CleanUpView::RemoveCopy { dst: self.dst }],
            ),
            (PhaseView::Retain, ReplyView::Retained(t)) => match t {
                Ok(o) => (self.complete(o, now), none),
                Err(e) => (
                    self.at(PhaseView::RetainFailed { error: e }),
                    seq![CleanUpView::Quiesce],
                ),
            },
            (PhaseView::RetainFailed { error }, ReplyView::Undone(u)) => (
                match u {
                    Ok(()) => self.note(
                        Stage::Retain,
                        "retain failed: "@ + error.text() + "; rolled back Rewrite"@,
                        now,
                    ).fail(error),
                    Err(e) => self.note(
                        Stage::Retain,
                        "Retain failed AND undo of Rewrite failed: "@ + e.text(),
                        now,
                    ).fail(error),
                },
                seq![CleanUpView::RemoveCopy { dst: self.dst }],
            ),
            _ => (self, none),
        }
    }
}

/// A run at its start.
pub open spec fn fresh_run(
    tool: ToolView,
    src: Seq<char>,
    dst: Seq<char>,
    dry_run: bool,
) -> RunView {
    RunView {
        tool_name: tool.name,
        layout: tool.home_dir_layout,
        src,
        dst,
        dry_run,
        events: Seq::empty(),
        resume_action: ResumeView::Nothing,
        rewrite_outcome: RewriteView::DryRunSkipped,
        phase: PhaseView::Begin,
    }
}

/// Start a migration of the data of `tool` from `src` to `dst`.
pub fn migrate(tool: &ToolDefinition, src: &str, dst: &str, dry_run: bool) -> (r: MigrationRun)
    ensures
        r@ == fresh_run(tool@, src@, dst@, dry_run),
        r.well_formed(),
{
    let r = MigrationRun {
        tool_name: tool.name.clone(),
        layout: match &tool.home_dir_layout {
            Some(l) => Some(l.clone()),
            None => None,
        },
        src: owned(src),
        dst: owned(dst),
        dry_run,
        events: Vec::new(),
        resume_action: ResumeAction::Nothing,
        rewrite_outcome: RewriteOutcome::DryRunSkipped,
        phase: Phase::Begin,
    };
    assert(views(r.events@) =~= Seq::<EventView>::empty());
    r
}

impl RunView {
    /// A run past its beginning has a layout that can be migrated, unless it
    /// has failed.
    pub open spec fn sound(self) -> bool {
        self.phase is Begin || self.phase is Aborted || (self.layout matches Some(l)
            && l.discovery != HomeDirDiscovery::Compile)
    }
}

impl MigrationRun {
    /// A run past its beginning has a layout that can be migrated.
    pub open spec fn well_formed(self) -> bool {
        self@.sound()
    }

    fn record(&mut self, stage: Stage, detail: String, now: u64)
        ensures
            final(self)@ == old(self)@.note(stage, detail@, now),
            final(self).phase == old(self).phase,
            final(self).layout == old(self).layout,
    {
        let e = MigrationEvent {
            tool_name: self.tool_name.clone(),
            src: self.src.clone(),
            dst: self.dst.clone(),
            stage,
            dry_run: self.dry_run,
            detail,
            at_unix_seconds: now,
        };
        let ghost before = views(self.events@);
        self.events.push(e);
        assert(views(self.events@) =~= before.push(e@));
    }

    fn set_phase(&mut self, phase: Phase)
        ensures
            final(self)@ == old(self)@.at(phase@),
            final(self).layout == old(self).layout,
    {
        self.phase = phase;
    }

    fn abort_clean_up(&self) -> (r: Vec<CleanUp>)
        ensures
            views(r@) == self@.abort_clean_up(),
    {
        let mut r: Vec<CleanUp> = Vec::new();
        r.push(CleanUp::RemoveCopy { dst: self.dst.clone() });
        r.push(CleanUp::Resume { action: self.resume_action.clone(), dry_run: self.dry_run });
        assert(views(r@) =~= self@.abort_clean_up());
        r
    }

    fn remove_copy(&self) -> (r: Vec<CleanUp>)
        ensures
            views(r@) == seq![CleanUpView::RemoveCopy { dst: self@.dst }],
    {
        let mut r: Vec<CleanUp> = Vec::new();
        r.push(CleanUp::RemoveCopy { dst: self.dst.clone() });
        assert(views(r@) =~= seq![CleanUpView::RemoveCopy { dst: self@.dst }]);
        r
    }

    fn complete(&mut self, o: RetainOutcome, now: u64)
        ensures
            final(self)@ == old(self)@.complete(o@, now),
    {
        let detail = retained_detail(&o);
        self.record(Stage::Retain, detail, now);
        self.record(Stage::Done, owned("migration complete"), now);
        let retained_at = match o {
            RetainOutcome::RenamedAside { to, .. } => Some(to),
            _ => None,
        };
        self.set_phase(Phase::Complete { retained_at });
    }

    /// What the run asks for next.
    pub fn next(&self) -> (r: MigrateRequest)
        ensures
            r@ == self@.next(),
    {
        match &self.phase {
            Phase::Begin => MigrateRequest::Begin,
            Phase::Source => MigrateRequest::Exists { path: self.src.clone() },
            Phase::Destination => MigrateRequest::Exists { path: self.dst.clone() },
            Phase::Quiesce => MigrateRequest::Quiesce { dry_run: self.dry_run },
            Phase::MeasureCopy => MigrateRequest::Measure { path: self.src.clone() },
            Phase::MeasureVerify => MigrateRequest::Measure { path: self.src.clone() },
            Phase::Copy => MigrateRequest::Copy { src: self.src.clone(), dst: self.dst.clone() },
            Phase::Verify => MigrateRequest::Verify {
                src: self.src.clone(),
                dst: self.dst.clone(),
            },
            Phase::Rewrite => match &self.layout {
                Some(l) => match l.discovery {
                    HomeDirDiscovery::Symlink => MigrateRequest::RewriteSymlink {
                        src: self.src.clone(),
                        dst: self.dst.clone(),
                    },
                    HomeDirDiscovery::Config => MigrateRequest::RewriteConfig {
                        src: self.src.clone(),
                        dst: self.dst.clone(),
                    },
                    _ => MigrateRequest::RewriteEnv { dst: self.dst.clone() },
                },
                None => MigrateRequest::Finished,
            },
            Phase::Resume => MigrateRequest::Resume {
                action: self.resume_action.clone(),
                dry_run: self.dry_run,
            },
            Phase::ResumeFailed { .. } => MigrateRequest::UndoRewrite {
                outcome: self.rewrite_outcome.clone(),
            },
            Phase::Validate => MigrateRequest::Validate,
            Phase::ValidateFailed { .. } => MigrateRequest::UndoRewrite {
                outcome: self.rewrite_outcome.clone(),
            },
            Phase::Retain => MigrateRequest::Retain {
                src: self.src.clone(),
                outcome: self.rewrite_outcome.clone(),
            },
            Phase::RetainFailed { .. } => MigrateRequest::UndoRewrite {
                outcome: self.rewrite_outcome.clone(),
            },
            Phase::Complete { .. } => MigrateRequest::Finished,
            Phase::Aborted { .. } => MigrateRequest::Finished,
        }
    }

    /// The layout of the tool, if it declares one.
    pub fn layout(&self) -> (r: Option<&HomeDirLayout>)
        ensures
            match r {
                Some(l) => self@.layout == Some(l@),
                None => self@.layout is None,
            },
    {
        match &self.layout {
            Some(l) => Some(l),
            None => None,
        }
    }

    /// The outcome of the run, once it is over.
    pub fn outcome(&self) -> (r: Option<Result<MigrationResult, MigrateError>>)
        ensures
            match r {
                None => !self@.over(),
                Some(Ok(m)) => self@.phase is Complete && m@ == self@.result(),
                Some(Err(e)) => self@.phase == (PhaseView::Aborted { error: e@ }),
            },
    {
        match &self.phase {
            Phase::Complete { retained_at } => Some(
                Ok(
                    MigrationResult {
                        tool_name: self.tool_name.clone(),
                        src: self.src.clone(),
                        dst: self.dst.clone(),
                        dry_run: self.dry_run,
                        final_stage: Stage::Done,
                        success: true,
                        events: copy_list(&self.events),
                        error: None,
                        resume_action: self.resume_action.clone(),
                        rewrite_outcome: Some(self.rewrite_outcome.clone()),
                        retained_at: copy_opt(retained_at),
                    },
                ),
            ),
            Phase::Aborted { error } => Some(Err(error.clone())),
            _ => None,
        }
    }

    /// The events recorded so far.
    pub fn events(&self) -> (r: &Vec<MigrationEvent>)
        ensures
            views(r@) == self@.events,
    {
        &self.events
    }
}

fn no_clean_up() -> (r: Vec<CleanUp>)
    ensures
        views(r@) == Seq::<CleanUpView>::empty(),
{
    let r: Vec<CleanUp> = Vec::new();
    assert(views(r@) =~= Seq::<CleanUpView>::empty());
    r
}

fn stop_again() -> (r: Vec<CleanUp>)
    ensures
        views(r@) == seq![CleanUpView::Quiesce],
{
    let mut r: Vec<CleanUp> = Vec::new();
    r.push(CleanUp::Quiesce);
    assert(views(r@) =~= seq![CleanUpView::Quiesce]);
    r
}

/// Take a reply into account: record the stage, move on, and name the clean-up
/// that is due at once.
#[verifier::rlimit(60)]
pub fn migrate_with_backends(run: &mut MigrationRun, reply: MigrateReply, now: u64) -> (clean_up:
    Vec<CleanUp>)
    requires
        old(run).well_formed(),
    ensures
        (final(run)@, views(clean_up@)) == old(run)@.advance(reply@, now),
        final(run).well_formed(),
{
    match (&run.phase, reply) {
        (Phase::Begin, MigrateReply::Begin) => {
            run.record(Stage::Preflight, owned("begin preflight"), now);
            match &run.layout {
                None => {
                    let error = MigrateError::NoLayout(run.tool_name.clone());
                    run.set_phase(Phase::Aborted { error });
                },
                Some(l) => match l.discovery {
                    HomeDirDiscovery::Compile => run.set_phase(
                        Phase::Aborted { error: MigrateError::CompileBaked },
                    ),
                    _ => run.set_phase(Phase::Source),
                },
            }
            no_clean_up()
        },
        (Phase::Source, MigrateReply::Exists(b)) => {
            if b {
                run.set_phase(Phase::Destination);
            } else {
                let error = MigrateError::SourceMissing(run.src.clone());
                run.set_phase(Phase::Aborted { error });
            }
            no_clean_up()
        },
        (Phase::Destination, MigrateReply::Exists(b)) => {
            if b {
                let error = MigrateError::DestinationExists(run.dst.clone());
                run.set_phase(Phase::Aborted { error });
            } else {
                match &run.layout {
                    Some(l) => {
                        let detail = owned("preflight ok: discovery=").concat(
                            discovery_name(l.discovery),
                        ).concat(", src=").concat(&run.src).concat(", dst=").concat(&run.dst);
                        run.record(Stage::Preflight, detail, now);
                        run.record(
                            Stage::Snapshot,
                            owned("snapshot stage stubbed; no btrfs detection yet"),
                            now,
                        );
                        run.set_phase(Phase::Quiesce);
                    },
                    None => {},
                }
            }
            no_clean_up()
        },
        (Phase::Quiesce, MigrateReply::Quiesced(q)) => {
            match q {
                Err(error) => run.set_phase(Phase::Aborted { error }),
                Ok((o, a)) => match &run.layout {
                    Some(l) => {
                        let detail = quiesce_detail(&o, l);
                        run.resume_action = a;
                        run.record(Stage::Quiesce, detail, now);
                        if run.dry_run {
                            run.set_phase(Phase::MeasureCopy);
                        } else {
                            run.set_phase(Phase::Copy);
                        }
                    },
                    None => {},
                },
            }
            no_clean_up()
        },
        (Phase::MeasureCopy, MigrateReply::Measured { files, bytes }) => {
            let what = describe_copy(&run.src, &run.dst, files, bytes);
            run.record(Stage::Copy, owned("dry-run: would ").concat(&what), now);
            run.set_phase(Phase::MeasureVerify);
            no_clean_up()
        },
        (Phase::MeasureVerify, MigrateReply::Measured { files, bytes }) => {
            match &run.layout {
                Some(l) => {
                    let rewrite = rewritten_detail(
                        &RewriteOutcome::DryRunSkipped,
                        l,
                        &run.src,
                        &run.dst,
                    );
                    let verify = owned("dry-run: source has ").concat(
                        &decimal_len(files),
                    ).concat(" files, ").concat(&decimal(bytes)).concat(" bytes total");
                    run.rewrite_outcome = RewriteOutcome::DryRunSkipped;
                    run.record(Stage::Verify, verify, now);
                    run.record(Stage::Rewrite, rewrite, now);
                    run.set_phase(Phase::Resume);
                },
                None => {},
            }
            no_clean_up()
        },
        (Phase::Copy, MigrateReply::Copied(c)) => match c {
            Ok(s) => {
                let detail = copied_detail(&s, &run.dst);
                run.record(Stage::Copy, detail, now);
                run.set_phase(Phase::Verify);
                no_clean_up()
            },
            Err(error) => {
                let due = run.abort_clean_up();
                run.record(
                    Stage::Copy,
                    owned("copy failed and partial dst removed: ").concat(&error.message()),
                    now,
                );
                run.set_phase(Phase::Aborted { error });
                due
            },
        },
        (Phase::Verify, MigrateReply::Verified(v)) => match v {
            Ok(o) => {
                if o.matches {
                    run.record(Stage::Verify, verified_detail(&o), now);
                    run.set_phase(Phase::Rewrite);
                    no_clean_up()
                } else {
                    let due = run.abort_clean_up();
                    run.record(Stage::Verify, mismatch_detail(&o), now);
                    let error = MigrateError::StageFailed(Stage::Verify, mismatch_detail(&o));
                    run.set_phase(Phase::Aborted { error });
                    due
                }
            },
            Err(error) => {
                let due = run.abort_clean_up();
                run.set_phase(Phase::Aborted { error });
                due
            },
        },
        (Phase::Rewrite, MigrateReply::Rewritten(w)) => match w {
            Ok(o) => {
                match &run.layout {
                    Some(l) => {
                        let detail = rewritten_detail(&o, l, &run.src, &run.dst);
                        run.rewrite_outcome = o;
                        run.record(Stage::Rewrite, detail, now);
                        run.set_phase(Phase::Resume);
                    },
                    None => {},
                }
                no_clean_up()
            },
            Err(error) => {
                let due = run.abort_clean_up();
                run.set_phase(Phase::Aborted { error });
                due
            },
        },
        (Phase::Resume, MigrateReply::Resumed(x)) => {
            match x {
                Ok(()) => {
                    let detail = resumed_detail(&run.resume_action, run.dry_run);
                    run.record(Stage::Resume, detail, now);
                    if run.dry_run {
                        match &run.layout {
                            Some(l) => {
                                let validate = would_validate_detail(l);
                                run.record(Stage::Validate, validate, now);
                                run.complete(RetainOutcome::DryRunSkipped, now);
                            },
                            None => {},
                        }
                    } else {
                        run.set_phase(Phase::Validate);
                    }
                },
                Err(error) => run.set_phase(Phase::ResumeFailed { error }),
            }
            no_clean_up()
        },
        (Phase::ResumeFailed { error }, MigrateReply::Undone(u)) => {
            let error = error.clone();
            match u {
                Ok(()) => {},
                Err(e) => run.record(
                    Stage::Resume,
                    owned("Resume failed AND undo of Rewrite failed: ").concat(&e.message()),
                    now,
                ),
            }
            let due = run.remove_copy();
            run.set_phase(Phase::Aborted { error });
            due
        },
        (Phase::Validate, MigrateReply::Validated(v)) => match v {
            Ok(o) => {
                run.record(Stage::Validate, validated_detail(&o), now);
                run.set_phase(Phase::Retain);
                no_clean_up()
            },
            Err(error) => {
                run.set_phase(Phase::ValidateFailed { error });
                stop_again()
            },
        },
        (Phase::ValidateFailed { error }, MigrateReply::Undone(u)) => {
            let error = error.clone();
            match u {
                Ok(()) => run.record(
                    Stage::Validate,
                    owned("validate failed: ").concat(&error.message()).concat(
                        "; rolled back Rewrite",
                    ),
                    now,
                ),
                Err(e) => run.record(
                    Stage::Validate,
                    owned("Validate failed AND undo of Rewrite failed: ").concat(&e.message()),
                    now,
                ),
            }
            let due = run.remove_copy();
            run.set_phase(Phase::Aborted { error });
            due
        },
        (Phase::Retain, MigrateReply::Retained(t)) => match t {
            Ok(o) => {
                run.complete(o, now);
                no_clean_up()
            },
            Err(error) => {
                run.set_phase(Phase::RetainFailed { error });
                stop_again()
            },
        },
        (Phase::RetainFailed { error }, MigrateReply::Undone(u)) => {
            let error = error.clone();
            match u {
                Ok(()) => run.record(
                    Stage::Retain,
                    owned("retain failed: ").concat(&error.message()).concat(
                        "; rolled back Rewrite",
                    ),
                    now,
                ),
                Err(e) => run.record(
                    Stage::Retain,
                    owned("Retain failed AND undo of Rewrite failed: ").concat(&e.message()),
                    now,
                ),
            }
            let due = run.remove_copy();
            run.set_phase(Phase::Aborted { error });
            due
        },
        _ => no_clean_up(),
    }
}

/// What the backends say to a request of a run, or nothing to a request that
/// is none of theirs.
pub open spec fn backed<Q: Quiescer, W: EnvWriter>(
    run: MigrationRun,
    quiescer: &Q,
    env_writer: &W,
    r: Option<MigrateReply>,
) -> bool {
    match (run@.next(), run@.layout) {
        (RequestView::Quiesce { dry_run }, Some(l)) => exists|
            layout: &HomeDirLayout,
            said: Result<(QuiesceOutcome, ResumeAction), MigrateError>,
        |
            layout@ == l && #[trigger] call_ensures(Q::quiesce, (quiescer, layout, dry_run), said)
                && r == Some(MigrateReply::Quiesced(said)),
        (RequestView::Resume { action, dry_run }, _) => exists|
            due: &ResumeAction,
            said: Result<(), MigrateError>,
        |
            due@ == action && #[trigger] call_ensures(Q::resume, (quiescer, due, dry_run), said)
                && r == Some(MigrateReply::Resumed(said)),
        (RequestView::RewriteEnv { dst }, Some(l)) => exists|
            layout: &HomeDirLayout,
            to: &str,
            said: Result<RewriteOutcome, MigrateError>,
        |
            layout@ == l && to@ == dst && #[trigger] call_ensures(
                rewrite_via_env::<W>,
                (layout, to, env_writer),
                said,
            ) && r == Some(MigrateReply::Rewritten(said)),
        _ => r is None,
    }
}

/// The replies that the backends can give: to bring the tool to rest, to bring
/// it back up, and to set its environment variable. Other requests are left to
/// whoever drives the run.
pub fn migrate_with<Q: Quiescer, W: EnvWriter>(run: &MigrationRun, quiescer: &Q, env_writer: &W) -> (r:
    Option<MigrateReply>)
    ensures
        backed(*run, quiescer, env_writer, r),
{
    match run.next() {
        MigrateRequest::Quiesce { dry_run } => match &run.layout {
            Some(l) => {
                let said = quiescer.quiesce(l, dry_run);
                assert(call_ensures(Q::quiesce, (quiescer, l, dry_run), said));
                Some(MigrateReply::Quiesced(said))
            },
            None => None,
        },
        MigrateRequest::Resume { action, dry_run } => {
            let due = &action;
            let said = quiescer.resume(due, dry_run);
            assert(call_ensures(Q::resume, (quiescer, due, dry_run), said));
            Some(MigrateReply::Resumed(said))
        },
        MigrateRequest::RewriteEnv { dst } => match &run.layout {
            Some(l) => {
                let to: &str = dst.as_str();
                let said = rewrite_via_env(l, to, env_writer);
                assert(call_ensures(rewrite_via_env::<W>, (l, to, env_writer), said));
                Some(MigrateReply::Rewritten(said))
            },
            None => None,
        },
        _ => None,
    }
}

} // verus!

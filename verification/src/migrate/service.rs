//! Bringing services to rest and back up, and setting their environment.
use vstd::prelude::*;

use crate::migrate::steps::{Answer, Op, Plan, Reply, Request, Step};
use crate::migrate::types::{
    EnvOverrideRecord, ErrorView, MigrateError, QuiesceOutcome, QuiescedView, RecordView,
    ResumeAction, ResumeView, RewriteOutcome, RewriteView, Stage,
};
use crate::paths::{join_path, joined};
use crate::text::{
    contains, dec_int, decimal_signed, has, join, join_all, lower, opt_view, owned, same, to_lower,
    trim, trimmed, views,
};
use crate::tools::{HomeDirLayout, LayoutView, QuiesceView};

verus! {

/// Stops and starts whatever holds a tool's data open.
pub trait Quiescer {
    /// Stop the unit that the layout declares. A dry run stops nothing.
    fn quiesce(&self, layout: &HomeDirLayout, dry_run: bool) -> Result<
        (QuiesceOutcome, ResumeAction),
        MigrateError,
    >;

    /// Do what brings the tool back up. A dry run starts nothing.
    fn resume(&self, action: &ResumeAction, dry_run: bool) -> Result<(), MigrateError>;
}

/// Sets the environment variable that a tool reads.
pub trait EnvWriter {
    /// Install an override for the unit that the layout declares. A dry run
    /// writes nothing and returns no record.
    fn install(&self, layout: &HomeDirLayout, env_var: &str, value: &str, dry_run: bool) -> Result<
        Option<EnvOverrideRecord>,
        MigrateError,
    >;

    /// Remove an override; that it is gone already is no error.
    fn uninstall(&self, record: &EnvOverrideRecord, dry_run: bool) -> Result<(), MigrateError>;
}

/// The unit of a layout, with its scope; the user's unit is preferred.
pub open spec fn declared_unit(q: QuiesceView) -> Option<(Seq<char>, Seq<char>)> {
    match q.user {
        Some(u) => Some(("user"@, u)),
        None => match q.system {
            Some(u) => Some(("system"@, u)),
            None => None,
        },
    }
}

/// The arguments that make the service manager apply `verb` in a scope.
pub open spec fn scoped_args(scope: Seq<char>, verb: Seq<Seq<char>>) -> Seq<Seq<char>> {
    if scope == "user"@ {
        seq!["--user"@] + verb
    } else {
        verb
    }
}

fn unit_of(layout: &HomeDirLayout) -> (r: Option<(String, String)>)
    ensures
        match r {
            Some((s, u)) => declared_unit(layout@.quiesce) == Some((s@, u@)),
            None => declared_unit(layout@.quiesce) is None,
        },
{
    match &layout.quiesce.systemd_user_unit {
        Some(u) => Some((owned("user"), u.clone())),
        None => match &layout.quiesce.systemd_system_unit {
            Some(u) => Some((owned("system"), u.clone())),
            None => None,
        },
    }
}

fn args_for_unit(scope: &str, verb: &str, unit: &str) -> (r: Vec<String>)
    ensures
        views(r@) == scoped_args(scope@, seq![verb@, unit@]),
{
    let mut r: Vec<String> = Vec::new();
    if same(scope, "user") {
        r.push(owned("--user"));
    }
    r.push(owned(verb));
    r.push(owned(unit));
    assert(views(r@) =~= scoped_args(scope@, seq![verb@, unit@]));
    r
}

fn reload_args(scope: &str) -> (r: Vec<String>)
    ensures
        views(r@) == scoped_args(scope@, seq!["daemon-reload"@]),
{
    let mut r: Vec<String> = Vec::new();
    if same(scope, "user") {
        r.push(owned("--user"));
    }
    r.push(owned("daemon-reload"));
    assert(views(r@) =~= scoped_args(scope@, seq!["daemon-reload"@]));
    r
}

/// A failed call of the service manager.
#[derive(Debug)]
pub struct SystemctlFail {
    pub code: Option<i32>,
    pub stderr: String,
}

/// The result of a call, from what the process left behind.
pub fn systemctl(success: bool, code: Option<i32>, stderr: &str) -> (r: Result<(), SystemctlFail>)
    ensures
        r is Ok == success,
        r matches Err(f) ==> f.code == code && f.stderr@ == trimmed(stderr@),
{
    if success {
        Ok(())
    } else {
        Err(SystemctlFail { code, stderr: trim(stderr) })
    }
}

/// The message about a failed call.
pub open spec fn systemctl_text(
    args: Seq<Seq<char>>,
    code: Option<i32>,
    stderr: Seq<char>,
) -> Seq<char> {
    "systemctl "@ + join(args, " "@) + " exited "@ + dec_int(
        match code {
            Some(c) => c as int,
            None => -1,
        },
    ) + ": "@ + stderr
}

/// A call of the service manager, as a stage that may fail.
pub fn run_systemctl(args: &Vec<String>, reply: Result<(), SystemctlFail>) -> (r: Result<
    (),
    MigrateError,
>)
    ensures
        r is Ok == reply is Ok,
        r matches Err(e) ==> e@ == ErrorView::StageFailed(
            Stage::Quiesce,
            systemctl_text(views(args@), reply->Err_0.code, reply->Err_0.stderr@),
        ),
{
    match reply {
        Ok(()) => Ok(()),
        Err(f) => Err(
            MigrateError::StageFailed(Stage::Quiesce, systemctl_message(args, f.code, &f.stderr)),
        ),
    }
}

fn systemctl_message(args: &Vec<String>, code: Option<i32>, stderr: &str) -> (r: String)
    ensures
        r@ == systemctl_text(views(args@), code, stderr@),
{
    let c: i64 = match code {
        Some(c) => c as i64,
        None => -1,
    };
    owned("systemctl ").concat(&join_all(args, " ")).concat(" exited ").concat(
        &decimal_signed(c),
    ).concat(": ").concat(stderr)
}

/// The failure means that the unit is not known on this host.
pub open spec fn unit_absent(code: Option<i32>, stderr: Seq<char>) -> bool {
    let s = lower(stderr);
    ||| code == Some(5i32)
    ||| has(s, "not loaded"@)
    ||| has(s, "no such unit"@)
    ||| has(s, "not found"@)
    ||| has(s, "unit file"@) && has(s, "does not exist"@)
}

/// The failure of a stop means that there is nothing to stop; permission and
/// bus failures do not.
pub fn is_unit_absent_failure(code: Option<i32>, stderr: &str) -> (r: bool)
    ensures
        r == unit_absent(code, stderr@),
{
    match code {
        Some(c) => {
            if c == 5 {
                return true;
            }
        },
        None => {},
    }
    let s = to_lower(stderr);
    contains(&s, "not loaded") || contains(&s, "no such unit") || contains(&s, "not found") || (
    contains(&s, "unit file") && contains(&s, "does not exist"))
}

/// The three outcomes of stopping a declared unit: stopped, with the start
/// that undoes it; absent, with nothing to undo; or a failure.
pub fn stop_unit_classified(scope: &str, unit: &str, reply: Result<(), SystemctlFail>) -> (r:
    Result<(QuiesceOutcome, ResumeAction), MigrateError>)
    ensures
        match reply {
            Ok(()) => r matches Ok((o, a)) && o@ == (QuiescedView::UnitStopped {
                scope: scope@,
                unit: unit@,
            }) && a@ == (ResumeView::StartUnit { scope: scope@, unit: unit@ }),
            Err(f) => if unit_absent(f.code, f.stderr@) {
                r matches Ok((o, a)) && o@ == (QuiescedView::UnitAbsent {
                    scope: scope@,
                    unit: unit@,
                }) && a@ == ResumeView::Nothing
            } else {
                r matches Err(e) && e@ == ErrorView::StageFailed(
                    Stage::Quiesce,
                    systemctl_text(
                        scoped_args(scope@, seq!["stop"@, unit@]),
                        f.code,
                        f.stderr@,
                    ),
                )
            },
        },
{
    match reply {
        Ok(()) => Ok(
            (
                QuiesceOutcome::UnitStopped { scope: owned(scope), unit: owned(unit) },
                ResumeAction::StartUnit { scope: owned(scope), unit: owned(unit) },
            ),
        ),
        Err(f) => {
            if is_unit_absent_failure(f.code, &f.stderr) {
                Ok(
                    (
                        QuiesceOutcome::UnitAbsent { scope: owned(scope), unit: owned(unit) },
                        ResumeAction::Nothing,
                    ),
                )
            } else {
                let args = args_for_unit(scope, "stop", unit);
                Err(
                    MigrateError::StageFailed(
                        Stage::Quiesce,
                        systemctl_message(&args, f.code, &f.stderr),
                    ),
                )
            }
        },
    }
}

/// The decisions of the backend that talks to systemd.
pub struct SystemdQuiescer;

impl SystemdQuiescer {
    /// The call that brings the tool to rest, if there is anything to stop.
    pub fn stop_command(layout: &HomeDirLayout, dry_run: bool) -> (r: Option<Vec<String>>)
        ensures
            match r {
                Some(args) => declared_unit(layout@.quiesce) matches Some((s, u)) && !dry_run
                    && views(args@) == scoped_args(s, seq!["stop"@, u]),
                None => dry_run || declared_unit(layout@.quiesce) is None,
            },
    {
        if dry_run {
            return None;
        }
        match unit_of(layout) {
            Some((scope, unit)) => Some(args_for_unit(&scope, "stop", &unit)),
            None => None,
        }
    }

    /// What came of it. Where no call was due, `reply` plays no part.
    pub fn quiesce(layout: &HomeDirLayout, dry_run: bool, reply: Result<(), SystemctlFail>) -> (r:
        Result<(QuiesceOutcome, ResumeAction), MigrateError>)
        ensures
            dry_run ==> (r matches Ok((o, a)) && o@ == QuiescedView::DryRunSkipped && a@
                == ResumeView::Nothing),
            !dry_run && declared_unit(layout@.quiesce) is None ==> (r matches Ok((o, a)) && o@
                == QuiescedView::NoUnitWarning && a@ == ResumeView::Nothing),
            !dry_run ==> (declared_unit(layout@.quiesce) matches Some((s, u)) ==> match reply {
                Ok(()) => r matches Ok((o, a)) && o@ == (QuiescedView::UnitStopped {
                    scope: s,
                    unit: u,
                }) && a@ == (ResumeView::StartUnit { scope: s, unit: u }),
                Err(f) => if unit_absent(f.code, f.stderr@) {
                    r matches Ok((o, a)) && o@ == (QuiescedView::UnitAbsent { scope: s, unit: u })
                        && a@ == ResumeView::Nothing
                } else {
                    r matches Err(e) && e@ == ErrorView::StageFailed(
                        Stage::Quiesce,
                        systemctl_text(
                            scoped_args(s, seq!["stop"@, u]),
                            f.code,
                            f.stderr@,
                        ),
                    )
                },
            }),
    {
        if dry_run {
            return Ok((QuiesceOutcome::DryRunSkipped, ResumeAction::Nothing));
        }
        match unit_of(layout) {
            Some((scope, unit)) => stop_unit_classified(&scope, &unit, reply),
            None => Ok((QuiesceOutcome::NoUnitWarning, ResumeAction::Nothing)),
        }
    }

    /// The call that brings the tool back up, if anything was stopped.
    pub fn resume(action: &ResumeAction, dry_run: bool) -> (r: Option<Vec<String>>)
        ensures
            match r {
                Some(args) => action@ matches ResumeView::StartUnit { scope, unit } && !dry_run
                    && views(args@) == scoped_args(scope, seq!["start"@, unit]),
                None => dry_run || action@ == ResumeView::Nothing,
            },
    {
        if dry_run {
            return None;
        }
        match action {
            ResumeAction::StartUnit { scope, unit } => Some(args_for_unit(scope, "start", unit)),
            ResumeAction::Nothing => None,
        }
    }
}

/// What a stop brought down, the resume action starts again: the call is the
/// same but for the verb.
pub proof fn lemma_resume_undoes_stop(scope: Seq<char>, unit: Seq<char>)
    ensures
        ({
            let stop = scoped_args(scope, seq!["stop"@, unit]);
            scoped_args(scope, seq!["start"@, unit]) == stop.update(stop.len() - 2, "start"@)
        }),
{
    let stop = scoped_args(scope, seq!["stop"@, unit]);
    assert(scoped_args(scope, seq!["start"@, unit]) =~= stop.update(stop.len() - 2, "start"@));
}

/// The message when there is no unit to set an environment variable for.
pub open spec fn no_unit_text() -> Seq<char> {
    "discovery = \"env\" requires `quiesce.systemd_user_unit` or `quiesce.systemd_system_unit` to be declared in the layout. Without a unit there is no safe place to set the env var; set the var manually in your shell rc and re-run with --dry-run to walk the rest of the state machine."@
}

/// The unit whose environment is set, with its scope.
pub fn pick_unit(layout: &HomeDirLayout) -> (r: Result<(String, String), MigrateError>)
    ensures
        match declared_unit(layout@.quiesce) {
            Some((s, u)) => r matches Ok((scope, unit)) && scope@ == s && unit@ == u,
            None => r matches Err(e) && e@ == ErrorView::StageFailed(
                Stage::Rewrite,
                no_unit_text(),
            ),
        },
{
    match unit_of(layout) {
        Some(x) => Ok(x),
        None => Err(
            MigrateError::StageFailed(
                Stage::Rewrite,
                owned(
                    "discovery = \"env\" requires `quiesce.systemd_user_unit` or `quiesce.systemd_system_unit` to be declared in the layout. Without a unit there is no safe place to set the env var; set the var manually in your shell rc and re-run with --dry-run to walk the rest of the state machine.",
                ),
            ),
        ),
    }
}

/// The directory of the drop-ins of a unit.
pub open spec fn drop_in_dir(scope: Seq<char>, unit: Seq<char>, home: Option<Seq<char>>) -> Option<
    Seq<char>,
> {
    let name = unit + ".d"@;
    if scope == "user"@ {
        match home {
            Some(h) => Some(joined(joined(h, ".config/systemd/user"@), name)),
            None => None,
        }
    } else {
        Some(joined("/etc/systemd/system"@, name))
    }
}

/// The directory of the drop-ins of a unit; the user's lies below the home directory.
pub fn drop_in_dir_for(scope: &str, unit: &str, home: &Option<String>) -> (r: Result<
    String,
    MigrateError,
>)
    ensures
        match drop_in_dir(scope@, unit@, opt_view(*home)) {
            Some(d) => r matches Ok(p) && p@ == d,
            None => r matches Err(e) && e@ == ErrorView::StageFailed(
                Stage::Rewrite,
                "HOME is unset; cannot resolve user-scope systemd drop-in directory"@,
            ),
        },
{
    let name = owned(unit).concat(".d");
    if same(scope, "user") {
        match home {
            Some(h) => {
                let base = join_path(h, ".config/systemd/user");
                Ok(join_path(&base, &name))
            },
            None => Err(
                MigrateError::StageFailed(
                    Stage::Rewrite,
                    owned("HOME is unset; cannot resolve user-scope systemd drop-in directory"),
                ),
            ),
        }
    } else {
        Ok(join_path("/etc/systemd/system", &name))
    }
}

/// The decisions of the backend that writes systemd drop-ins.
pub struct SystemdEnvWriter;

/// The file that holds the override.
pub open spec fn drop_in_file(dir: Seq<char>) -> Seq<char> {
    joined(dir, "sessionguard-migrate.conf"@)
}

/// What the installation of an override does after the answers `seen`: create
/// the directory, refuse to overwrite, write, reload; when the reload fails
/// the file is removed again.
pub open spec fn install_plan(
    layout: LayoutView,
    env_var: Seq<char>,
    value: Seq<char>,
    dry_run: bool,
    home: Option<Seq<char>>,
    seen: Seq<Answer>,
) -> Plan<Option<RecordView>> {
    if dry_run {
        Plan::Give(None)
    } else {
        match declared_unit(layout.quiesce) {
            None => Plan::Fail(ErrorView::StageFailed(Stage::Rewrite, no_unit_text())),
            Some((scope, unit)) => match drop_in_dir(scope, unit, home) {
                None => Plan::Fail(
                    ErrorView::StageFailed(
                        Stage::Rewrite,
                        "HOME is unset; cannot resolve user-scope systemd drop-in directory"@,
                    ),
                ),
                Some(dir) => {
                    let path = drop_in_file(dir);
                    let args = scoped_args(scope, seq!["daemon-reload"@]);
                    if seen.len() == 0 {
                        Plan::Ask(Op::CreateDirs { path: dir })
                    } else if !seen[0].fine() {
                        Plan::Fail(ErrorView::Io(seen[0].complaint()))
                    } else if seen.len() == 1 {
                        Plan::Ask(Op::Exists { path })
                    } else if seen[1] == Answer::Yes {
                        Plan::Fail(
                            ErrorView::StageFailed(
                                Stage::Rewrite,
                                "drop-in `"@ + path
                                    + "` already exists; another migrate may be in flight or an earlier one didn't clean up. Remove it manually and retry."@,
                            ),
                        )
                    } else if seen.len() == 2 {
                        Plan::Ask(
                            Op::Write {
                                path,
                                text: "[Service]\nEnvironment="@ + env_var + "="@ + value + "\n"@,
                            },
                        )
                    } else if !seen[2].fine() {
                        Plan::Fail(ErrorView::Io(seen[2].complaint()))
                    } else if seen.len() == 3 {
                        Plan::Ask(Op::Systemctl { args })
                    } else if seen[3].fine() {
                        Plan::Give(
                            Some(
                                RecordView { scope, unit, drop_in_path: path, env_var, value },
                            ),
                        )
                    } else if seen.len() == 4 {
                        Plan::Ask(Op::RemoveFile { path })
                    } else {
                        Plan::Fail(
                            ErrorView::StageFailed(
                                Stage::Quiesce,
                                systemctl_text(args, exit_code(seen[3]), seen[3].complaint()),
                            ),
                        )
                    }
                },
            },
        }
    }
}

/// The exit code of a program that failed.
pub open spec fn exit_code(a: Answer) -> Option<i32> {
    match a {
        Answer::Exited { code, .. } => code,
        _ => None,
    }
}

fn code_of(r: &Reply) -> (c: Option<i32>)
    ensures
        c == exit_code(r@),
{
    match r {
        Reply::Exited { code, .. } => *code,
        _ => None,
    }
}

/// An optional record, as the outcome of an installation.
#[derive(Debug, PartialEq, Eq)]
pub struct Installed {
    pub record: Option<EnvOverrideRecord>,
}

impl View for Installed {
    type V = Option<RecordView>;

    open spec fn view(&self) -> Option<RecordView> {
        opt_view(self.record)
    }
}

impl SystemdEnvWriter {
    /// The next step of an installation.
    pub fn install(
        layout: &HomeDirLayout,
        env_var: &str,
        value: &str,
        dry_run: bool,
        home: &Option<String>,
        seen: &Vec<Reply>,
    ) -> (r: Step<Installed>)
        ensures
            r@ == install_plan(layout@, env_var@, value@, dry_run, opt_view(*home), views(seen@)),
    {
        let ghost s = views(seen@);
        assert(forall|i: int| 0 <= i < seen@.len() ==> #[trigger] s[i] == seen@[i]@);
        if dry_run {
            return Step::Give(Installed { record: None });
        }
        let (scope, unit) = match pick_unit(layout) {
            Ok(x) => x,
            Err(e) => {
                return Step::Fail(e);
            },
        };
        let dir = match drop_in_dir_for(&scope, &unit, home) {
            Ok(d) => d,
            Err(e) => {
                return Step::Fail(e);
            },
        };
        let path = join_path(&dir, "sessionguard-migrate.conf");
        let args = reload_args(&scope);
        if seen.len() == 0 {
            return Step::Ask(Request::CreateDirs { path: dir });
        }
        if !seen[0].ok() {
            return Step::Fail(MigrateError::Io(seen[0].why()));
        }
        if seen.len() == 1 {
            return Step::Ask(Request::Exists { path });
        }
        if seen[1].yes() {
            return Step::Fail(
                MigrateError::StageFailed(
                    Stage::Rewrite,
                    owned("drop-in `").concat(&path).concat(
                        "` already exists; another migrate may be in flight or an earlier one didn't clean up. Remove it manually and retry.",
                    ),
                ),
            );
        }
        if seen.len() == 2 {
            let text = owned("[Service]\nEnvironment=").concat(env_var).concat("=").concat(
                value,
            ).concat("\n");
            return Step::Ask(Request::Write { path, text });
        }
        if !seen[2].ok() {
            return Step::Fail(MigrateError::Io(seen[2].why()));
        }
        if seen.len() == 3 {
            return Step::Ask(Request::Systemctl { args });
        }
        if seen[3].ok() {
            return Step::Give(
                Installed {
                    record: Some(
                        EnvOverrideRecord {
                            scope,
                            unit,
                            drop_in_path: path,
                            env_var: owned(env_var),
                            value: owned(value),
                        },
                    ),
                },
            );
        }
        if seen.len() == 4 {
            return Step::Ask(Request::RemoveFile { path });
        }
        Step::Fail(
            MigrateError::StageFailed(
                Stage::Quiesce,
                systemctl_message(&args, code_of(&seen[3]), &seen[3].why()),
            ),
        )
    }

    /// The next step of a removal: the file goes if it is there, then the
    /// service manager reloads, whatever comes of that.
    pub fn uninstall(record: &EnvOverrideRecord, dry_run: bool, seen: &Vec<Reply>) -> (r: Step<()>)
        ensures
            r@ == uninstall_plan(record@, dry_run, views(seen@)),
    {
        let ghost s = views(seen@);
        assert(forall|i: int| 0 <= i < seen@.len() ==> #[trigger] s[i] == seen@[i]@);
        if dry_run {
            return Step::Give(());
        }
        if seen.len() == 0 {
            return Step::Ask(Request::Exists { path: record.drop_in_path.clone() });
        }
        let there = seen[0].yes();
        if there {
            if seen.len() == 1 {
                return Step::Ask(Request::RemoveFile { path: record.drop_in_path.clone() });
            }
            if !seen[1].ok() {
                return Step::Fail(MigrateError::Io(seen[1].why()));
            }
        }
        let due: usize = if there { 2 } else { 1 };
        if seen.len() == due {
            return Step::Ask(Request::Systemctl { args: reload_args(&record.scope) });
        }
        Step::Give(())
    }
}

/// What the removal of an override does after the answers `seen`.
pub open spec fn uninstall_plan(record: RecordView, dry_run: bool, seen: Seq<Answer>) -> Plan<()> {
    let reload = Op::Systemctl { args: scoped_args(record.scope, seq!["daemon-reload"@]) };
    if dry_run {
        Plan::Give(())
    } else if seen.len() == 0 {
        Plan::Ask(Op::Exists { path: record.drop_in_path })
    } else if seen[0] == Answer::Yes {
        if seen.len() == 1 {
            Plan::Ask(Op::RemoveFile { path: record.drop_in_path })
        } else if !seen[1].fine() {
            Plan::Fail(ErrorView::Io(seen[1].complaint()))
        } else if seen.len() == 2 {
            Plan::Ask(reload)
        } else {
            Plan::Give(())
        }
    } else if seen.len() == 1 {
        Plan::Ask(reload)
    } else {
        Plan::Give(())
    }
}

/// An override that is installed and then removed leaves no file behind: the
/// file that the removal asks about is the file that the installation wrote.
pub proof fn lemma_uninstall_undoes_install(
    layout: LayoutView,
    env_var: Seq<char>,
    value: Seq<char>,
    home: Option<Seq<char>>,
    seen: Seq<Answer>,
)
    requires
        seen.len() >= 4,
        install_plan(layout, env_var, value, false, home, seen) is Give,
    ensures
        ({
            let written = install_plan(layout, env_var, value, false, home, seen.take(2));
            let record = (install_plan(layout, env_var, value, false, home, seen)->Give_0)->0;
            &&& written matches Plan::Ask(Op::Write { path, text })
            &&& uninstall_plan(record, false, Seq::empty()) == Plan::<()>::Ask(Op::Exists { path })
            &&& uninstall_plan(record, false, seq![Answer::Yes]) == Plan::<()>::Ask(
                Op::RemoveFile { path },
            )
        }),
{
    assert(seen.take(2)[0] == seen[0]);
    assert(seen.take(2)[1] == seen[1]);
}

/// What an installation means for the rewrite.
pub open spec fn env_outcome(
    installed: Result<Option<EnvOverrideRecord>, MigrateError>,
    r: Result<RewriteOutcome, MigrateError>,
) -> bool {
    match installed {
        Ok(Some(rec)) => r matches Ok(o) && o@ == (RewriteView::EnvOverridden { record: rec@ }),
        Ok(None) => r matches Err(e) && e@ == ErrorView::StageFailed(
            Stage::Rewrite,
            "env writer returned no record on a non-dry-run install"@,
        ),
        Err(e) => r == Err::<RewriteOutcome, MigrateError>(e),
    }
}

/// Point the tool's environment variable at `dst`. What the writer makes of it
/// decides.
pub fn rewrite_via_env<W: EnvWriter>(layout: &HomeDirLayout, dst: &str, env_writer: &W) -> (r:
    Result<RewriteOutcome, MigrateError>)
    ensures
        match layout@.env_var {
            None => r matches Err(e) && e@ == ErrorView::StageFailed(
                Stage::Rewrite,
                "discovery = \"env\" but `env_var` is not declared in the layout"@,
            ),
            Some(v) => exists|name: &str, made: Result<Option<EnvOverrideRecord>, MigrateError>|
                name@ == v && #[trigger] call_ensures(
                    W::install,
                    (env_writer, layout, name, dst, false),
                    made,
                ) && env_outcome(made, r),
        },
{
    match &layout.env_var {
        None => Err(
            MigrateError::StageFailed(
                Stage::Rewrite,
                owned("discovery = \"env\" but `env_var` is not declared in the layout"),
            ),
        ),
        Some(v) => {
            let name: &str = v.as_str();
            let made = env_writer.install(layout, name, dst, false);
            assert(call_ensures(W::install, (env_writer, layout, name, dst, false), made));
            env_rewritten(made)
        },
    }
}

/// What an installation means for the rewrite.
pub fn env_rewritten(installed: Result<Option<EnvOverrideRecord>, MigrateError>) -> (r: Result<
    RewriteOutcome,
    MigrateError,
>)
    ensures
        env_outcome(installed, r),
{
    match installed {
        Ok(Some(record)) => Ok(RewriteOutcome::EnvOverridden { record }),
        Ok(None) => Err(
            MigrateError::StageFailed(
                Stage::Rewrite,
                owned("env writer returned no record on a non-dry-run install"),
            ),
        ),
        Err(e) => Err(e),
    }
}

} // verus!

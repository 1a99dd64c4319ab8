use sessionguard::migrate::copy::{
    link_failed, permissions_failed,
    copy_tree, copy_tree_inner, remap_symlink_target, tally_copy, verify_copy, walk_size, CopyStep,
    EntryKind, TreeEntry,
};
use sessionguard::migrate::rewrite::{
    retain_source, rewrite_via_config, rewrite_via_symlink, run_validate, undo_rewrite,
    ValidateSeen, ValidateStep,
};
use sessionguard::migrate::run::CleanUp;
use sessionguard::migrate::service::{
    drop_in_dir_for, is_unit_absent_failure, pick_unit, rewrite_via_env, run_systemctl,
    stop_unit_classified, systemctl,
};
use sessionguard::migrate::steps::{Reply, Request, Step};
use sessionguard::migrate::undo::{
    cleanup_migration, undo_migration, CleanupReport, MigrationUndoReport, PathState, Removal,
    UndoReply, UndoRequest, UndoStep,
};
use sessionguard::migrate::{
    migrate, migrate_with, migrate_with_backends, CopySummary, EnvOverrideRecord, EnvWriter,
    MigrateError, MigrateReply, MigrateRequest, MigrationResult, MigrationUndo, QuiesceOutcome,
    Quiescer, ResumeAction, RetainOutcome, RewriteOutcome, Stage, SystemdEnvWriter,
    SystemdQuiescer, ValidateOutcome, VerifyOutcome,
};
use sessionguard::reconciler::{rewrite_json_field, PathPair};
use sessionguard::tools::{
    HomeDirConfigFile, HomeDirDiscovery, HomeDirLayout, HomeDirQuiesce, HomeDirValidate,
    ReconcileStrategy, ToolDefinition,
};
use std::cell::RefCell;
use std::collections::BTreeMap;

fn tool(discovery: HomeDirDiscovery, env_var: Option<&str>, unit: Option<&str>) -> ToolDefinition {
    ToolDefinition {
        name: "testtool".to_string(),
        display_name: "Test Tool".to_string(),
        session_patterns: vec![],
        path_fields: vec![],
        on_move: ReconcileStrategy::Notify,
        version: None,
        binary: None,
        home_dir_layout: Some(HomeDirLayout {
            default_path: "/tmp/ignored".to_string(),
            discovery,
            env_var: env_var.map(|s| s.to_string()),
            config_files: vec![],
            quiesce: HomeDirQuiesce {
                systemd_user_unit: unit.map(|s| s.to_string()),
                systemd_system_unit: None,
            },
            validate: HomeDirValidate::default(),
        }),
        session_store: None,
    }
}

fn layout_with(env_var: Option<&str>, user: Option<&str>, system: Option<&str>) -> HomeDirLayout {
    HomeDirLayout {
        default_path: "/ignored".into(),
        discovery: HomeDirDiscovery::Env,
        env_var: env_var.map(|s| s.to_string()),
        config_files: vec![],
        quiesce: HomeDirQuiesce {
            systemd_user_unit: user.map(|s| s.to_string()),
            systemd_system_unit: system.map(|s| s.to_string()),
        },
        validate: HomeDirValidate::default(),
    }
}

/// A quiescer that records what it is asked.
#[derive(Default)]
struct FakeQuiescer {
    calls: RefCell<Vec<String>>,
}

impl FakeQuiescer {
    fn calls(&self) -> Vec<String> {
        self.calls.borrow().clone()
    }
}

impl Quiescer for FakeQuiescer {
    fn quiesce(
        &self,
        layout: &HomeDirLayout,
        dry_run: bool,
    ) -> Result<(QuiesceOutcome, ResumeAction), MigrateError> {
        self.calls.borrow_mut().push(format!("quiesce(dry_run={dry_run})"));
        SystemdQuiescer::quiesce(layout, dry_run, Ok(()))
    }

    fn resume(&self, action: &ResumeAction, dry_run: bool) -> Result<(), MigrateError> {
        self.calls.borrow_mut().push(format!("resume({action:?}, dry_run={dry_run})"));
        Ok(())
    }
}

#[derive(Clone, Debug, PartialEq)]
enum Node {
    Dir,
    File(String),
    Link(String),
}

/// A file system in memory.
#[derive(Default)]
struct Disk {
    nodes: RefCell<BTreeMap<String, Node>>,
}

impl Disk {
    fn mkdir(&self, path: &str) {
        let mut at = String::new();
        for name in path.split('/').skip(1) {
            at.push('/');
            at.push_str(name);
            self.nodes.borrow_mut().entry(at.clone()).or_insert(Node::Dir);
        }
    }

    fn write(&self, path: &str, text: &str) {
        self.mkdir(path.rsplit_once('/').unwrap().0);
        self.nodes.borrow_mut().insert(path.into(), Node::File(text.into()));
    }

    fn link(&self, path: &str, target: &str) {
        self.nodes.borrow_mut().insert(path.into(), Node::Link(target.into()));
    }

    fn node(&self, path: &str) -> Option<Node> {
        self.nodes.borrow().get(path).cloned()
    }

    fn read(&self, path: &str) -> String {
        match self.node(path) {
            Some(Node::File(t)) => t,
            other => panic!("{path}: {other:?}"),
        }
    }

    /// Following a link at the very path.
    fn found(&self, path: &str) -> bool {
        match self.node(path) {
            Some(Node::Link(t)) => self.found(&t),
            other => other.is_some(),
        }
    }

    fn below(&self, path: &str) -> Vec<(String, Node)> {
        let prefix = format!("{path}/");
        self.nodes
            .borrow()
            .iter()
            .filter(|(p, _)| p.starts_with(&prefix))
            .map(|(p, n)| (p.clone(), n.clone()))
            .collect()
    }

    fn remove_tree(&self, path: &str) {
        for (p, _) in self.below(path) {
            self.nodes.borrow_mut().remove(&p);
        }
        self.nodes.borrow_mut().remove(path);
    }

    fn rename(&self, from: &str, to: &str) -> bool {
        match self.node(from) {
            None => false,
            Some(n) => {
                let inside = self.below(from);
                self.remove_tree(from);
                self.remove_tree(to);
                self.nodes.borrow_mut().insert(to.to_string(), n);
                for (p, n) in inside {
                    self.nodes.borrow_mut().insert(format!("{to}{}", &p[from.len()..]), n);
                }
                true
            }
        }
    }

    fn named(&self, part: &str) -> Vec<String> {
        let parent_level = |p: &String| {
            let (parent, name) = p.rsplit_once('/').unwrap();
            name.contains(part) && !parent.contains(part)
        };
        self.nodes.borrow().keys().filter(|p| parent_level(p)).cloned().collect()
    }

    fn tree(&self, root: &str) -> Vec<TreeEntry> {
        self.below(root)
            .into_iter()
            .filter_map(|(p, n)| {
                let rel = p[root.len() + 1..].to_string();
                match n {
                    Node::Dir => None,
                    Node::File(t) => Some(TreeEntry::File { rel, size: t.len() as u64 }),
                    Node::Link(target) => Some(TreeEntry::Link { rel, target }),
                }
            })
            .collect()
    }

    fn copy(&self, src: &str, dst: &str) -> Result<CopySummary, MigrateError> {
        let is_dir = self.node(src) == Some(Node::Dir);
        let mut summary = copy_tree(src, dst, self.found(dst), is_dir)?;
        self.mkdir(dst);
        for (p, n) in self.below(src) {
            let (parent, name) = p.rsplit_once('/').unwrap();
            let dst_dir = format!("{dst}{}", &parent[src.len()..]);
            let (kind, bytes) = match &n {
                Node::Dir => (EntryKind::Dir, 0),
                Node::File(t) => (EntryKind::File, t.len() as u64),
                Node::Link(t) => (EntryKind::Link { target: t.clone() }, 0),
            };
            let step = copy_tree_inner(&kind, name, &dst_dir, src, dst);
            match &step {
                CopyStep::Dir { path } => self.mkdir(path),
                CopyStep::File { path } => self.write(path, &self.read(&p)),
                CopyStep::Link { target, path } => self.link(path, target),
                CopyStep::Skip => {}
            }
            tally_copy(&mut summary, &step, bytes);
        }
        Ok(summary)
    }

    fn verify(&self, src: &str, dst: &str) -> VerifyOutcome {
        verify_copy(&self.tree(src), &self.tree(dst), src, dst)
    }

    fn perform<W: EnvWriter>(&self, request: &Request, env_writer: &W) -> Reply {
        let told = |b: bool| if b { Reply::Yes } else { Reply::No };
        match request {
            Request::Exists { path } => told(self.found(path)),
            Request::Present { path } => told(self.node(path).is_some()),
            Request::IsDir { path } => told(self.node(path) == Some(Node::Dir)),
            Request::CreateDirs { path } => {
                self.mkdir(path);
                Reply::Yes
            }
            Request::Write { path, text } => {
                self.write(path, text);
                Reply::Yes
            }
            Request::Rename { from, to } => {
                if self.rename(from, to) {
                    Reply::Yes
                } else {
                    Reply::Failed { message: "no such file".into() }
                }
            }
            Request::Symlink { target, link } => {
                self.link(link, target);
                Reply::Yes
            }
            Request::CopyFile { from, to } => match self.node(from) {
                Some(Node::File(t)) => {
                    self.write(to, &t);
                    Reply::Yes
                }
                _ => Reply::Failed { message: "no such file".into() },
            },
            Request::RemoveFile { path } | Request::RemoveTree { path } => {
                self.remove_tree(path);
                Reply::Yes
            }
            Request::RewriteField { path, field, old, new, .. } => {
                let pairs = vec![PathPair::new(old, new)];
                match rewrite_json_field(path, &self.read(path), field, &pairs) {
                    Ok(Some(w)) => {
                        self.write(path, &w.text);
                        Reply::Yes
                    }
                    Ok(None) => Reply::No,
                    Err(e) => Reply::Failed { message: e.message() },
                }
            }
            Request::Systemctl { .. } => Reply::Yes,
            Request::Uninstall { record } => match env_writer.uninstall(record, false) {
                Ok(()) => Reply::Yes,
                Err(error) => Reply::Broken { error },
            },
        }
    }

    /// Take a procedure through all its requests.
    fn drive<T, W: EnvWriter>(
        &self,
        env_writer: &W,
        next: impl Fn(&Vec<Reply>) -> Step<T>,
    ) -> Result<T, MigrateError> {
        let mut seen: Vec<Reply> = Vec::new();
        loop {
            match next(&seen) {
                Step::Ask(r) => seen.push(self.perform(&r, env_writer)),
                Step::Give(t) => return Ok(t),
                Step::Fail(e) => return Err(e),
            }
        }
    }
}

/// A writer of overrides whose files are on a disk in memory.
struct FakeEnvWriter<'a> {
    disk: &'a Disk,
    installs: RefCell<Vec<EnvOverrideRecord>>,
    uninstalls: RefCell<Vec<EnvOverrideRecord>>,
}

impl<'a> FakeEnvWriter<'a> {
    fn new(disk: &'a Disk) -> FakeEnvWriter<'a> {
        FakeEnvWriter { disk, installs: RefCell::new(vec![]), uninstalls: RefCell::new(vec![]) }
    }
}

impl<'a> EnvWriter for FakeEnvWriter<'a> {
    fn install(
        &self,
        layout: &HomeDirLayout,
        env_var: &str,
        value: &str,
        dry_run: bool,
    ) -> Result<Option<EnvOverrideRecord>, MigrateError> {
        let home = Some("/home/me".to_string());
        let made = self.disk.drive(self, |seen| {
            SystemdEnvWriter::install(layout, env_var, value, dry_run, &home, seen)
        })?;
        if let Some(r) = &made.record {
            self.installs.borrow_mut().push(r.clone());
        }
        Ok(made.record)
    }

    fn uninstall(&self, record: &EnvOverrideRecord, dry_run: bool) -> Result<(), MigrateError> {
        self.disk.drive(self, |seen| SystemdEnvWriter::uninstall(record, dry_run, seen))?;
        self.uninstalls.borrow_mut().push(record.clone());
        Ok(())
    }
}

const NOW: u64 = 1_700_000_000;

/// How a validation command ends.
fn validated(validate: &HomeDirValidate, exit: &str) -> Result<ValidateOutcome, MigrateError> {
    let mut seen = ValidateSeen::NotStarted;
    loop {
        match run_validate(validate, &seen) {
            ValidateStep::Spawn { argv } => {
                seen = match (argv[0].as_str(), exit) {
                    ("true", _) => {
                        ValidateSeen::Exited { success: true, code: Some(0), elapsed_ms: 3 }
                    }
                    ("false", _) => {
                        ValidateSeen::Exited { success: false, code: Some(1), elapsed_ms: 3 }
                    }
                    (_, "missing") => ValidateSeen::SpawnFailed { message: "not found".into() },
                    _ => ValidateSeen::Running { elapsed_ms: 0 },
                };
            }
            ValidateStep::Wait => {
                seen = match seen {
                    ValidateSeen::Running { elapsed_ms } => {
                        ValidateSeen::Running { elapsed_ms: elapsed_ms + 100 }
                    }
                    other => other,
                };
            }
            ValidateStep::Give(outcome) => return Ok(outcome),
            ValidateStep::Fail { error, .. } => return Err(error),
        }
    }
}

/// Take a migration through all its stages.
fn run<Q: Quiescer, W: EnvWriter>(
    disk: &Disk,
    t: &ToolDefinition,
    src: &str,
    dst: &str,
    dry_run: bool,
    quiescer: &Q,
    env_writer: &W,
) -> Result<MigrationResult, MigrateError> {
    let mut run = migrate(t, src, dst, dry_run);
    loop {
        if let Some(result) = run.outcome() {
            return result;
        }
        let backed = migrate_with(&run, quiescer, env_writer);
        let reply = match (backed, run.next()) {
            (Some(reply), _) => reply,
            (None, MigrateRequest::Begin) => MigrateReply::Begin,
            (None, MigrateRequest::Exists { path }) => MigrateReply::Exists(disk.found(&path)),
            (None, MigrateRequest::Measure { path }) => {
                let (files, bytes) = walk_size(&disk.tree(&path));
                MigrateReply::Measured { files, bytes }
            }
            (None, MigrateRequest::Copy { src, dst }) => MigrateReply::Copied(disk.copy(&src, &dst)),
            (None, MigrateRequest::Verify { src, dst }) => {
                MigrateReply::Verified(Ok(disk.verify(&src, &dst)))
            }
            (None, MigrateRequest::RewriteSymlink { src, dst }) => MigrateReply::Rewritten(
                disk.drive(env_writer, |seen| rewrite_via_symlink(&src, &dst, NOW, seen)),
            ),
            (None, MigrateRequest::RewriteConfig { src, dst }) => {
                let files = run.layout().unwrap().config_files.clone();
                MigrateReply::Rewritten(disk.drive(env_writer, |seen| {
                    rewrite_via_config(&files, &None, &src, &dst, NOW, seen)
                }))
            }
            (None, MigrateRequest::Validate) => {
                MigrateReply::Validated(validated(&run.layout().unwrap().validate, "running"))
            }
            (None, MigrateRequest::UndoRewrite { outcome }) => {
                MigrateReply::Undone(disk.drive(env_writer, |seen| undo_rewrite(&outcome, seen)))
            }
            (None, MigrateRequest::Retain { src, outcome }) => MigrateReply::Retained(
                disk.drive(env_writer, |seen| retain_source(&src, &outcome, NOW, seen)),
            ),
            (None, other) => panic!("{other:?}"),
        };
        for due in migrate_with_backends(&mut run, reply, NOW) {
            match due {
                CleanUp::RemoveCopy { dst } => disk.remove_tree(&dst),
                CleanUp::Resume { action, dry_run } => {
                    let _ = quiescer.resume(&action, dry_run);
                }
                CleanUp::Quiesce => {
                    let _ = quiescer.quiesce(run.layout().unwrap(), false);
                }
            }
        }
    }
}

fn simple(disk: &Disk, t: &ToolDefinition, src: &str, dst: &str, dry: bool) -> Result<MigrationResult, MigrateError> {
    run(disk, t, src, dst, dry, &FakeQuiescer::default(), &FakeEnvWriter::new(disk))
}

fn undo<W: EnvWriter>(
    disk: &Disk,
    plan: &MigrationUndo,
    layout: &HomeDirLayout,
    dry_run: bool,
    quiescer: &FakeQuiescer,
    env_writer: &W,
) -> Result<MigrationUndoReport, MigrateError> {
    let mut seen: Vec<UndoReply> = Vec::new();
    let told = |b: bool| if b { UndoReply::Yes } else { UndoReply::No };
    loop {
        let request = match undo_migration(plan, dry_run, &seen) {
            UndoStep::Ask(r) => r,
            UndoStep::Give(report) => return Ok(report),
            UndoStep::Fail(e) => return Err(e),
        };
        seen.push(match request {
            UndoRequest::Quiesce { dry_run } => match quiescer.quiesce(layout, dry_run) {
                Ok((_, action)) => UndoReply::Quiesced { action },
                Err(error) => UndoReply::Failed { error },
            },
            UndoRequest::UndoRewrite { outcome } => {
                match disk.drive(env_writer, |s| undo_rewrite(&outcome, s)) {
                    Ok(()) => UndoReply::Yes,
                    Err(error) => UndoReply::Failed { error },
                }
            }
            UndoRequest::Exists { path } => told(disk.found(&path)),
            UndoRequest::Rename { from, to } => told(disk.rename(&from, &to)),
            UndoRequest::RemoveTree { path } => {
                disk.remove_tree(&path);
                UndoReply::Yes
            }
            UndoRequest::Resume { action, dry_run } => {
                match quiescer.resume(&action, dry_run) {
                    Ok(()) => UndoReply::Yes,
                    Err(error) => UndoReply::Failed { error },
                }
            }
        });
    }
}

fn clean(disk: &Disk, plan: &MigrationUndo, dry_run: bool) -> CleanupReport {
    let paths = plan.preserved_paths();
    let seen: Vec<PathState> = paths
        .iter()
        .map(|p| {
            let node = disk.node(p);
            let bytes = |n: &Node| match n {
                Node::File(t) => t.len() as u64,
                _ => 0,
            };
            PathState {
                exists: disk.found(p),
                is_symlink: matches!(node, Some(Node::Link(_))),
                is_dir: matches!(node, Some(Node::Dir)),
                tree_bytes: disk.below(p).iter().map(|(_, n)| bytes(n)).sum(),
                own_bytes: node.as_ref().map(bytes),
            }
        })
        .collect();
    let (report, removals) = cleanup_migration(plan, &seen, dry_run);
    for (path, removal) in paths.iter().zip(removals) {
        if removal != Removal::Keep {
            disk.remove_tree(path);
        }
    }
    report
}

// Refusals.

fn refuses_tool_without_layout() {
    let mut t = tool(HomeDirDiscovery::Symlink, None, None);
    t.home_dir_layout = None;
    let disk = Disk::default();
    disk.mkdir("/src");
    let err = simple(&disk, &t, "/src", "/src/does-not-exist-dst", true).unwrap_err();
    assert!(matches!(err, MigrateError::NoLayout(_)));
}

fn refuses_compile_baked_discovery() {
    let t = tool(HomeDirDiscovery::Compile, None, None);
    let disk = Disk::default();
    disk.write("/src/a.txt", "hi");
    let err = simple(&disk, &t, "/src", "/src/dst-that-does-not-exist", true).unwrap_err();
    assert!(matches!(err, MigrateError::CompileBaked));
}

fn refuses_missing_source() {
    let t = tool(HomeDirDiscovery::Symlink, None, None);
    let err = simple(&Disk::default(), &t, "/tmp/nope", "/tmp/dst", true).unwrap_err();
    assert!(matches!(err, MigrateError::SourceMissing(_)));
}

fn refuses_existing_destination() {
    let t = tool(HomeDirDiscovery::Symlink, None, None);
    let disk = Disk::default();
    disk.write("/src/a.txt", "hi");
    disk.mkdir("/dst");
    let err = simple(&disk, &t, "/src", "/dst", true).unwrap_err();
    assert!(matches!(err, MigrateError::DestinationExists(_)), "got {err:?}");
}

fn dry_run_walks_every_implemented_stage_in_order() {
    let t = tool(HomeDirDiscovery::Env, Some("TEST_HOME"), None);
    let disk = Disk::default();
    disk.write("/src/a.txt", "first");
    disk.write("/src/nested/b.bin", &"\0".repeat(64));
    disk.write("/src/nested/deep/c.dat", "three");
    let result = simple(&disk, &t, "/src", "/d/not-yet-existing", true).unwrap();
    assert!(result.success);
    assert_eq!(result.final_stage, Stage::Done);
    assert!(result.dry_run);
    let mut unique: Vec<Stage> = Vec::new();
    for e in &result.events {
        if !unique.contains(&e.stage) {
            unique.push(e.stage);
        }
    }
    assert_eq!(
        unique,
        vec![
            Stage::Preflight,
            Stage::Snapshot,
            Stage::Quiesce,
            Stage::Copy,
            Stage::Verify,
            Stage::Rewrite,
            Stage::Resume,
            Stage::Validate,
            Stage::Retain,
            Stage::Done,
        ]
    );
    assert!(!disk.found("/d/not-yet-existing"), "nothing was copied");
}

fn dry_run_quiesce_records_systemd_unit_intent() {
    let t = tool(HomeDirDiscovery::Symlink, None, Some("testtool.service"));
    let disk = Disk::default();
    disk.write("/src/x", "y");
    let result = simple(&disk, &t, "/src", "/d/new", true).unwrap();
    let quiesce_event = result
        .events
        .iter()
        .find(|e| e.stage == Stage::Quiesce)
        .expect("quiesce event present");
    assert!(
        quiesce_event.detail.contains("testtool.service"),
        "detail = {}",
        quiesce_event.detail
    );
}

fn with_fake_quiescer_records_dry_run_skipped() {
    let t = tool(HomeDirDiscovery::Symlink, None, Some("anything.service"));
    let disk = Disk::default();
    disk.write("/src/a", "b");
    let fake = FakeQuiescer::default();
    let result = run(&disk, &t, "/src", "/d", true, &fake, &FakeEnvWriter::new(&disk)).unwrap();
    let calls = fake.calls();
    assert_eq!(calls.len(), 2, "quiesce+resume called once each: {calls:?}");
    assert!(calls[0].contains("quiesce(dry_run=true"));
    assert!(calls[1].contains("resume(") && calls[1].contains("dry_run=true"));
    assert_eq!(result.resume_action, ResumeAction::Nothing);
}

#[test]
fn migrate_refuses_tool_without_layout() {
    refuses_tool_without_layout();
}

#[test]
fn tests_refuses_tool_without_layout() {
    refuses_tool_without_layout();
}

#[test]
fn migrate_refuses_compile_baked_discovery() {
    refuses_compile_baked_discovery();
}

#[test]
fn tests_refuses_compile_baked_discovery() {
    refuses_compile_baked_discovery();
}

#[test]
fn migrate_refuses_missing_source() {
    refuses_missing_source();
}

#[test]
fn tests_refuses_missing_source() {
    refuses_missing_source();
}

#[test]
fn migrate_refuses_existing_destination() {
    refuses_existing_destination();
}

#[test]
fn tests_refuses_existing_destination() {
    refuses_existing_destination();
}

#[test]
fn migrate_dry_run_walks_every_implemented_stage_in_order() {
    dry_run_walks_every_implemented_stage_in_order();
}

#[test]
fn tests_dry_run_walks_every_implemented_stage_in_order() {
    dry_run_walks_every_implemented_stage_in_order();
}

#[test]
fn migrate_dry_run_quiesce_records_systemd_unit_intent() {
    dry_run_quiesce_records_systemd_unit_intent();
}

#[test]
fn tests_dry_run_quiesce_records_systemd_unit_intent() {
    dry_run_quiesce_records_systemd_unit_intent();
}

#[test]
fn migrate_migrate_with_fake_quiescer_records_dry_run_skipped() {
    with_fake_quiescer_records_dry_run_skipped();
}

#[test]
fn tests_migrate_with_fake_quiescer_records_dry_run_skipped() {
    with_fake_quiescer_records_dry_run_skipped();
}

// Quiescing.

fn returns_user_unit_when_layout_declares_one() {
    let layout = layout_with(None, Some("dropbox.service"), None);
    let fake = FakeQuiescer::default();
    let (outcome, resume) = fake.quiesce(&layout, false).unwrap();
    match outcome {
        QuiesceOutcome::UnitStopped { scope, unit } => {
            assert_eq!(scope, "user");
            assert_eq!(unit, "dropbox.service");
        }
        other => panic!("expected UnitStopped, got {other:?}"),
    }
    match resume {
        ResumeAction::StartUnit { scope, unit } => {
            assert_eq!(scope, "user");
            assert_eq!(unit, "dropbox.service");
        }
        other => panic!("expected StartUnit, got {other:?}"),
    }
}

fn prefers_user_over_system_when_both_declared() {
    let layout = layout_with(None, Some("user.service"), Some("system.service"));
    let fake = FakeQuiescer::default();
    let (outcome, _) = fake.quiesce(&layout, false).unwrap();
    match outcome {
        QuiesceOutcome::UnitStopped { unit, .. } => assert_eq!(unit, "user.service"),
        other => panic!("expected user-scope UnitStopped, got {other:?}"),
    }
}

fn falls_through_to_system_when_only_system_declared() {
    let layout = layout_with(None, None, Some("nginx.service"));
    let fake = FakeQuiescer::default();
    let (outcome, resume) = fake.quiesce(&layout, false).unwrap();
    match outcome {
        QuiesceOutcome::UnitStopped { scope, unit } => {
            assert_eq!(scope, "system");
            assert_eq!(unit, "nginx.service");
        }
        other => panic!("expected system-scope UnitStopped, got {other:?}"),
    }
    assert!(matches!(resume, ResumeAction::StartUnit { .. }));
}

fn returns_warning_for_unitless_tool() {
    let layout = layout_with(None, None, None);
    let fake = FakeQuiescer::default();
    let (outcome, resume) = fake.quiesce(&layout, false).unwrap();
    assert_eq!(outcome, QuiesceOutcome::NoUnitWarning);
    assert_eq!(resume, ResumeAction::Nothing);
}

#[test]
fn migrate_fake_quiescer_returns_user_unit_when_layout_declares_one() {
    returns_user_unit_when_layout_declares_one();
}

#[test]
fn tests_fake_quiescer_returns_user_unit_when_layout_declares_one() {
    returns_user_unit_when_layout_declares_one();
}

#[test]
fn migrate_fake_quiescer_prefers_user_over_system_when_both_declared() {
    prefers_user_over_system_when_both_declared();
}

#[test]
fn tests_fake_quiescer_prefers_user_over_system_when_both_declared() {
    prefers_user_over_system_when_both_declared();
}

#[test]
fn migrate_fake_quiescer_falls_through_to_system_when_only_system_declared() {
    falls_through_to_system_when_only_system_declared();
}

#[test]
fn tests_fake_quiescer_falls_through_to_system_when_only_system_declared() {
    falls_through_to_system_when_only_system_declared();
}

#[test]
fn migrate_fake_quiescer_returns_warning_for_unitless_tool() {
    returns_warning_for_unitless_tool();
}

#[test]
fn tests_fake_quiescer_returns_warning_for_unitless_tool() {
    returns_warning_for_unitless_tool();
}

#[test]
fn unit_absent_failures_are_classified_benign() {
    assert!(is_unit_absent_failure(Some(5), ""));
    assert!(is_unit_absent_failure(
        Some(1),
        "Failed to stop opencode.service: Unit opencode.service not loaded."
    ));
    assert!(is_unit_absent_failure(Some(1), "Unit codex.service not found."));
    assert!(is_unit_absent_failure(None, "Unit file opencode.service does not exist."));
    assert!(is_unit_absent_failure(Some(1), "NO SUCH UNIT"));
}

#[test]
fn real_failures_are_not_classified_benign() {
    assert!(!is_unit_absent_failure(
        Some(1),
        "Failed to stop opencode.service: Access denied"
    ));
    assert!(!is_unit_absent_failure(
        Some(1),
        "Failed to connect to bus: No such file or directory"
    ));
    assert!(!is_unit_absent_failure(None, "permission denied"));
}

#[test]
fn stopping_is_judged_by_what_the_service_manager_says() {
    let said = systemctl(false, Some(1), " Unit x.service not loaded.\n");
    let (outcome, resume) = stop_unit_classified("user", "x.service", said).unwrap();
    assert!(matches!(outcome, QuiesceOutcome::UnitAbsent { .. }));
    assert_eq!(resume, ResumeAction::Nothing);
    let refused = systemctl(false, Some(1), "Access denied");
    let err = stop_unit_classified("user", "x.service", refused).unwrap_err();
    assert!(matches!(err, MigrateError::StageFailed(Stage::Quiesce, _)));
    assert!(err.message().contains("Access denied"));
    let layout = layout_with(None, Some("x.service"), None);
    assert_eq!(
        SystemdQuiescer::stop_command(&layout, false).unwrap(),
        vec!["--user", "stop", "x.service"]
    );
    let action = ResumeAction::StartUnit { scope: "system".into(), unit: "y.service".into() };
    assert_eq!(SystemdQuiescer::resume(&action, false).unwrap(), vec!["start", "y.service"]);
    assert_eq!(SystemdQuiescer::resume(&action, true), None);
    assert!(run_systemctl(&vec!["start".into()], systemctl(true, Some(0), "")).is_ok());
    assert!(run_systemctl(&vec!["start".into()], systemctl(false, None, "x")).is_err());
}

#[test]
fn units_are_picked_and_their_overrides_placed() {
    assert!(pick_unit(&layout_with(None, None, None)).is_err());
    let home = Some("/home/me".to_string());
    assert_eq!(
        drop_in_dir_for("user", "x.service", &home).unwrap(),
        "/home/me/.config/systemd/user/x.service.d"
    );
    assert_eq!(
        drop_in_dir_for("system", "x.service", &None).unwrap(),
        "/etc/systemd/system/x.service.d"
    );
    assert!(drop_in_dir_for("user", "x.service", &None).is_err());
}

// Copying.

#[test]
fn copy_tree_copies_files_and_subdirs() {
    let disk = Disk::default();
    disk.write("/src/top.txt", "hello");
    disk.write("/src/sub/nested.bin", &"\0".repeat(1024));
    disk.write("/src/sub/deep/leaf.dat", "leaf");
    disk.write("/src/sub/another/x.json", "{\"k\":\"v\"}");
    let summary = disk.copy("/src", "/d/new-tree").unwrap();
    assert_eq!(summary.files_copied, 4);
    assert_eq!(summary.bytes_copied, 5 + 1024 + 4 + 9);
    assert!(summary.dirs_created >= 1);
    assert_eq!(disk.read("/d/new-tree/top.txt"), "hello");
    assert_eq!(disk.read("/d/new-tree/sub/another/x.json"), "{\"k\":\"v\"}");
}

#[test]
fn copy_tree_refuses_existing_destination() {
    let disk = Disk::default();
    disk.write("/src/a", "b");
    disk.mkdir("/dst");
    let err = disk.copy("/src", "/dst").unwrap_err();
    assert!(matches!(err, MigrateError::DestinationExists(_)));
    let no_dir = disk.copy("/src/a", "/new").unwrap_err();
    assert!(no_dir.message().contains("is not a directory"));
}

#[test]
fn copy_tree_recreates_relative_symlink() {
    let disk = Disk::default();
    disk.write("/src/real.txt", "data");
    disk.link("/src/link.txt", "real.txt");
    let summary = disk.copy("/src", "/out").unwrap();
    assert_eq!(summary.files_copied, 1, "only the regular file is a file");
    assert_eq!(summary.symlinks_copied, 1, "the symlink is recreated");
    assert_eq!(disk.node("/out/link.txt"), Some(Node::Link("real.txt".into())));
}

#[test]
fn copy_tree_remaps_absolute_symlink_into_source() {
    let disk = Disk::default();
    disk.write("/src/real.txt", "payload");
    disk.link("/src/abs.txt", "/src/real.txt");
    let summary = disk.copy("/src", "/out").unwrap();
    assert_eq!(summary.symlinks_copied, 1);
    assert_eq!(
        disk.node("/out/abs.txt"),
        Some(Node::Link("/out/real.txt".into())),
        "absolute target into src must be rebased onto dst"
    );
    assert_eq!(remap_symlink_target("/elsewhere/x", "/src", "/out"), "/elsewhere/x");
    assert_eq!(remap_symlink_target("/srcs/x", "/src", "/out"), "/srcs/x");
}

#[test]
fn copy_tree_recreates_symlinked_directory_and_dangling_link() {
    let disk = Disk::default();
    disk.write("/src/realdir/inner.txt", "x");
    disk.link("/src/dirlink", "realdir");
    disk.link("/src/dangling", "nowhere");
    let summary = disk.copy("/src", "/out").unwrap();
    assert_eq!(summary.files_copied, 1);
    assert_eq!(summary.symlinks_copied, 2, "dir-link and dangling recreated");
    assert_eq!(disk.node("/out/dirlink"), Some(Node::Link("realdir".into())));
    assert!(!disk.found("/out/dangling"), "dangling stays dangling");
    let v = disk.verify("/src", "/out");
    assert!(v.matches, "verify should match: {v:?}");
}

#[test]
fn verify_copy_returns_matches_for_clean_copy() {
    let disk = Disk::default();
    disk.write("/src/a.txt", "x");
    disk.write("/src/sub/b.txt", "yz");
    disk.write("/src/c.bin", &"\0".repeat(128));
    disk.copy("/src", "/out").unwrap();
    let outcome = disk.verify("/src", "/out");
    assert!(outcome.matches, "verify should match: {outcome:?}");
    assert_eq!(outcome.src_files, outcome.dst_files);
    assert_eq!(outcome.src_bytes, outcome.dst_bytes);
}

#[test]
fn verify_copy_detects_mismatch_when_file_removed() {
    let disk = Disk::default();
    disk.write("/src/keep", "k");
    disk.write("/src/drop", "d");
    disk.copy("/src", "/out").unwrap();
    disk.remove_tree("/out/drop");
    let outcome = disk.verify("/src", "/out");
    assert!(!outcome.matches, "verify must catch missing dst file");
    assert_eq!(outcome.src_files, 2);
    assert_eq!(outcome.dst_files, 1);
}

#[test]
fn verify_copy_catches_same_total_swap() {
    let disk = Disk::default();
    disk.write("/src/a", "12345");
    disk.write("/src/b", "xyz");
    disk.copy("/src", "/out").unwrap();
    disk.write("/out/a", "xyz");
    disk.write("/out/b", "12345");
    let outcome = disk.verify("/src", "/out");
    assert!(!outcome.matches, "per-file verify must catch a same-total size swap");
    assert!(!outcome.mismatches.is_empty(), "mismatches should name the offending files");
}

#[test]
fn verify_copy_accepts_remapped_in_tree_symlink() {
    let disk = Disk::default();
    disk.write("/src/real.txt", "hello");
    disk.link("/src/link.txt", "/src/real.txt");
    disk.copy("/src", "/out").unwrap();
    let outcome = disk.verify("/src", "/out");
    assert!(
        outcome.matches,
        "remapped in-tree symlink is correct, not a mismatch: {:?}",
        outcome.mismatches
    );
}

// Whole runs.

#[test]
fn migrate_real_run_symlink_discovery_completes_end_to_end() {
    let t = tool(HomeDirDiscovery::Symlink, None, None);
    let disk = Disk::default();
    disk.write("/p/src-dir/a.txt", "first");
    disk.write("/p/src-dir/nested/b.bin", &"\0".repeat(32));
    let result = simple(&disk, &t, "/p/src-dir", "/p/new-home", false).unwrap();
    assert!(result.success);
    assert_eq!(result.final_stage, Stage::Done);
    assert!(disk.found("/p/new-home/a.txt"));
    assert!(disk.found("/p/new-home/nested/b.bin"));
    assert_eq!(disk.node("/p/src-dir"), Some(Node::Link("/p/new-home".into())));
    assert_eq!(
        disk.named("src-dir.migrated-").len(),
        1,
        "exactly one .migrated-* sidecar should remain (never auto-deleted)"
    );
}

#[test]
fn rewrite_via_symlink_swaps_dir_for_symlink_and_preserves_original() {
    let disk = Disk::default();
    disk.write("/p/data/a", "original");
    disk.write("/p/new-home/a", "original");
    let ew = FakeEnvWriter::new(&disk);
    let outcome =
        disk.drive(&ew, |s| rewrite_via_symlink("/p/data", "/p/new-home", NOW, s)).unwrap();
    match outcome {
        RewriteOutcome::SymlinkInstalled { canonical, target, moved_aside: Some(aside) } => {
            assert_eq!(canonical, "/p/data");
            assert_eq!(target, "/p/new-home");
            assert_eq!(disk.node(&aside), Some(Node::Dir), "the aside is a directory");
            assert_eq!(disk.node("/p/data"), Some(Node::Link("/p/new-home".into())));
        }
        other => panic!("expected SymlinkInstalled, got {other:?}"),
    }
}

#[test]
fn rewrite_via_symlink_refuses_when_preserved_name_already_taken() {
    let disk = Disk::default();
    disk.mkdir("/p/data");
    disk.mkdir("/p/new-home");
    disk.mkdir(&format!("/p/data.migrated-{NOW}"));
    let ew = FakeEnvWriter::new(&disk);
    let err = disk
        .drive(&ew, |s| rewrite_via_symlink("/p/data", "/p/new-home", NOW, s))
        .unwrap_err();
    match err {
        MigrateError::StageFailed(Stage::Rewrite, msg) => {
            assert!(msg.contains("preserved name") && msg.contains("already exists"));
        }
        other => panic!("expected StageFailed(Rewrite, ...), got {other:?}"),
    }
    assert_eq!(disk.node("/p/data"), Some(Node::Dir), "canonical must not be modified on refusal");
}

#[test]
fn undo_rewrite_restores_original_directory() {
    let disk = Disk::default();
    disk.write("/p/data/a", "v1");
    disk.write("/p/new-home/a", "v1");
    let ew = FakeEnvWriter::new(&disk);
    let outcome =
        disk.drive(&ew, |s| rewrite_via_symlink("/p/data", "/p/new-home", NOW, s)).unwrap();
    assert!(matches!(disk.node("/p/data"), Some(Node::Link(_))));
    disk.drive(&ew, |s| undo_rewrite(&outcome, s)).unwrap();
    assert_eq!(disk.node("/p/data"), Some(Node::Dir));
    assert_eq!(disk.read("/p/data/a"), "v1");
}

#[test]
fn migrate_refuses_env_discovery_when_no_unit_declared() {
    let t = tool(HomeDirDiscovery::Env, Some("TEST_HOME"), None);
    let disk = Disk::default();
    disk.write("/src/a.txt", "hello");
    let err = simple(&disk, &t, "/src", "/d/new", false).unwrap_err();
    match err {
        MigrateError::StageFailed(Stage::Rewrite, msg) => {
            assert!(
                msg.contains("requires `quiesce.systemd_user_unit`"),
                "expected unit-required refusal, got: {msg}"
            );
        }
        other => panic!("expected StageFailed(Rewrite, ...), got {other:?}"),
    }
    assert!(!disk.found("/d/new"), "rollback must remove dst on Env refusal");
}

fn config_tool_json(config_path: &str, field: &str, data_dir: &str) -> ToolDefinition {
    let mut t = tool(HomeDirDiscovery::Config, None, None);
    let layout = t.home_dir_layout.as_mut().unwrap();
    layout.default_path = data_dir.into();
    layout.config_files = vec![config_file(config_path, field)];
    t
}

fn config_file(path: &str, field: &str) -> HomeDirConfigFile {
    HomeDirConfigFile { file: path.into(), field: field.into(), format: "json".into() }
}

#[test]
fn migrate_resumes_the_service_when_a_stage_aborts() {
    let disk = Disk::default();
    disk.write("/t/src/a.txt", "hi");
    disk.write("/t/config.json", "NOT VALID JSON {{{");
    let mut t = config_tool_json("/t/config.json", "data_dir", "/t/src");
    t.home_dir_layout.as_mut().unwrap().quiesce.systemd_user_unit = Some("svc.service".into());
    let fake = FakeQuiescer::default();
    let ew = FakeEnvWriter::new(&disk);
    let err = run(&disk, &t, "/t/src", "/t/dst", false, &fake, &ew).unwrap_err();
    assert!(matches!(err, MigrateError::StageFailed(Stage::Rewrite, _)));
    let calls = fake.calls();
    assert!(calls.iter().any(|c| c.starts_with("quiesce")), "should have quiesced");
    assert!(
        calls.iter().any(|c| c.starts_with("resume")),
        "must resume the unit after aborting; calls: {calls:?}"
    );
    assert!(!disk.found("/t/dst"), "aborted migration should leave no dst");
}

fn data_dir_in(disk: &Disk, path: &str) -> String {
    let v: serde_json::Value = serde_json::from_str(&disk.read(path)).unwrap();
    v["data_dir"].as_str().unwrap().to_string()
}

#[test]
fn rewrite_via_config_edits_field_and_backs_up_original() {
    let disk = Disk::default();
    disk.write("/t/config.json", r#"{"data_dir": "/t/data-old", "other": "untouched"}"#);
    let ew = FakeEnvWriter::new(&disk);
    let files = vec![config_file("/t/config.json", "data_dir")];
    let outcome = disk
        .drive(&ew, |s| rewrite_via_config(&files, &None, "/t/data-old", "/t/data-new", NOW, s))
        .unwrap();
    match &outcome {
        RewriteOutcome::ConfigEdited { backups } => {
            assert_eq!(backups.len(), 1);
            assert_eq!(backups[0].original, "/t/config.json");
            assert!(disk.read(&backups[0].backup).contains("/t/data-old"));
        }
        other => panic!("expected ConfigEdited, got {other:?}"),
    }
    assert_eq!(data_dir_in(&disk, "/t/config.json"), "/t/data-new");
    assert!(disk.read("/t/config.json").contains("untouched"));
}

#[test]
fn rewrite_via_config_fails_loud_when_field_missing() {
    let disk = Disk::default();
    disk.write("/t/config.json", r#"{"data_dir": "/some/unrelated/path"}"#);
    let ew = FakeEnvWriter::new(&disk);
    let files = vec![config_file("/t/config.json", "data_dir")];
    let err = disk
        .drive(&ew, |s| rewrite_via_config(&files, &None, "/t/data-old", "/t/data-new", NOW, s))
        .unwrap_err();
    match err {
        MigrateError::StageFailed(Stage::Rewrite, msg) => {
            assert!(
                msg.contains("did not contain"),
                "expected 'did not contain' refusal, got: {msg}"
            );
        }
        other => panic!("expected StageFailed(Rewrite,...), got {other:?}"),
    }
    assert!(disk.read("/t/config.json").contains("/some/unrelated/path"));
    assert!(
        disk.named(".sessionguard-backup-").is_empty(),
        "no backup sidecars must remain on failure"
    );
}

#[test]
fn rewrite_via_config_restores_earlier_files_when_later_one_fails() {
    let disk = Disk::default();
    disk.write("/t/first.json", r#"{"data_dir": "/t/data-old"}"#);
    let ew = FakeEnvWriter::new(&disk);
    let files = vec![
        config_file("/t/first.json", "data_dir"),
        config_file("/t/does-not-exist.json", "data_dir"),
    ];
    let err = disk
        .drive(&ew, |s| rewrite_via_config(&files, &None, "/t/data-old", "/t/data-new", NOW, s))
        .unwrap_err();
    assert!(matches!(err, MigrateError::StageFailed(Stage::Rewrite, _)));
    assert_eq!(
        data_dir_in(&disk, "/t/first.json"),
        "/t/data-old",
        "first file must be restored to pre-rewrite state"
    );
    assert!(
        disk.named(".sessionguard-backup-").is_empty(),
        "no backup sidecars must remain after rollback"
    );
}

#[test]
fn undo_rewrite_restores_config_backups() {
    let disk = Disk::default();
    disk.write("/t/config.json", r#"{"data_dir": "/t/data-old"}"#);
    let ew = FakeEnvWriter::new(&disk);
    let files = vec![config_file("/t/config.json", "data_dir")];
    let outcome = disk
        .drive(&ew, |s| rewrite_via_config(&files, &None, "/t/data-old", "/t/data-new", NOW, s))
        .unwrap();
    assert_eq!(data_dir_in(&disk, "/t/config.json"), "/t/data-new");
    disk.drive(&ew, |s| undo_rewrite(&outcome, s)).unwrap();
    assert_eq!(data_dir_in(&disk, "/t/config.json"), "/t/data-old");
    assert!(
        disk.named(".sessionguard-backup-").is_empty(),
        "undo should consume the backup sidecar"
    );
}

#[test]
fn migrate_with_config_discovery_completes_end_to_end() {
    let disk = Disk::default();
    disk.write("/t/data-src/a", "hello");
    disk.write("/t/tool.json", r#"{"data_dir": "/t/data-src"}"#);
    let t = config_tool_json("/t/tool.json", "data_dir", "/t/data-src");
    let result = simple(&disk, &t, "/t/data-src", "/t/data-dst", false).unwrap();
    assert!(result.success);
    assert_eq!(result.final_stage, Stage::Done);
    assert!(disk.found("/t/data-dst/a"));
    assert_eq!(data_dir_in(&disk, "/t/tool.json"), "/t/data-dst");
    assert!(!disk.found("/t/data-src"), "src should be renamed aside by Retain");
    assert_eq!(
        disk.named("data-src.migrated-").len(),
        1,
        "exactly one src sidecar should remain (never auto-deleted)"
    );
    assert_eq!(
        disk.named(".sessionguard-backup-").len(),
        1,
        "config backup sidecar should remain (kept for undo)"
    );
}

#[test]
fn migrate_config_discovery_refuses_when_no_config_files_declared() {
    let disk = Disk::default();
    disk.write("/t/src/a", "x");
    let t = tool(HomeDirDiscovery::Config, None, None);
    let err = simple(&disk, &t, "/t/src", "/t/dst", false).unwrap_err();
    match err {
        MigrateError::StageFailed(Stage::Rewrite, msg) => {
            assert!(
                msg.contains("no config_files declared"),
                "expected empty-config_files refusal, got: {msg}"
            );
        }
        other => panic!("expected StageFailed(Rewrite,...), got {other:?}"),
    }
    assert!(!disk.found("/t/dst"), "rollback must remove orphan dst");
}

#[test]
fn rewrite_via_env_writes_drop_in_with_correct_contents() {
    let disk = Disk::default();
    let layout = layout_with(Some("OPENCODE_HOME"), Some("opencode.service"), None);
    let ew = FakeEnvWriter::new(&disk);
    let outcome = rewrite_via_env(&layout, "/dst", &ew).unwrap();
    match &outcome {
        RewriteOutcome::EnvOverridden { record } => {
            assert_eq!(record.scope, "user");
            assert_eq!(record.unit, "opencode.service");
            assert_eq!(record.env_var, "OPENCODE_HOME");
            assert_eq!(record.value, "/dst");
            let body = disk.read(&record.drop_in_path);
            assert!(body.contains("[Service]"));
            assert!(body.contains("Environment=OPENCODE_HOME=/dst"));
        }
        other => panic!("expected EnvOverridden, got {other:?}"),
    }
    assert_eq!(ew.installs.borrow().len(), 1, "fake should have recorded one install");
}

#[test]
fn rewrite_via_env_prefers_user_over_system_scope() {
    let disk = Disk::default();
    let layout = layout_with(Some("FOO"), Some("user.service"), Some("system.service"));
    let outcome = rewrite_via_env(&layout, "/dst", &FakeEnvWriter::new(&disk)).unwrap();
    if let RewriteOutcome::EnvOverridden { record } = outcome {
        assert_eq!(record.scope, "user");
        assert_eq!(record.unit, "user.service");
    } else {
        panic!("expected EnvOverridden");
    }
}

#[test]
fn rewrite_via_env_falls_back_to_system_when_only_system_declared() {
    let disk = Disk::default();
    let layout = layout_with(Some("FOO"), None, Some("nginx.service"));
    let outcome = rewrite_via_env(&layout, "/dst", &FakeEnvWriter::new(&disk)).unwrap();
    if let RewriteOutcome::EnvOverridden { record } = outcome {
        assert_eq!(record.scope, "system");
        assert_eq!(record.unit, "nginx.service");
    } else {
        panic!("expected EnvOverridden");
    }
}

#[test]
fn rewrite_via_env_refuses_when_env_var_missing() {
    let disk = Disk::default();
    let layout = layout_with(None, Some("x.service"), None);
    let err = rewrite_via_env(&layout, "/dst", &FakeEnvWriter::new(&disk)).unwrap_err();
    match err {
        MigrateError::StageFailed(Stage::Rewrite, msg) => {
            assert!(
                msg.contains("`env_var` is not declared"),
                "expected env_var-missing message, got: {msg}"
            );
        }
        other => panic!("expected StageFailed, got {other:?}"),
    }
}

#[test]
fn undo_rewrite_removes_env_drop_in() {
    let disk = Disk::default();
    let layout = layout_with(Some("BAR"), Some("bar.service"), None);
    let ew = FakeEnvWriter::new(&disk);
    let outcome = rewrite_via_env(&layout, "/dst", &ew).unwrap();
    let drop_in = if let RewriteOutcome::EnvOverridden { ref record } = outcome {
        record.drop_in_path.clone()
    } else {
        panic!("expected EnvOverridden");
    };
    assert!(disk.found(&drop_in), "drop-in should exist before undo");
    disk.drive(&ew, |s| undo_rewrite(&outcome, s)).unwrap();
    assert!(!disk.found(&drop_in), "drop-in should be removed by undo");
    assert_eq!(ew.uninstalls.borrow().len(), 1, "fake should record one uninstall");
}

#[test]
fn migrate_with_env_discovery_completes_end_to_end() {
    let disk = Disk::default();
    disk.write("/t/src/a", "hi");
    let t = tool(HomeDirDiscovery::Env, Some("MYTOOL_HOME"), Some("mytool.service"));
    let ew = FakeEnvWriter::new(&disk);
    let result =
        run(&disk, &t, "/t/src", "/t/dst", false, &FakeQuiescer::default(), &ew).unwrap();
    assert!(result.success);
    assert_eq!(result.final_stage, Stage::Done);
    assert!(disk.found("/t/dst/a"));
    assert_eq!(ew.installs.borrow().len(), 1, "one install during Rewrite");
    assert!(ew.uninstalls.borrow().is_empty(), "no uninstall on a successful run");
    assert!(disk.found(&ew.installs.borrow()[0].drop_in_path));
    assert!(!disk.found("/t/src"));
    assert_eq!(disk.named("src.migrated-").len(), 1, "exactly one src sidecar should remain");
}

// Validation.

fn command(words: &[&str], timeout: u64) -> HomeDirValidate {
    HomeDirValidate {
        command: words.iter().map(|w| w.to_string()).collect(),
        timeout_seconds: Some(timeout),
    }
}

#[test]
fn validate_runs_command_and_succeeds_on_exit_zero() {
    match validated(&command(&["true"], 5), "").unwrap() {
        ValidateOutcome::Passed { command, .. } => assert_eq!(command, "true"),
        other => panic!("expected Passed, got {other:?}"),
    }
}

#[test]
fn validate_fails_on_nonzero_exit() {
    match validated(&command(&["false"], 5), "").unwrap_err() {
        MigrateError::StageFailed(Stage::Validate, msg) => {
            assert!(msg.contains("exited"));
        }
        other => panic!("expected StageFailed(Validate, ...), got {other:?}"),
    }
}

#[test]
fn validate_times_out_on_long_running_command() {
    match validated(&command(&["sleep", "30"], 1), "running").unwrap_err() {
        MigrateError::StageFailed(Stage::Validate, msg) => {
            assert!(msg.contains("timed out"), "got: {msg}");
        }
        other => panic!("expected StageFailed timeout, got {other:?}"),
    }
    let late = ValidateSeen::Running { elapsed_ms: 1_001 };
    assert!(matches!(
        run_validate(&command(&["sleep", "30"], 1), &late),
        ValidateStep::Fail { kill: true, .. }
    ));
}

#[test]
fn validate_skipped_when_no_command_declared() {
    let outcome = validated(&HomeDirValidate::default(), "").unwrap();
    assert_eq!(outcome, ValidateOutcome::Skipped);
}

#[test]
fn validate_reports_a_command_that_cannot_be_started() {
    let err = validated(&command(&["nope"], 1), "missing").unwrap_err();
    assert!(err.message().contains("not found"));
}

#[test]
fn validate_failure_rolls_back_full_migration() {
    let disk = Disk::default();
    disk.write("/p/src/a", "x");
    let mut t = tool(HomeDirDiscovery::Symlink, None, None);
    t.home_dir_layout.as_mut().unwrap().validate = command(&["false"], 5);
    let err = simple(&disk, &t, "/p/src", "/p/dst", false).unwrap_err();
    assert!(matches!(err, MigrateError::StageFailed(Stage::Validate, _)), "got {err:?}");
    assert!(!disk.found("/p/dst"), "rollback must remove dst on Validate fail");
    assert_eq!(disk.node("/p/src"), Some(Node::Dir));
    assert_eq!(disk.read("/p/src/a"), "x");
    assert!(
        disk.named(".migrated-").is_empty(),
        "Validate-failure rollback must remove .migrated-* sidecars"
    );
}

#[test]
fn retain_source_renames_src_for_config_discovery() {
    let disk = Disk::default();
    disk.write("/t/data/a", "v");
    let ew = FakeEnvWriter::new(&disk);
    let outcome = RewriteOutcome::ConfigEdited { backups: vec![] };
    match disk.drive(&ew, |s| retain_source("/t/data", &outcome, NOW, s)).unwrap() {
        RetainOutcome::RenamedAside { from, to } => {
            assert_eq!(from, "/t/data");
            assert!(disk.found(&to), "renamed-aside path should exist");
            assert!(!disk.found("/t/data"), "original src should be gone");
            assert!(to.rsplit_once('/').unwrap().1.contains(".migrated-"));
        }
        other => panic!("expected RenamedAside, got {other:?}"),
    }
}

#[test]
fn retain_source_is_noop_when_symlink_rewrite_already_preserved() {
    let disk = Disk::default();
    let ew = FakeEnvWriter::new(&disk);
    let outcome = RewriteOutcome::SymlinkInstalled {
        canonical: "/t/data".into(),
        target: "/t/dst".into(),
        moved_aside: Some("/t/data.migrated-99".into()),
    };
    match disk.drive(&ew, |s| retain_source("/t/data", &outcome, NOW, s)).unwrap() {
        RetainOutcome::PreservedInRewrite { aside } => assert_eq!(aside, "/t/data.migrated-99"),
        other => panic!("expected PreservedInRewrite, got {other:?}"),
    }
}

// What a dry run says.

fn dry_run_rewrite_detail(t: &ToolDefinition) -> String {
    let disk = Disk::default();
    disk.write("/src/a", "x");
    let result = simple(&disk, t, "/src", "/d/dst", true).unwrap();
    result
        .events
        .iter()
        .find(|e| e.stage == Stage::Rewrite)
        .expect("rewrite event present")
        .detail
        .clone()
}

#[test]
fn dry_run_detail_for_symlink_discovery_mentions_symlink() {
    let t = tool(HomeDirDiscovery::Symlink, None, None);
    let d = dry_run_rewrite_detail(&t);
    assert!(d.contains("would install symlink") && d.contains(" -> "), "got: {d}");
}

#[test]
fn dry_run_detail_for_config_discovery_mentions_config_files() {
    let t = config_tool_json("/t/c.json", "data_dir", "/old");
    let d = dry_run_rewrite_detail(&t);
    assert!(d.contains("would rewrite") && d.contains("config file"), "got: {d}");
    assert!(d.contains("data_dir"), "should name the field: {d}");
}

#[test]
fn dry_run_detail_for_env_discovery_mentions_systemd_drop_in() {
    let t = tool(HomeDirDiscovery::Env, Some("MYTOOL_HOME"), Some("mytool.service"));
    let d = dry_run_rewrite_detail(&t);
    assert!(d.contains("systemd drop-in"), "got: {d}");
    assert!(d.contains("--user mytool.service"), "got: {d}");
    assert!(d.contains("MYTOOL_HOME="), "got: {d}");
}

#[test]
fn dry_run_detail_for_env_discovery_without_unit_warns_real_run_would_refuse() {
    let t = tool(HomeDirDiscovery::Env, Some("X_HOME"), None);
    let d = dry_run_rewrite_detail(&t);
    assert!(d.contains("no unit declared"), "got: {d}");
    assert!(d.contains("would refuse"), "got: {d}");
}

// Undoing and cleaning up.

#[test]
fn undo_plan_is_none_for_dry_run() {
    let t = tool(HomeDirDiscovery::Symlink, None, None);
    let disk = Disk::default();
    disk.mkdir("/p/src-dir");
    let result = simple(&disk, &t, "/p/src-dir", "/p/new-home", true).unwrap();
    assert!(result.undo_plan().is_none(), "a dry-run migration is not reversible");
}

#[test]
fn undo_migration_symlink_round_trips() {
    let t = tool(HomeDirDiscovery::Symlink, None, None);
    let disk = Disk::default();
    disk.write("/p/src-dir/a.txt", "payload");
    let q = FakeQuiescer::default();
    let ew = FakeEnvWriter::new(&disk);
    let result = run(&disk, &t, "/p/src-dir", "/p/new-home", false, &q, &ew).unwrap();
    assert!(result.success);
    assert!(matches!(disk.node("/p/src-dir"), Some(Node::Link(_))));
    let plan = result.undo_plan().expect("a successful real migration should be reversible");
    let layout = t.home_dir_layout.as_ref().unwrap();
    let report = undo(&disk, &plan, layout, false, &q, &ew).unwrap();
    assert!(!report.dry_run);
    assert_eq!(disk.node("/p/src-dir"), Some(Node::Dir));
    assert_eq!(disk.read("/p/src-dir/a.txt"), "payload");
    assert!(!disk.found("/p/new-home"), "copy at dst should be removed by undo");
}

#[test]
fn undo_migration_config_round_trips() {
    let disk = Disk::default();
    disk.write("/t/data-src/a", "hello");
    disk.write("/t/tool.json", r#"{"data_dir": "/t/data-src"}"#);
    let t = config_tool_json("/t/tool.json", "data_dir", "/t/data-src");
    let q = FakeQuiescer::default();
    let ew = FakeEnvWriter::new(&disk);
    let result = run(&disk, &t, "/t/data-src", "/t/data-dst", false, &q, &ew).unwrap();
    assert!(result.success);
    assert!(!disk.found("/t/data-src"), "src renamed aside by Retain after migrate");
    let plan = result.undo_plan().expect("config migration is reversible");
    undo(&disk, &plan, t.home_dir_layout.as_ref().unwrap(), false, &q, &ew).unwrap();
    assert!(disk.found("/t/data-src"), "src should be restored by undo");
    assert_eq!(disk.read("/t/data-src/a"), "hello");
    assert_eq!(data_dir_in(&disk, "/t/tool.json"), "/t/data-src");
    assert!(!disk.found("/t/data-dst"), "copy at dst should be removed by undo");
}

#[test]
fn undo_migration_dry_run_takes_no_action() {
    let t = tool(HomeDirDiscovery::Symlink, None, None);
    let disk = Disk::default();
    disk.write("/p/src-dir/a.txt", "payload");
    let q = FakeQuiescer::default();
    let ew = FakeEnvWriter::new(&disk);
    let result = run(&disk, &t, "/p/src-dir", "/p/new-home", false, &q, &ew).unwrap();
    let plan = result.undo_plan().unwrap();
    let report = undo(&disk, &plan, t.home_dir_layout.as_ref().unwrap(), true, &q, &ew).unwrap();
    assert!(report.dry_run);
    assert!(matches!(disk.node("/p/src-dir"), Some(Node::Link(_))));
    assert!(disk.found("/p/new-home"), "dry-run undo must not remove dst");
}

#[test]
fn cleanup_symlink_removes_sidecar_but_keeps_live_data() {
    let t = tool(HomeDirDiscovery::Symlink, None, None);
    let disk = Disk::default();
    disk.write("/p/src-dir/a.txt", "payload-1234");
    let result = simple(&disk, &t, "/p/src-dir", "/p/new-home", false).unwrap();
    let plan = result.undo_plan().unwrap();
    let preserved = plan.preserved_paths();
    assert_eq!(preserved.len(), 1);
    assert!(disk.found(&preserved[0]));
    let dry = clean(&disk, &plan, true);
    assert!(dry.dry_run);
    assert_eq!(dry.total_bytes(), 12);
    assert!(disk.found(&preserved[0]), "dry-run must not delete");
    let report = clean(&disk, &plan, false);
    assert!(report.items.iter().all(|i| i.removed));
    assert!(!disk.found(&preserved[0]), "sidecar should be gone");
    assert!(matches!(disk.node("/p/src-dir"), Some(Node::Link(_))));
    assert!(disk.found("/p/new-home/a.txt"), "live data must survive cleanup");
}

#[test]
fn cleanup_config_removes_sidecar_and_backups() {
    let disk = Disk::default();
    disk.write("/t/data-src/a", "hi");
    disk.write("/t/tool.json", r#"{"data_dir": "/t/data-src"}"#);
    let t = config_tool_json("/t/tool.json", "data_dir", "/t/data-src");
    let result = simple(&disk, &t, "/t/data-src", "/t/data-dst", false).unwrap();
    let plan = result.undo_plan().unwrap();
    let preserved = plan.preserved_paths();
    assert_eq!(preserved.len(), 2, "src sidecar + one config backup");
    assert!(preserved.iter().all(|p| disk.found(p)));
    clean(&disk, &plan, false);
    assert!(preserved.iter().all(|p| !disk.found(p)), "all preserved artifacts removed");
    assert_eq!(data_dir_in(&disk, "/t/tool.json"), "/t/data-dst");
}

#[test]
fn cleanup_is_idempotent_when_already_gone() {
    let disk = Disk::default();
    disk.write("/t/data-src/a", "hi");
    disk.write("/t/tool.json", r#"{"data_dir": "/t/data-src"}"#);
    let t = config_tool_json("/t/tool.json", "data_dir", "/t/data-src");
    let result = simple(&disk, &t, "/t/data-src", "/t/data-dst", false).unwrap();
    let plan = result.undo_plan().unwrap();
    clean(&disk, &plan, false);
    let again = clean(&disk, &plan, false);
    assert!(again.items.iter().all(|i| !i.existed && !i.removed));
    assert_eq!(again.total_bytes(), 0);
}

#[test]
fn every_event_carries_its_run() {
    let t = tool(HomeDirDiscovery::Symlink, None, None);
    for dry_run in [true, false] {
        let disk = Disk::default();
        disk.write("/p/src-dir/a.txt", "payload");
        let result = simple(&disk, &t, "/p/src-dir", "/p/new-home", dry_run).unwrap();
        assert!(!result.events.is_empty());
        for e in &result.events {
            assert_eq!(e.tool_name, t.name);
            assert_eq!((e.src.as_str(), e.dst.as_str()), ("/p/src-dir", "/p/new-home"));
            assert_eq!(e.dry_run, dry_run);
        }
    }
}

#[test]
fn a_copy_that_fails_says_where() {
    assert!(link_failed("/d/l", "denied").message().contains("failed to recreate symlink /d/l: denied"));
    assert!(permissions_failed("/d/f", "denied").message().contains("set_permissions failed on /d/f: denied"));
}

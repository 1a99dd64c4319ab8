use sessionguard::activity::{NoOpReason, Outcome};
use sessionguard::atomic::{atomic_write, WriteStep};
use sessionguard::event_log::{column_exists, LogEntry, ReconcileAction};
use sessionguard::reconcile::{
    reconcile, rewrite_paths, ReconcileReply, ReconcileRequest, ReconcileResult,
};
use sessionguard::reconciler::{
    read_artifact, rewrite_field, undo_event, ArtifactRead, PathPair, UndoOutcome,
    MAX_ARTIFACT_BYTES,
};
use sessionguard::registry::{project_paths, stale_projects, ProjectEntry};
use sessionguard::tools::{PathFieldSpec, ReconcileStrategy, ToolDefinition, ToolRegistry};

fn text(t: &str) -> ArtifactRead {
    ArtifactRead::Text { size: Some(t.len() as u64), text: t.to_string() }
}

/// Reconcile one tool, with the artifacts of a project in memory.
fn run(
    tool: &ToolDefinition,
    old: &str,
    new: &str,
    files: &mut Vec<(String, String)>,
    log: &mut Vec<ReconcileAction>,
) -> ReconcileResult {
    let mut course = reconcile(tool, old, new, false);
    loop {
        let reply = match course.next() {
            ReconcileRequest::Read { path } => match files.iter().find(|(p, _)| *p == path) {
                Some((_, t)) => ReconcileReply::Read(text(t)),
                None => ReconcileReply::Missing,
            },
            ReconcileRequest::Write { path, text } => {
                files.iter_mut().find(|(p, _)| *p == path).unwrap().1 = text;
                ReconcileReply::Written(Ok(()))
            }
            ReconcileRequest::Record { action } => {
                log.push(action);
                ReconcileReply::Recorded(Ok(()))
            }
            ReconcileRequest::Finished => break,
        };
        rewrite_paths(&mut course, reply);
    }
    let r = course.result().unwrap();
    ReconcileResult {
        tool_name: r.tool_name.clone(),
        actions_taken: r.actions_taken.clone(),
        success: r.success,
        error: r.error.clone(),
        outcome: r.outcome.clone(),
    }
}

fn settings(root: &str) -> String {
    format!("{root}/.{}/settings.json", "claude_code".split('_').next().unwrap())
}

fn value(files: &[(String, String)], path: &str) -> serde_json::Value {
    serde_json::from_str(&files.iter().find(|(p, _)| p == path).unwrap().1).unwrap()
}

#[test]
fn reconcile_claude_code_end_to_end() {
    let (old, new) = ("/s/alpha-project", "/s/beta-project");
    let file = settings(new);
    let mut files = vec![(
        file.clone(),
        format!(r#"{{"project_path": "{old}","model": "opus","context": "full"}}"#),
    )];
    let mut log = vec![];
    let registry = ToolRegistry::new().unwrap();
    let result = run(registry.get("claude_code").unwrap(), old, new, &mut files, &mut log);
    assert!(result.success, "reconciliation should succeed");
    assert_eq!(result.actions_taken.len(), 1, "should rewrite one file");
    assert_eq!(result.actions_taken[0].field, "project_path");
    let v = value(&files, &file);
    assert_eq!(v["project_path"].as_str().unwrap(), new);
    assert_eq!(v["model"], "opus");
    assert_eq!(v["context"], "full");
    assert_eq!(log.len(), 1);
    assert_eq!(log[0].tool_name, "claude_code");
}

#[test]
fn reconcile_cursor_end_to_end() {
    let (old, new) = ("/s/cursor-original", "/s/cursor-relocated");
    let file = format!("{new}/.cursor/state.json");
    let mut files =
        vec![(file.clone(), format!(r#"{{"project_root": "{old}","workspace_id": "abc123"}}"#))];
    let mut log = vec![];
    let registry = ToolRegistry::new().unwrap();
    let result = run(registry.get("cursor").unwrap(), old, new, &mut files, &mut log);
    assert!(result.success, "reconciliation should succeed");
    assert_eq!(result.actions_taken.len(), 1);
    assert_eq!(result.actions_taken[0].field, "project_root");
    let v = value(&files, &file);
    assert_eq!(v["project_root"].as_str().unwrap(), new);
    assert_eq!(v["workspace_id"], "abc123");
    assert_eq!(log.len(), 1);
    assert_eq!(log[0].tool_name, "cursor");
}

#[test]
fn reconcile_multi_tool_end_to_end() {
    let (old, new) = ("/s/original-multi", "/s/relocated-multi");
    let state = format!("{new}/.cursor/state.json");
    let mut files = vec![
        (settings(new), format!(r#"{{"project_path": "{old}"}}"#)),
        (state.clone(), format!(r#"{{"project_root": "{old}"}}"#)),
    ];
    let mut log = vec![];
    let registry = ToolRegistry::new().unwrap();
    for tool_name in ["claude_code", "cursor"] {
        let result = run(registry.get(tool_name).unwrap(), old, new, &mut files, &mut log);
        assert!(result.success, "{tool_name} reconciliation should succeed");
        assert_eq!(result.actions_taken.len(), 1);
    }
    assert!(files.iter().all(|(_, t)| t.contains(new)));
    assert_eq!(log.len(), 2);
}

#[test]
fn json_adapter_surgical_not_global() {
    let (old, new) = ("/s/orig-project", "/s/dest-project");
    let mut files = vec![(
        settings(new),
        format!(r#"{{"project_path": "{old}","notes": "project was cloned from {old}"}}"#),
    )];
    let registry = ToolRegistry::new().unwrap();
    let result =
        run(registry.get("claude_code").unwrap(), old, new, &mut files, &mut vec![]);
    assert!(result.success);
    let v = value(&files, &settings(new));
    assert_eq!(v["project_path"].as_str().unwrap(), new);
    assert!(
        v["notes"].as_str().unwrap().contains(old),
        "notes field should still contain the OLD path (surgical rewrite)"
    );
}

fn tool(on_move: ReconcileStrategy, file: &str, format: &str) -> ToolDefinition {
    ToolDefinition {
        name: "t".into(),
        display_name: "T".into(),
        session_patterns: vec![],
        path_fields: vec![PathFieldSpec {
            file: file.into(),
            field: "root".into(),
            format: format.into(),
        }],
        on_move,
        version: None,
        binary: None,
        home_dir_layout: None,
        session_store: None,
    }
}

#[test]
fn what_was_not_done_has_its_reason() {
    let mut files = vec![("/n/a.json".to_string(), r#"{"root": "/elsewhere"}"#.to_string())];
    let mut log = vec![];
    let notify = run(&tool(ReconcileStrategy::Notify, "a.json", "json"), "/o", "/n", &mut files, &mut log);
    assert_eq!(notify.outcome, Outcome::NoOp { reason: NoOpReason::ToolDeclaresNotify });
    let rewriting = tool(ReconcileStrategy::RewritePaths, "a.json", "json");
    let current = run(&rewriting, "/o", "/n", &mut files, &mut log);
    assert_eq!(current.outcome, Outcome::NoOp { reason: NoOpReason::AlreadyCurrent });
    let absent = tool(ReconcileStrategy::RewritePaths, "b.json", "json");
    let none = run(&absent, "/o", "/n", &mut files, &mut log);
    assert_eq!(none.outcome, Outcome::NoOp { reason: NoOpReason::NoArtifactsFound });
    files[0].1 = "{".into();
    let broken = run(&rewriting, "/o", "/n", &mut files, &mut log);
    assert!(!broken.success);
    assert!(matches!(broken.outcome, Outcome::Failed { .. }));
    assert!(log.is_empty());
}

#[test]
fn rewrite_text_replaces_paths() {
    let spec = PathFieldSpec { file: String::new(), field: String::new(), format: "text".into() };
    let pairs = vec![PathPair::new("/old/project", "/new/project")];
    let w = rewrite_field("/d/test.txt", &text("path = /old/project"), &spec, &pairs);
    assert_eq!(w.unwrap().unwrap().text, "path = /new/project");
}

#[test]
fn rewrite_text_no_change_returns_false() {
    let spec = PathFieldSpec { file: String::new(), field: String::new(), format: "text".into() };
    let pairs = vec![PathPair::new("/old/project", "/new/project")];
    let w = rewrite_field("/d/test.txt", &text("path = /some/other/path"), &spec, &pairs);
    assert!(w.unwrap().is_none());
}

#[test]
fn text_adapter_boundary_guard_protects_sibling_paths() {
    let spec = PathFieldSpec { file: String::new(), field: String::new(), format: "text".into() };
    let pairs = vec![PathPair::new("/home/me/code", "/new/root")];
    let history = "worked in /home/me/code today\n\
                   backup lives at /home/me/code-backup/notes\n\
                   edited /home/me/code/src/main.rs\n";
    let content = rewrite_field("/d/h.md", &text(history), &spec, &pairs).unwrap().unwrap().text;
    assert!(content.contains("worked in /new/root today"));
    assert!(content.contains("edited /new/root/src/main.rs"));
    assert!(
        content.contains("/home/me/code-backup/notes"),
        "sibling prefix must be untouched, got: {content}"
    );
}

#[test]
fn non_utf8_artifact_is_skipped_not_errored() {
    let spec = PathFieldSpec { file: String::new(), field: String::new(), format: "text".into() };
    let pairs = vec![PathPair::new("/old", "/new")];
    let read = ArtifactRead::NotText { size: Some(6) };
    let changed = rewrite_field("/d/blob.txt", &read, &spec, &pairs).unwrap();
    assert!(changed.is_none(), "non-UTF8 should skip, not rewrite");
}

#[test]
fn what_is_too_large_is_left_alone_and_what_fails_is_told() {
    let huge = ArtifactRead::Text { size: Some(MAX_ARTIFACT_BYTES + 1), text: "x".into() };
    assert_eq!(read_artifact(&huge).unwrap(), None);
    assert_eq!(read_artifact(&text("x")).unwrap().as_deref(), Some("x"));
    let failed = ArtifactRead::Failed { size: None, message: "denied".into() };
    assert!(read_artifact(&failed).unwrap_err().message().contains("denied"));
}

#[test]
fn rewrite_field_reports_the_matched_pair_index() {
    let pairs = vec![
        PathPair::new("/private/var/folders/xx/proj", "/private/var/folders/yy/proj"),
        PathPair::new("/var/folders/xx/proj", "/var/folders/yy/proj"),
    ];
    let spec = PathFieldSpec {
        file: String::new(),
        field: "project_path".into(),
        format: "json".into(),
    };
    let read = text(r#"{"project_path": "/var/folders/xx/proj"}"#);
    let matched = rewrite_field("/d/settings.json", &read, &spec, &pairs).unwrap();
    assert_eq!(matched.unwrap().pair, 1, "must report the pair actually applied");
}

fn entry(file: &str, old: &str, new: &str) -> LogEntry {
    LogEntry {
        id: 1,
        timestamp: "2026-01-01 00:00:00".into(),
        tool_name: "claude_code".into(),
        file_path: file.into(),
        field: "project_path".into(),
        format: "json".into(),
        old_value: old.into(),
        new_value: new.into(),
        undone_at: None,
    }
}

#[test]
fn undo_restores_json_field() {
    let (old, new) = ("/s/orig", "/s/dest");
    let file = settings(new);
    let mut files =
        vec![(file.clone(), format!(r#"{{"project_path": "{old}","model": "opus"}}"#))];
    let mut log = vec![];
    let registry = ToolRegistry::new().unwrap();
    let r = run(registry.get("claude_code").unwrap(), old, new, &mut files, &mut log);
    assert!(r.success);
    let logged = LogEntry::of(&log[0], 1, "now".into());
    let restored = match undo_event(&logged, true, false, &text(&files[0].1)).unwrap() {
        UndoOutcome::Write { text } => text,
        other => panic!("undo should modify the file: {other:?}"),
    };
    let v: serde_json::Value = serde_json::from_str(&restored).unwrap();
    assert_eq!(v["project_path"].as_str().unwrap(), old);
    assert_eq!(v["model"], "opus");
}

#[test]
fn undo_dry_run_leaves_file_alone() {
    let e = entry("/s/settings.json", "/old", "/new");
    let would = undo_event(&e, true, true, &text(r#"{"project_path": "/new"}"#)).unwrap();
    assert!(matches!(would, UndoOutcome::Would), "dry run should report it would undo");
}

#[test]
fn undo_is_safe_when_file_has_been_modified() {
    let e = entry("/s/settings.json", "/orig/path", "/expected/new/path");
    let read = text(r#"{"project_path": "/totally/different"}"#);
    let changed = undo_event(&e, true, false, &read).unwrap();
    assert!(
        matches!(changed, UndoOutcome::Unchanged),
        "undo must report no-change when new_value isn't found"
    );
}

#[test]
fn undo_errors_when_file_missing() {
    let e = entry("/s/does-not-exist.json", "/old", "/new");
    let err = undo_event(&e, false, false, &text("")).unwrap_err();
    assert!(err.message().contains("no longer exists"));
}

#[test]
fn atomic_write_replaces_content_and_leaves_no_temp() {
    let mut file = "OLD CONTENT".to_string();
    let mut temp: Option<(String, String)> = None;
    let mut seen: Vec<Result<(), String>> = vec![];
    loop {
        match atomic_write("/d/settings.json", "NEW CONTENT", 7, &seen) {
            WriteStep::WriteTemp { temp: t, text, like } => {
                assert_eq!(like, "/d/settings.json");
                assert!(t.starts_with("/d/") && t.contains("sg-tmp"));
                temp = Some((t, text));
            }
            WriteStep::Rename { from, to } => {
                let (t, text) = temp.take().unwrap();
                assert_eq!((from.as_str(), to.as_str()), (t.as_str(), "/d/settings.json"));
                file = text;
            }
            WriteStep::Remove(_) => temp = None,
            WriteStep::Finished(r) => {
                assert!(r.is_ok());
                break;
            }
        }
        seen.push(Ok(()));
    }
    assert_eq!(file, "NEW CONTENT");
    assert!(temp.is_none(), "temp file was not cleaned up");
}

#[test]
fn a_failed_write_is_cleaned_up_and_told() {
    let failed = vec![Err("disk full".to_string())];
    assert!(matches!(atomic_write("/d/a", "x", 7, &failed), WriteStep::Remove(_)));
    let cleaned = vec![Err("disk full".to_string()), Ok(())];
    match atomic_write("/d/a", "x", 7, &cleaned) {
        WriteStep::Finished(r) => assert_eq!(r.unwrap_err(), "disk full"),
        other => panic!("{other:?}"),
    }
}

#[test]
fn projects_whose_directory_is_gone_are_stale() {
    let project = |id: i64, path: &str| ProjectEntry {
        id,
        path: path.into(),
        tools_detected: vec![],
        created_at: "now".into(),
        updated_at: "now".into(),
    };
    let all = vec![project(1, "/a"), project(2, "/b")];
    let stale = stale_projects(&all, &vec![true, false]);
    assert_eq!(stale.len(), 1);
    assert_eq!(stale[0].path, "/b");
    assert_eq!(project_paths(&all), vec!["/a", "/b"]);
}

#[test]
fn a_column_that_is_there_already_is_recognised() {
    assert!(column_exists("duplicate column name: format"));
    assert!(column_exists("Column ALREADY EXISTS"));
    assert!(!column_exists("no such table"));
}

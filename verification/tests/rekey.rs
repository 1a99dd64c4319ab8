use sessionguard::activity::Outcome;
use sessionguard::rekey::all::{
    rekey_all, stamp, store_step, worth_applying, Handled, StoreOutcome, StoreStep,
};
use sessionguard::rekey::apply::{
    apply, apply_action, ActionStep, ApplyStep, StoreOp, StoreReply,
};
use sessionguard::rekey::plan::{plan, survey, CountedFile, StoreSight, Survey};
use sessionguard::rekey::tokens::{count_json_token, rewrite_tokens};
use sessionguard::rekey::types::{
    RecordedUndo, RekeyAction, RekeyError, RekeyFailure, RekeyPlan,
};
use sessionguard::sessions::encode_project_path;
use sessionguard::tools::{SessionStore, TimeUnit};
use std::collections::BTreeMap;

fn root(home: &str) -> String {
    format!("{home}/.{}/projects", "claude_code".split('_').next().unwrap())
}

fn encoded_store() -> SessionStore {
    SessionStore::EncodedDir {
        path: root("~"),
        separator: "-".into(),
        key_glob: Some("*.jsonl".into()),
        key_field: Some("cwd".into()),
    }
}

fn jsonl_store() -> SessionStore {
    SessionStore::JsonlField {
        path: "~/.codex/sessions".into(),
        glob: "**/*.jsonl".into(),
        key_field: "cwd".into(),
        fallback_field: None,
    }
}

fn sqlite_store() -> SessionStore {
    SessionStore::SqliteColumn {
        path: "~/.local/share/opencode/opencode.db".into(),
        table: "session".into(),
        path_column: "directory".into(),
        updated_column: Some("time_updated".into()),
        updated_unit: TimeUnit::Ms,
        archived_column: Some("time_archived".into()),
    }
}

/// The stores of one home directory, in memory.
#[derive(Default)]
struct Home {
    files: BTreeMap<String, String>,
    made: Vec<String>,
    db: Option<rusqlite::Connection>,
    locked: bool,
}

const HOME: &str = "/h";

impl Home {
    fn seed(&mut self, project: &str) -> String {
        let dir = format!("{}/{}", root(HOME), encode_project_path(project, "-"));
        self.files.insert(
            format!("{dir}/s1.jsonl"),
            format!(
                "{{\"type\":\"summary\",\"summary\":\"x\"}}\n\
                 {{\"type\":\"user\",\"cwd\":\"{project}\",\"sessionId\":\"abc\"}}\n\
                 {{\"type\":\"assistant\",\"cwd\":\"{project}\"}}\n"
            ),
        );
        dir
    }

    fn has_dir(&self, dir: &str) -> bool {
        let prefix = format!("{dir}/");
        self.files.keys().any(|f| f.starts_with(&prefix))
    }

    fn sight(&self, store: &SessionStore, old: &str, new: &str) -> StoreSight {
        match survey(HOME, store, old, new) {
            Survey::Dir { old_dir, new_dir } => {
                let prefix = format!("{old_dir}/");
                StoreSight::Dir {
                    is_dir: self.has_dir(&old_dir),
                    dest_exists: self.has_dir(&new_dir),
                    entries: self
                        .files
                        .iter()
                        .filter(|(f, _)| f.starts_with(&prefix))
                        .map(|(f, t)| CountedFile {
                            name: f[prefix.len()..].to_string(),
                            is_file: true,
                            occurrences: count_json_token(t, old),
                        })
                        .collect(),
                }
            }
            Survey::Files { base, .. } => {
                let prefix = format!("{base}/");
                StoreSight::Files {
                    files: self
                        .files
                        .iter()
                        .filter(|(f, _)| f.starts_with(&prefix))
                        .map(|(f, t)| CountedFile {
                            name: f.clone(),
                            is_file: true,
                            occurrences: count_json_token(t, old),
                        })
                        .collect(),
                }
            }
            Survey::Rows { query, .. } => match (&self.db, query) {
                (Some(c), Some(q)) => StoreSight::Rows {
                    is_file: true,
                    rows: c
                        .query_row(&q, [old], |r| r.get::<_, i64>(0))
                        .map_err(|e| format!("{e}")),
                },
                _ => StoreSight::Rows { is_file: false, rows: Ok(0) },
            },
        }
    }

    fn plan(&self, tool: &str, store: &SessionStore, old: &str, new: &str) -> Result<RekeyPlan, RekeyError> {
        plan(HOME, tool, store, old, new, &self.sight(store, old, new))
    }

    fn perform(&mut self, op: StoreOp) -> StoreReply {
        match op {
            StoreOp::Exists(p) => {
                StoreReply::Flag(self.files.contains_key(&p) || self.has_dir(&p))
            }
            StoreOp::CreateDirs(dir) => {
                self.made.push(dir);
                StoreReply::Done
            }
            StoreOp::Rename { from, to } => {
                if !self.has_dir(&from) {
                    return StoreReply::Error("No such file or directory".into());
                }
                let prefix = format!("{from}/");
                let moved: Vec<String> =
                    self.files.keys().filter(|f| f.starts_with(&prefix)).cloned().collect();
                for f in moved {
                    let text = self.files.remove(&f).unwrap();
                    self.files.insert(format!("{to}/{}", &f[prefix.len()..]), text);
                }
                StoreReply::Done
            }
            StoreOp::Read(f) => match self.files.get(&f) {
                Some(t) => StoreReply::Text(t.clone()),
                None => StoreReply::Error("gone".into()),
            },
            StoreOp::Write { file, text } => {
                self.files.insert(file, text);
                StoreReply::Done
            }
            StoreOp::Update { statement, to, from, .. } => {
                if self.locked {
                    return StoreReply::Locked;
                }
                let c = self.db.as_ref().unwrap();
                match c.execute(&statement, [&to, &from]) {
                    Ok(_) => StoreReply::Done,
                    Err(e) => StoreReply::Error(format!("{e}")),
                }
            }
        }
    }

    fn apply(&mut self, p: &RekeyPlan) -> Result<RekeyPlan, RekeyFailure> {
        let mut results: Vec<Result<(), RekeyError>> = Vec::new();
        loop {
            match apply(p, &results) {
                ApplyStep::Done(undo) => return Ok(undo),
                ApplyStep::Failed(f) => return Err(f),
                ApplyStep::Next(i) => {
                    let mut seen: Vec<StoreReply> = Vec::new();
                    loop {
                        match apply_action(&p.tool, &p.actions[i], &seen) {
                            ActionStep::Do(op) => {
                                let reply = self.perform(op);
                                seen.push(reply);
                            }
                            ActionStep::Finished(r) => {
                                results.push(r);
                                break;
                            }
                        }
                    }
                }
            }
        }
    }

    fn act(&mut self, tool: &str, action: &RekeyAction) -> Result<(), RekeyError> {
        let mut seen: Vec<StoreReply> = Vec::new();
        loop {
            match apply_action(tool, action, &seen) {
                ActionStep::Do(op) => {
                    let reply = self.perform(op);
                    seen.push(reply);
                }
                ActionStep::Finished(r) => return r,
            }
        }
    }

    fn handle(&mut self, tool: &str, store: &SessionStore, old: &str, new: &str) -> Handled {
        let planned = self.plan(tool, store, old, new);
        let mut done: Vec<Result<(), RekeyError>> = Vec::new();
        let mut undone: Vec<Result<(), RekeyError>> = Vec::new();
        loop {
            match store_step(&planned, false, &done, &undone) {
                StoreStep::Do(a) => done.push(self.act(tool, &a)),
                StoreStep::Undo(a) => undone.push(self.act(tool, &a)),
                StoreStep::Finished(_) => break,
            }
        }
        Handled {
            tool: tool.into(),
            old_path: old.into(),
            new_path: new.into(),
            planned,
            done,
            undone,
        }
    }
}

#[test]
fn encoded_dir_rekey_moves_both_keys_and_the_census_follows() {
    let mut home = Home::default();
    let (old, new) = ("/h/work/app", "/h/elsewhere/app");
    let old_dir = home.seed(old);
    let before = home.files.clone();
    let p = home.plan("claude_code", &encoded_store(), old, new).unwrap();
    assert!(!p.is_empty(), "a move with sessions must plan work");
    let undo = match home.apply(&p) {
        Ok(u) => u,
        Err(f) => panic!("{}", f.error.message()),
    };
    assert!(!home.has_dir(&old_dir), "old store dir is gone");
    let new_dir = format!("{}/{}", root(HOME), encode_project_path(new, "-"));
    let text = &home.files[&format!("{new_dir}/s1.jsonl")];
    assert_eq!(text.matches("\"cwd\":\"/h/elsewhere/app\"").count(), 2);
    assert!(home.apply(&undo).is_ok(), "undo succeeds");
    assert_eq!(home.files, before, "original store restored");
}

#[test]
fn rekey_refuses_when_the_destination_store_already_exists() {
    let mut home = Home::default();
    let (old, new) = ("/h/work/app", "/h/work/other");
    let old_dir = home.seed(old);
    let new_dir = home.seed(new);
    let e = home.plan("claude_code", &encoded_store(), old, new).unwrap_err();
    assert!(matches!(e, RekeyError::DestinationExists { .. }), "{e:?}");
    assert!(e.message().contains("merge"), "error must say why: {}", e.message());
    assert!(home.has_dir(&old_dir) && home.has_dir(&new_dir), "nothing was touched");
}

#[test]
fn rewrite_is_whole_token_so_a_sibling_prefix_path_is_untouched() {
    let mut home = Home::default();
    let (old, new) = ("/h/work/app", "/h/work/moved");
    let dir = home.seed(old);
    let sibling = format!("{old}-two");
    home.files.insert(
        format!("{dir}/s2.jsonl"),
        format!("{{\"cwd\":\"{sibling}\"}}\n{{\"cwd\":\"{old}\",\"file\":\"{old}/src/main.rs\"}}\n"),
    );
    let p = home.plan("claude_code", &encoded_store(), old, new).unwrap();
    assert!(home.apply(&p).is_ok());
    let moved = format!("{}/{}/s2.jsonl", root(HOME), encode_project_path(new, "-"));
    let content = &home.files[&moved];
    assert!(
        content.contains(&format!("\"cwd\":\"{sibling}\"")),
        "the sibling project's path must survive verbatim: {content}"
    );
    assert!(
        content.contains(&format!("\"cwd\":\"{new}\"")),
        "the moved project's key must be rewritten: {content}"
    );
    assert!(
        content.contains(&format!("\"{old}/src/main.rs\"")),
        "a historical file reference is a record of what happened, not a key: {content}"
    );
}

#[test]
fn jsonl_field_store_rekeys_matching_files_only() {
    let mut home = Home::default();
    let (old, new) = ("/h/proj/a", "/h/proj/b");
    let mine = "/h/.codex/sessions/2026/07/mine.jsonl".to_string();
    let other = "/h/.codex/sessions/2026/07/other.jsonl".to_string();
    home.files.insert(mine.clone(), format!("{{\"cwd\":\"{old}\"}}\n"));
    home.files.insert(other.clone(), "{\"cwd\":\"/somewhere/else\"}\n".into());
    let p = home.plan("codex", &jsonl_store(), old, new).unwrap();
    assert_eq!(p.actions.len(), 1, "only the matching file is planned");
    assert!(home.apply(&p).is_ok());
    assert!(home.files[&mine].contains(new));
    assert_eq!(
        home.files[&other], "{\"cwd\":\"/somewhere/else\"}\n",
        "an unrelated session must be byte-identical"
    );
}

fn database() -> rusqlite::Connection {
    let conn = rusqlite::Connection::open_in_memory().unwrap();
    conn.execute_batch(
        "CREATE TABLE session (directory TEXT, time_updated INTEGER, time_archived INTEGER);
         INSERT INTO session VALUES ('/p/old', 1, NULL);
         INSERT INTO session VALUES ('/p/old', 2, NULL);
         INSERT INTO session VALUES ('/p/untouched', 3, NULL);",
    )
    .unwrap();
    conn
}

#[test]
fn sqlite_store_rekeys_matching_rows_and_reverses() {
    let mut home = Home { db: Some(database()), ..Default::default() };
    let p = home.plan("opencode", &sqlite_store(), "/p/old", "/p/new").unwrap();
    match &p.actions[..] {
        [RekeyAction::UpdateSqliteRows { rows, .. }] => assert_eq!(*rows, 2),
        other => panic!("expected one row update, got {other:?}"),
    }
    let undo = match home.apply(&p) {
        Ok(u) => u,
        Err(f) => panic!("{}", f.error.message()),
    };
    let count = |h: &Home, dir: &str| {
        h.db.as_ref()
            .unwrap()
            .query_row("SELECT COUNT(*) FROM session WHERE directory = ?1", [dir], |r| {
                r.get::<_, i64>(0)
            })
            .unwrap()
    };
    assert_eq!(count(&home, "/p/new"), 2);
    assert_eq!(count(&home, "/p/old"), 0);
    assert_eq!(count(&home, "/p/untouched"), 1, "other projects untouched");
    assert!(home.apply(&undo).is_ok());
    assert_eq!(count(&home, "/p/old"), 2, "undo restores the original key");
    assert_eq!(count(&home, "/p/new"), 0);
}

#[test]
fn a_locked_database_is_told_as_such() {
    let mut home = Home { db: Some(database()), locked: true, ..Default::default() };
    let p = home.plan("opencode", &sqlite_store(), "/p/old", "/p/new").unwrap();
    let failure = home.apply(&p).unwrap_err();
    assert!(matches!(failure.error, RekeyError::StoreLocked { .. }));
    assert!(failure.rollback.is_empty());
}

#[test]
fn one_invocation_records_one_undo_covering_every_store() {
    let mut home = Home::default();
    let (old, new) = ("/h/work/app", "/h/work/moved");
    home.seed(old);
    home.files.insert("/h/.codex/sessions/r.jsonl".into(), format!("{{\"cwd\":\"{old}\"}}\n"));
    let before = home.files.clone();
    let handled = vec![
        home.handle("claude_code", &encoded_store(), old, new),
        home.handle("codex", &jsonl_store(), old, new),
    ];
    let mut result = rekey_all(&handled, old, new, false);
    stamp(&mut result.reports, Some(9));
    assert_eq!(result.reports.iter().filter(|r| r.applied).count(), 2, "both stores re-keyed");
    assert!(
        result.reports.iter().all(|r| r.log_id == Some(9)),
        "every store reports the same undo id"
    );
    let record = result.undo.expect("one invocation must record exactly ONE undo row");
    assert!(record.label.contains("claude_code") && record.label.contains("codex"));
    let plans = RecordedUndo::Many(record.undos).plans();
    assert_eq!(plans.len(), 2);
    for p in &plans {
        assert!(home.apply(p).is_ok(), "undo applies");
    }
    assert_eq!(home.files, before, "both tools reversed, not just one");
    assert!(result.activity.iter().all(|a| a.outcome.changed_something()));
}

#[test]
fn a_v0_9_0_single_plan_undo_row_still_replays() {
    let p = |tool: &str| RekeyPlan {
        tool: tool.into(),
        old_path: "/new".into(),
        new_path: "/old".into(),
        actions: vec![],
    };
    let plans = RecordedUndo::One(Box::new(p("claude_code"))).plans();
    assert_eq!(plans.len(), 1);
    assert_eq!(plans[0].tool, "claude_code");
    assert_eq!(RecordedUndo::Many(vec![p("codex")]).plans().len(), 1);
}

#[test]
fn a_store_with_nothing_for_this_project_plans_no_work() {
    let home = Home::default();
    let p = home.plan("claude_code", &encoded_store(), "/h/never/used", "/h/somewhere").unwrap();
    assert!(p.is_empty());
}

#[test]
fn a_failed_action_returns_the_inverse_of_only_what_completed() {
    let mut home = Home::default();
    let dir = home.seed("/h/work/app");
    let bogus = RekeyPlan {
        tool: "claude_code".into(),
        old_path: "/h/work/app".into(),
        new_path: "/x".into(),
        actions: vec![
            RekeyAction::RenameDir { from: dir.clone(), to: format!("{}/renamed", root(HOME)) },
            RekeyAction::RenameDir {
                from: "/nonexistent/source".into(),
                to: "/nonexistent/dest".into(),
            },
        ],
    };
    let failure = home.apply(&bogus).expect_err("second action must fail");
    assert!(matches!(failure.error, RekeyError::Failed { .. }), "{}", failure.error.message());
    assert_eq!(failure.rollback.actions.len(), 1, "only the completed step is reversible");
    assert!(home.apply(&failure.rollback).is_ok(), "the partial undo applies");
    assert!(home.has_dir(&dir), "the first rename was rolled back");
}

#[test]
fn refusals_and_failures_are_reported_apart() {
    let mut home = Home { db: Some(database()), locked: true, ..Default::default() };
    home.seed("/p/old");
    home.seed("/p/new");
    let handled = vec![
        home.handle("claude_code", &encoded_store(), "/p/old", "/p/new"),
        home.handle("opencode", &sqlite_store(), "/p/old", "/p/new"),
    ];
    let result = rekey_all(&handled, "/p/old", "/p/new", false);
    assert!(result.undo.is_none());
    assert!(result.reports.iter().all(|r| !r.applied && r.error.is_some()));
    assert!(matches!(result.activity[0].outcome, Outcome::Refused { .. }));
    let rehearsal = rekey_all(&handled, "/p/old", "/p/new", true);
    assert!(rehearsal.activity.is_empty());
}

#[test]
fn tokens_are_json_strings() {
    let text = "{\"a\":\"/x \\\"y\\\"\",\"b\":\"/x\"}";
    assert_eq!(count_json_token(text, "/x \"y\""), 1);
    assert_eq!(count_json_token(text, "/x"), 1);
    assert_eq!(rewrite_tokens(text, "/x", "/q\"z"), "{\"a\":\"/x \\\"y\\\"\",\"b\":\"/q\\\"z\"}");
    for odd in ["tab\there", "line\nbreak", "bell\u{7}", "del\u{7f}", "back\\slash", "é\u{2028}"] {
        let token = format!("{}", serde_json::Value::String(odd.to_string()));
        assert_eq!(count_json_token(&token, odd), 1, "{token}");
        assert_eq!(rewrite_tokens("\"k\"", "k", odd), token);
    }
}

#[test]
fn steps_describe_and_invert_themselves() {
    let a = RekeyAction::RenameDir { from: "/s/-a".into(), to: "/s/-b".into() };
    assert!(a.describe().contains("-b"));
    assert_eq!(a.inverse().inverse(), a);
}

#[test]
fn a_store_that_fails_midway_is_put_back() {
    let mut home = Home::default();
    let dir = home.seed("/h/work/app");
    let before = home.files.clone();
    let p = RekeyPlan {
        tool: "claude_code".into(),
        old_path: "/h/work/app".into(),
        new_path: "/h/work/moved".into(),
        actions: vec![
            RekeyAction::RenameDir { from: dir.clone(), to: format!("{}/moved", root(HOME)) },
            RekeyAction::RewriteJsonValue {
                file: "/nowhere.jsonl".into(),
                from: "/h/work/app".into(),
                to: "/h/work/moved".into(),
                occurrences: 1,
            },
        ],
    };
    let planned = Ok(p);
    let mut done: Vec<Result<(), RekeyError>> = Vec::new();
    let mut undone: Vec<Result<(), RekeyError>> = Vec::new();
    let outcome = loop {
        match store_step(&planned, false, &done, &undone) {
            StoreStep::Do(a) => done.push(home.act("claude_code", &a)),
            StoreStep::Undo(a) => undone.push(home.act("claude_code", &a)),
            StoreStep::Finished(o) => break o,
        }
    };
    assert!(matches!(outcome, StoreOutcome::Failed { rolled_back: true, .. }), "{outcome:?}");
    assert_eq!((done.len(), undone.len()), (2, 1));
    assert_eq!(home.files, before, "the store holds what it held before");
    assert!(matches!(
        store_step(&planned, true, &vec![], &vec![]),
        StoreStep::Finished(StoreOutcome::Planned(_))
    ));
    if let Ok(p) = &planned {
        assert!(worth_applying(p, false) && !worth_applying(p, true));
    }
}

#[test]
fn paths_with_quotes_go_there_and_back() {
    let (old, new) = ("/p/a\"b", "/p/\"\"");
    let text = "{\"cwd\":\"/p/a\\\"b\",\"n\":\"\\\"\\\"\"}";
    let there = rewrite_tokens(text, old, new);
    assert_eq!(there, "{\"cwd\":\"/p/\\\"\\\"\",\"n\":\"\\\"\\\"\"}");
    assert_eq!(rewrite_tokens(&there, new, old), text);
}

#[test]
fn a_separator_with_a_slash_leaves_only_the_directories_above_behind() {
    let store = SessionStore::EncodedDir {
        path: "~/.tool/projects".into(),
        separator: "_/".into(),
        key_glob: Some("*.jsonl".into()),
        key_field: Some("cwd".into()),
    };
    let (old, new) = ("/h/work/app", "/h/elsewhere/app");
    let at = |project: &str| format!("/h/.tool/projects/{}", encode_project_path(project, "_/"));
    assert_eq!(at(new), "/h/.tool/projects/_/h_/elsewhere_/app");
    let mut home = Home::default();
    home.files.insert(format!("{}/s.jsonl", at(old)), format!("{{\"cwd\":\"{old}\"}}\n"));
    let before = home.files.clone();
    let p = home.plan("tool", &store, old, new).unwrap();
    let undo = match home.apply(&p) {
        Ok(u) => u,
        Err(f) => panic!("{}", f.error.message()),
    };
    assert_eq!(home.files[&format!("{}/s.jsonl", at(new))], format!("{{\"cwd\":\"{new}\"}}\n"));
    assert!(home.apply(&undo).is_ok());
    assert_eq!(home.files, before);
    assert_eq!(
        home.made,
        ["/h/.tool/projects/_/h_/elsewhere_", "/h/.tool/projects/_/h_/work_"]
    );
}

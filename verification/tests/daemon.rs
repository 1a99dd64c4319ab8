use sessionguard::activity::{Outcome, NoOpReason};
use sessionguard::daemon::{
    build_watch_set, candidates, handle_session_event, is_running, is_sessionguard_process,
    known_pairs, read_pid, remove_pid_file, write_pid_file, EventReply, EventStep, KnownStep,
    PidReply, PidStep, ProjectOp,
};
use sessionguard::detector::DetectionResult;
use sessionguard::known::{KeyPair, KnownProjects};
use sessionguard::tools::ToolRegistry;
use sessionguard::watcher::SessionEvent;

#[test]
fn pid_identity_rejects_non_sessionguard_process() {
    assert!(
        !is_sessionguard_process(true, &Some("/sbin/init".into())),
        "PID 1 is not sessionguard and must not be treated as a running daemon"
    );
    assert!(!is_sessionguard_process(false, &None));
    assert!(is_sessionguard_process(true, &Some("/usr/bin/SessionGuard start".into())));
}

#[test]
fn pid_files_are_read_and_judged() {
    assert_eq!(read_pid(&None).unwrap(), None);
    assert_eq!(read_pid(&Some(" 4242\n".into())).unwrap(), Some(4242));
    let e = read_pid(&Some("not a pid".into())).unwrap_err().message();
    assert!(e.contains("invalid PID file content: invalid digit found in string"), "{e}");
    assert!(read_pid(&Some("99999999999".into())).is_err());
    assert!(remove_pid_file(&Some("42".into()), 42));
    assert!(!remove_pid_file(&Some("43".into()), 42));
    assert!(is_running(&Some("42".into()), true, &Some("sessionguard".into())));
    assert!(!is_running(&None, true, &None));
}

#[test]
fn a_pid_file_is_taken_over_only_from_the_dead() {
    assert!(matches!(write_pid_file(&vec![], 7), PidStep::Create));
    let taken = vec![PidReply::Exists("File exists".into())];
    assert!(matches!(write_pid_file(&taken, 7), PidStep::Inspect));
    let alive = vec![
        PidReply::Exists("File exists".into()),
        PidReply::Holder { pid: Some(5), daemon: true },
    ];
    assert!(matches!(write_pid_file(&alive, 7), PidStep::Finished(Err(_))));
    let dead = vec![
        PidReply::Exists("File exists".into()),
        PidReply::Holder { pid: Some(5), daemon: false },
    ];
    assert!(matches!(write_pid_file(&dead, 7), PidStep::Remove));
}

fn moved(from: Option<&str>, to: Option<&str>) -> SessionEvent {
    SessionEvent::Moved { from: from.map(|s| s.into()), to: to.map(|s| s.into()) }
}

/// What an event makes the daemon do, given what it finds.
fn run(event: &SessionEvent, is_dir: bool, known: &[(&str, &str)], artifacts: bool) -> Vec<String> {
    let tools = ToolRegistry::new().unwrap();
    let mut seen: Vec<EventReply> = Vec::new();
    let mut done: Vec<String> = Vec::new();
    loop {
        let reply = match handle_session_event(event, &tools, &seen) {
            EventStep::IsDir(_) => EventReply::Flag(is_dir),
            EventStep::Known { .. } => EventReply::Known(
                known
                    .iter()
                    .map(|(a, b)| KeyPair { first: a.to_string(), second: b.to_string() })
                    .collect(),
            ),
            EventStep::Rekey { pairs } => {
                done.push(format!("rekey {}", pairs.len()));
                EventReply::Done
            }
            EventStep::Detect { .. } => EventReply::Detected {
                results: if artifacts {
                    vec![DetectionResult {
                        tool_name: "cursor".into(),
                        display_name: "Cursor".into(),
                        matched_patterns: vec![".cursor/".into()],
                        artifact_files: vec![".cursor/state.json".into()],
                    }]
                } else {
                    vec![]
                },
                registered: false,
            },
            EventStep::Do(ProjectOp::Reconcile { tool, .. }) => {
                done.push(format!("reconcile {tool}"));
                EventReply::Done
            }
            EventStep::Do(ProjectOp::Register { path, .. }) => {
                done.push(format!("register {path}"));
                EventReply::Done
            }
            EventStep::Do(ProjectOp::Unregister { path }) => {
                done.push(format!("unregister {path}"));
                EventReply::Done
            }
            EventStep::Vanished(_) => EventReply::Flag(false),
            EventStep::Finished(pairs) => {
                done.push(format!("known {}", pairs.len()));
                return done;
            }
        };
        seen.push(reply);
    }
}

#[test]
fn handle_session_event_partial_move_is_noop() {
    assert_eq!(run(&moved(None, Some("/b")), true, &[("/a", "/b")], true), vec!["known 0"]);
    assert_eq!(run(&moved(Some("/a"), None), true, &[("/a", "/b")], true), vec!["known 0"]);
}

#[test]
fn file_renames_and_unknown_directory_renames_do_nothing() {
    let lock = moved(Some("/p/.git/index.lock"), Some("/p/.git/index"));
    assert_eq!(run(&lock, false, &[], false), vec!["known 0"]);
    let inc = moved(Some("/p/target/s-abc-working"), Some("/p/target/s-abc"));
    assert_eq!(run(&inc, true, &[], false), vec!["known 0"]);
}

#[test]
fn moving_a_folder_rekeys_every_project_beneath_it_as_one_undo() {
    let event = moved(Some("/j/rndm"), Some("/j/legal"));
    let pairs = [("/j/rndm/a", "/j/legal/a"), ("/j/rndm/b", "/j/legal/b")];
    let done = run(&event, true, &pairs, false);
    assert_eq!(done[0], "rekey 2", "one call for all of them: {done:?}");
    assert_eq!(done.last().unwrap(), "known 2");
}

#[test]
fn stores_are_rekeyed_before_artifacts_are_rewritten() {
    let done = run(&moved(Some("/a"), Some("/b")), true, &[("/a", "/b")], true);
    assert_eq!(done[0], "rekey 1");
    let at = done.iter().position(|d| d == "reconcile cursor").expect("artifacts are rewritten");
    assert!(at > 0);
    assert!(done.iter().any(|d| d == "register /b"));
}

#[test]
fn the_outermost_directories_are_watched() {
    let all = candidates(&vec!["/w".into()], &vec!["/w/app".into(), "/else/app".into()]);
    let set = build_watch_set(&all);
    assert!(set.contains(&"/w".to_string()));
    assert!(!set.iter().any(|d| d.starts_with("/w/")), "{set:?}");
}

#[test]
fn an_unknown_move_has_the_index_made_anew_when_it_is_old() {
    let none: Option<String> = None;
    let index = KnownProjects::from_keys(&vec!["/a".into()], &vec![None], &none, 0);
    match known_pairs(&index, &None, "/a", "/b", &none, 1) {
        KnownStep::Pairs(p) => assert_eq!(p.len(), 1),
        other => panic!("{other:?}"),
    }
    assert!(matches!(
        known_pairs(&index, &None, "/x", "/y", &none, 1),
        KnownStep::Unknown
    ));
    assert!(matches!(
        known_pairs(&index, &None, "/x", "/y", &none, 10_000_000_000),
        KnownStep::Rebuild
    ));
}

#[test]
fn a_reconciliation_is_recorded_with_its_project() {
    let result = sessionguard::reconcile::ReconcileResult {
        tool_name: "cursor".into(),
        actions_taken: vec![],
        success: true,
        error: None,
        outcome: Outcome::NoOp { reason: NoOpReason::AlreadyCurrent },
    };
    let record = sessionguard::daemon::reconcile_record(result, "cursor", "/p");
    assert_eq!(record.tool_name.as_deref(), Some("cursor"));
    assert_eq!(record.project_path.as_deref(), Some("/p"));
}

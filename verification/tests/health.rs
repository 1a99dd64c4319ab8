use sessionguard::health::{
    check_binary, which_places, BinaryStatus, DaemonFacts, DaemonHealth, OutcomeCount,
};
use sessionguard::tools::{ReconcileStrategy, ToolDefinition};

fn tool_with_binary(binary: Option<&str>) -> ToolDefinition {
    ToolDefinition {
        name: "test".to_string(),
        display_name: "Test".to_string(),
        session_patterns: vec![],
        path_fields: vec![],
        on_move: ReconcileStrategy::Notify,
        version: None,
        binary: binary.map(|s| s.to_string()),
        home_dir_layout: None,
        session_store: None,
    }
}

fn search() -> Option<String> {
    Some("/usr/local/bin:/usr/bin:/bin".to_string())
}

#[test]
fn not_configured_when_binary_unset() {
    let t = tool_with_binary(None);
    assert_eq!(check_binary(&t, &search(), &vec![]), BinaryStatus::NotConfigured);
}

#[test]
fn present_for_universally_available_binary() {
    let t = tool_with_binary(Some("sh"));
    match check_binary(&t, &search(), &vec!["/bin/sh".into(), "/usr/bin/sh".into()]) {
        BinaryStatus::Present { path } => {
            assert!(path.starts_with('/'), "expected absolute path, got {path:?}");
            assert!(path.ends_with("/sh"), "expected path to end with `sh`, got {path:?}");
            assert_eq!(path, "/usr/bin/sh", "the first directory wins");
        }
        other => panic!("expected Present, got {other:?}"),
    }
}

#[test]
fn missing_for_nonsense_name() {
    let t = tool_with_binary(Some("sessionguard-no-such-binary-zzz9"));
    match check_binary(&t, &search(), &vec!["/bin/sh".into()]) {
        BinaryStatus::Missing { binary } => {
            assert_eq!(binary, "sessionguard-no-such-binary-zzz9");
        }
        other => panic!("expected Missing, got {other:?}"),
    }
}

#[test]
fn absolute_path_resolves_when_executable() {
    let t = tool_with_binary(Some("/bin/sh"));
    match check_binary(&t, &search(), &vec!["/bin/sh".into()]) {
        BinaryStatus::Present { path } => assert_eq!(path, "/bin/sh"),
        other => panic!("expected Present, got {other:?}"),
    }
}

#[test]
fn places_are_looked_up_in_order() {
    assert_eq!(which_places("sh", &Some("/a:/b".into())), vec!["/a/sh", "/b/sh"]);
    assert_eq!(which_places("/x/sh", &Some("/a".into())), vec!["/x/sh"]);
    assert!(which_places("sh", &None).is_empty());
}

fn sample() -> DaemonHealth {
    DaemonHealth {
        running: true,
        pid: Some(42),
        version: "test".into(),
        missing_watch_roots: vec![],
        watch_root_count: 2,
        tracked_projects: 3,
        last_activity: Some("2026-09-18 00:00:00".into()),
        last_acted: None,
        outcomes: vec![OutcomeCount { outcome: "noop".into(), count: 12 }],
        service_installed: Some(true),
        warnings: vec![],
    }
}

#[test]
fn running_but_never_acted_is_inert_and_warns() {
    let h = sample();
    assert!(h.is_inert(), "busy but achieving nothing is inert");

    let working = DaemonHealth { last_acted: Some("2026-09-18 00:00:01".into()), ..sample() };
    assert!(!working.is_inert());

    let stopped = DaemonHealth { running: false, ..sample() };
    assert!(!stopped.is_inert());
}

#[test]
fn what_calls_for_attention_is_said() {
    let facts = DaemonFacts {
        running: true,
        pid: Some(1),
        version: "0.11.0".into(),
        tracked_projects: 0,
        last_activity: None,
        last_acted: None,
        outcomes: vec![
            OutcomeCount { outcome: "refused".into(), count: 2 },
            OutcomeCount { outcome: "failed".into(), count: 1 },
        ],
        service_installed: Some(false),
    };
    let h = DaemonHealth::gather(&vec!["/here".into(), "/gone".into()], &vec![true, false], facts);
    assert_eq!(h.missing_watch_roots, vec!["/gone"]);
    assert_eq!(h.watch_root_count, 2);
    assert!(h.is_inert());
    assert!(h.warnings.iter().any(|w| w.contains("/gone")));
    assert!(h.warnings.iter().any(|w| w.starts_with("2 operation(s) were REFUSED")));
    assert!(h.warnings.iter().any(|w| w.starts_with("1 operation(s) FAILED")));
}

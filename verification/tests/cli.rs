use sessionguard::cli::{
    config_action, fmt_ago, fmt_size, log_line, tools_action, tools_by_name, undo_gate, undo_line,
    undo_target, ConfigAction, Format, ToolsAction, UndoGate, UndoTarget,
};
use sessionguard::event_log::LogEntry;
use sessionguard::tools::ToolRegistry;

#[test]
fn fmt_size_picks_largest_appropriate_unit() {
    assert_eq!(fmt_size(0), "0 B");
    assert_eq!(fmt_size(1023), "1023 B");
    assert_eq!(fmt_size(1024), "1.0 KB");
    assert_eq!(fmt_size(1024 * 1024), "1.0 MB");
    assert_eq!(fmt_size(1024 * 1024 * 1024), "1.0 GB");
    assert_eq!(fmt_size(20_u64 * (1u64 << 30)), "20.0 GB");
}

/// The size as floating point shows it.
fn shown(bytes: u64) -> String {
    let units = [(1u64 << 40, "TB"), (1 << 30, "GB"), (1 << 20, "MB"), (1 << 10, "KB")];
    for (unit, name) in units {
        if bytes >= unit {
            return format!("{:.1} {}", bytes as f64 / unit as f64, name);
        }
    }
    format!("{bytes} B")
}

#[test]
fn sizes_agree_with_floating_point() {
    let mut seed: u64 = 88172645463325252;
    for round in 0..20_000 {
        seed ^= seed << 13;
        seed ^= seed >> 7;
        seed ^= seed << 17;
        let n = seed >> (round % 64);
        assert_eq!(fmt_size(n), shown(n), "{n}");
    }
    for unit in [1u64 << 10, 1 << 20, 1 << 30, 1 << 40] {
        for twentieths in 0..60u64 {
            let n = unit + unit / 20 * twentieths;
            for m in n.saturating_sub(3)..n + 3 {
                assert_eq!(fmt_size(m), shown(m), "{m}");
            }
        }
    }
    for n in [u64::MAX, u64::MAX - 1, (1 << 53) + 1, (1 << 60) + 12345] {
        assert_eq!(fmt_size(n), shown(n), "{n}");
    }
}

#[test]
fn fmt_ago_buckets_correctly() {
    let now: u64 = 1_800_000_000;
    assert!(fmt_ago(now.saturating_sub(30), now).contains("s ago"));
    assert!(fmt_ago(now.saturating_sub(300), now).contains("m ago"));
    assert!(fmt_ago(now.saturating_sub(7200), now).contains("h ago"));
    assert!(fmt_ago(now.saturating_sub(2 * 86_400), now).contains("d ago"));
    assert_eq!(fmt_ago(now - 300, now), "5m ago");
    assert_eq!(fmt_ago(now + 5, now), "0s ago");
}

#[test]
fn the_default_actions_show() {
    assert_eq!(tools_action(None), (false, Format::Text));
    let listed = ToolsAction::List { verbose: true, format: Format::Json };
    assert_eq!(tools_action(Some(listed)), (true, Format::Json));
    assert_eq!(config_action(None), ConfigAction::Show);
}

#[test]
fn undo_prefers_what_was_named() {
    assert_eq!(undo_target(1, None, Some(4)), UndoTarget::Migration(4));
    assert_eq!(undo_target(1, Some(3), None), UndoTarget::Event(3));
    assert_eq!(undo_target(5, None, None), UndoTarget::LatestMigration { otherwise: 5 });
    assert_eq!(undo_gate(true, false), UndoGate::AlreadyUndone);
    assert_eq!(undo_gate(false, true), UndoGate::CleanedUp);
    assert_eq!(undo_gate(false, false), UndoGate::Open);
}

fn entry(undone_at: Option<String>) -> LogEntry {
    LogEntry {
        id: 7,
        timestamp: "2026-01-01 00:00:00".into(),
        tool_name: "cursor".into(),
        file_path: "/p/.cursor/s.json".into(),
        field: "root".into(),
        format: "json".into(),
        old_value: "/a".into(),
        new_value: "/b".into(),
        undone_at,
    }
}

#[test]
fn log_lines_tell_what_was_rewritten() {
    assert_eq!(
        log_line(&entry(None)),
        "[2026-01-01 00:00:00] cursor /p/.cursor/s.json :: /a -> /b"
    );
    assert!(log_line(&entry(Some("later".into()))).ends_with(" (undone)"));
    assert!(undo_line(&entry(None), true, true).contains("(dry run)"));
    assert!(undo_line(&entry(None), false, false).contains("no match"));
}

#[test]
fn tools_are_listed_by_name() {
    let registry = ToolRegistry::new().unwrap();
    let names: Vec<String> = tools_by_name(&registry).into_iter().map(|t| t.name).collect();
    let mut sorted = names.clone();
    sorted.sort();
    assert_eq!(names, sorted);
    assert_eq!(names.len(), 7);
}

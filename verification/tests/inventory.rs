use sessionguard::inventory::{
    data_path, expand_home, inventory_tools, inventory_tools_impl, DataChild, DataTally, DataWalk,
};
use sessionguard::tools::{
    HomeDirDiscovery, HomeDirLayout, HomeDirQuiesce, HomeDirValidate, ReconcileStrategy,
    ToolDefinition,
};

fn tool_with_layout(name: &str, default_path: &str) -> ToolDefinition {
    ToolDefinition {
        name: name.to_string(),
        display_name: name.to_string(),
        session_patterns: vec![],
        path_fields: vec![],
        on_move: ReconcileStrategy::Notify,
        version: None,
        binary: None,
        home_dir_layout: Some(HomeDirLayout {
            default_path: default_path.to_string(),
            discovery: HomeDirDiscovery::Symlink,
            env_var: None,
            config_files: vec![],
            quiesce: HomeDirQuiesce::default(),
            validate: HomeDirValidate::default(),
        }),
        session_store: None,
    }
}

fn home() -> Option<String> {
    Some("/home/me".to_string())
}

#[test]
fn skips_tools_without_layout() {
    let mut t = tool_with_layout("no_layout", "");
    t.home_dir_layout = None;
    let inv = inventory_tools_impl(&vec![t], &home(), &vec![None]);
    assert!(inv.is_empty());
}

#[test]
fn reports_missing_path_with_exists_false() {
    let t = tool_with_layout("ghost", "/definitely/does/not/exist/xyz");
    let inv = inventory_tools_impl(&vec![t], &home(), &vec![None]);
    assert_eq!(inv.len(), 1);
    assert!(!inv[0].exists);
    assert_eq!(inv[0].size_bytes, 0);
    assert_eq!(inv[0].file_count, 0);
    assert!(inv[0].last_modified.is_none());
}

fn walked(listings: Vec<(&str, Result<Vec<DataChild>, String>)>) -> DataTally {
    let mut walk = DataWalk::start("/d");
    while let Some(dir) = walk.next() {
        let at = listings.iter().position(|(p, _)| *p == dir).expect("a listed directory");
        walk.walk_into(&listings[at].1);
    }
    walk.outcome()
}

#[test]
fn walks_real_dir_and_sums_sizes() {
    let tally = walked(vec![
        (
            "/d",
            Ok(vec![
                DataChild::File { len: 100, mtime: Some(5) },
                DataChild::File { len: 250, mtime: Some(9) },
                DataChild::Dir { path: "/d/sub".into() },
                DataChild::Other,
            ]),
        ),
        ("/d/sub", Ok(vec![DataChild::File { len: 50, mtime: Some(7) }])),
    ]);
    let t = tool_with_layout("dirwalk", "/d");
    let inv = inventory_tools(&vec![t], &home(), &vec![Some(tally)]);
    assert_eq!(inv.len(), 1);
    let e = &inv[0];
    assert!(e.exists);
    assert_eq!(e.file_count, 3);
    assert_eq!(e.size_bytes, 100 + 250 + 50);
    assert_eq!(e.last_modified, Some(9));
    assert!(!e.truncated);
    assert!(e.notes.is_empty(), "expected clean walk, got {:?}", e.notes);
}

#[test]
fn what_cannot_be_read_is_noted() {
    let tally = walked(vec![("/d", Err("denied".into()))]);
    assert_eq!(tally.file_count, 0);
    assert_eq!(tally.notes.len(), 1);
    assert!(tally.notes[0].contains("/d") && tally.notes[0].contains("denied"));
    let broken = walked(vec![(
        "/d",
        Ok(vec![
            DataChild::Broken { error: "io".into() },
            DataChild::Unstatted { path: "/d/x".into(), error: "gone".into() },
        ]),
    )]);
    assert_eq!(broken.notes.len(), 2);
    assert!(broken.last_modified.is_none());
}

#[test]
fn expand_home_handles_tilde_prefix() {
    assert_eq!(expand_home(&home(), "~/.foo"), "/home/me/.foo");
    assert_eq!(expand_home(&None, "~/.foo"), "~/.foo");
}

#[test]
fn expand_home_passes_through_non_tilde() {
    assert_eq!(expand_home(&home(), "/abs/path"), "/abs/path");
    assert_eq!(expand_home(&home(), "rel/path"), "rel/path");
}

#[test]
fn the_data_of_a_tool_lies_below_the_home_directory() {
    let t = tool_with_layout("x", "~/.x");
    assert_eq!(data_path(&t, &home()).as_deref(), Some("/home/me/.x"));
}

use sessionguard::config::Config;
use sessionguard::tools::{
    is_tool_file, safe_ident, HomeDirDiscovery, ReconcileStrategy, SessionStore, TimeUnit,
    ToolDefinition, ToolRegistry,
};

/// The first word of a tool's name.
fn brand() -> &'static str {
    "claude_code".split('_').next().unwrap()
}

fn capital(word: &str) -> String {
    let mut chars = word.chars();
    chars.next().unwrap().to_uppercase().collect::<String>() + chars.as_str()
}

fn plain(name: &str, display_name: &str, pattern: &str, on_move: ReconcileStrategy) -> ToolDefinition {
    ToolDefinition {
        name: name.to_string(),
        display_name: display_name.to_string(),
        session_patterns: vec![pattern.to_string()],
        path_fields: vec![],
        on_move,
        version: Some("99.0".to_string()),
        binary: None,
        home_dir_layout: None,
        session_store: None,
    }
}

#[test]
fn builtin_tools_load() {
    let registry = ToolRegistry::new().unwrap();
    assert!(registry.get("claude_code").is_some());
    assert!(registry.get("cursor").is_some());
    assert!(registry.get("windsurf").is_some());
    assert!(registry.get("aider").is_some());
    assert!(registry.get("gemini_cli").is_some());
    assert!(registry.get("codex").is_some());
    assert!(registry.get("opencode").is_some());
}

#[test]
fn builtin_codex_declares_env_discovery() {
    let registry = ToolRegistry::new().unwrap();
    let codex = registry.get("codex").unwrap();
    let h = codex
        .home_dir_layout
        .as_ref()
        .expect("codex must declare home_dir_layout for v0.4 migrate");
    assert_eq!(h.default_path, "~/.codex");
    assert_eq!(h.discovery, HomeDirDiscovery::Env);
    assert_eq!(h.env_var.as_deref(), Some("CODEX_HOME"));
    assert_eq!(
        h.quiesce.systemd_user_unit.as_deref(),
        Some("codex.service"),
        "codex builtin must declare a quiesce unit for the env-rewrite drop-in"
    );
}

#[test]
fn builtin_opencode_declares_symlink_discovery() {
    let registry = ToolRegistry::new().unwrap();
    let opencode = registry.get("opencode").unwrap();
    let h = opencode
        .home_dir_layout
        .as_ref()
        .expect("opencode must declare home_dir_layout for v0.4 migrate");
    assert_eq!(h.default_path, "~/.local/share/opencode");
    assert_eq!(h.discovery, HomeDirDiscovery::Symlink);
    assert_eq!(
        h.quiesce.systemd_user_unit.as_deref(),
        Some("opencode.service"),
        "opencode builtin must declare a quiesce unit for WAL-safe copy"
    );
}

#[test]
fn tool_registry_override() {
    let mut registry = ToolRegistry::new().unwrap();
    let custom_name = format!("Custom {}", capital(brand()));
    let custom = plain("claude_code", &custom_name, ".custom/", ReconcileStrategy::Notify);
    registry.register(custom);
    assert_eq!(registry.get("claude_code").unwrap().display_name, custom_name);
}

#[test]
fn load_from_directory_picks_up_custom_toml() {
    let mut windsurf = plain("windsurf", "Windsurf", ".windsurf/", ReconcileStrategy::RewritePaths);
    windsurf.path_fields = vec![sessionguard::tools::PathFieldSpec {
        file: ".windsurf/state.json".into(),
        field: "project_root".into(),
        format: "json".into(),
    }];
    let mut registry = ToolRegistry::new().unwrap();
    registry.load_all(&vec![], &vec![windsurf]);

    assert!(registry.get("claude_code").is_some());
    assert!(registry.get("cursor").is_some());
    let windsurf = registry.get("windsurf").unwrap();
    assert_eq!(windsurf.display_name, "Windsurf");
    assert_eq!(windsurf.session_patterns, vec![".windsurf/"]);
    assert_eq!(windsurf.path_fields.len(), 1);
    assert_eq!(windsurf.path_fields[0].field, "project_root");
}

#[test]
fn custom_toml_overrides_builtin() {
    let mut custom = plain("cursor", "Cursor (Custom)", ".cursor/", ReconcileStrategy::Notify);
    custom.session_patterns.push(".cursor-custom/".into());
    let mut registry = ToolRegistry::new().unwrap();
    registry.load_all(&vec![custom], &vec![]);

    let cursor = registry.get("cursor").unwrap();
    assert_eq!(cursor.display_name, "Cursor (Custom)");
    assert_eq!(cursor.version, Some("99.0".to_string()));
    assert_eq!(cursor.on_move, ReconcileStrategy::Notify);
    assert_eq!(cursor.session_patterns.len(), 2);
}

#[test]
fn a_users_definition_wins_over_the_systems() {
    let system = plain("cursor", "System", ".cursor/", ReconcileStrategy::Notify);
    let user = plain("cursor", "User", ".cursor/", ReconcileStrategy::Notify);
    let mut registry = ToolRegistry::new().unwrap();
    registry.load_all(&vec![system], &vec![user]);
    assert_eq!(registry.get("cursor").unwrap().display_name, "User");
    assert_eq!(registry.all().len(), 7);
}

#[test]
fn new_with_config_merges_project_tools() {
    let config = Config {
        tools: vec![ToolDefinition {
            name: "aider".to_string(),
            display_name: "Aider".to_string(),
            session_patterns: vec![".aider/".to_string()],
            path_fields: vec![],
            on_move: ReconcileStrategy::Notify,
            version: Some("1.0".to_string()),
            binary: None,
            home_dir_layout: None,
            session_store: None,
        }],
        ..Default::default()
    };
    let registry = ToolRegistry::new_with_config(&config, &vec![], &vec![]).unwrap();

    assert!(registry.get("claude_code").is_some());
    assert!(registry.get("cursor").is_some());
    let aider = registry.get("aider").unwrap();
    assert_eq!(aider.display_name, "Aider");
}

#[test]
fn config_tools_override_builtins() {
    let name = format!("{} Code (Project Override)", capital(brand()));
    let pattern = format!(".{}/", brand());
    let config = Config {
        tools: vec![plain("claude_code", &name, &pattern, ReconcileStrategy::RewritePaths)],
        ..Default::default()
    };
    let registry = ToolRegistry::new_with_config(&config, &vec![], &vec![]).unwrap();

    let tool = registry.get("claude_code").unwrap();
    assert_eq!(tool.display_name, name);
    assert_eq!(tool.version, Some("99.0".to_string()));
}

#[test]
fn non_toml_files_ignored() {
    assert!(!is_tool_file("/c/tools/readme.md"));
    assert!(!is_tool_file("/c/tools/.DS_Store"));
    assert!(!is_tool_file("/c/tools/.toml"));
    assert!(is_tool_file("/c/tools/cursor.toml"));
    let mut registry = ToolRegistry::new().unwrap();
    registry.load_all(&vec![], &vec![]);
    assert_eq!(registry.all().len(), 7);
}

#[test]
fn identifiers_for_queries_are_checked() {
    assert!(safe_ident("session_v2"));
    assert!(!safe_ident(""));
    assert!(!safe_ident("a;b"));
    let good = SessionStore::SqliteColumn {
        path: "~/x.db".into(),
        table: "session".into(),
        path_column: "directory".into(),
        updated_column: Some("updated".into()),
        updated_unit: TimeUnit::Ms,
        archived_column: None,
    };
    assert!(good.validate().is_ok());
    assert_eq!(good.path(), "~/x.db");
    let mut bad = good.clone();
    bad.set_path("/elsewhere.db".into());
    assert_eq!(bad.path(), "/elsewhere.db");
    let broken = SessionStore::EncodedDir {
        path: "~/p".into(),
        separator: "".into(),
        key_glob: None,
        key_field: None,
    };
    assert_eq!(broken.validate().unwrap_err(), "encoded_dir separator must not be empty");
    let half = SessionStore::EncodedDir {
        path: "~/p".into(),
        separator: "-".into(),
        key_glob: Some("*.jsonl".into()),
        key_field: None,
    };
    assert!(half.validate().unwrap_err().contains("together"));
}

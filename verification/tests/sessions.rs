use sessionguard::sessions::census::Sighting;
use sessionguard::sessions::decode::{Decoded, DirChild, Look, Seen, SeenDir, SeenList};
use sessionguard::sessions::read::{
    hint_consistent, jsonl_find_field, jsonl_sighting, read_encoded_dir, sqlite_query,
    sqlite_sighting, DirStep, EntryKind, Head, JsonlWalk, StoreFile, TreeEntry, FIRST_LINE_BYTES,
    HINT_BYTES, HINT_LINES,
};
use sessionguard::sessions::stores::EnvVar;
use sessionguard::sessions::{
    census, decode_claude_project_dir, decode_encoded_name, encode_project_path, mark_orphans,
    resolve_stores, DecodeConfidence, SessionGroup, ToolSessions,
};
use sessionguard::tools::{SessionStore, TimeUnit, ToolRegistry};

/// Files and directories, in memory.
struct Disk {
    dirs: Vec<String>,
    files: Vec<(String, String)>,
    links: Vec<String>,
    rows: Vec<(Option<String>, u64)>,
}

impl Disk {
    fn new() -> Disk {
        Disk { dirs: vec!["/".into()], files: vec![], links: vec![], rows: vec![] }
    }

    fn mkdir(&mut self, path: &str) {
        let mut at = String::new();
        for name in path.split('/').skip(1) {
            at.push('/');
            at.push_str(name);
            if !self.dirs.contains(&at) {
                self.dirs.push(at.clone());
            }
        }
    }

    fn write(&mut self, path: &str, text: &str) {
        let parent = path.rsplit_once('/').unwrap().0.to_string();
        self.mkdir(&parent);
        self.files.push((path.into(), text.into()));
    }

    fn is_dir(&self, path: &str) -> bool {
        self.dirs.iter().any(|d| d == path)
    }

    fn inside(path: &str, dir: &str) -> Option<String> {
        let prefix = if dir == "/" { "/".to_string() } else { format!("{dir}/") };
        let name = path.strip_prefix(&prefix)?;
        if name.is_empty() || name.contains('/') {
            None
        } else {
            Some(name.to_string())
        }
    }

    fn list(&self, dir: &str) -> Vec<DirChild> {
        let mut out: Vec<DirChild> = Vec::new();
        for d in &self.dirs {
            if let Some(name) = Disk::inside(d, dir) {
                out.push(DirChild { name, is_dir: true });
            }
        }
        for (f, _) in &self.files {
            if let Some(name) = Disk::inside(f, dir) {
                out.push(DirChild { name, is_dir: false });
            }
        }
        out
    }

    fn head(&self, path: &str, bytes: usize) -> Head {
        let text = &self.files.iter().find(|(p, _)| p == path).unwrap().1;
        let cut = &text[..text.len().min(bytes)];
        Head { lines: cut.lines().map(|l| l.to_string()).collect() }
    }

    fn look(&self, q: Look, seen: &mut Seen) {
        match q {
            Look::IsDir { path } => {
                let is_dir = self.is_dir(&path);
                seen.dirs.push(SeenDir { path, is_dir });
            }
            Look::List { path } => {
                let children = self.list(&path);
                seen.lists.push(SeenList { path, children });
            }
        }
    }

    fn decode(&self, name: &str, separator: &str) -> (String, DecodeConfidence) {
        let mut seen = Seen::nothing();
        loop {
            match decode_claude_project_dir(name, separator, &seen) {
                Decoded::Path { path, confidence } => return (path, confidence),
                Decoded::Ask(q) => self.look(q, &mut seen),
            }
        }
    }

    fn encoded_dirs(
        &self,
        base: &str,
        separator: &str,
        key_glob: &Option<String>,
        key_field: &Option<String>,
        local: bool,
        tool: &str,
        out: &mut Vec<Sighting>,
    ) {
        for dir in self.list(base) {
            if !dir.is_dir {
                continue;
            }
            let place = format!("{base}/{}", dir.name);
            let files: Vec<StoreFile> = self
                .files
                .iter()
                .filter(|(f, _)| Disk::inside(f, &place).is_some())
                .map(|(f, text)| StoreFile {
                    name: Disk::inside(f, &place).unwrap(),
                    path: f.clone(),
                    is_file: true,
                    len: text.len() as u64,
                    mtime: 1_000,
                })
                .collect();
            let mut heads: Vec<Head> = Vec::new();
            let mut seen = Seen::nothing();
            loop {
                match read_encoded_dir(
                    &dir.name, &files, separator, key_glob, key_field, local, tool, &heads, &seen,
                ) {
                    DirStep::Skip => break,
                    DirStep::Read(p) => heads.push(self.head(&p, HINT_BYTES as usize)),
                    DirStep::Ask(q) => self.look(q, &mut seen),
                    DirStep::Found(s) => {
                        out.push(s);
                        break;
                    }
                }
            }
        }
    }

    fn jsonl(
        &self,
        base: &str,
        pattern: &str,
        key_field: &str,
        fallback: &Option<String>,
        tool: &str,
        out: &mut Vec<Sighting>,
    ) {
        let mut walk = match JsonlWalk::start(base, self.is_dir(base), pattern) {
            Some(w) => w,
            None => return,
        };
        while let Some(dir) = walk.next() {
            let mut entries: Vec<TreeEntry> = Vec::new();
            let entry = |path: &str, kind: EntryKind, len: u64| TreeEntry {
                path: path.to_string(),
                kind,
                len,
                mtime: 5,
            };
            for d in self.dirs.iter().filter(|d| Disk::inside(d, &dir).is_some()) {
                entries.push(entry(d, EntryKind::Directory, 0));
            }
            for l in self.links.iter().filter(|l| Disk::inside(l, &dir).is_some()) {
                entries.push(entry(l, EntryKind::Other, 0));
            }
            for (f, text) in self.files.iter().filter(|f| Disk::inside(&f.0, &dir).is_some()) {
                entries.push(entry(f, EntryKind::File, text.len() as u64));
            }
            for file in walk.read_jsonl_field(&entries) {
                let head = self.head(&file.path, FIRST_LINE_BYTES as usize);
                if let Some(s) = jsonl_sighting(&file, &head, key_field, fallback, tool) {
                    out.push(s);
                }
            }
        }
    }

    fn census(&self, home: &str, stores: &[(String, SessionStore)], foreign: bool) -> Vec<SessionGroup> {
        let mut found: Vec<Sighting> = Vec::new();
        for (tool, store) in stores {
            let base = store.path().trim_end_matches('/').replacen('~', home, 1);
            match store {
                SessionStore::EncodedDir { separator, key_glob, key_field, .. } => {
                    self.encoded_dirs(&base, separator, key_glob, key_field, !foreign, tool, &mut found);
                }
                SessionStore::JsonlField { glob, key_field, fallback_field, .. } => {
                    self.jsonl(&base, glob, key_field, fallback_field, tool, &mut found);
                }
                SessionStore::SqliteColumn { updated_unit, .. } => {
                    for (dir, raw) in &self.rows {
                        if let Some(s) = sqlite_sighting(dir, *raw, *updated_unit, tool) {
                            found.push(s);
                        }
                    }
                }
            }
        }
        let mut groups = census(&found);
        let exists: Vec<bool> = groups.iter().map(|g| self.is_dir(&g.project_path)).collect();
        mark_orphans(&mut groups, &exists, foreign);
        groups
    }
}

fn projects(home: &str) -> String {
    format!("{home}/.{}/projects", brand())
}

fn brand() -> &'static str {
    "claude_code".split('_').next().unwrap()
}

fn encoded_store(hinted: bool) -> (String, SessionStore) {
    (
        "claude_code".into(),
        SessionStore::EncodedDir {
            path: projects("~"),
            separator: "-".into(),
            key_glob: if hinted { Some("*.jsonl".into()) } else { None },
            key_field: if hinted { Some("cwd".into()) } else { None },
        },
    )
}

fn codex_store(path: &str) -> (String, SessionStore) {
    (
        "codex".into(),
        SessionStore::JsonlField {
            path: path.into(),
            glob: "**/*.jsonl".into(),
            key_field: "cwd".into(),
            fallback_field: Some("payload.cwd".into()),
        },
    )
}

fn opencode_store(unit: TimeUnit) -> (String, SessionStore) {
    (
        "opencode".into(),
        SessionStore::SqliteColumn {
            path: "~/.local/share/opencode/opencode.db".into(),
            table: "session".into(),
            path_column: "directory".into(),
            updated_column: Some("time_updated".into()),
            updated_unit: unit,
            archived_column: Some("time_archived".into()),
        },
    )
}

fn test_stores() -> Vec<(String, SessionStore)> {
    vec![encoded_store(false), codex_store("~/.codex/sessions"), opencode_store(TimeUnit::Ms)]
}

fn count_of(g: &SessionGroup, tool: &str) -> usize {
    g.tools.iter().find(|t| t.tool == tool).unwrap().sessions.count
}

fn last_of(g: &SessionGroup, tool: &str) -> u64 {
    g.tools.iter().find(|t| t.tool == tool).unwrap().sessions.last_active_unix
}

fn find<'a>(groups: &'a [SessionGroup], path: &str) -> &'a SessionGroup {
    groups.iter().find(|g| g.project_path == path).unwrap_or_else(|| panic!("{path} is missing"))
}

#[test]
fn decode_resolves_hyphenated_segments_against_filesystem() {
    let mut disk = Disk::new();
    let project = "/r/work/side-projects/myapp";
    disk.mkdir(project);
    let (decoded, confidence) = disk.decode(&project.replace('/', "-"), "-");
    assert_eq!(confidence, DecodeConfidence::Exact);
    assert_eq!(decoded, project);
}

#[test]
fn decode_falls_back_to_naive_decode_when_dfs_fails() {
    let (out, confidence) = Disk::new().decode("-no-such-root-anywhere-zzz", "-");
    assert_eq!(confidence, DecodeConfidence::Inferred);
    assert_eq!(out, "/no/such/root/anywhere/zzz");
}

#[test]
fn decode_is_unresolved_when_name_has_no_leading_separator() {
    let (out, confidence) = Disk::new().decode("not-even-path-shaped", "_");
    assert_eq!(confidence, DecodeConfidence::Unresolved);
    assert_eq!(out, "not-even-path-shaped");
}

#[test]
fn decode_folds_hyphenated_leaf_onto_deepest_surviving_ancestor() {
    let mut disk = Disk::new();
    disk.mkdir("/r/home/devo/projects");
    let gone = "/r/home/devo/projects/amarillo-project";
    let (decoded, confidence) = disk.decode(&gone.replace('/', "-"), "-");
    assert_eq!(confidence, DecodeConfidence::Inferred);
    assert_eq!(decoded, gone);
}

#[test]
fn census_groups_claude_and_codex_by_project_and_flags_orphans() {
    let home = "/h";
    let mut disk = Disk::new();
    let live = "/h/proj/alpha";
    disk.mkdir(live);
    let store = format!("{}/{}", projects(home), live.replace('/', "-"));
    disk.write(&format!("{store}/s1.jsonl"), "{}");
    disk.write(&format!("{store}/s2.jsonl"), "{}");
    let gone = "/h/proj/deleted";
    disk.write(
        "/h/.codex/sessions/2026/07/rollout-1.jsonl",
        &format!("{{\"cwd\": \"{gone}\"}}\n"),
    );
    let groups = disk.census(home, &test_stores(), false);
    let live_group = find(&groups, live);
    assert!(!live_group.orphaned);
    assert!(live_group.decoded);
    assert_eq!(count_of(live_group, "claude_code"), 2);
    let orphan = find(&groups, gone);
    assert!(orphan.orphaned, "nonexistent project dir must flag orphaned");
    assert_eq!(count_of(orphan, "codex"), 1);
}

#[test]
fn census_reads_opencode_db_read_only() {
    let conn = rusqlite::Connection::open_in_memory().unwrap();
    conn.execute_batch(
        "CREATE TABLE session (directory TEXT, time_updated INTEGER, time_archived INTEGER);
         INSERT INTO session VALUES ('/tmp/oc-proj', 1752600000000, NULL);
         INSERT INTO session VALUES ('/tmp/oc-proj', 1752610000000, NULL);
         INSERT INTO session VALUES ('/tmp/archived', 1752600000000, 1752600000001);",
    )
    .unwrap();
    let query = sqlite_query(
        "session",
        "directory",
        &Some("time_updated".into()),
        &Some("time_archived".into()),
    )
    .unwrap();
    let mut disk = Disk::new();
    let mut statement = conn.prepare(&query).unwrap();
    let mut rows = statement.query([]).unwrap();
    while let Some(row) = rows.next().unwrap() {
        let dir: Option<String> = row.get(0).unwrap();
        let raw: i64 = row.get(1).unwrap();
        disk.rows.push((dir, raw as u64));
    }
    let groups = disk.census("/h", &test_stores(), false);
    let g = find(&groups, "/tmp/oc-proj");
    assert_eq!(count_of(g, "opencode"), 2, "archived rows excluded");
    assert_eq!(last_of(g, "opencode"), 1_752_610_000);
}

#[test]
fn sqlite_column_skips_whole_store_when_table_or_path_column_is_unsafe() {
    let updated = Some("time_updated".to_string());
    assert_eq!(sqlite_query("session; DROP TABLE session", "directory", &updated, &None), None);
    assert_eq!(sqlite_query("session", "directory FROM x --", &updated, &None), None);
}

#[test]
fn sqlite_column_degrades_gracefully_when_optional_columns_are_unsafe() {
    let q = sqlite_query("session", "directory", &Some("bad col".into()), &Some("a;b".into()));
    let q = q.unwrap();
    assert!(!q.contains("bad col") && !q.contains("a;b"), "{q}");
    assert!(q.contains("directory") && q.contains("session"));
}

#[test]
fn deleted_claude_project_is_inferred_and_orphaned() {
    let home = "/h";
    let mut disk = Disk::new();
    disk.mkdir("/h/work");
    let gone = "/h/work/deleted-app";
    disk.write(&format!("{}/{}/s.jsonl", projects(home), gone.replace('/', "-")), "{}");
    let groups = disk.census(home, &test_stores(), false);
    let g = find(&groups, gone);
    assert_eq!(g.confidence, DecodeConfidence::Inferred);
    assert!(g.orphaned, "a deleted project must report as orphaned");
    assert!(!g.decoded, "compat field: only Exact counts as decoded");
}

#[test]
fn deleted_claude_project_directly_under_home_is_inferred_and_orphaned() {
    let home = "/h";
    let mut disk = Disk::new();
    let gone = "/h/deleted_project";
    disk.write(&format!("{}/{}/s.jsonl", projects(home), gone.replace('/', "-")), "{}");
    let groups = disk.census(home, &test_stores(), false);
    let g = find(&groups, gone);
    assert_eq!(g.confidence, DecodeConfidence::Inferred);
    assert!(g.orphaned, "a deleted project must report as orphaned");
    assert!(!g.decoded, "compat field: only Exact counts as decoded");
}

#[test]
fn live_project_decodes_exact() {
    let home = "/h";
    let mut disk = Disk::new();
    disk.mkdir("/h/work/app");
    disk.write(&format!("{}/-h-work-app/s.jsonl", projects(home)), "{}");
    let groups = disk.census(home, &test_stores(), false);
    assert_eq!(groups[0].confidence, DecodeConfidence::Exact);
    assert!(groups[0].decoded);
    assert!(!groups[0].orphaned);
}

#[test]
fn foreign_root_census_asserts_no_orphan_verdict() {
    let home = "/h";
    let mut disk = Disk::new();
    disk.mkdir("/h/work");
    disk.write(&format!("{}/-h-work-deleted-app/s.jsonl", projects(home)), "{}");
    disk.write(
        "/h/.codex/sessions/2026/07/rollout-1.jsonl",
        "{\"cwd\": \"/no/such/project/anywhere\"}\n",
    );
    let local = disk.census(home, &test_stores(), false);
    assert!(local.iter().any(|g| g.orphaned), "a local census must still flag gone project dirs");
    let foreign = disk.census(home, &test_stores(), true);
    assert!(!foreign.is_empty(), "groups are still reported");
    assert!(
        foreign.iter().all(|g| !g.orphaned),
        "a foreign root must not assert an orphan verdict for any group"
    );
}

#[test]
fn jsonl_walk_terminates_on_a_symlink_cycle() {
    let mut disk = Disk::new();
    disk.write("/h/.codex/sessions/2026/rollout.jsonl", "{\"cwd\": \"/tmp/cycle-proj\"}\n");
    disk.links.push("/h/.codex/sessions/2026/loop".into());
    let groups = disk.census("/h", &test_stores(), false);
    assert!(
        groups.iter().any(|g| g.project_path == "/tmp/cycle-proj"),
        "the real session must still be read past the cycle"
    );
}

#[test]
fn encode_matches_claude_code_rule() {
    assert_eq!(
        encode_project_path("/Users/devo/my_app.v2/LARS Docs", "-"),
        "-Users-devo-my-app-v2-LARS-Docs"
    );
    assert_eq!(encode_project_path("/home/x/.config/nvim", "-"), "-home-x--config-nvim");
}

#[test]
fn live_project_with_underscore_dot_and_space_decodes_exact_from_its_name() {
    let home = "/h";
    let mut disk = Disk::new();
    let leaves = ["my_app", "app.v2", "LARS Docs", ".config"];
    for leaf in leaves {
        let live = format!("/h/work/{leaf}");
        disk.mkdir(&live);
        let name = encode_project_path(&live, "-");
        disk.write(&format!("{}/{name}/s.jsonl", projects(home)), "{}");
    }
    let groups = disk.census(home, &[encoded_store(true)], false);
    for leaf in leaves {
        let g = find(&groups, &format!("/h/work/{leaf}"));
        assert_eq!(g.confidence, DecodeConfidence::Exact, "{leaf}");
        assert!(!g.orphaned, "{leaf} is live");
    }
}

#[test]
fn key_hint_reads_true_path_from_transcript_even_when_dir_is_gone() {
    let home = "/h";
    let mut disk = Disk::new();
    disk.mkdir("/h/work");
    let gone = "/h/work/my_app";
    let name = encode_project_path(gone, "-");
    disk.write(
        &format!("{}/{name}/a.jsonl", projects(home)),
        &format!(
            "{{\"type\":\"summary\",\"summary\":\"x\"}}\n\
             {{\"type\":\"user\",\"cwd\":\"{gone}\",\"sessionId\":\"1\"}}\n"
        ),
    );
    let groups = disk.census(home, &[encoded_store(true)], false);
    assert_eq!(groups.len(), 1);
    assert_eq!(groups[0].project_path, gone);
    assert_eq!(groups[0].confidence, DecodeConfidence::Exact);
    assert!(groups[0].orphaned);
}

#[test]
fn key_hint_is_ignored_when_it_does_not_encode_to_the_directory() {
    let home = "/h";
    let mut disk = Disk::new();
    let live = "/h/work/app";
    disk.mkdir(live);
    let name = encode_project_path(live, "-");
    disk.write(
        &format!("{}/{name}/a.jsonl", projects(home)),
        "{\"cwd\":\"/somewhere/else\"}\n",
    );
    let groups = disk.census(home, &[encoded_store(true)], false);
    assert_eq!(groups[0].project_path, live);
    assert_eq!(groups[0].confidence, DecodeConfidence::Exact, "falls back to name decode");
    assert!(hint_consistent("/a_b", "-a-b", "-"));
    assert!(!hint_consistent("/a_c", "-a-b", "-"));
}

#[test]
fn ambiguous_name_with_two_live_candidates_is_inferred_not_exact() {
    let home = "/h";
    let mut disk = Disk::new();
    disk.mkdir("/h/work/my_app");
    disk.mkdir("/h/work/my-app");
    let name = encode_project_path("/h/work/my_app", "-");
    assert_eq!(name, encode_project_path("/h/work/my-app", "-"), "the two collide in the store");
    disk.write(&format!("{}/{name}/s.jsonl", projects(home)), "{}");
    let groups = disk.census(home, &[encoded_store(true)], false);
    assert_eq!(groups.len(), 1);
    assert_eq!(
        groups[0].confidence,
        DecodeConfidence::Inferred,
        "cannot tell my_app from my-app"
    );
    assert!(!groups[0].orphaned, "whichever it is, it exists");
}

#[test]
fn foreign_root_never_validates_names_against_the_local_filesystem() {
    let home = "/h";
    let mut disk = Disk::new();
    let root = projects(home);
    disk.write(&format!("{root}/-home-other-work-my-app/s.jsonl"), "{}");
    disk.write(
        &format!("{root}/-home-other-src-my-lib/s.jsonl"),
        "{\"cwd\":\"/home/other/src/my_lib\"}\n",
    );
    let groups = disk.census(home, &[encoded_store(true)], true);
    let naive = find(&groups, "/home/other/work/my/app");
    assert_eq!(naive.confidence, DecodeConfidence::Inferred);
    assert!(!naive.orphaned);
    let hinted = find(&groups, "/home/other/src/my_lib");
    assert_eq!(hinted.confidence, DecodeConfidence::Exact);
    assert!(!hinted.orphaned, "no orphan verdict for a foreign root");
    assert!(matches!(
        decode_encoded_name("-a-b", "-", false, &Seen::nothing()),
        Decoded::Path { path, confidence: DecodeConfidence::Inferred } if path == "/a/b"
    ));
}

#[test]
fn jsonl_glob_matches_relative_to_store_root_despite_metachars_and_trailing_slash() {
    let home = "/r/fake home [2]";
    let mut disk = Disk::new();
    disk.write(
        &format!("{home}/.codex/sessions/2026/07/rollout-1.jsonl"),
        "{\"cwd\": \"/tmp/glob-proj\"}\n",
    );
    let groups = disk.census(home, &[codex_store("~/.codex/sessions/")], false);
    assert!(groups.iter().any(|g| g.project_path == "/tmp/glob-proj"));
}

#[test]
fn jsonl_first_line_read_is_bounded() {
    let mut disk = Disk::new();
    let mut huge = String::from("{\"pad\":\"");
    huge.push_str(&"x".repeat(2 * 1024 * 1024));
    huge.push_str("\",\"cwd\":\"/tmp/huge-proj\"}\n");
    disk.write("/h/.codex/sessions/huge.jsonl", &huge);
    disk.write("/h/.codex/sessions/ok.jsonl", "{\"cwd\":\"/tmp/ok-proj\"}\n");
    let groups = disk.census("/h", &test_stores(), false);
    assert!(groups.iter().any(|g| g.project_path == "/tmp/ok-proj"));
    assert!(
        !groups.iter().any(|g| g.project_path == "/tmp/huge-proj"),
        "a key beyond the byte budget is not read"
    );
}

#[test]
fn sqlite_updated_column_coerces_text_rows_and_detects_millisecond_magnitude() {
    let mut disk = Disk::new();
    disk.rows.push((Some("/tmp/text-row".into()), 1_752_610_000));
    disk.rows.push((Some("/tmp/ms-row".into()), 1_752_620_000_000));
    disk.rows.push((None, 7));
    disk.rows.push((Some("".into()), 7));
    let groups = disk.census("/h", &[opencode_store(TimeUnit::S)], false);
    assert_eq!(groups.len(), 2);
    assert_eq!(last_of(find(&groups, "/tmp/text-row"), "opencode"), 1_752_610_000);
    assert_eq!(
        last_of(find(&groups, "/tmp/ms-row"), "opencode"),
        1_752_620_000,
        "ms magnitude read as ms"
    );
}

#[test]
fn resolve_stores_reroots_env_discovered_tools_locally_only() {
    let registry = ToolRegistry::new().unwrap();
    let env = Some(vec![EnvVar { name: "CODEX_HOME".into(), value: "/mnt/data/codex/".into() }]);
    let local = resolve_stores(registry.all(), &env);
    let codex = local.iter().find(|(t, _)| t == "codex").unwrap();
    assert_eq!(codex.1.path(), "/mnt/data/codex/sessions");
    let linked = local.iter().find(|(t, _)| t == "claude_code").unwrap();
    assert_eq!(linked.1.path(), projects("~"), "symlink-discovered tools untouched");
    assert!(local.windows(2).all(|w| w[0].0 <= w[1].0), "sorted by tool name");

    let foreign = resolve_stores(registry.all(), &None);
    assert_eq!(
        foreign.iter().find(|(t, _)| t == "codex").unwrap().1.path(),
        "~/.codex/sessions",
        "a foreign root ignores this machine's environment"
    );
}

#[test]
fn fields_are_looked_up_by_path() {
    let head = Head {
        lines: vec!["not json".into(), "{\"payload\":{\"cwd\":\"/p\"}}".into()],
    };
    let fields = vec!["cwd".to_string(), "payload.cwd".to_string()];
    assert_eq!(jsonl_find_field(&head, &fields, HINT_LINES).as_deref(), Some("/p"));
    assert_eq!(jsonl_find_field(&head, &fields, 1), None);
}

#[test]
fn every_session_is_counted_once() {
    let seen = |path: &str, tool: &str, count: usize, bytes: u64, at: u64| Sighting {
        path: path.into(),
        confidence: DecodeConfidence::Exact,
        tool: tool.into(),
        sessions: ToolSessions { count, bytes, last_active_unix: at },
    };
    let groups = census(&vec![
        seen("/p/b", "codex", 2, 20, 5),
        seen("/p/a", "codex", 1, 7, 9),
        seen("/p/b", "opencode", 4, 0, 1),
        seen("/p/b", "codex", 3, 30, 4),
    ]);
    let counted: usize =
        groups.iter().flat_map(|g| g.tools.iter()).map(|t| t.sessions.count).sum();
    assert_eq!(counted, 10);
    let b = groups.iter().find(|g| g.project_path == "/p/b").unwrap();
    let codex = &b.tools.iter().find(|t| t.tool == "codex").unwrap().sessions;
    assert_eq!((codex.count, codex.bytes, codex.last_active_unix), (5, 50, 5));
    assert_eq!(groups.len(), 2);
}

#[test]
fn an_encoded_name_encodes_to_itself() {
    let once = encode_project_path("/home/me/my_app v1.2", "-");
    assert_eq!(once, "-home-me-my-app-v1-2");
    assert_eq!(encode_project_path(&once, "-"), once);
}

#[test]
fn a_decoded_path_has_the_name_it_was_decoded_from() {
    let mut disk = Disk::new();
    disk.mkdir("/work/my_app");
    for name in ["-work-my-app", "-work-gone-", "-nowhere-at-all", "--work", "-work-my-app-x"] {
        let mut seen = Seen::nothing();
        let path = loop {
            match decode_claude_project_dir(name, "-", &seen) {
                Decoded::Path { path, confidence } => {
                    assert!(confidence != DecodeConfidence::Unresolved, "{name}");
                    break path;
                }
                Decoded::Ask(q) => disk.look(q, &mut seen),
            }
        };
        assert_eq!(encode_project_path(&path, "-"), name, "{path}");
    }
    match decode_encoded_name("-work-my-app", "-", false, &Seen::nothing()) {
        Decoded::Path { path, confidence } => {
            assert_eq!(path, "/work/my/app");
            assert_eq!(confidence, DecodeConfidence::Inferred);
        }
        Decoded::Ask(_) => panic!("nothing is asked away from this machine"),
    }
}

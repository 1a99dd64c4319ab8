use sessionguard::detector::{
    detect_tools, is_mount_level, is_skippable_dir, pattern_place, watch_roots_for, PatternSight,
    ProjectWalk, ToolSight,
};
use sessionguard::sessions::decode::DirChild;
use sessionguard::tools::ToolRegistry;

/// A tree of directories, given by its paths.
struct Tree {
    dirs: Vec<String>,
}

impl Tree {
    fn of(dirs: &[String]) -> Tree {
        let mut all: Vec<String> = Vec::new();
        for d in dirs {
            let mut path = String::new();
            for name in d.split('/').skip(1) {
                path.push('/');
                path.push_str(name);
                if !all.contains(&path) {
                    all.push(path.clone());
                }
            }
        }
        Tree { dirs: all }
    }

    fn has(&self, path: &str) -> bool {
        self.dirs.iter().any(|d| d == path)
    }

    fn children(&self, path: &str) -> Vec<DirChild> {
        let prefix = format!("{path}/");
        self.dirs
            .iter()
            .filter(|d| d.starts_with(&prefix) && !d[prefix.len()..].contains('/'))
            .map(|d| DirChild { name: d[prefix.len()..].to_string(), is_dir: true })
            .collect()
    }

    /// What the tools' patterns find at a directory.
    fn sights(&self, root: &str, registry: &ToolRegistry) -> Vec<ToolSight> {
        registry
            .all()
            .iter()
            .map(|t| ToolSight {
                patterns: t
                    .session_patterns
                    .iter()
                    .map(|p| PatternSight {
                        exists: self.has(&pattern_place(root, p)),
                        globbed: false,
                    })
                    .collect(),
                files: vec![false; t.path_fields.len()],
            })
            .collect()
    }

    fn walk(&self, root: &str, depth: usize, home: Option<String>) -> (Vec<String>, bool) {
        let registry = ToolRegistry::new().unwrap();
        let mut walk = ProjectWalk::start(root, depth, &home);
        while let Some(dir) = walk.next() {
            let found = detect_tools(&dir, &registry, &self.sights(&dir, &registry));
            walk.walk_for_projects(!found.is_empty(), &self.children(&dir));
        }
        walk.outcome()
    }
}

/// The directory in which one of the tools keeps its settings.
fn artifact() -> String {
    format!(".{}", "claude_code".split('_').next().unwrap())
}

#[test]
fn walk_for_projects_finds_nested_prunes_and_respects_depth() {
    let tree = Tree::of(&[
        format!("/r/work/client/proj/{}", artifact()),
        format!("/r/work/client/proj/sub/{}", artifact()),
        format!("/r/node_modules/{}", artifact()),
    ]);
    let (found, truncated) = tree.walk("/r", 5, None);
    assert!(!truncated);
    assert_eq!(
        found,
        vec!["/r/work/client/proj"],
        "should find exactly the one project, pruned"
    );
    let (shallow, _) = tree.walk("/r", 1, None);
    assert!(shallow.is_empty(), "depth 1 shouldn't reach a depth-3 project");
}

#[test]
fn detects_claude_code_artifacts() {
    let tree = Tree::of(&[format!("/p/{}", artifact())]);
    let registry = ToolRegistry::new().unwrap();
    let results = detect_tools("/p", &registry, &tree.sights("/p", &registry));
    assert!(!results.is_empty());
    assert!(results.iter().any(|r| r.tool_name == "claude_code"));
}

#[test]
fn returns_empty_for_no_artifacts() {
    let tree = Tree::of(&["/p".to_string()]);
    let registry = ToolRegistry::new().unwrap();
    let results = detect_tools("/p", &registry, &tree.sights("/p", &registry));
    assert!(results.is_empty());
}

#[test]
fn home_is_walked_into_never_counted_as_a_project() {
    let home = "/Users/me";
    let proj = format!("{home}/Droco/Silos/aiq");
    let tree = Tree::of(&[
        format!("{home}/{}", artifact()),
        format!("{proj}/{}", artifact()),
        format!("{home}/Library/Caches/huge/{}", artifact()),
    ]);
    let (found, _) = tree.walk(home, 4, Some(home.to_string()));
    assert_eq!(found, vec![proj], "home is not a project; Library is skipped");
    let roots = watch_roots_for(&found, home);
    assert_eq!(roots, vec![format!("{home}/Droco")]);
}

#[test]
fn watch_roots_never_include_home_or_above() {
    let home = "/Users/me";
    let projects: Vec<String> = [
        "/Users/me",
        "/Users",
        "/Users/me/Droco",
        "/Users/me/Droco/Silos/aiq",
        "/Users/me/Desktop/scratch",
        "/Users/me/.config/nvim",
        "/Users/me/Library/Mobile Documents/x",
        "/Volumes/Ext/work/app",
        "/Volumes/Ext2",
    ]
    .map(String::from)
    .to_vec();
    assert_eq!(
        watch_roots_for(&projects, home),
        ["/Users/me/Desktop", "/Users/me/Droco", "/Volumes/Ext/work", "/Volumes/Ext2"]
            .map(String::from)
            .to_vec()
    );
}

#[test]
fn mount_points_and_build_directories_are_recognised() {
    assert!(is_mount_level("/"));
    assert!(is_mount_level("/Volumes"));
    assert!(!is_mount_level("/Volumes/Ext"));
    assert!(is_skippable_dir("/p/node_modules"));
    assert!(is_skippable_dir("/p/.git"));
    assert!(!is_skippable_dir("/p/src"));
}

#[test]
fn patterns_are_places_below_the_project() {
    assert_eq!(pattern_place("/p", ".cursor/"), "/p/.cursor");
}

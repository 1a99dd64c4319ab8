use sessionguard::known::{is_structural, keys_of, KeyPair, KnownProjects};
use sessionguard::sessions::{DecodeConfidence, SessionGroup};

fn from_keys(keys: &[&str], home: Option<&str>) -> KnownProjects {
    let keys: Vec<String> = keys.iter().map(|k| k.to_string()).collect();
    let resolved: Vec<Option<String>> = keys.iter().map(|_| None).collect();
    KnownProjects::from_keys(&keys, &resolved, &home.map(|h| h.to_string()), 0)
}

fn idx(keys: &[&str]) -> KnownProjects {
    from_keys(keys, Some("/home/me"))
}

fn pairs(k: &KnownProjects, from: &str, to: &str) -> Vec<KeyPair> {
    k.pairs_for_move(from, to, &None)
}

fn plain(pairs: Vec<KeyPair>) -> Vec<(String, String)> {
    pairs.into_iter().map(|p| (p.first, p.second)).collect()
}

#[test]
fn a_rename_of_an_unknown_directory_yields_nothing() {
    let k = idx(&["/home/me/work/app"]);
    for (from, to) in [
        ("/home/me/work/app/.git/refs.lock", "/home/me/work/app/.git/refs"),
        (
            "/home/me/work/app/target/debug/incremental/s-abc-working",
            "/home/me/work/app/target/debug/incremental/s-abc",
        ),
        ("/home/me/work/app-two", "/home/me/work/app-three"),
    ] {
        assert!(
            pairs(&k, from, to).is_empty(),
            "{from} is not a known project and must be ignored"
        );
    }
}

#[test]
fn a_known_project_moving_yields_exactly_its_own_pair() {
    let k = idx(&["/home/me/work/app", "/home/me/work/other"]);
    assert_eq!(
        plain(pairs(&k, "/home/me/work/app", "/home/me/elsewhere/app")),
        vec![("/home/me/work/app".to_string(), "/home/me/elsewhere/app".to_string())]
    );
}

#[test]
fn moving_a_folder_moves_every_project_beneath_it() {
    let k = idx(&[
        "/home/me/junk/rndm/peoples",
        "/home/me/junk/rndm/deep/nested",
        "/home/me/junk/keep",
    ]);
    let moved = pairs(&k, "/home/me/junk/rndm", "/home/me/junk/legal");
    assert_eq!(
        plain(moved),
        vec![
            (
                "/home/me/junk/rndm/deep/nested".to_string(),
                "/home/me/junk/legal/deep/nested".to_string()
            ),
            (
                "/home/me/junk/rndm/peoples".to_string(),
                "/home/me/junk/legal/peoples".to_string()
            ),
        ]
    );
}

#[test]
fn home_and_its_ancestors_are_never_keys() {
    let k = from_keys(&["/", "/home", "/home/me", "/home/me/work/app"], Some("/home/me"));
    assert_eq!(k.len(), 1);
    assert!(pairs(&k, "/home/me/work/app", "/home/me/x").len() == 1);
    assert!(is_structural("/home", &Some("/home/me".into())));
    assert!(!is_structural("/home/me/x", &Some("/home/me".into())));
}

#[test]
fn matches_through_a_symlinked_prefix() {
    let keys = vec!["/var/t/app".to_string()];
    let resolved = vec![Some("/private/var/t/app".to_string())];
    let k = KnownProjects::from_keys(&keys, &resolved, &None, 0);
    let found = pairs(&k, "/private/var/t/app", "/private/var/t/moved");
    assert_eq!(found.len(), 1, "canonical event path must find the recorded key");
    assert_eq!(
        found[0].first, "/var/t/app",
        "re-key uses the key as the STORE recorded it"
    );
}

#[test]
fn apply_move_makes_the_new_path_known() {
    let mut k = idx(&["/home/me/a"]);
    let moved = pairs(&k, "/home/me/a", "/home/me/b");
    k.apply_move(&moved);
    assert!(pairs(&k, "/home/me/a", "/home/me/z").is_empty());
    assert_eq!(
        pairs(&k, "/home/me/b", "/home/me/c").len(),
        1,
        "moving it again is recognised without a rebuild"
    );
}

#[test]
fn keys_come_from_sessions_and_the_registry() {
    let group = |path: &str, decoded: bool| SessionGroup {
        project_path: path.into(),
        decoded,
        confidence: if decoded { DecodeConfidence::Exact } else { DecodeConfidence::Unresolved },
        orphaned: false,
        host: "local".into(),
        tools: vec![],
    };
    let groups = vec![group("/p/a", true), group("opaque", false)];
    let keys = keys_of(&groups, &vec!["/p/b".to_string()]);
    assert!(keys.contains(&"/p/a".to_string()) && keys.contains(&"/p/b".to_string()));
    assert!(!keys.contains(&"opaque".to_string()));
    let resolved = vec![None; keys.len()];
    let k = KnownProjects::build(&groups, &vec!["/p/b".to_string()], &resolved, &None, 5);
    assert_eq!(k.len(), 2);
    assert!(!k.is_empty());
    assert_eq!(k.age(12), 7);
}

#[test]
fn after_a_folder_has_moved_its_projects_are_known_there() {
    let mut k = idx(&["/home/me/a/one", "/home/me/a/sub/two", "/home/me/keep"]);
    let moved = pairs(&k, "/home/me/a", "/home/me/b");
    assert_eq!(moved.len(), 2);
    k.apply_move(&moved);
    assert!(pairs(&k, "/home/me/a", "/home/me/z").is_empty());
    assert_eq!(
        plain(pairs(&k, "/home/me/b", "/home/me/c")),
        vec![
            ("/home/me/b/one".to_string(), "/home/me/c/one".to_string()),
            ("/home/me/b/sub/two".to_string(), "/home/me/c/sub/two".to_string()),
        ]
    );
    assert_eq!(pairs(&k, "/home/me/keep", "/home/me/kept").len(), 1);
}

use sessionguard::reconciler::{
    path_pair_candidates, replace_all_with_boundary, replace_path_prefix, rewrite_json_field,
    rewrite_toml_field, PathPair,
};

fn one_pair(old: &str, new: &str) -> Vec<PathPair> {
    vec![PathPair::new(old, new)]
}

#[test]
fn replace_path_prefix_exact_match() {
    assert_eq!(
        replace_path_prefix("/home/me/code", &one_pair("/home/me/code", "/new/root")),
        Some(("/new/root".to_string(), 0))
    );
}

#[test]
fn replace_path_prefix_with_trailing_segment() {
    assert_eq!(
        replace_path_prefix(
            "/home/me/code/src/main.rs",
            &one_pair("/home/me/code", "/new/root")
        ),
        Some(("/new/root/src/main.rs".to_string(), 0))
    );
}

#[test]
fn replace_path_prefix_rejects_substring_collision() {
    assert_eq!(
        replace_path_prefix(
            "/home/me/code-backup/foo",
            &one_pair("/home/me/code", "/new/root")
        ),
        None
    );
    assert_eq!(
        replace_path_prefix("/home/me/code_archive", &one_pair("/home/me/code", "/new/root")),
        None
    );
}

#[test]
fn replace_path_prefix_windows_separator() {
    assert_eq!(
        replace_path_prefix(r"C:\old\project\src", &one_pair(r"C:\old\project", r"D:\new")),
        Some((r"D:\new\src".to_string(), 0))
    );
}

#[test]
fn replace_path_prefix_uses_matching_pairs_new_root() {
    let pairs = vec![
        PathPair::new("/private/var/folders/xx", "/private/var/folders/yy"),
        PathPair::new("/var/folders/xx", "/var/folders/yy"),
    ];
    assert_eq!(
        replace_path_prefix("/var/folders/xx/foo", &pairs),
        Some(("/var/folders/yy/foo".to_string(), 1))
    );
}

#[test]
fn path_pair_candidates_adds_private_variant_macos() {
    let pairs = path_pair_candidates("/var/folders/xx/abc", "/var/folders/xx/def", true);
    assert!(pairs
        .iter()
        .any(|p| p.old == "/var/folders/xx/abc" && p.new == "/var/folders/xx/def"));
    assert!(pairs.iter().any(|p| p.old == "/private/var/folders/xx/abc"
        && p.new == "/private/var/folders/xx/def"));
}

#[test]
fn path_pair_candidates_strips_private_variant_macos() {
    let pairs = path_pair_candidates("/private/tmp/foo", "/private/tmp/bar", true);
    assert!(pairs.iter().any(|p| p.old == "/tmp/foo" && p.new == "/tmp/bar"));
    assert!(pairs
        .iter()
        .any(|p| p.old == "/private/tmp/foo" && p.new == "/private/tmp/bar"));
}

#[test]
fn elsewhere_there_is_only_the_pair_itself() {
    let pairs = path_pair_candidates("/private/tmp/foo", "/private/tmp/bar", false);
    assert_eq!(pairs.len(), 1);
}

fn json(text: &str, field: &str, pairs: &Vec<PathPair>) -> Option<serde_json::Value> {
    rewrite_json_field("/p/settings.json", text, field, pairs)
        .unwrap()
        .map(|w| serde_json::from_str(&w.text).unwrap())
}

#[test]
fn json_adapter_rewrites_only_target_field() {
    let text = r#"{"project_path": "/old/root", "description": "lives at /old/root too"}"#;
    let v = json(text, "project_path", &one_pair("/old/root", "/new/root")).unwrap();
    assert_eq!(v["project_path"], "/new/root");
    assert_eq!(v["description"], "lives at /old/root too");
}

#[test]
fn json_adapter_handles_nested_fields() {
    let text = r#"{"cache": {"dir": "/old/root/.cache"}, "name": "test"}"#;
    let v = json(text, "cache.dir", &one_pair("/old/root", "/new/root")).unwrap();
    assert_eq!(v["cache"]["dir"], "/new/root/.cache");
    assert_eq!(v["name"], "test");
}

#[test]
fn json_adapter_does_not_corrupt_sibling_path() {
    let text = r#"{"project_path": "/home/me/code-backup/notes"}"#;
    let changed = json(text, "project_path", &one_pair("/home/me/code", "/new/root"));
    assert!(changed.is_none(), "sibling path must not be treated as a prefix");
}

#[test]
fn json_adapter_missing_field_returns_false() {
    let text = r#"{"other_field": "value"}"#;
    assert!(json(text, "project_path", &one_pair("/old/root", "/new/root")).is_none());
}

#[test]
fn broken_documents_are_reported_with_their_path() {
    let pairs = one_pair("/a", "/b");
    let e = rewrite_json_field("/p/s.json", "{", "x", &pairs).unwrap_err().message();
    assert!(e.contains("/p/s.json") && e.contains("invalid JSON"), "{e}");
    let e = rewrite_toml_field("/p/s.toml", "= =", "x", &pairs).unwrap_err().message();
    assert!(e.contains("/p/s.toml") && e.contains("invalid TOML"), "{e}");
}

fn toml_text(text: &str, field: &str, pairs: &Vec<PathPair>) -> Option<toml::Value> {
    rewrite_toml_field("/p/config.toml", text, field, pairs)
        .unwrap()
        .map(|w| toml::from_str(&w.text).unwrap())
}

#[test]
fn toml_adapter_rewrites_only_target_field() {
    let text = "project_root = \"/old/root\"\ndescription = \"lives at /old/root too\"\n";
    let v = toml_text(text, "project_root", &one_pair("/old/root", "/new/root")).unwrap();
    assert_eq!(v["project_root"].as_str().unwrap(), "/new/root");
    assert_eq!(v["description"].as_str().unwrap(), "lives at /old/root too");
}

#[test]
fn toml_adapter_handles_nested_fields() {
    let text = "[cache]\ndir = \"/old/root/.cache\"\n\n[meta]\nname = \"test\"\n";
    let v = toml_text(text, "cache.dir", &one_pair("/old/root", "/new/root")).unwrap();
    assert_eq!(v["cache"]["dir"].as_str().unwrap(), "/new/root/.cache");
    assert_eq!(v["meta"]["name"].as_str().unwrap(), "test");
}

#[test]
fn text_is_replaced_only_at_the_edge_of_a_path() {
    let text = "a=/old/root b=/old/root/x c=/old/rooted";
    assert_eq!(
        replace_all_with_boundary(text, "/old/root", "/new").unwrap(),
        "a=/new b=/new/x c=/old/rooted"
    );
    assert_eq!(replace_all_with_boundary("nothing", "/old/root", "/new"), None);
}

#[test]
fn a_document_is_restored_by_the_pair_turned_round() {
    let json = "{\n  \"cwd\": \"/old/root/src\",\n  \"note\": \"/old/root\"\n}";
    let there = rewrite_json_field("/p/a.json", json, "cwd", &one_pair("/old/root", "/new/root"))
        .unwrap()
        .unwrap();
    assert!(there.text.contains("/new/root/src"));
    let back =
        rewrite_json_field("/p/a.json", &there.text, "cwd", &one_pair("/new/root", "/old/root"))
            .unwrap()
            .unwrap();
    assert_eq!(back.text.trim_end(), json);
    let toml = "[a]\ndir = \"/old/root\"\nname = \"x\"\n";
    let there = rewrite_toml_field("/p/a.toml", toml, "a.dir", &one_pair("/old/root", "/n"))
        .unwrap()
        .unwrap();
    let back = toml_text(&there.text, "a.dir", &one_pair("/n", "/old/root")).unwrap();
    assert_eq!(back, toml::from_str(toml).unwrap());
}

#[test]
fn an_occurrence_that_overlaps_a_longer_name_is_replaced() {
    assert_eq!(
        replace_all_with_boundary("/abc/abc/a", "/abc/a", "/n").unwrap(),
        "/abc/n"
    );
    assert_eq!(replace_all_with_boundary("/abc/abc/ab", "/abc/a", "/n"), None);
    assert_eq!(
        replace_all_with_boundary("/a/a /a/ab", "/a", "/long/path").unwrap(),
        "/long/path/long/path /long/path/ab"
    );
}

#[test]
fn values_of_every_kind_are_kept() {
    let json = "{\"cwd\":\"/o\",\"n\":7,\"f\":1.5,\"b\":true,\"z\":null,\"e\":{},\"l\":[1,\"/o\",{}]}";
    let w = rewrite_json_field("/p/a.json", json, "cwd", &one_pair("/o", "/n")).unwrap().unwrap();
    let mut want: serde_json::Value = serde_json::from_str(json).unwrap();
    want["cwd"] = serde_json::Value::String("/n".into());
    assert_eq!(serde_json::from_str::<serde_json::Value>(&w.text).unwrap(), want);
    let text = "dir = \"/o\"\nn = 7\nf = 1.5\nwhen = 1979-05-27T07:32:00Z\nl = [1, \"/o\"]\n\n\
                [e]\n\n[[t]]\nx = true\n";
    let v = toml_text(text, "dir", &one_pair("/o", "/n")).unwrap();
    let mut want: toml::Value = toml::from_str(text).unwrap();
    want["dir"] = toml::Value::String("/n".into());
    assert_eq!(v, want);
}

#[test]
fn quotes_in_a_row_are_written_as_far_as_they_can_be_counted() {
    let doc = |n: usize, q: &str| format!("dir = \"/o\"\nl = [\"{}\"]\n", q.repeat(n));
    for q in ["'", "\\\""] {
        let w = rewrite_toml_field("/p/a.toml", &doc(255, q), "dir", &one_pair("/o", "/n"));
        assert!(w.unwrap().is_some());
        let e = rewrite_toml_field("/p/a.toml", &doc(256, q), "dir", &one_pair("/o", "/n"))
            .unwrap_err();
        assert!(e.message().contains("too many quotes in a row"), "{}", e.message());
    }
    let untouched = rewrite_toml_field("/p/a.toml", &doc(300, "'"), "dir", &one_pair("/x", "/n"));
    assert!(untouched.unwrap().is_none());
}

#[test]
fn a_deep_document_is_read_again() {
    let keys: Vec<String> = (0..78).map(|i| format!("k{i}")).collect();
    let text = format!("[{}]\n{} = \"/o\"\n", keys[..77].join("."), keys[77]);
    let field = keys.join(".");
    let w = rewrite_toml_field("/p/a.toml", &text, &field, &one_pair("/o", "/n")).unwrap().unwrap();
    let mut v: &toml::Value = &toml::from_str(&w.text).unwrap();
    for k in &keys {
        v = &v[k];
    }
    assert_eq!(v.as_str(), Some("/n"));
    let nested = format!("x = {}\"/o\"{}\ndir = \"/o\"\n", "[".repeat(76), "]".repeat(76));
    assert!(toml_text(&nested, "dir", &one_pair("/o", "/n")).is_some());
}

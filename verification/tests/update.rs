use sessionguard::update::{
    check_downgrade,
    check_update, classify_install_method, detect_install_method, expected_sha, fetch_failed,
    is_newer, latest_url, parse_version, perform_update, restart_daemon_if_running, sha256_file,
    sudo_failed, swap_binary, tag_of, target_triple, wanted_tag, InstallMethod, ReleaseClient,
    SwapOp, UpdateError, UpdateOp, UpdateReply, UpdateStep, UpdateTarget,
};

#[test]
fn classifies_install_methods() {
    assert_eq!(
        classify_install_method("/usr/local/bin/sessionguard"),
        InstallMethod::Standalone { path: "/usr/local/bin/sessionguard".to_string() }
    );
    assert_eq!(
        classify_install_method("/home/devo/.local/bin/sessionguard"),
        InstallMethod::Standalone { path: "/home/devo/.local/bin/sessionguard".to_string() }
    );
    assert_eq!(
        classify_install_method("/home/devo/.cargo/bin/sessionguard"),
        InstallMethod::Cargo
    );
    assert_eq!(
        classify_install_method("/opt/homebrew/Cellar/sessionguard/0.4.3/bin/sessionguard"),
        InstallMethod::Homebrew
    );
    assert_eq!(
        classify_install_method(
            "/Users/devo/Droco/side-projects/ai-session-track/target/release/sessionguard"
        ),
        InstallMethod::GitCheckout
    );
    assert_eq!(
        classify_install_method("/work/proj/target/debug/sessionguard"),
        InstallMethod::GitCheckout
    );
}

#[test]
fn a_link_is_followed_to_tell_how_it_was_installed() {
    let resolved = Some("/opt/homebrew/Cellar/sessionguard/1/bin/sessionguard".to_string());
    assert_eq!(
        detect_install_method("/opt/homebrew/bin/sessionguard", &resolved),
        InstallMethod::Homebrew
    );
    assert_eq!(
        detect_install_method("/usr/bin/sessionguard", &None),
        InstallMethod::Standalone { path: "/usr/bin/sessionguard".into() }
    );
}

#[test]
fn parses_and_compares_versions() {
    assert_eq!(parse_version("v0.5.0"), Some((0, 5, 0)));
    assert_eq!(parse_version("0.4.3"), Some((0, 4, 3)));
    assert_eq!(parse_version("v1.2.3-rc1"), Some((1, 2, 3)));
    assert_eq!(parse_version("v1.2"), None);
    assert_eq!(parse_version("nightly"), None);

    assert!(is_newer("v0.5.0", "0.4.3"));
    assert!(is_newer("v0.4.4", "v0.4.3"));
    assert!(is_newer("v1.0.0", "0.9.9"));
    assert!(!is_newer("v0.4.3", "0.4.3"));
    assert!(!is_newer("v0.4.2", "0.4.3"));
    assert!(!is_newer("garbage", "0.4.3"));
    assert!(!is_newer("v0.5.0", "garbage"));
}

/// A release client without a network.
struct FakeReleaseClient {
    tag: Option<String>,
}

impl ReleaseClient for FakeReleaseClient {
    fn latest_tag(&self, _repo: &str) -> Result<String, UpdateError> {
        match &self.tag {
            Some(t) => Ok(t.clone()),
            None => Err(UpdateError::Network("down".into())),
        }
    }
    fn fetch_text(&self, _url: &str) -> Result<String, UpdateError> {
        Ok(String::new())
    }
    fn fetch_to(&self, _url: &str, _dest: &str) -> Result<(), UpdateError> {
        Ok(())
    }
}

#[test]
fn check_update_reports_available_when_behind() {
    let client = FakeReleaseClient { tag: Some("v0.5.0".into()) };
    let c = check_update(&client, "x/y", "0.4.3").unwrap();
    assert_eq!(c.current, "0.4.3");
    assert_eq!(c.latest, "v0.5.0");
    assert!(c.update_available);
}

#[test]
fn check_update_reports_current_when_latest() {
    let client = FakeReleaseClient { tag: Some("v0.4.3".into()) };
    let c = check_update(&client, "x/y", "0.4.3").unwrap();
    assert!(!c.update_available);
}

#[test]
fn check_update_hands_the_error_on() {
    let client = FakeReleaseClient { tag: None };
    let e = check_update(&client, "x/y", "0.4.3").unwrap_err();
    assert_eq!(e.message(), "network error: down");
}

#[test]
fn expected_sha_extracts_by_basename() {
    let sums = "\
deadbeef  sessionguard-x86_64-apple-darwin.tar.gz
c0ffee00  sessionguard-x86_64-unknown-linux-gnu.tar.gz
";
    assert_eq!(
        expected_sha(sums, "sessionguard-x86_64-unknown-linux-gnu.tar.gz").as_deref(),
        Some("c0ffee00")
    );
    assert_eq!(expected_sha(sums, "sessionguard-missing.tar.gz"), None);
}

fn target(dry_run: bool) -> UpdateTarget {
    UpdateTarget {
        dest: "/usr/local/bin/sessionguard".into(),
        repo: "x/y".into(),
        tag: "v0.5.0".into(),
        current: "0.4.3".into(),
        dry_run,
        arch: "x86_64".into(),
        os: "linux".into(),
        base_url: None,
        temp: "/tmp/sg".into(),
    }
}

#[test]
fn perform_update_dry_run_touches_nothing() {
    let r = match perform_update(&target(true), &vec![]) {
        UpdateStep::Finished { result, .. } => result.unwrap(),
        other => panic!("{other:?}"),
    };
    assert!(r.dry_run);
    assert_eq!(r.from, "0.4.3");
    assert_eq!(r.to, "0.5.0");
    assert!(r.backup.is_none());
    assert!(r.steps.iter().any(|s| s.contains("would install")));
}

/// Run an update against the sums that a release lists and the sum of what
/// was downloaded.
fn run(listed: &str, actual: &str) -> (Vec<UpdateOp>, Result<Option<String>, UpdateError>) {
    let asset = "sessionguard-x86_64-unknown-linux-gnu.tar.gz";
    let mut seen: Vec<UpdateReply> = Vec::new();
    let mut done: Vec<UpdateOp> = Vec::new();
    loop {
        match perform_update(&target(false), &seen) {
            UpdateStep::Finished { result, .. } => {
                return (done, result.map(|r| r.backup));
            }
            UpdateStep::Do(op) => {
                seen.push(match &op {
                    UpdateOp::FetchText { .. } => UpdateReply::Text(format!("{listed}  {asset}\n")),
                    UpdateOp::Checksum(_) => UpdateReply::Text(actual.to_string()),
                    UpdateOp::Exists(_) | UpdateOp::Unpack { .. } => UpdateReply::Flag(true),
                    UpdateOp::Restart => UpdateReply::Text("restarted".into()),
                    _ => UpdateReply::Done,
                });
                done.push(op);
            }
        }
    }
}

#[test]
fn an_update_is_checked_before_it_is_installed() {
    let (ops, result) = run("c0ffee00", "c0ffee00");
    assert!(result.unwrap().is_some(), "the old binary is kept");
    assert!(ops.iter().any(|o| matches!(o, UpdateOp::Swap { .. })));

    let (ops, result) = run("c0ffee00", "deadbeef");
    match result.unwrap_err() {
        UpdateError::Checksum { expected, actual, .. } => {
            assert_eq!((expected.as_str(), actual.as_str()), ("c0ffee00", "deadbeef"));
        }
        other => panic!("{other:?}"),
    }
    assert!(!ops.iter().any(|o| matches!(o, UpdateOp::Swap { .. } | UpdateOp::Unpack { .. })));
}

#[test]
fn the_old_binary_is_moved_before_the_new_one_is_copied() {
    let ops = swap_binary("/b/sg", "/t/sg", "/b/sg.bak", true);
    assert_eq!(ops[0], SwapOp::Rename { from: "/b/sg".into(), to: "/b/sg.bak".into() });
    assert_eq!(ops[1], SwapOp::Copy { from: "/t/sg".into(), to: "/b/sg".into() });
    let asked = swap_binary("/b/sg", "/t/sg", "/b/sg.bak", false);
    assert!(asked.iter().all(|o| matches!(o, SwapOp::Sudo(_))));
    assert!(sudo_failed(&vec!["mv".into(), "a".into()]).message().contains("sudo mv a failed"));
}

#[test]
fn releases_are_named_and_found() {
    assert_eq!(latest_url("x/y"), "https://api.github.com/repos/x/y/releases/latest");
    assert_eq!(tag_of("{\"tag_name\": \"v1.2.3\"}").unwrap(), "v1.2.3");
    assert!(matches!(tag_of("{}").unwrap_err(), UpdateError::Parse(_)));
    assert!(matches!(tag_of("not json").unwrap_err(), UpdateError::Parse(_)));
    assert_eq!(wanted_tag("0.5.0"), "v0.5.0");
    assert_eq!(wanted_tag("v0.5.0"), "v0.5.0");
    assert_eq!(target_triple("aarch64", "macos").unwrap(), "aarch64-apple-darwin");
    assert!(matches!(target_triple("mips", "plan9").unwrap_err(), UpdateError::Refused(_)));
    assert!(fetch_failed("http://u", Some(22), "404").message().contains("exited 22"));
}

#[test]
fn checksums_come_from_whichever_program_there_is() {
    let line = |s: &str| Some(format!("{s}  file\n"));
    assert_eq!(sha256_file(&line("abc"), &None).unwrap(), "abc");
    assert_eq!(sha256_file(&None, &line("def")).unwrap(), "def");
    assert!(sha256_file(&None, &None).is_err());
    assert!(restart_daemon_if_running(false, false).contains("nothing to restart"));
    assert!(restart_daemon_if_running(true, true).starts_with("restarted"));
}

#[test]
fn an_older_release_is_installed_only_where_that_is_allowed() {
    assert!(check_downgrade("0.5.0", "v0.4.3", true).is_ok());
    assert!(check_downgrade("0.5.0", "v0.5.0", false).is_ok());
    assert!(check_downgrade("0.5.0", "v0.6.0", false).is_ok());
    let e = check_downgrade("0.5.0", "v0.4.3", false).unwrap_err();
    assert_eq!(
        e.message(),
        "v0.4.3 is older than 0.5.0; pass --allow-downgrade to install it"
    );
}

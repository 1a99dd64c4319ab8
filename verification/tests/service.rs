use sessionguard::service::{
    is_installed, looks_like_dev_build, path_entries, render_launchd_plist, render_systemd_unit,
    stable_exe_path, xml_escape, Manager, LAUNCHD_LABEL,
};

#[test]
fn launchd_plist_runs_the_daemon_at_login_and_restarts_only_on_crash() {
    let p = render_launchd_plist(
        "/Users/me/.cargo/bin/sessionguard",
        "/Users/me/Library/Application Support/dev.droco.sessionguard/daemon.log",
        &None,
    );
    assert!(p.contains("<string>/Users/me/.cargo/bin/sessionguard</string>"));
    assert!(p.contains("<string>start</string>"));
    assert!(p.contains("<string>--foreground</string>"));
    assert!(p.contains("<key>RunAtLoad</key>\n    <true/>"));
    assert!(
        p.contains("<key>SuccessfulExit</key>\n        <false/>"),
        "a clean `stop` must stay stopped; only a crash restarts"
    );
    assert!(p.contains(LAUNCHD_LABEL));
    assert!(p.contains("daemon.log"));
}

#[test]
fn launchd_plist_escapes_paths_and_carries_an_explicit_config() {
    let p = render_launchd_plist(
        "/Users/a&b/bin/sessionguard",
        "/tmp/log",
        &Some("/Users/a&b/sg <x>.toml".to_string()),
    );
    assert!(p.contains("/Users/a&amp;b/bin/sessionguard"));
    assert!(p.contains("<string>--config</string>"));
    assert!(p.contains("/Users/a&amp;b/sg &lt;x&gt;.toml"));
    assert!(!p.contains("a&b"), "raw & would make the plist invalid XML");
}

#[test]
fn systemd_unit_uses_the_real_binary_path() {
    let u = render_systemd_unit("/home/me/.cargo/bin/sessionguard", &None);
    assert!(u.contains("ExecStart=/home/me/.cargo/bin/sessionguard start --foreground"));
    assert!(u.contains("Restart=on-failure"));
    assert!(u.contains("WantedBy=default.target"));
}

#[test]
fn paths_and_commands_per_manager() {
    let home = "/Users/me";
    assert_eq!(
        Manager::Launchd.unit_path(home),
        "/Users/me/Library/LaunchAgents/dev.droco.sessionguard.plist"
    );
    assert_eq!(
        Manager::Systemd.unit_path(home),
        "/Users/me/.config/systemd/user/sessionguard.service"
    );
    let cmds = Manager::Launchd.install_commands("/p.plist", 501);
    assert_eq!(cmds[1], ["launchctl", "bootstrap", "gui/501", "/p.plist"]);
    assert_eq!(
        Manager::Systemd.install_commands("/u", 1000)[1],
        ["systemctl", "--user", "enable", "--now", "sessionguard.service"]
    );
}

#[test]
fn a_binary_under_target_is_a_dev_build() {
    assert!(looks_like_dev_build("/Users/me/src/sg/target/release/sessionguard"));
    assert!(!looks_like_dev_build("/Users/me/.cargo/bin/sessionguard"));
}

#[test]
fn a_homebrew_style_install_uses_the_stable_path_not_the_versioned_cellar() {
    let canonical = "/t/Cellar/sessionguard/0.11.0/bin/sessionguard";
    let search = Some("/t/elsewhere:/t/bin".to_string());
    let entries = path_entries(&search);
    assert_eq!(entries, vec!["/t/elsewhere/sessionguard", "/t/bin/sessionguard"]);
    let resolved = vec![None, Some(canonical.to_string())];
    assert_eq!(
        stable_exe_path(canonical, &search, &resolved),
        "/t/bin/sessionguard",
        "`brew upgrade` deletes the Cellar dir; the PATH symlink survives"
    );
    assert_eq!(stable_exe_path(canonical, &None, &vec![]), canonical);
}

#[test]
fn text_is_escaped_once() {
    assert_eq!(xml_escape("a<b>&c"), "a&lt;b&gt;&amp;c");
    assert_eq!(xml_escape("&amp;"), "&amp;amp;");
}

#[test]
fn only_known_systems_have_a_manager() {
    assert_eq!(Manager::current("macos"), Some(Manager::Launchd));
    assert_eq!(Manager::current("linux"), Some(Manager::Systemd));
    assert_eq!(Manager::current("windows"), None);
    assert_eq!(is_installed(None, true), None);
    assert_eq!(is_installed(Some(Manager::Systemd), false), Some(false));
    assert_eq!(Manager::Launchd.uninstall_commands(501).len(), 1);
    assert_eq!(Manager::Launchd.loaded_check(501)[1], "print");
}

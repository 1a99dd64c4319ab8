use sessionguard::config::{usual_watch_roots, default_watch_roots, fallback_state_dir, Config, HostSpec, WatchMode};

fn host(name: &str, ssh: &str, binary: Option<&str>) -> HostSpec {
    HostSpec { name: name.into(), ssh: ssh.into(), binary: binary.map(|b| b.to_string()) }
}

fn config_with(hosts: Vec<HostSpec>) -> Config {
    Config { watch_roots: vec![], hosts, ..Default::default() }
}

#[test]
fn default_config_is_valid() {
    let config = Config::default();
    assert_eq!(config.watch_mode, WatchMode::Balanced);
    assert!(config.tools.is_empty());
}

#[test]
fn config_parses_hosts() {
    let c = config_with(vec![host("fedora", "devo@192.0.2.10", None)]);
    assert_eq!(c.hosts.len(), 1);
    assert_eq!(c.hosts[0].name, "fedora");
    assert_eq!(c.hosts[0].binary(), "sessionguard", "default remote binary");
    assert!(c.validate().is_ok());
}

#[test]
fn config_parses_per_host_binary() {
    let c = config_with(vec![host("mac", "devo@macbook", Some("/opt/homebrew/bin/sessionguard"))]);
    assert_eq!(c.hosts[0].binary(), "/opt/homebrew/bin/sessionguard");
}

#[test]
fn config_validation_rejects_reserved_duplicate_and_empty_host_names() {
    let reserved = config_with(vec![host("local", "x@y", None)]);
    assert!(reserved.validate().unwrap_err().contains("reserved"));

    let dup = config_with(vec![host("a", "x@y", None), host("a", "x@z", None)]);
    assert!(dup.validate().unwrap_err().contains("twice"));

    let empty = config_with(vec![host("", "x@y", None)]);
    assert!(empty.validate().unwrap_err().contains("empty `name`"));

    let no_ssh = config_with(vec![host("a", "", None)]);
    assert!(no_ssh.validate().unwrap_err().contains("ssh"));

    let read = config_with(vec![host("local", "x@y", None)]);
    let err = read.load_from("/etc/sg/config.toml").unwrap_err().message();
    assert!(err.contains("config.toml") && err.contains("reserved"), "{err}");
}

#[test]
fn without_a_file_the_defaults_hold() {
    let config = Config::load(None, "/c/config.toml", vec!["/home/me/code".into()]).unwrap();
    assert_eq!(config.watch_roots, ["/home/me/code"]);
    assert!(config.hosts.is_empty());
    let broken = config_with(vec![host("local", "x", None)]);
    assert!(Config::load(Some(broken), "/c/config.toml", vec![]).is_err());
}

#[test]
fn only_directories_that_exist_are_watched_by_default() {
    let usual = usual_watch_roots("/home/me");
    assert!(!usual.is_empty());
    let mut there = vec![false; usual.len()];
    there[0] = true;
    assert_eq!(default_watch_roots("/home/me", &there), vec![usual[0].clone()]);
}

#[test]
fn state_falls_back_to_a_directory_of_the_users_own() {
    assert_eq!(fallback_state_dir("/tmp", 501), "/tmp/sessionguard-501");
}

use sessionguard::config::HostSpec;
use sessionguard::fleet::{
    adopt_host, check_destination, check_remote_version, remote_census, upgrade_group, CensusStep,
    FleetError, RemoteGroup, SshReply,
};
use sessionguard::sessions::{DecodeConfidence, SessionGroup};

fn host(ssh: &str, binary: Option<&str>) -> HostSpec {
    HostSpec { name: "fedora".into(), ssh: ssh.into(), binary: binary.map(|b| b.to_string()) }
}

#[test]
fn adopt_host_stamps_provenance_without_re_evaluating_orphans() {
    let mut groups = vec![SessionGroup {
        project_path: "/home/devo/personal/v2".into(),
        confidence: DecodeConfidence::Exact,
        decoded: true,
        orphaned: false,
        host: "local".into(),
        tools: Default::default(),
    }];
    adopt_host(&mut groups, "fedora");
    assert_eq!(groups[0].host, "fedora");
    assert!(
        !groups[0].orphaned,
        "orphan status must come from the origin host, never be re-derived"
    );
}

#[test]
fn remote_version_below_minimum_is_rejected_with_a_named_error() {
    let e = check_remote_version("fedora", "sessionguard 0.6.3").unwrap_err();
    assert!(matches!(e, FleetError::TooOld { .. }));
    assert!(e.message().contains("fedora"));
    assert!(e.message().contains("0.6.3"));
}

#[test]
fn remote_version_at_minimum_is_accepted() {
    assert!(check_remote_version("fedora", "sessionguard 0.7.0").is_ok());
}

#[test]
fn remote_census_refuses_ssh_destination_that_looks_like_an_option() {
    let marker = "/tmp/pwned";
    let host = HostSpec {
        name: "evil".into(),
        ssh: format!("-oProxyCommand=touch {marker}"),
        binary: None,
    };
    assert!(check_destination(&host).is_err());
    let e = match remote_census(&host, &vec![]) {
        CensusStep::Failed(e) => e,
        other => panic!("no process must be spawned for a rejected destination: {other:?}"),
    };
    assert!(matches!(e, FleetError::InvalidDestination { .. }));
    assert!(e.message().contains("evil"));
    assert!(e.message().contains(&host.ssh));
}

#[test]
fn remote_census_json_upgrades_0_7_0_payload_with_no_confidence_or_host() {
    let g = upgrade_group(RemoteGroup {
        project_path: "/home/devo/personal/v2".into(),
        decoded: false,
        confidence: None,
        orphaned: true,
        host: None,
        tools: vec![],
    });
    assert_eq!(
        g.confidence,
        DecodeConfidence::Unresolved,
        "decoded: false must synthesize confidence: unresolved (0.7.0 had no Inferred state)"
    );
    assert!(g.orphaned, "orphaned must pass through unchanged");
}

#[test]
fn a_census_asks_for_the_version_and_then_for_the_sessions() {
    let h = host("devo@mac", Some("/opt/homebrew/bin/sessionguard"));
    let first = match remote_census(&h, &vec![]) {
        CensusStep::Run(args) => args,
        other => panic!("{other:?}"),
    };
    assert_eq!(
        first,
        [
            "-o",
            "BatchMode=yes",
            "-o",
            "ConnectTimeout=10",
            "devo@mac",
            "/opt/homebrew/bin/sessionguard",
            "--version",
        ]
    );
    let told = vec![SshReply::Output("sessionguard 0.11.0\n".into())];
    match remote_census(&h, &told) {
        CensusStep::Run(args) => {
            assert_eq!(args[..5], first[..5]);
            assert_eq!(
                args[5..],
                ["/opt/homebrew/bin/sessionguard", "sessions", "--format", "json"]
            );
        }
        other => panic!("{other:?}"),
    }
    let sent = vec![
        SshReply::Output("sessionguard 0.11.0\n".into()),
        SshReply::Output("[]".into()),
    ];
    assert!(matches!(remote_census(&h, &sent), CensusStep::Read(t) if t == "[]"));
}

#[test]
fn a_census_fails_with_the_reason() {
    let h = host("devo@mac", None);
    let down = vec![SshReply::NotRun("no ssh".into())];
    assert!(matches!(
        remote_census(&h, &down),
        CensusStep::Failed(FleetError::Unreachable { .. })
    ));
    let exited = vec![SshReply::Exited("connection refused".into())];
    match remote_census(&h, &exited) {
        CensusStep::Failed(e) => assert!(e.message().contains("connection refused")),
        other => panic!("{other:?}"),
    }
    let old = vec![SshReply::Output("sessionguard 0.1.0".into())];
    assert!(matches!(
        remote_census(&h, &old),
        CensusStep::Failed(FleetError::TooOld { .. })
    ));
    let garbage = vec![SshReply::Output("hello \"you\"".into())];
    match remote_census(&h, &garbage) {
        CensusStep::Failed(e) => {
            assert!(matches!(e, FleetError::BadOutput { .. }));
            assert!(e.message().contains("\\\""), "quoted: {}", e.message());
        },
        other => panic!("{other:?}"),
    }
}

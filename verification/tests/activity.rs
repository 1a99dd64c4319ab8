use sessionguard::activity::{ActivityKind, ActivityRecord, Level, NoOpReason, Outcome};

#[test]
fn acted_with_zero_actions_is_a_noop_not_a_success() {
    let o = Outcome::acted(0, NoOpReason::ToolDeclaresNotify);
    assert_eq!(o, Outcome::NoOp { reason: NoOpReason::ToolDeclaresNotify });
    assert!(!o.changed_something(), "a no-op did not change anything");
    assert!(!o.is_failure(), "...but it is not a failure either");
    assert_eq!(o.kind(), "noop");

    let acted = Outcome::acted(3, NoOpReason::NoArtifactsFound);
    assert_eq!(acted, Outcome::Acted { actions: 3 });
    assert!(acted.changed_something());
    assert_eq!(acted.actions(), 3);
}

#[test]
fn refusal_is_neither_success_nor_failure_but_needs_attention() {
    let r = Outcome::Refused { reason: "destination store exists".into() };
    assert!(!r.changed_something());
    assert!(!r.is_failure());
    assert!(r.needs_attention());

    let noop = Outcome::NoOp { reason: NoOpReason::NoStoreForProject };
    assert!(!noop.needs_attention(), "a routine no-op must not nag the operator");
}

#[test]
fn every_outcome_explains_itself() {
    for o in [
        Outcome::acted(2, NoOpReason::NoArtifactsFound),
        Outcome::NoOp { reason: NoOpReason::ToolDeclaresNotify },
        Outcome::Refused { reason: "db locked".into() },
        Outcome::Failed { error: "io".into() },
    ] {
        let d = o.describe();
        assert!(!d.is_empty() && d.len() > 8, "weak description: {d}");
        assert!(o.reason().is_some() || o.changed_something());
    }
    assert!(NoOpReason::ToolDeclaresNotify.explain().contains("notify"));
}

#[test]
fn outcomes_are_reported_at_the_level_they_deserve() {
    let record = |outcome: Outcome| {
        ActivityRecord::new(ActivityKind::Rekey, outcome).tool("cursor").project("/w/app")
    };
    let acted = record(Outcome::Acted { actions: 1 }).emit();
    assert_eq!(acted.level, Level::Info);
    assert_eq!((acted.tool.as_str(), acted.project.as_str()), ("cursor", "/w/app"));
    let quiet = record(Outcome::NoOp { reason: NoOpReason::AlreadyCurrent }).emit();
    assert_eq!(quiet.level, Level::Info);
    let refused = record(Outcome::Refused { reason: "busy".into() }).emit();
    assert_eq!(refused.level, Level::Warn);
    let failed = record(Outcome::Failed { error: "io".into() }).emit();
    assert_eq!(failed.level, Level::Error);
    assert!(failed.detail.contains("io"));
}

#[test]
fn the_kinds_have_stable_names() {
    assert_eq!(ActivityKind::Reconcile.as_str(), "reconcile");
    assert_eq!(ActivityKind::Rekey.as_str(), "rekey");
    assert_eq!(ActivityKind::Daemon.as_str(), "daemon");
    assert_eq!(Outcome::Failed { error: "x".into() }.kind(), "failed");
    assert_eq!(Outcome::Refused { reason: "x".into() }.kind(), "refused");
    assert_eq!(Outcome::Acted { actions: 1 }.kind(), "acted");
}

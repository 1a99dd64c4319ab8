use sessionguard::watcher::{
    classify_event, RawEvent, RawKind, RenameBuffer, RenameMode, SessionEvent, RENAME_PAIRING_TTL,
};

fn half_event(mode: RenameMode, path: &str, cookie: Option<usize>) -> RawEvent {
    RawEvent { kind: RawKind::Rename(mode), paths: vec![path.to_string()], cookie }
}

#[test]
fn classify_returns_empty_for_data_change() {
    let mut buf = RenameBuffer::new(RENAME_PAIRING_TTL);
    let event = RawEvent { kind: RawKind::Other, paths: vec!["/test".into()], cookie: None };
    assert!(classify_event(&event, &mut buf, 0).is_empty());
}

#[test]
fn classify_rename_both_emits_full_move() {
    let mut buf = RenameBuffer::new(RENAME_PAIRING_TTL);
    let event = RawEvent {
        kind: RawKind::Rename(RenameMode::Both),
        paths: vec!["/a".into(), "/b".into()],
        cookie: None,
    };
    let out = classify_event(&event, &mut buf, 0);
    assert_eq!(out.len(), 1);
    match &out[0] {
        SessionEvent::Moved { from, to } => {
            assert_eq!(from, &Some("/a".to_string()));
            assert_eq!(to, &Some("/b".to_string()));
        }
        other => panic!("expected Moved, got {other:?}"),
    }
}

#[test]
fn macos_pair_two_any_half_events_into_moved() {
    let mut buf = RenameBuffer::new(RENAME_PAIRING_TTL);
    let first = classify_event(&half_event(RenameMode::Any, "/old", None), &mut buf, 0);
    assert!(first.is_empty(), "first half should be buffered, not emitted");
    let second = classify_event(&half_event(RenameMode::Any, "/new", None), &mut buf, 1);
    assert_eq!(second.len(), 1);
    match &second[0] {
        SessionEvent::Moved { from, to } => {
            assert_eq!(from, &Some("/old".to_string()));
            assert_eq!(to, &Some("/new".to_string()));
        }
        other => panic!("expected Moved, got {other:?}"),
    }
}

#[test]
fn linux_pair_from_and_to_by_cookie() {
    let mut buf = RenameBuffer::new(RENAME_PAIRING_TTL);
    let first = classify_event(&half_event(RenameMode::From, "/src", Some(42)), &mut buf, 0);
    assert!(first.is_empty());
    let second = classify_event(&half_event(RenameMode::To, "/dst", Some(42)), &mut buf, 1);
    assert_eq!(second.len(), 1);
    match &second[0] {
        SessionEvent::Moved { from, to } => {
            assert_eq!(from, &Some("/src".to_string()));
            assert_eq!(to, &Some("/dst".to_string()));
        }
        other => panic!("expected Moved, got {other:?}"),
    }
}

#[test]
fn linux_unpaired_cookie_does_not_match_different_cookie() {
    let mut buf = RenameBuffer::new(RENAME_PAIRING_TTL);
    let _ = classify_event(&half_event(RenameMode::From, "/a", Some(1)), &mut buf, 0);
    let out = classify_event(&half_event(RenameMode::To, "/b", Some(2)), &mut buf, 1);
    assert!(out.is_empty(), "mismatched cookies must not pair");
}

#[test]
fn expired_half_does_not_pair_with_late_arrival() {
    let mut buf = RenameBuffer::new(1);
    let _ = classify_event(&half_event(RenameMode::Any, "/a", None), &mut buf, 0);
    let out = classify_event(&half_event(RenameMode::Any, "/b", None), &mut buf, 5);
    assert!(out.is_empty(), "second half should be buffered after first expires");
}

#[test]
fn creations_and_removals_are_told_one_by_one() {
    let mut buf = RenameBuffer::new(RENAME_PAIRING_TTL);
    let event = RawEvent {
        kind: RawKind::Remove,
        paths: vec!["/a".into(), "/b".into()],
        cookie: None,
    };
    let out = classify_event(&event, &mut buf, 0);
    assert!(matches!(&out[0], SessionEvent::Removed(p) if p == "/a"));
    let event = RawEvent { kind: RawKind::Create, paths: vec!["/a".into()], cookie: None };
    let out = classify_event(&event, &mut buf, 0);
    assert!(matches!(&out[0], SessionEvent::Created(p) if p == "/a"));
}

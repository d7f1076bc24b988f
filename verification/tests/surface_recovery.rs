use localview::control::surface_recovery::{
    journal_lines, SurfaceRecoveryError, SurfaceRecoveryEvent, SurfaceRecoveryKey,
    SurfaceRecoveryState, MAX_EVENT_BYTES, MAX_JOURNAL_BYTES, MAX_JOURNAL_EVENTS,
    SURFACE_RECOVERY_JOURNAL_FILE,
};

fn key(label: &str, incarnation: u64, owner: u128) -> SurfaceRecoveryKey {
    SurfaceRecoveryKey::new(7, "preview_window".into(), label.into(), incarnation, owner).unwrap()
}

fn activated(label: &str, owner: u128) -> SurfaceRecoveryEvent {
    SurfaceRecoveryEvent::Activated { key: key(label, 1, owner) }
}

fn released(label: &str, owner: u128) -> SurfaceRecoveryEvent {
    SurfaceRecoveryEvent::Released { key: key(label, 1, owner) }
}

fn line(event: SurfaceRecoveryEvent) -> (String, Option<SurfaceRecoveryEvent>) {
    ("{\"event\":\"...\"}".to_string(), Some(event))
}

#[test]
fn keys_are_validated() {
    assert!(SurfaceRecoveryKey::new(1, "workspace_child".into(), "main".into(), 1, 2).is_ok());
    let invalid = [
        SurfaceRecoveryKey::new(0, "preview_window".into(), "main".into(), 1, 2),
        SurfaceRecoveryKey::new(1, "preview_window".into(), "main".into(), 1, 0),
        SurfaceRecoveryKey::new(1, "preview_window".into(), "main".into(), 0, 2),
        SurfaceRecoveryKey::new(1, "popup".into(), "main".into(), 1, 2),
        SurfaceRecoveryKey::new(1, "preview_window".into(), "".into(), 1, 2),
        SurfaceRecoveryKey::new(1, "preview_window".into(), "x".repeat(161), 1, 2),
        SurfaceRecoveryKey::new(1, "preview_window".into(), "a\u{7}b".into(), 1, 2),
        SurfaceRecoveryKey::new(1, "preview_window".into(), "é".repeat(81), 1, 2),
    ];
    for result in invalid {
        assert!(matches!(result, Err(SurfaceRecoveryError::InvalidKey)));
    }
    assert!(SurfaceRecoveryKey::new(1, "preview_window".into(), "x".repeat(160), 1, 2).is_ok());
    assert!(SurfaceRecoveryKey::new(1, "preview_window".into(), "é".repeat(80), 1, 2).is_ok());
}

#[test]
fn journal_lines_follow_str_lines() {
    let texts = ["", "a", "a\n", "a\r\nb\n", "a\n\nb", "x\r", "x\r\n\r\n", "\n"];
    for text in texts {
        let expected: Vec<String> = text.lines().map(str::to_owned).collect();
        assert_eq!(journal_lines(text), expected, "{text:?}");
    }
    assert_eq!(SURFACE_RECOVERY_JOURNAL_FILE, "surface-recovery.jsonl");
}

#[test]
fn replay_applies_activations_and_releases_in_order() {
    let lines = vec![
        line(activated("a", 10)),
        line(activated("b", 11)),
        line(released("a", 10)),
        line(SurfaceRecoveryEvent::Reattached { key: key("c", 1, 12) }),
    ];
    let state = SurfaceRecoveryState::replay(120, &lines).unwrap();
    assert!(state.outstanding_exact(&key("b", 1, 11)));
    assert!(!state.outstanding_exact(&key("a", 1, 10)));
    assert!(!state.outstanding_exact(&key("b", 2, 11)));
    assert_eq!(state.outstanding_len(), 1);
    assert!(state.has_outstanding_for_owner(11));
    assert!(!state.has_outstanding_for_owner(10));
}

#[test]
fn replay_refuses_corrupt_invalid_and_oversized_journals() {
    let empty_line = vec![("".to_string(), Some(activated("a", 1)))];
    assert!(matches!(
        SurfaceRecoveryState::replay(1, &empty_line),
        Err(SurfaceRecoveryError::CorruptJournal)
    ));
    let long_line = vec![("x".repeat(MAX_EVENT_BYTES + 1), Some(activated("a", 1)))];
    assert!(matches!(
        SurfaceRecoveryState::replay(3000, &long_line),
        Err(SurfaceRecoveryError::CorruptJournal)
    ));
    let unparsed = vec![line(activated("a", 1)), ("{".to_string(), None)];
    assert!(matches!(
        SurfaceRecoveryState::replay(20, &unparsed),
        Err(SurfaceRecoveryError::CorruptJournal)
    ));
    let bad_key = SurfaceRecoveryKey {
        session_id: 0,
        surface_kind: "preview_window".into(),
        label: "a".into(),
        incarnation: 1,
        owner_instance_id: 1,
    };
    let invalid = vec![line(SurfaceRecoveryEvent::Released { key: bad_key })];
    assert!(matches!(
        SurfaceRecoveryState::replay(20, &invalid),
        Err(SurfaceRecoveryError::InvalidKey)
    ));
    assert!(matches!(
        SurfaceRecoveryState::replay(MAX_JOURNAL_BYTES + 1, &vec![]),
        Err(SurfaceRecoveryError::JournalFull)
    ));
    assert!(matches!(
        SurfaceRecoveryState::check_journal_size(MAX_JOURNAL_BYTES + 1),
        Err(SurfaceRecoveryError::JournalFull)
    ));
    assert!(SurfaceRecoveryState::check_journal_size(MAX_JOURNAL_BYTES).is_ok());
    let mut many = Vec::new();
    for _ in 0..MAX_JOURNAL_EVENTS + 1 {
        many.push(line(activated("a", 1)));
    }
    assert!(matches!(
        SurfaceRecoveryState::replay(1000, &many),
        Err(SurfaceRecoveryError::JournalFull)
    ));
    many.pop();
    assert_eq!(SurfaceRecoveryState::replay(1000, &many).unwrap().outstanding_len(), 1);
}

#[test]
fn appends_are_checked_then_committed() {
    let mut state = SurfaceRecoveryState::new();
    let event = activated("a", 3);
    assert!(state.check_append(&event, 100).is_ok());
    state.commit(&event, 100);
    assert!(state.outstanding_exact(&key("a", 1, 3)));
    assert!(matches!(
        state.check_append(&event, MAX_EVENT_BYTES + 1),
        Err(SurfaceRecoveryError::EventTooLarge)
    ));
    let bad = SurfaceRecoveryEvent::Activated {
        key: SurfaceRecoveryKey {
            session_id: 1,
            surface_kind: "other".into(),
            label: "a".into(),
            incarnation: 1,
            owner_instance_id: 1,
        },
    };
    assert!(matches!(
        state.check_append(&bad, MAX_EVENT_BYTES + 1),
        Err(SurfaceRecoveryError::InvalidKey)
    ));
    let release = released("a", 3);
    state.commit(&release, 90);
    assert_eq!(state.outstanding_len(), 0);
    let nearly_full = SurfaceRecoveryState::replay(MAX_JOURNAL_BYTES - 50, &vec![]).unwrap();
    assert!(nearly_full.check_append(&event, 50).is_ok());
    assert!(matches!(
        nearly_full.check_append(&event, 51),
        Err(SurfaceRecoveryError::JournalFull)
    ));
}

use localview::control::network_fault::{
    accepted_install, clear_acknowledged, failed_install_cleanup, install_body_fits, invalidation_clears,
    lease_live, InstallAck, LeaseRef,
};

fn ack() -> InstallAck {
    InstallAck {
        active: Some(true),
        fingerprint: Some("fp-1".into()),
        rule_count: Some(2),
        remaining_ms: Some(Some(5_000)),
        expires_in_ms: None,
        surface_incarnation: Some(3),
    }
}

#[test]
fn install_acks_must_match_the_canonical_plan() {
    assert_eq!(accepted_install(&ack(), "fp-1", 2, 10_000), Some((5_000, 3)));
    assert_eq!(accepted_install(&ack(), "fp-2", 2, 10_000), None);
    assert_eq!(accepted_install(&ack(), "fp-1", 3, 10_000), None);
    assert_eq!(accepted_install(&ack(), "fp-1", 2, 4_999), None);
    let mut inactive = ack();
    inactive.active = Some(false);
    assert_eq!(accepted_install(&inactive, "fp-1", 2, 10_000), None);
    let mut zero = ack();
    zero.surface_incarnation = Some(0);
    assert_eq!(accepted_install(&zero, "fp-1", 2, 10_000), None);
    let mut fallback = ack();
    fallback.remaining_ms = None;
    fallback.expires_in_ms = Some(Some(700));
    assert_eq!(accepted_install(&fallback, "fp-1", 2, 10_000), Some((700, 3)));
    let mut wrong_type = ack();
    wrong_type.remaining_ms = Some(None);
    wrong_type.expires_in_ms = Some(Some(700));
    assert_eq!(accepted_install(&wrong_type, "fp-1", 2, 10_000), None);
    let mut expired = ack();
    expired.remaining_ms = Some(Some(0));
    assert_eq!(accepted_install(&expired, "fp-1", 2, 10_000), None);
}

#[test]
fn failed_installs_clear_the_new_lease_and_drop_the_old_record() {
    let previous = LeaseRef { lease_id: 10, lease_token: 11 };
    let cleanup = failed_install_cleanup(20, Some(previous), true);
    assert_eq!(cleanup.clear_tokens, vec![20, 11]);
    assert_eq!(cleanup.drop_lease, Some(10));
    let cleanup = failed_install_cleanup(20, Some(previous), false);
    assert_eq!(cleanup.clear_tokens, vec![20]);
    assert_eq!(cleanup.drop_lease, Some(10));
    let cleanup = failed_install_cleanup(20, None, true);
    assert_eq!(cleanup.clear_tokens, vec![20]);
    assert_eq!(cleanup.drop_lease, None);
}

#[test]
fn leases_clear_and_invalidate_only_on_their_surface() {
    assert!(install_body_fits(16 * 1024));
    assert!(!install_body_fits(16 * 1024 + 1));
    assert!(lease_live(10, 9));
    assert!(!lease_live(10, 10));
    assert!(clear_acknowledged(true, Some(false), Some(4), 4));
    assert!(!clear_acknowledged(true, Some(true), Some(4), 4));
    assert!(!clear_acknowledged(true, Some(false), Some(5), 4));
    assert!(!clear_acknowledged(false, Some(false), Some(4), 4));
    assert_eq!(invalidation_clears(0, Some(0)), Err(()));
    assert_eq!(invalidation_clears(4, Some(4)), Ok(true));
    assert_eq!(invalidation_clears(4, Some(5)), Ok(false));
    assert_eq!(invalidation_clears(4, None), Ok(false));
}

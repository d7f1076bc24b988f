use localview::control::managed_consequential::{
    bounded_detail, dispatch_error_code, plan_refusal, valid_postcondition_refs, ObservationLineage,
    SurfaceActionAuthority, reconciliation_outcome, status_lookup, valid_reference,
    BoundCanonicalDispatchError, ConfirmRefusal, PendingPlan, PendingPlans, PostconditionVerdict,
    ReconciliationRecord, ReconciliationStatus, CONFIRMATION_TTL_MS, RECONCILIATION_RECORD_TTL_MS,
};

#[test]
fn managed_consequential_reference_is_bounded_and_canonical() {
    assert!(valid_reference("@eabc123"));
    assert!(!valid_reference("@save"));
    assert!(!valid_reference("@e"));
    assert!(!valid_reference("@ezz"));
}

fn plan(session_id: u128, confirmation_ref: u128, queued: &'static str, expires_at: u128) -> PendingPlan<&'static str> {
    PendingPlan { session_id, confirmation_ref, queued, expires_at }
}

#[test]
fn confirmation_consumes_the_plan_once() {
    let mut plans = PendingPlans::new();
    plans.insert(1, plan(10, 100, "click", CONFIRMATION_TTL_MS));
    plans.insert(2, plan(10, 200, "focus", CONFIRMATION_TTL_MS));
    assert_eq!(plans.len(), 2);
    assert!(matches!(plans.confirm(1, 11, 100, 5), Err(ConfirmRefusal::SessionMismatch)));
    assert!(matches!(plans.confirm(1, 10, 101, 5), Err(ConfirmRefusal::ConfirmationMismatch)));
    assert_eq!(plans.len(), 2);
    let confirmed = plans.confirm(1, 10, 100, 5).ok().expect("exact confirmation");
    assert_eq!(confirmed.queued, "click");
    assert!(matches!(plans.confirm(1, 10, 100, 6), Err(ConfirmRefusal::Missing)));
    assert_eq!(plans.len(), 1);
}

#[test]
fn expired_plans_are_refused_and_pruned() {
    let mut plans = PendingPlans::new();
    plans.insert(1, plan(10, 100, "click", 50));
    plans.insert(2, plan(10, 200, "focus", 80));
    plans.insert(3, plan(11, 300, "click", 20));
    assert!(matches!(plans.confirm(1, 10, 100, 50), Err(ConfirmRefusal::Expired("click"))));
    assert_eq!(plans.len(), 2);
    assert_eq!(plans.prune_expired(60), vec![3]);
    assert_eq!(plans.len(), 1);
    assert!(plans.confirm(2, 10, 200, 79).is_ok());
}

#[test]
fn plans_replace_by_action_respect_capacity_and_release_by_session() {
    let mut plans = PendingPlans::new();
    for id in 0..64u128 {
        assert!(plans.has_capacity());
        plans.insert(id, plan(id % 2, id, "click", 1_000));
    }
    assert!(!plans.has_capacity());
    plans.insert(5, plan(1, 555, "focus", 1_000));
    assert_eq!(plans.len(), 64);
    assert!(matches!(plans.confirm(5, 1, 5, 0), Err(ConfirmRefusal::ConfirmationMismatch)));
    plans.release_session(0);
    assert_eq!(plans.len(), 32);
    assert!(matches!(plans.confirm(4, 0, 4, 0), Err(ConfirmRefusal::Missing)));
}

#[test]
fn reconciliation_records_follow_the_executor_and_the_verdicts() {
    let mut record = ReconciliationRecord::pending(7, "authority", vec!["lvpc:web-semantic:v1:{}".to_string()], 1_000);
    assert_eq!(record.status, ReconciliationStatus::PendingExecutorCompletion);
    assert!(!record.status.terminal());
    assert_eq!(record.expires_at, 1_000 + RECONCILIATION_RECORD_TTL_MS);

    let mut failed = record.clone();
    let long = "x".repeat(600);
    assert!(!failed.record_executor_result(false, Some(&long), 2_000));
    assert_eq!(failed.status.code(), "executor_failed");
    assert_eq!(failed.detail.as_deref().map(str::len), Some(512));
    assert!(failed.status.terminal());

    assert!(record.record_executor_result(true, None, 2_000));
    assert_eq!(record.status.code(), "pending_fresh_reconciliation");
    assert!(!record.status.terminal());

    let mut required = record.clone();
    required.require_reconciliation("managed_surface_authority_changed_before_reconciliation", 3_000);
    assert_eq!(required.status, ReconciliationStatus::ReconciliationRequired);

    record.complete(&vec![PostconditionVerdict::VerifiedPass, PostconditionVerdict::Unknown], None, 4, "/".to_string(), 3_000);
    assert_eq!(record.status.code(), "reconciliation_required");
    assert_eq!(record.detail.as_deref(), Some("one_or_more_postconditions_unresolved"));
    record.complete(&vec![PostconditionVerdict::VerifiedPass], Some("proof:x".to_string()), 5, "/a".to_string(), 3_000);
    assert_eq!(record.status, ReconciliationStatus::VerifiedExpected);
    assert_eq!(record.detail, None);
    assert_eq!(record.snapshot_version, Some(5));

    assert_eq!(
        reconciliation_outcome(&vec![PostconditionVerdict::Unknown, PostconditionVerdict::VerifiedFail]),
        ReconciliationStatus::VerifiedUnexpected
    );
    assert_eq!(reconciliation_outcome(&vec![]), ReconciliationStatus::VerifiedExpected);
    assert_eq!(PostconditionVerdict::VerifiedFail.code(), "verified_fail");
}

#[test]
fn status_lookup_checks_the_session() {
    let record = ReconciliationRecord::pending(7, (), vec![], 0);
    assert!(status_lookup(Some(&record), 7).is_ok());
    assert_eq!(status_lookup(Some(&record), 8).err(), Some((409, "managed_consequential_status_session_mismatch")));
    assert_eq!(status_lookup::<()>(None, 7).err(), Some((404, "managed_consequential_status_not_found")));
    assert_eq!(dispatch_error_code(BoundCanonicalDispatchError::TargetIncarnationMismatch), "managed_consequential_target_incarnation_stale");
    assert_eq!(bounded_detail("short"), "short");
}

fn authority(generation: u64) -> SurfaceActionAuthority {
    SurfaceActionAuthority {
        authority_ref: "authority:a".into(),
        provider_incarnation_ref: "provider:p".into(),
        target_incarnation_ref: "target:t".into(),
        generation,
    }
}

#[test]
fn plan_refusals_come_in_order() {
    let lineage = ObservationLineage { provider_incarnation_ref: "provider:p".into(), target_incarnation_ref: "target:t".into() };
    let other = ObservationLineage { provider_incarnation_ref: "provider:q".into(), target_incarnation_ref: "target:t".into() };
    assert_eq!(
        plan_refusal(&authority(1), &authority(2), None, None),
        Some("managed_consequential_surface_authority_changed")
    );
    assert_eq!(plan_refusal(&authority(1), &authority(1), None, Some(true)), Some("managed_consequential_observation_authority_missing"));
    assert_eq!(
        plan_refusal(&authority(1), &authority(1), Some(&other), Some(true)),
        Some("managed_consequential_independent_provider_observation")
    );
    assert_eq!(
        plan_refusal(&authority(1), &authority(1), Some(&lineage), None),
        Some("managed_consequential_reference_not_in_fresh_snapshot")
    );
    assert_eq!(
        plan_refusal(&authority(1), &authority(1), Some(&lineage), Some(false)),
        Some("managed_consequential_reference_not_interactive")
    );
    assert_eq!(plan_refusal(&authority(1), &authority(1), Some(&lineage), Some(true)), None);
}

#[test]
fn postcondition_refs_are_bounded_unique_and_registered() {
    let refs = |items: &[&str]| items.iter().map(|s| s.to_string()).collect::<Vec<_>>();
    assert!(valid_postcondition_refs(&refs(&["a", "b"]), &vec![true, true]));
    assert!(!valid_postcondition_refs(&refs(&[]), &vec![]));
    assert!(!valid_postcondition_refs(&refs(&["a", "a"]), &vec![true, true]));
    assert!(!valid_postcondition_refs(&refs(&["a", ""]), &vec![true, true]));
    assert!(!valid_postcondition_refs(&refs(&["a\n"]), &vec![true]));
    assert!(!valid_postcondition_refs(&refs(&["a", "b"]), &vec![true, false]));
    let nine = (0..9).map(|i| format!("c{i}")).collect::<Vec<_>>();
    assert!(!valid_postcondition_refs(&nine, &vec![true; 9]));
    assert!(!valid_postcondition_refs(&refs(&[&"x".repeat(4097)]), &vec![true]));
}

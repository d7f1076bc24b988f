use localview::capture::{
    build_plan, evaluate_settle, recent, CaptureStage, SettleObservation, SettleReason,
    StableCapturePolicy,
};

fn ready() -> SettleObservation {
    SettleObservation {
        now_unix_ms: 10_000,
        latest_semantic_at_unix_ms: Some(9_900),
        ready_state: Some("complete".into()),
        fonts_status: Some("loaded".into()),
        pending_images: Some(0),
        latest_hmr_at_unix_ms: Some(9_000),
        latest_dom_mutation_at_unix_ms: Some(9_000),
        latest_layout_at_unix_ms: Some(9_000),
        latest_network_at_unix_ms: Some(9_000),
        inflight_network_requests: Some(0),
    }
}

#[test]
fn plan_restores_after_capture() {
    let plan = build_plan((), StableCapturePolicy::default());
    assert_eq!(plan.stages.last(), Some(&CaptureStage::Restored));
}

#[test]
fn fully_ready_and_quiet_page_is_stable() {
    let decision = evaluate_settle(&StableCapturePolicy::default(), &ready());
    assert!(decision.stable);
    assert!(decision.reasons.is_empty());
    assert!((25..=100).contains(&decision.retry_after_ms));
}

#[test]
fn active_network_requests_block_even_when_last_completion_is_old() {
    let mut observation = ready();
    observation.inflight_network_requests = Some(2);
    let decision = evaluate_settle(&StableCapturePolicy::default(), &observation);
    assert!(!decision.stable);
    assert!(decision.reasons.contains(&SettleReason::NetworkInflight));
}

#[test]
fn missing_network_counter_fails_closed_when_network_gate_is_enabled() {
    let mut observation = ready();
    observation.inflight_network_requests = None;
    let decision = evaluate_settle(&StableCapturePolicy::default(), &observation);
    assert!(!decision.stable);
    assert!(decision.reasons.contains(&SettleReason::NetworkStateUnknown));
}

#[test]
fn disabled_network_gate_does_not_require_inflight_counter() {
    let mut observation = ready();
    observation.inflight_network_requests = None;
    observation.latest_network_at_unix_ms = Some(9_999);
    let policy = StableCapturePolicy { network_quiet_ms: None, ..StableCapturePolicy::default() };
    let decision = evaluate_settle(&policy, &observation);
    assert!(decision.stable, "unexpected reasons: {:?}", decision.reasons);
}

#[test]
fn missing_snapshot_blocks_required_readiness() {
    let mut observation = ready();
    observation.latest_semantic_at_unix_ms = None;
    observation.ready_state = None;
    observation.fonts_status = None;
    observation.pending_images = None;
    let decision = evaluate_settle(&StableCapturePolicy::default(), &observation);
    assert!(!decision.stable);
    assert!(decision.reasons.contains(&SettleReason::NoSemanticSnapshot));
}

#[test]
fn readiness_and_recent_runtime_activity_report_independent_reasons() {
    let mut observation = ready();
    observation.ready_state = Some("interactive".into());
    observation.fonts_status = Some("loading".into());
    observation.pending_images = Some(2);
    observation.latest_hmr_at_unix_ms = Some(9_800);
    observation.latest_dom_mutation_at_unix_ms = Some(9_850);
    observation.latest_layout_at_unix_ms = Some(9_850);
    observation.latest_network_at_unix_ms = Some(9_900);

    let decision = evaluate_settle(&StableCapturePolicy::default(), &observation);
    for reason in [
        SettleReason::DomNotReady,
        SettleReason::FontsPending,
        SettleReason::ImagesPending,
        SettleReason::HmrRecent,
        SettleReason::DomMutationRecent,
        SettleReason::LayoutRecent,
        SettleReason::NetworkRecent,
    ] {
        assert!(decision.reasons.contains(&reason), "missing {reason:?}");
    }
}

#[test]
fn events_at_or_outside_quiet_windows_do_not_block() {
    let mut observation = ready();
    observation.latest_hmr_at_unix_ms = Some(9_700);
    observation.latest_dom_mutation_at_unix_ms = Some(9_800);
    observation.latest_layout_at_unix_ms = Some(9_800);
    observation.latest_network_at_unix_ms = Some(9_750);
    let decision = evaluate_settle(&StableCapturePolicy::default(), &observation);
    assert!(decision.stable, "unexpected reasons: {:?}", decision.reasons);
}

#[test]
fn disabled_policy_gate_removes_only_its_reason() {
    let policy = StableCapturePolicy { wait_fonts: false, ..StableCapturePolicy::default() };
    let mut observation = ready();
    observation.fonts_status = Some("loading".into());
    observation.pending_images = Some(1);

    let decision = evaluate_settle(&policy, &observation);
    assert!(!decision.reasons.contains(&SettleReason::FontsPending));
    assert!(decision.reasons.contains(&SettleReason::ImagesPending));
}

#[test]
fn future_event_timestamp_is_treated_as_recent() {
    let mut observation = ready();
    observation.latest_layout_at_unix_ms = Some(10_100);
    let decision = evaluate_settle(&StableCapturePolicy::default(), &observation);
    assert!(decision.reasons.contains(&SettleReason::LayoutRecent));
}

#[test]
fn default_capture_policy_masks_common_private_and_credential_surfaces() {
    let policy = StableCapturePolicy::default();
    let expected = [
        "[data-localview-private]",
        "[data-private]",
        "[data-sensitive]",
        "input[type=\"password\"]",
        "input[autocomplete=\"current-password\"]",
        "input[autocomplete=\"new-password\"]",
        "input[autocomplete=\"one-time-code\"]",
    ];
    for selector in expected {
        assert!(
            policy.mask_selectors.iter().any(|candidate| candidate == selector),
            "missing default private selector: {selector}"
        );
    }
    assert!(policy.mask_selectors.len() <= 16);
    let plan = build_plan((), policy);
    assert!(plan.stages.contains(&CaptureStage::Masked));
}

#[test]
fn quiet_periods_saturate_and_missing_events_never_block() {
    assert!(!recent(10_000, None, 300));
    assert!(!recent(i64::MAX, Some(i64::MIN + 1), u64::MAX));
    assert!(recent(1_000, Some(900), 200));
    assert!(!recent(i64::MAX, Some(i64::MIN), 0));
    assert!(recent(10, Some(10), 0));
}

#[test]
fn plan_lists_enabled_stages_in_order() {
    let policy = StableCapturePolicy {
        wait_dom_ready: true,
        wait_fonts: false,
        wait_images: false,
        wait_hmr_settle: false,
        wait_layout_stable: true,
        network_quiet_ms: None,
        freeze_animation: false,
        freeze_transition: true,
        mask_selectors: vec![],
        timeout_ms: 1,
    };
    let plan = build_plan("viewport", policy);
    assert_eq!(
        plan.stages,
        vec![
            CaptureStage::DomReady,
            CaptureStage::LayoutStable,
            CaptureStage::AnimationsFrozen,
            CaptureStage::Captured,
            CaptureStage::Restored
        ]
    );
    assert_eq!(plan.target, "viewport");
}

#[test]
fn turning_gates_off_keeps_the_other_reasons_in_order() {
    let full = StableCapturePolicy::default();
    let fewer = StableCapturePolicy {
        wait_fonts: false,
        wait_hmr_settle: false,
        network_quiet_ms: None,
        ..StableCapturePolicy::default()
    };
    let mut observation = ready();
    observation.ready_state = Some("interactive".into());
    observation.fonts_status = Some("loading".into());
    observation.pending_images = Some(2);
    observation.latest_hmr_at_unix_ms = Some(9_950);
    observation.latest_layout_at_unix_ms = Some(9_990);
    observation.inflight_network_requests = None;
    let all = evaluate_settle(&full, &observation).reasons;
    assert_eq!(
        all,
        vec![
            SettleReason::DomNotReady,
            SettleReason::FontsPending,
            SettleReason::ImagesPending,
            SettleReason::HmrRecent,
            SettleReason::LayoutRecent,
            SettleReason::NetworkStateUnknown,
        ]
    );
    let kept: Vec<SettleReason> = all
        .iter()
        .copied()
        .filter(|r| {
            !matches!(
                r,
                SettleReason::FontsPending
                    | SettleReason::HmrRecent
                    | SettleReason::NetworkStateUnknown
                    | SettleReason::NetworkInflight
                    | SettleReason::NetworkRecent
            )
        })
        .collect();
    assert_eq!(evaluate_settle(&fewer, &observation).reasons, kept);
}

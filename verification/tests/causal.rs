use localview::causal::{
    hypothesis_status, targeted_plan, HypothesisStatus, ProofCapsule, ProofVerdict,
    VerificationAction,
};

#[test]
fn contradictory_evidence_never_becomes_supported() {
    assert_eq!(hypothesis_status(true, true), HypothesisStatus::Inconclusive);
    assert_eq!(hypothesis_status(true, false), HypothesisStatus::Supported);
    assert_eq!(hypothesis_status(false, true), HypothesisStatus::Falsified);
    assert_eq!(hypothesis_status(false, false), HypothesisStatus::Unverified);
}

#[test]
fn targeted_plan_captures_sorted_regions_between_snapshot_and_console() {
    let plan = targeted_plan(
        &"h1".to_string(),
        &vec!["hero".to_string(), "footer".to_string()],
        &vec!["hero".to_string(), "card".to_string()],
    );
    assert_eq!(plan.hypothesis_id, "h1");
    let ids: Vec<&str> = plan.steps.iter().map(|s| s.id.as_str()).collect();
    assert_eq!(ids, vec!["semantic", "region-0", "region-1", "region-2", "runtime"]);
    let targets: Vec<Option<&str>> = plan.steps.iter().map(|s| s.target.as_deref()).collect();
    assert_eq!(targets, vec![None, Some("card"), Some("footer"), Some("hero"), None]);
    assert_eq!(plan.steps[1].action, VerificationAction::Capture);
    assert_eq!(plan.steps[1].expected_evidence, vec!["visual_delta".to_string(), "layout_delta".to_string()]);
    assert_eq!(plan.budget.max_steps, 5);
    assert_eq!(plan.budget.max_capture_regions, 8);
    assert!(!plan.budget.allow_chromium_escalation);
}

#[test]
fn targeted_plan_caps_regions_and_steps() {
    let many: Vec<String> = (0..11).map(|i| format!("r{i:02}")).collect();
    let plan = targeted_plan(&"h".to_string(), &many, &vec![]);
    assert_eq!(plan.steps.len(), 10);
    assert_eq!(plan.steps[8].target.as_deref(), Some("r07"));
    assert_eq!(plan.budget.max_steps, 10);
}

#[test]
fn portable_capsule_names_revisions_plan_and_evidence() {
    let capsule = ProofCapsule {
        baseline_revision: "a".into(),
        candidate_revision: "b".into(),
        plan_id: "p".into(),
        evidence_ids: vec!["ev".into()],
        verdict: ProofVerdict::Pass,
        reasons: vec![],
    };
    assert!(capsule.is_portable());
    let no_evidence = ProofCapsule { evidence_ids: vec![], ..capsule };
    assert!(!no_evidence.is_portable());
}

use localview::bisect::{
    analyze, patch_stack_candidates, plan, BisectContract, BisectProbe, PatchStackEntry,
    ProbeVerdict, RevisionCandidate,
};

fn history() -> Vec<RevisionCandidate> {
    (0..5)
        .map(|index: usize| RevisionCandidate {
            revision: format!("r{index}"),
            parent: index.checked_sub(1).map(|parent| format!("r{parent}")),
            changed_files: vec![if index == 3 { "Hero.tsx".into() } else { "README.md".into() }],
            environment_hash: "env".into(),
        })
        .collect()
}

fn contract(relevant: Vec<String>) -> BisectContract {
    BisectContract {
        target: "hero".into(),
        good_revision: "r0".into(),
        bad_revision: "r4".into(),
        environment_hash: "env".into(),
        relevant_files: relevant,
        allow_working_tree: false,
    }
}

#[test]
fn planner_skips_irrelevant_revisions() {
    let history = history();
    let contract = contract(vec!["Hero.tsx".into()]);
    assert_eq!(plan(&history, &contract, &[]).expect("step").revision, "r3");
}

#[test]
fn planner_takes_the_midpoint_and_skips_resolved_revisions() {
    let history = history();
    let contract = contract(vec![]);
    let step = plan(&history, &contract, &[]).expect("step");
    assert_eq!(step.revision, "r2");
    assert_eq!(step.reason, "midpoint of unresolved revision range");
    let probes = vec![
        ("r2".to_string(), ProbeVerdict::Good),
        ("r1".to_string(), ProbeVerdict::Skip),
    ];
    assert_eq!(plan(&history, &contract, &probes).expect("step").revision, "r3");
    let all = vec![
        ("r1".to_string(), ProbeVerdict::Good),
        ("r2".to_string(), ProbeVerdict::Good),
        ("r3".to_string(), ProbeVerdict::Bad),
    ];
    assert!(plan(&history, &contract, &all).is_none());
}

#[test]
fn planner_needs_both_ends_in_the_history() {
    let history = history();
    let mut missing = contract(vec![]);
    missing.bad_revision = "r9".into();
    assert!(plan(&history, &missing, &[]).is_none());
}

fn probe(revision: &str, verdict: ProbeVerdict) -> BisectProbe {
    BisectProbe { revision: revision.into(), verdict, evidence_ids: vec![] }
}

#[test]
fn analysis_finds_first_bad_and_last_good_predecessor() {
    let history = history();
    let contract = contract(vec!["Hero.tsx".into()]);
    let result = analyze(
        &history,
        &contract,
        &[probe("r1", ProbeVerdict::Good), probe("r3", ProbeVerdict::Bad), probe("r4", ProbeVerdict::Bad)],
    );
    assert_eq!(result.first_bad.as_deref(), Some("r3"));
    assert_eq!(result.last_good.as_deref(), Some("r1"));
    assert_eq!(result.culprit_files, vec!["Hero.tsx".to_string()]);
    assert!(result.complete);
    assert!(result.reasons.is_empty());
}

#[test]
fn analysis_explains_what_is_missing() {
    let history = history();
    let contract = contract(vec![]);
    let none = analyze(&history, &contract, &[probe("r1", ProbeVerdict::Good)]);
    assert!(!none.complete);
    assert_eq!(none.reasons, vec!["no verified bad revision in the pinned environment".to_string()]);
    let no_good = analyze(&history, &contract, &[probe("r0", ProbeVerdict::Bad)]);
    assert_eq!(no_good.first_bad.as_deref(), Some("r0"));
    assert_eq!(no_good.reasons, vec!["no verified good predecessor in the pinned environment".to_string()]);
    let replaced = analyze(&history, &contract, &[probe("r2", ProbeVerdict::Bad), probe("r2", ProbeVerdict::Good)]);
    assert!(replaced.first_bad.is_none());
}

#[test]
fn patch_stack_keeps_entries_touching_relevant_files() {
    let stack = vec![
        PatchStackEntry { id: "a".into(), base_revision: "r1".into(), touched_files: vec!["x".into()] },
        PatchStackEntry { id: "b".into(), base_revision: "r1".into(), touched_files: vec!["y".into(), "z".into()] },
    ];
    let picked = patch_stack_candidates(&stack, &vec!["z".to_string()]);
    assert_eq!(picked.len(), 1);
    assert_eq!(picked[0].id, "b");
}

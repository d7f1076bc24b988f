use localview::evidence::EvidenceKind;
use localview::control::perception::{
    derive_candidates, derive_signals, engine_needs, has_unknown, DiagnosisFacts, EngineNeeds,
    Finding, PerceptionActionKind, PerceptionCycleSignals, UnknownClass,
};

fn facts(unknowns: Vec<UnknownClass>, findings: Vec<Finding>, has_network: bool, has_console: bool) -> DiagnosisFacts {
    DiagnosisFacts { unknowns, findings, has_network, has_console }
}

#[test]
fn signals_follow_findings_unknowns_and_requests() {
    let d = facts(
        vec![UnknownClass::Visual],
        vec![Finding { severity: 3, confidence: 80 }, Finding { severity: 2, confidence: 100 }],
        false,
        false,
    );
    let s = derive_signals(&d, true, true, false, false);
    assert_eq!(
        s,
        PerceptionCycleSignals {
            critical_issue: true,
            explicit_deep_mode: true,
            insufficient_evidence: true,
            browser_specific_suspicion: false,
        }
    );
    let satisfied = derive_signals(&d, false, true, true, false);
    assert!(!satisfied.insufficient_evidence);
    assert!(satisfied.browser_specific_suspicion);
    assert!(!derive_signals(&d, false, true, true, true).browser_specific_suspicion);
    let mild = facts(vec![], vec![Finding { severity: 3, confidence: 79 }], false, false);
    assert!(!derive_signals(&mild, false, false, false, false).critical_issue);
}

#[test]
fn candidates_come_in_plan_order_with_their_estimates() {
    let d = facts(
        vec![UnknownClass::Cause, UnknownClass::State, UnknownClass::Visual],
        vec![],
        true,
        true,
    );
    let signals = derive_signals(&d, false, false, false, false);
    let c = derive_candidates(&d, &signals, Some("#save"), false);
    let ids: Vec<&str> = c.iter().map(|c| c.id.as_str()).collect();
    assert_eq!(ids, vec!["semantic-current-state", "visual-target-region", "network-cause-trace", "console-cause-trace"]);
    assert_eq!(c[1].kind, PerceptionActionKind::RegionCapture);
    assert_eq!(c[1].estimated_capture_bytes, 64 * 1024);
    assert_eq!(c[1].uncertainty_reduction_hundredths, 55);
    assert_eq!(c[2].expected_evidence, vec![EvidenceKind::Network, EvidenceKind::Causal]);
    assert_eq!(c[3].estimated_usage.text_tokens, 180);
    assert!(c.iter().all(|c| c.target.as_deref() == Some("#save")));

    let visual_done = derive_candidates(&d, &signals, None, true);
    assert!(visual_done.iter().all(|c| c.kind != PerceptionActionKind::RegionCapture));

    let compat = facts(vec![], vec![], false, false);
    let signals = derive_signals(&compat, false, true, false, false);
    let c = derive_candidates(&compat, &signals, None, false);
    assert_eq!(c.len(), 1);
    assert_eq!(c[0].id, "chromium-compatibility-check");
    assert_eq!(c[0].estimated_usage.latency_ms, 500);
    assert!(has_unknown(&vec![UnknownClass::Other, UnknownClass::Cause], UnknownClass::Cause));
}

#[test]
fn engine_needs_follow_the_action_kind() {
    let none = EngineNeeds { javascript: false, screenshot: false, interaction: false, chrome_compatibility: false };
    assert_eq!(engine_needs(PerceptionActionKind::ChromiumEscalation), EngineNeeds { chrome_compatibility: true, ..none });
    assert_eq!(engine_needs(PerceptionActionKind::ResponsiveSweep), EngineNeeds { screenshot: true, ..none });
    assert_eq!(engine_needs(PerceptionActionKind::InteractionReplay), EngineNeeds { interaction: true, ..none });
    assert_eq!(engine_needs(PerceptionActionKind::AccessibilityScan), EngineNeeds { javascript: true, ..none });
}

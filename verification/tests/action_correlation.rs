use localview::control::action_correlation::{
    action_parent, correlation_parent_ids, correlation_window_open, runtime_signal, runtime_signals,
    timestamp_millis, CorrelationEvidence, RuntimeSignalKind,
};
use localview::evidence::EvidenceKind;

fn evidence(kind: EvidenceKind, event_kind: &str, id: &str, captured_at_ms: i64) -> CorrelationEvidence {
    CorrelationEvidence {
        id: id.into(),
        kind,
        payload_kind: Some(event_kind.into()),
        payload_route: Some("http://127.0.0.1:5173/".into()),
        payload_action_id: None,
        region: Some("@e1".into()),
        captured_at_ms,
    }
}

#[test]
fn projects_only_allowed_runtime_signal_classes() {
    let now = 1_700_000_000_000;
    assert_eq!(
        runtime_signal(&evidence(EvidenceKind::Network, "network", "n1", now)).map(|signal| signal.kind),
        Some(RuntimeSignalKind::Network)
    );
    assert_eq!(
        runtime_signal(&evidence(EvidenceKind::Semantic, "dom_mutation", "s1", now)).map(|signal| signal.kind),
        Some(RuntimeSignalKind::DomMutation)
    );
    assert!(runtime_signal(&evidence(EvidenceKind::Console, "console", "c1", now)).is_none());
    assert!(runtime_signal(&evidence(EvidenceKind::Interaction, "focus", "f1", now)).is_none());
}

#[test]
fn signals_keep_order_ids_times_and_routes() {
    let list = vec![
        evidence(EvidenceKind::Layout, "layout", "l1", 5),
        evidence(EvidenceKind::Network, "layout", "x", 6),
        evidence(EvidenceKind::Interaction, "route", "r1", -3),
    ];
    let signals = runtime_signals(&list);
    assert_eq!(signals.len(), 2);
    assert_eq!(signals[0].id, "l1");
    assert_eq!(signals[0].observed_ms, 5);
    assert_eq!(signals[1].kind, RuntimeSignalKind::Route);
    assert_eq!(signals[1].observed_ms, 0);
    assert_eq!(signals[1].route.as_deref(), Some("http://127.0.0.1:5173/"));
    assert_eq!(signals[1].reference.as_deref(), Some("@e1"));
    assert_eq!(timestamp_millis(-1), 0);
}

#[test]
fn the_last_interaction_naming_the_action_is_its_parent() {
    let mut a = evidence(EvidenceKind::Interaction, "click", "a", 1);
    a.payload_action_id = Some("act-1".into());
    let mut b = evidence(EvidenceKind::Interaction, "click", "b", 2);
    b.payload_action_id = Some("act-1".into());
    let mut c = evidence(EvidenceKind::Network, "network", "c", 3);
    c.payload_action_id = Some("act-1".into());
    let list = vec![a, b, c];
    assert_eq!(action_parent(&list, "act-1"), Some(1));
    assert_eq!(action_parent(&list, "act-2"), None);
}

#[test]
fn the_window_closes_after_the_tail_and_parents_are_sorted_once() {
    assert!(correlation_window_open(1_000, 500, 1_499));
    assert!(!correlation_window_open(1_000, 500, 1_500));
    assert!(correlation_window_open(u64::MAX - 1, 10, u64::MAX - 1));
    let links = vec![
        ("req-2".to_string(), vec!["ui-1".to_string(), "ui-0".to_string()]),
        ("req-1".to_string(), vec!["ui-1".to_string()]),
    ];
    assert_eq!(
        correlation_parent_ids(&"act-evidence".to_string(), &links),
        vec!["act-evidence", "req-1", "req-2", "ui-0", "ui-1"]
    );
}

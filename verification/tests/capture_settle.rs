use localview::control::capture_settle::{
    settle_observation, update_latest, FreshReadiness, ObservedEvent, ObserverEventKind,
};
use serde_json::Value;

fn object(entries: Vec<(&str, Value)>) -> Value {
    let mut map = serde_json::Map::new();
    for (key, value) in entries {
        map.insert(key.to_string(), value);
    }
    Value::Object(map)
}

fn readiness_of(payload: &Value) -> FreshReadiness {
    let readiness = payload.get("readiness");
    FreshReadiness {
        ready_state: payload.get("readyState").and_then(Value::as_str).map(str::to_owned),
        fonts: readiness.and_then(|r| r.get("fonts")).and_then(Value::as_str).map(str::to_owned),
        pending_images: readiness.and_then(|r| r.get("pendingImages")).and_then(Value::as_u64),
        inflight_requests: readiness.and_then(|r| r.get("inflightRequests")).and_then(Value::as_u64),
    }
}

#[test]
fn observation_reads_only_fresh_bounded_readiness_fields() {
    let stale_event = ObservedEvent { kind: ObserverEventKind::SemanticSnapshot, captured_at_ms: 1_000 };
    let fresh_payload = object(vec![
        ("readyState", Value::from("interactive")),
        (
            "readiness",
            object(vec![
                ("fonts", Value::from("loading")),
                ("pendingImages", Value::from(2u64)),
                ("inflightRequests", Value::from(3u64)),
            ]),
        ),
        ("secret", Value::from("never-copied")),
    ]);
    let fresh = readiness_of(&fresh_payload);

    let observation = settle_observation(&vec![stale_event], Some(&fresh), 2_000);
    assert_eq!(observation.latest_semantic_at_unix_ms, Some(2_000));
    assert_eq!(observation.ready_state.as_deref(), Some("interactive"));
    assert_eq!(observation.fonts_status.as_deref(), Some("loading"));
    assert_eq!(observation.pending_images, Some(2));
    assert_eq!(observation.inflight_network_requests, Some(3));
}

#[test]
fn observation_keeps_the_latest_event_of_each_kind() {
    let events = vec![
        ObservedEvent { kind: ObserverEventKind::Hmr, captured_at_ms: 30 },
        ObservedEvent { kind: ObserverEventKind::Hmr, captured_at_ms: 10 },
        ObservedEvent { kind: ObserverEventKind::Layout, captured_at_ms: 5 },
        ObservedEvent { kind: ObserverEventKind::Console, captured_at_ms: 99 },
    ];
    let observation = settle_observation(&events, None, 100);
    assert_eq!(observation.latest_hmr_at_unix_ms, Some(30));
    assert_eq!(observation.latest_layout_at_unix_ms, Some(5));
    assert_eq!(observation.latest_network_at_unix_ms, None);
    assert_eq!(observation.latest_dom_mutation_at_unix_ms, None);
    assert_eq!(observation.latest_semantic_at_unix_ms, None);
    assert_eq!(observation.ready_state, None);

    let too_many = FreshReadiness { ready_state: None, fonts: None, pending_images: Some(u64::from(u32::MAX) + 1), inflight_requests: Some(0) };
    let observation = settle_observation(&vec![], Some(&too_many), 7);
    assert_eq!(observation.pending_images, None);
    assert_eq!(observation.inflight_network_requests, Some(0));

    let mut slot = Some(5);
    update_latest(&mut slot, 3);
    assert_eq!(slot, Some(5));
    update_latest(&mut slot, 8);
    assert_eq!(slot, Some(8));
}

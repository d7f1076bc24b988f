use localview::content_addressed::{diff_hash_sets, sorted_unique, BaselineEnvelope};

fn v(items: &[&str]) -> Vec<String> {
    items.iter().map(|s| s.to_string()).collect()
}

#[test]
fn normalized_envelope_sorts_and_deduplicates_evidence() {
    let envelope = BaselineEnvelope {
        schema_version: 1,
        state_identity: "sha256:state".into(),
        route: "/".into(),
        viewport: (1280, 720),
        evidence_hashes: v(&["b", "a", "b"]),
        design_baseline_hash: None,
        created_revision: Some("abc".into()),
        provenance: vec![("source".into(), "wave8-headless".into())],
    }
    .normalized();
    assert_eq!(envelope.evidence_hashes, v(&["a", "b"]));
    assert_eq!(envelope.route, "/");
    let again = envelope.clone().normalized();
    assert_eq!(again.evidence_hashes, envelope.evidence_hashes);
}

#[test]
fn diff_partitions_the_two_sets() {
    let delta = diff_hash_sets(&v(&["c", "a", "b", "a"]), &v(&["d", "b", "c"]));
    assert_eq!(delta.unchanged, v(&["b", "c"]));
    assert_eq!(delta.added, v(&["d"]));
    assert_eq!(delta.removed, v(&["a"]));
}

#[test]
fn sorted_unique_orders_by_text() {
    assert_eq!(sorted_unique(&v(&["ab", "a", "b", "ab", ""])), v(&["", "a", "ab", "b"]));
}

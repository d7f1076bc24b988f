use localview::attestation::{
    aggregate_pr, payload_canonical_json, sign, staleness, verify, AttestationError, AttestorKind, CurrentRuntimeBinding,
    ProofReceiptPayload, ReceiptVerdict, UtcInstant,
};
use localview::digest::canonical_hash;

fn payload() -> ProofReceiptPayload {
    ProofReceiptPayload {
        schema_version: 1,
        project: "LocalView".into(),
        baseline_revision: "a".into(),
        candidate_revision: "b".into(),
        environment_hash: "env".into(),
        plan_hash: "plan".into(),
        evidence_hashes: vec!["ev".into()],
        contract_hashes: vec![],
        mutation_run_hash: None,
        verdict: ReceiptVerdict::Pass,
        created_at: UtcInstant { secs: 1, nanos: 0 },
    }
}

#[test]
fn receipt_signature_detects_tampering() {
    let key = b"0123456789abcdef0123456789abcdef";
    let mut receipt = sign(payload(), AttestorKind::Local, "local".into(), key).expect("sign");
    assert!(verify(&receipt, key).expect("verify"));
    receipt.payload.candidate_revision = "tampered".into();
    assert!(!verify(&receipt, key).expect("verify"));
}

#[test]
fn payload_canonical_json_sorts_keys_and_writes_the_instant_as_chrono_does() {
    let json = String::from_utf8(payload_canonical_json(&payload())).unwrap();
    assert_eq!(
        json,
        [
            r#"{"baseline_revision":"a","candidate_revision":"b","contract_hashes":[],"#,
            r#""created_at":"1970-01-01T00:00:01Z","environment_hash":"env","evidence_hashes":["ev"],"#,
            r#""mutation_run_hash":null,"plan_hash":"plan","project":"LocalView","schema_version":1,"#,
            r#""verdict":"pass"}"#,
        ]
        .concat()
    );
    assert_eq!(payload().canonical_hash(), canonical_hash(json.as_bytes()));
    let mut later = payload();
    later.created_at = UtcInstant { secs: 1, nanos: 500_000_000 };
    later.mutation_run_hash = Some("m\"1".into());
    let text = String::from_utf8(payload_canonical_json(&later)).unwrap();
    assert!(text.contains(r#""created_at":"1970-01-01T00:00:01.500Z""#));
    assert!(text.contains(r#""mutation_run_hash":"m\"1""#));
}

#[test]
fn weak_keys_and_garbled_signatures_are_refused() {
    assert_eq!(
        sign(payload(), AttestorKind::Ci, "ci".into(), b"short").unwrap_err(),
        AttestationError::WeakKey
    );
    let key = b"0123456789abcdef";
    let mut receipt = sign(payload(), AttestorKind::Ci, "ci".into(), key).expect("sign");
    assert_eq!(receipt.payload_hash, payload().canonical_hash());
    assert!(receipt.payload_hash.starts_with("sha256:"));
    assert_eq!(receipt.signature.len(), 64);
    assert!(!verify(&receipt, b"another key of 16+").expect("verify"));
    receipt.signature = "zz".into();
    assert_eq!(verify(&receipt, key).unwrap_err(), AttestationError::InvalidSignatureEncoding);
}

#[test]
fn staleness_lists_every_changed_binding() {
    let receipt = sign(payload(), AttestorKind::Local, "k".into(), b"0123456789abcdef").unwrap();
    let same = CurrentRuntimeBinding {
        candidate_revision: "b".into(),
        environment_hash: "env".into(),
        plan_hash: "plan".into(),
    };
    let fresh = staleness(&receipt, &same);
    assert!(!fresh.stale);
    assert!(fresh.reasons.is_empty());
    let changed = CurrentRuntimeBinding {
        candidate_revision: "c".into(),
        environment_hash: "env".into(),
        plan_hash: "plan2".into(),
    };
    let stale = staleness(&receipt, &changed);
    assert!(stale.stale);
    assert_eq!(stale.reasons, vec!["candidate revision changed".to_string(), "verification plan changed".to_string()]);
}

#[test]
fn pull_request_passes_only_with_all_passing_receipts() {
    let key = b"0123456789abcdef";
    let pass = sign(payload(), AttestorKind::Local, "k".into(), key).unwrap();
    let mut failing_payload = payload();
    failing_payload.verdict = ReceiptVerdict::Fail;
    let fail = sign(failing_payload, AttestorKind::Local, "k".into(), key).unwrap();
    let both = aggregate_pr("pr-1".into(), "head".into(), &[pass.clone(), fail.clone()]);
    assert!(!both.all_pass);
    assert_eq!(both.receipt_hashes, vec![pass.payload_hash.clone(), fail.payload_hash.clone()]);
    assert!(aggregate_pr("pr-1".into(), "head".into(), &[pass]).all_pass);
    assert!(!aggregate_pr("pr-1".into(), "head".into(), &[]).all_pass);
}

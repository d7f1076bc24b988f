use localview::attestation::{sign, AttestorKind, ProofReceiptPayload, ReceiptVerdict, UtcInstant};
use localview::digest::canonical_hash;

#[test]
fn canonical_hash_is_the_hexadecimal_sha256_digest() {
    assert_eq!(
        canonical_hash(b""),
        "sha256:e3b0c44298fc1c149afbf4c8996fb92427ae41e4649b934ca495991b7852b855"
    );
    assert_eq!(
        canonical_hash(b"abc"),
        "sha256:ba7816bf8f01cfea414140de5dae2223b00361a396177a9cb410ff61f20015ad"
    );
}

#[test]
fn signature_is_the_hexadecimal_hmac_of_the_payload_hash() {
    let payload = ProofReceiptPayload {
        schema_version: 1,
        project: "p".into(),
        baseline_revision: "a".into(),
        candidate_revision: "b".into(),
        environment_hash: "e".into(),
        plan_hash: "plan".into(),
        evidence_hashes: vec![],
        contract_hashes: vec![],
        mutation_run_hash: None,
        verdict: ReceiptVerdict::Pass,
        created_at: UtcInstant { secs: 0, nanos: 0 },
    };
    let key = b"Jefe-Jefe-Jefe-Jefe";
    let receipt = sign(payload.clone(), AttestorKind::Local, "k".into(), key).unwrap();
    assert_eq!(receipt.payload_hash, payload.canonical_hash());
    let mut mac = <hmac::Hmac<sha2::Sha256> as hmac::Mac>::new_from_slice(key).unwrap();
    hmac::Mac::update(&mut mac, receipt.payload_hash.as_bytes());
    let expected = hex::encode(hmac::Mac::finalize(mac).into_bytes());
    assert_eq!(receipt.signature, expected);
}

#[test]
fn canonical_hash_has_the_sha256_shape() {
    let h = localview::digest::canonical_hash(b"{}");
    assert_eq!(h.len(), 71);
    assert!(h.starts_with("sha256:"));
    assert!(h[7..].chars().all(|c| c.is_ascii_digit() || ('a'..='f').contains(&c)));
}

//! Signed proof receipts: signing and verifying them, and deciding when one is stale.
//!
//! A receipt signs the canonical hash of its payload: the SHA-256 digest of the
//! payload's canonical JSON (its keys in order, no whitespace). The instant the
//! payload was created is written as `chrono` writes a UTC date and time.
use vstd::prelude::*;
use vstd::string::StrSliceExecFns;
use vstd::utf8::encode_utf8;
use crate::canonical_json::{
    append, decimal, optional_string, push_decimal, push_optional_string, push_quoted,
    push_string_array, quoted, string_array, text_of,
};
use crate::digest::{canonical_hash, canonical_hash_text, hex_decode, hex_encode, hex_text};
use crate::digest::{hmac_sha256, hmac_sha256_of, hmac_sha256_verify, lemma_hex_round_trip};

verus! {

/// A UTC instant: seconds since the Unix epoch and the nanoseconds past them.
#[derive(Debug, Clone, Copy, PartialEq, Eq, Structural)]
pub struct UtcInstant {
    pub secs: i64,
    pub nanos: u32,
}

#[derive(Debug, Clone, Copy, PartialEq, Eq, Structural)]
pub enum ReceiptVerdict {
    Pass,
    Fail,
    Inconclusive,
}

#[derive(Debug, Clone, Copy, PartialEq, Eq, Structural)]
pub enum AttestorKind {
    Local,
    Ci,
}

#[derive(Debug, Clone, Copy, PartialEq, Eq, Structural)]
pub enum AttestationError {
    WeakKey,
    InvalidKey,
    InvalidSignatureEncoding,
}

#[derive(Debug, Clone)]
pub struct ProofReceiptPayload {
    pub schema_version: u32,
    pub project: String,
    pub baseline_revision: String,
    pub candidate_revision: String,
    pub environment_hash: String,
    pub plan_hash: String,
    pub evidence_hashes: Vec<String>,
    pub contract_hashes: Vec<String>,
    pub mutation_run_hash: Option<String>,
    pub verdict: ReceiptVerdict,
    pub created_at: UtcInstant,
}

#[derive(Debug, Clone)]
pub struct ProofReceipt {
    pub payload: ProofReceiptPayload,
    pub payload_hash: String,
    pub attestor: AttestorKind,
    pub key_id: String,
    pub signature: String,
}

/// The RFC 3339 text of a UTC instant as `chrono` writes it (seconds with as many
/// fractional digits as the nanoseconds need, `Z` for UTC), or none for an instant
/// that `chrono` cannot represent.
pub uninterp spec fn utc_rfc3339(secs: i64, nanos: u32) -> Option<Seq<char>>;

/// `DateTime::<Utc>::from_timestamp`, then `to_rfc3339_opts(SecondsFormat::AutoSi,
/// true)`: the text that `chrono`'s serialisation of the instant writes. Its result
/// is named, not described.
#[verifier::external_body]
fn rfc3339_utc(at: UtcInstant) -> (r: Option<String>)
    ensures
        match r {
            Some(t) => utc_rfc3339(at.secs, at.nanos) == Some(t@),
            None => utc_rfc3339(at.secs, at.nanos) is None,
        },
{
    match chrono::DateTime::<chrono::Utc>::from_timestamp(at.secs, at.nanos) {
        Some(t) => Some(t.to_rfc3339_opts(chrono::SecondsFormat::AutoSi, true)),
        None => None,
    }
}

pub open spec fn verdict_text(v: ReceiptVerdict) -> Seq<char> {
    match v {
        ReceiptVerdict::Pass => "pass"@,
        ReceiptVerdict::Fail => "fail"@,
        ReceiptVerdict::Inconclusive => "inconclusive"@,
    }
}

pub open spec fn names(v: Seq<String>) -> Seq<Seq<char>> {
    v.map_values(|s: String| s@)
}

/// The canonical JSON text of a payload: an object with its fields in the order of
/// their names and no whitespace. A payload whose instant cannot be written has
/// no JSON object, and its canonical JSON is `null`.
pub open spec fn payload_json(p: ProofReceiptPayload) -> Seq<char> {
    match utc_rfc3339(p.created_at.secs, p.created_at.nanos) {
        None => "null"@,
        Some(t) => "{\"baseline_revision\":"@ + quoted(p.baseline_revision@) + ",\"candidate_revision\":"@
            + quoted(p.candidate_revision@) + ",\"contract_hashes\":"@ + string_array(
            names(p.contract_hashes@),
        ) + ",\"created_at\":"@ + quoted(t) + ",\"environment_hash\":"@ + quoted(
            p.environment_hash@,
        ) + ",\"evidence_hashes\":"@ + string_array(names(p.evidence_hashes@))
            + ",\"mutation_run_hash\":"@ + optional_string(text_of(p.mutation_run_hash))
            + ",\"plan_hash\":"@ + quoted(p.plan_hash@) + ",\"project\":"@ + quoted(p.project@)
            + ",\"schema_version\":"@ + decimal(p.schema_version as nat) + ",\"verdict\":"@ + quoted(
            verdict_text(p.verdict),
        ) + "}"@,
    }
}

/// The canonical hash of a payload.
pub open spec fn payload_hash_text(p: ProofReceiptPayload) -> Seq<char> {
    canonical_hash_text(encode_utf8(payload_json(p)))
}

fn verdict_name(v: ReceiptVerdict) -> (r: &'static str)
    ensures
        r@ == verdict_text(v),
{
    match v {
        ReceiptVerdict::Pass => "pass",
        ReceiptVerdict::Fail => "fail",
        ReceiptVerdict::Inconclusive => "inconclusive",
    }
}

/// The UTF-8 bytes of a payload's canonical JSON.
pub fn payload_canonical_json(p: &ProofReceiptPayload) -> (r: Vec<u8>)
    ensures
        r@ == encode_utf8(payload_json(*p)),
{
    let mut text = String::new();
    match rfc3339_utc(p.created_at) {
        None => append(&mut text, "null"),
        Some(t) => {
            append(&mut text, "{\"baseline_revision\":");
            push_quoted(&mut text, p.baseline_revision.as_str());
            append(&mut text, ",\"candidate_revision\":");
            push_quoted(&mut text, p.candidate_revision.as_str());
            append(&mut text, ",\"contract_hashes\":");
            push_string_array(&mut text, &p.contract_hashes);
            append(&mut text, ",\"created_at\":");
            push_quoted(&mut text, t.as_str());
            append(&mut text, ",\"environment_hash\":");
            push_quoted(&mut text, p.environment_hash.as_str());
            append(&mut text, ",\"evidence_hashes\":");
            push_string_array(&mut text, &p.evidence_hashes);
            append(&mut text, ",\"mutation_run_hash\":");
            push_optional_string(&mut text, &p.mutation_run_hash);
            append(&mut text, ",\"plan_hash\":");
            push_quoted(&mut text, p.plan_hash.as_str());
            append(&mut text, ",\"project\":");
            push_quoted(&mut text, p.project.as_str());
            append(&mut text, ",\"schema_version\":");
            push_decimal(&mut text, p.schema_version as u64);
            append(&mut text, ",\"verdict\":");
            push_quoted(&mut text, verdict_name(p.verdict));
            append(&mut text, "}");
        },
    }
    proof {
        assert(text@ == payload_json(*p));
    }
    text.as_str().as_bytes_vec()
}

impl ProofReceiptPayload {
    /// The payload's canonical hash: `sha256:` and the hexadecimal SHA-256 digest of
    /// its canonical JSON.
    pub fn canonical_hash(&self) -> (r: String)
        ensures
            r@ == payload_hash_text(*self),
            crate::digest::is_sha256_hash_text(r@),
    {
        let bytes = payload_canonical_json(self);
        canonical_hash(bytes.as_slice())
    }
}

/// The bytes a receipt's signature covers: the UTF-8 text of its payload hash.
pub open spec fn signed_message(payload_hash: Seq<char>) -> Seq<u8> {
    vstd::utf8::encode_utf8(payload_hash)
}

/// The signature text of a payload hash under a key.
pub open spec fn signature_text(key: Seq<u8>, payload_hash: Seq<char>) -> Seq<char> {
    hex_text(hmac_sha256_of(key, signed_message(payload_hash)))
}

/// Signs a payload: the receipt carries the payload's canonical hash and the
/// hexadecimal HMAC-SHA256 tag of the hash under the key. A key shorter than 16
/// bytes is refused.
pub fn sign(payload: ProofReceiptPayload, attestor: AttestorKind, key_id: String, key: &[u8]) -> (r:
    Result<ProofReceipt, AttestationError>)
    ensures
        key@.len() < 16 ==> r == Err::<ProofReceipt, AttestationError>(AttestationError::WeakKey),
        key@.len() >= 16 ==> (r matches Ok(receipt) && receipt.payload == payload
            && receipt.payload_hash@ == payload_hash_text(payload) && receipt.attestor == attestor
            && receipt.key_id == key_id && receipt.signature@ == signature_text(
            key@,
            receipt.payload_hash@,
        )),
{
    if key.len() < 16 {
        return Err(AttestationError::WeakKey);
    }
    let payload_hash = payload.canonical_hash();
    let tag = match hmac_sha256(key, payload_hash.as_str().as_bytes()) {
        Ok(tag) => tag,
        Err(_) => {
            return Err(AttestationError::InvalidKey);
        },
    };
    let signature = hex_encode(tag.as_slice());
    Ok(ProofReceipt { payload, payload_hash, attestor, key_id, signature })
}

/// Checks a receipt: false when its payload hash is not its payload's canonical
/// hash (so a receipt whose payload was changed after signing is refused, unless
/// the new payload has the same canonical hash), an error when the signature is
/// not hexadecimal text, else whether the signature is the key's tag of the hash.
pub fn verify(receipt: &ProofReceipt, key: &[u8]) -> (r: Result<bool, AttestationError>)
    ensures
        payload_hash_text(receipt.payload) != receipt.payload_hash@ ==> r == Ok::<
            bool,
            AttestationError,
        >(false),
        payload_hash_text(receipt.payload) == receipt.payload_hash@ && !crate::digest::is_hex_text(
            receipt.signature@,
        ) ==> r == Err::<bool, AttestationError>(AttestationError::InvalidSignatureEncoding),
        payload_hash_text(receipt.payload) == receipt.payload_hash@ && crate::digest::is_hex_text(
            receipt.signature@,
        ) ==> r == Ok::<bool, AttestationError>(
            crate::digest::unhex(receipt.signature@) == hmac_sha256_of(
                key@,
                signed_message(receipt.payload_hash@),
            ),
        ),
{
    let expected = receipt.payload.canonical_hash();
    if expected != receipt.payload_hash {
        return Ok(false);
    }
    let signature = match hex_decode(receipt.signature.as_str()) {
        Ok(bytes) => bytes,
        Err(_) => {
            return Err(AttestationError::InvalidSignatureEncoding);
        },
    };
    match hmac_sha256_verify(key, receipt.payload_hash.as_str().as_bytes(), signature.as_slice()) {
        Ok(valid) => Ok(valid),
        Err(_) => Err(AttestationError::InvalidKey),
    }
}

/// A receipt signed with a key of at least 16 bytes verifies with the same key
/// while its payload is the one it was signed for.
pub proof fn lemma_signed_receipt_verifies(
    payload: ProofReceiptPayload,
    payload_hash: Seq<char>,
    signature: Seq<char>,
    key: Seq<u8>,
)
    requires
        payload_hash == payload_hash_text(payload),
        signature == signature_text(key, payload_hash),
    ensures
        crate::digest::is_hex_text(signature),
        crate::digest::unhex(signature) == hmac_sha256_of(key, signed_message(payload_hash)),
{
    lemma_hex_round_trip(hmac_sha256_of(key, signed_message(payload_hash)));
}

#[derive(Debug, Clone)]
pub struct CurrentRuntimeBinding {
    pub candidate_revision: String,
    pub environment_hash: String,
    pub plan_hash: String,
}

#[derive(Debug, Clone)]
pub struct StalenessReport {
    pub stale: bool,
    pub reasons: Vec<String>,
}

pub open spec fn push_if(s: Seq<Seq<char>>, b: bool, x: Seq<char>) -> Seq<Seq<char>> {
    if b {
        s.push(x)
    } else {
        s
    }
}

/// Why a receipt no longer describes the current runtime: each of the candidate
/// revision, the environment and the plan that changed, in that order.
pub open spec fn stale_reasons(receipt: ProofReceipt, current: CurrentRuntimeBinding) -> Seq<Seq<char>> {
    let r1 = push_if(
        Seq::empty(),
        receipt.payload.candidate_revision@ != current.candidate_revision@,
        "candidate revision changed"@,
    );
    let r2 = push_if(
        r1,
        receipt.payload.environment_hash@ != current.environment_hash@,
        "environment changed"@,
    );
    push_if(r2, receipt.payload.plan_hash@ != current.plan_hash@, "verification plan changed"@)
}

/// A receipt is stale exactly when its candidate revision, environment or plan
/// differs from the current binding, and each difference is named among its
/// reasons.
pub proof fn lemma_stale_reasons_name_every_change(receipt: ProofReceipt, current: CurrentRuntimeBinding)
    ensures
        stale_reasons(receipt, current).len() > 0 <==> (receipt.payload.candidate_revision@
            != current.candidate_revision@ || receipt.payload.environment_hash@
            != current.environment_hash@ || receipt.payload.plan_hash@ != current.plan_hash@),
        receipt.payload.candidate_revision@ != current.candidate_revision@ ==> stale_reasons(
            receipt,
            current,
        ).contains("candidate revision changed"@),
        receipt.payload.environment_hash@ != current.environment_hash@ ==> stale_reasons(
            receipt,
            current,
        ).contains("environment changed"@),
        receipt.payload.plan_hash@ != current.plan_hash@ ==> stale_reasons(receipt, current).contains(
            "verification plan changed"@,
        ),
{
    let c = receipt.payload.candidate_revision@ != current.candidate_revision@;
    let e = receipt.payload.environment_hash@ != current.environment_hash@;
    let p = receipt.payload.plan_hash@ != current.plan_hash@;
    let r1 = push_if(Seq::empty(), c, "candidate revision changed"@);
    let r2 = push_if(r1, e, "environment changed"@);
    let r3 = push_if(r2, p, "verification plan changed"@);
    assert(r1.len() <= r2.len() <= r3.len());
    if c {
        assert(r1[0] == "candidate revision changed"@);
        assert(r2[0] == r1[0]);
        assert(r3[0] == r2[0]);
    }
    if e {
        assert(r2[r2.len() - 1] == "environment changed"@);
        assert(r3[r2.len() - 1] == r2[r2.len() - 1]);
    }
    if p {
        assert(r3[r3.len() - 1] == "verification plan changed"@);
    }
}

pub open spec fn texts(v: Seq<String>) -> Seq<Seq<char>> {
    v.map_values(|s: String| s@)
}

/// Whether a receipt still describes the current runtime, and why not.
pub fn staleness(receipt: &ProofReceipt, current: &CurrentRuntimeBinding) -> (r: StalenessReport)
    ensures
        texts(r.reasons@) == stale_reasons(*receipt, *current),
        r.stale == (r.reasons@.len() > 0),
        r.stale <==> (receipt.payload.candidate_revision@ != current.candidate_revision@
            || receipt.payload.environment_hash@ != current.environment_hash@
            || receipt.payload.plan_hash@ != current.plan_hash@),
        receipt.payload.candidate_revision@ != current.candidate_revision@ ==> texts(
            r.reasons@,
        ).contains("candidate revision changed"@),
        receipt.payload.environment_hash@ != current.environment_hash@ ==> texts(r.reasons@).contains(
            "environment changed"@,
        ),
        receipt.payload.plan_hash@ != current.plan_hash@ ==> texts(r.reasons@).contains(
            "verification plan changed"@,
        ),
{
    let mut reasons: Vec<String> = Vec::new();
    let ghost s0 = texts(reasons@);
    if receipt.payload.candidate_revision != current.candidate_revision {
        reasons.push("candidate revision changed".to_owned());
    }
    let ghost s1 = texts(reasons@);
    proof {
        assert(s1 == push_if(
            Seq::empty(),
            receipt.payload.candidate_revision@ != current.candidate_revision@,
            "candidate revision changed"@,
        ));
    }
    if receipt.payload.environment_hash != current.environment_hash {
        reasons.push("environment changed".to_owned());
    }
    let ghost s2 = texts(reasons@);
    proof {
        assert(s2 == push_if(
            s1,
            receipt.payload.environment_hash@ != current.environment_hash@,
            "environment changed"@,
        ));
    }
    if receipt.payload.plan_hash != current.plan_hash {
        reasons.push("verification plan changed".to_owned());
    }
    proof {
        assert(texts(reasons@) == push_if(
            s2,
            receipt.payload.plan_hash@ != current.plan_hash@,
            "verification plan changed"@,
        ));
    }
    let stale = reasons.len() > 0;
    proof {
        lemma_stale_reasons_name_every_change(*receipt, *current);
    }
    StalenessReport { stale, reasons }
}

#[derive(Debug, Clone)]
pub struct PrEvidenceReceipt {
    pub pull_request: String,
    pub head_revision: String,
    pub receipt_hashes: Vec<String>,
    pub all_pass: bool,
}

/// The evidence of a pull request: the payload hashes of its receipts, in order,
/// and whether there is at least one receipt and every one passed.
pub fn aggregate_pr(pull_request: String, head_revision: String, receipts: &[ProofReceipt]) -> (r:
    PrEvidenceReceipt)
    ensures
        r.pull_request == pull_request,
        r.head_revision == head_revision,
        texts(r.receipt_hashes@) == receipts@.map_values(|rc: ProofReceipt| rc.payload_hash@),
        r.all_pass == (receipts@.len() > 0 && forall|k: int|
            0 <= k < receipts@.len() ==> (#[trigger] receipts@[k]).payload.verdict
                == ReceiptVerdict::Pass),
{
    let mut hashes: Vec<String> = Vec::new();
    let mut all = true;
    let mut i: usize = 0;
    while i < receipts.len()
        invariant
            i <= receipts@.len(),
            texts(hashes@) == receipts@.take(i as int).map_values(
                |rc: ProofReceipt| rc.payload_hash@,
            ),
            all == forall|k: int|
                0 <= k < i ==> (#[trigger] receipts@[k]).payload.verdict == ReceiptVerdict::Pass,
        decreases receipts@.len() - i,
    {
        hashes.push(receipts[i].payload_hash.clone());
        proof {
            assert(receipts@.take(i + 1).map_values(|rc: ProofReceipt| rc.payload_hash@) == receipts@.take(
                i as int,
            ).map_values(|rc: ProofReceipt| rc.payload_hash@).push(receipts@[i as int].payload_hash@));
        }
        if receipts[i].payload.verdict != ReceiptVerdict::Pass {
            all = false;
        }
        i += 1;
    }
    proof {
        assert(receipts@.take(i as int) == receipts@);
    }
    PrEvidenceReceipt {
        pull_request,
        head_revision,
        receipt_hashes: hashes,
        all_pass: receipts.len() > 0 && all,
    }
}

} // verus!

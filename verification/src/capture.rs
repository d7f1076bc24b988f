//! Capture planning and the settle gate that decides when a page is quiet enough
//! to be captured.
use vstd::prelude::*;
use crate::text::eq_lit;
use crate::text::chars_of;

verus! {

/// What a stable capture waits for and freezes.
#[derive(Debug, Clone)]
pub struct StableCapturePolicy {
    pub wait_dom_ready: bool,
    pub wait_fonts: bool,
    pub wait_images: bool,
    pub wait_hmr_settle: bool,
    pub wait_layout_stable: bool,
    pub network_quiet_ms: Option<u64>,
    pub freeze_animation: bool,
    pub freeze_transition: bool,
    pub mask_selectors: Vec<String>,
    pub timeout_ms: u64,
}

/// The selectors masked by default: private, sensitive and credential inputs.
pub open spec fn default_mask_selectors() -> Seq<Seq<char>> {
    seq![
        "[data-localview-private]"@,
        "[data-private]"@,
        "[data-sensitive]"@,
        "input[type=\"password\"]"@,
        "input[autocomplete=\"current-password\"]"@,
        "input[autocomplete=\"new-password\"]"@,
        "input[autocomplete=\"one-time-code\"]"@,
    ]
}

pub open spec fn texts(v: Seq<String>) -> Seq<Seq<char>> {
    v.map_values(|s: String| s@)
}

impl Default for StableCapturePolicy {
    /// Waits for everything, a network quiet period of 250 ms, freezes motion,
    /// masks the private selectors and gives up after five seconds.
    fn default() -> (r: Self)
        ensures
            r.wait_dom_ready && r.wait_fonts && r.wait_images && r.wait_hmr_settle
                && r.wait_layout_stable,
            r.network_quiet_ms == Some(250u64),
            r.freeze_animation && r.freeze_transition,
            texts(r.mask_selectors@) == default_mask_selectors(),
            r.timeout_ms == 5000,
    {
        let mut mask_selectors: Vec<String> = Vec::new();
        mask_selectors.push("[data-localview-private]".to_owned());
        mask_selectors.push("[data-private]".to_owned());
        mask_selectors.push("[data-sensitive]".to_owned());
        mask_selectors.push("input[type=\"password\"]".to_owned());
        mask_selectors.push("input[autocomplete=\"current-password\"]".to_owned());
        mask_selectors.push("input[autocomplete=\"new-password\"]".to_owned());
        mask_selectors.push("input[autocomplete=\"one-time-code\"]".to_owned());
        proof {
            assert(texts(mask_selectors@) == default_mask_selectors());
        }
        StableCapturePolicy {
            wait_dom_ready: true,
            wait_fonts: true,
            wait_images: true,
            wait_hmr_settle: true,
            wait_layout_stable: true,
            network_quiet_ms: Some(250),
            freeze_animation: true,
            freeze_transition: true,
            mask_selectors,
            timeout_ms: 5000,
        }
    }
}

#[derive(Debug, Clone, Copy, PartialEq, Eq, Structural)]
pub enum CaptureStage {
    DomReady,
    FontsReady,
    ImagesReady,
    HmrSettled,
    LayoutStable,
    NetworkQuiet,
    AnimationsFrozen,
    Masked,
    Captured,
    Restored,
}

/// A capture of some target under a policy, as the stages it goes through.
#[derive(Debug, Clone)]
pub struct CapturePlan<T> {
    pub target: T,
    pub policy: StableCapturePolicy,
    pub stages: Vec<CaptureStage>,
}

#[derive(Debug, Clone, Copy, PartialEq, Eq, Structural)]
pub enum SettleReason {
    NoSemanticSnapshot,
    DomNotReady,
    FontsPending,
    ImagesPending,
    HmrRecent,
    DomMutationRecent,
    LayoutRecent,
    NetworkStateUnknown,
    NetworkInflight,
    NetworkRecent,
}

/// What the page last reported, with times in milliseconds since the Unix epoch.
#[derive(Debug, Clone)]
pub struct SettleObservation {
    pub now_unix_ms: i64,
    pub latest_semantic_at_unix_ms: Option<i64>,
    pub ready_state: Option<String>,
    pub fonts_status: Option<String>,
    pub pending_images: Option<u32>,
    pub latest_hmr_at_unix_ms: Option<i64>,
    pub latest_dom_mutation_at_unix_ms: Option<i64>,
    pub latest_layout_at_unix_ms: Option<i64>,
    pub latest_network_at_unix_ms: Option<i64>,
    pub inflight_network_requests: Option<u32>,
}

#[derive(Debug, Clone)]
pub struct SettleDecision {
    pub stable: bool,
    pub reasons: Vec<SettleReason>,
    pub retry_after_ms: u64,
}

pub const HMR_QUIET_MS: u64 = 300;

pub const STRUCTURE_QUIET_MS: u64 = 200;

pub const DEFAULT_RETRY_MS: u64 = 50;

/// Whether an event happened less than `quiet_ms` before `now` (or not before it at
/// all). The elapsed time saturates at `i64::MAX`, and so does the quiet period.
pub open spec fn is_recent(now: i64, event: Option<i64>, quiet_ms: u64) -> bool {
    match event {
        None => false,
        Some(at) => at >= now || {
            let elapsed = if now - at > i64::MAX {
                i64::MAX as int
            } else {
                now - at
            };
            let quiet = if quiet_ms > i64::MAX {
                i64::MAX as int
            } else {
                quiet_ms as int
            };
            elapsed < quiet
        },
    }
}

pub open spec fn text_is(o: Option<String>, lit: Seq<char>) -> bool {
    o matches Some(s) && s@ == lit
}

/// `s` with `x` added at the end when `b` holds.
pub open spec fn push_if<T>(s: Seq<T>, b: bool, x: T) -> Seq<T> {
    if b {
        s.push(x)
    } else {
        s
    }
}

/// The readiness reasons: a missing snapshot alone when one is needed, else each
/// readiness gate that is enabled and not met.
pub open spec fn readiness_reasons(p: StableCapturePolicy, o: SettleObservation) -> Seq<
    SettleReason,
> {
    if (p.wait_dom_ready || p.wait_fonts || p.wait_images) && o.latest_semantic_at_unix_ms is None {
        seq![SettleReason::NoSemanticSnapshot]
    } else {
        let r1 = push_if(
            Seq::empty(),
            p.wait_dom_ready && !text_is(o.ready_state, "complete"@),
            SettleReason::DomNotReady,
        );
        let r2 = push_if(
            r1,
            p.wait_fonts && !text_is(o.fonts_status, "loaded"@) && !text_is(
                o.fonts_status,
                "unsupported"@,
            ),
            SettleReason::FontsPending,
        );
        push_if(r2, p.wait_images && o.pending_images != Some(0u32), SettleReason::ImagesPending)
    }
}

/// The settle reasons: the readiness reasons, then each enabled quiet gate whose
/// last event is recent; with the network gate enabled, an unknown or non-zero
/// count of requests in flight blocks too.
pub open spec fn settle_reasons(p: StableCapturePolicy, o: SettleObservation) -> Seq<SettleReason> {
    let r1 = push_if(
        readiness_reasons(p, o),
        p.wait_hmr_settle && is_recent(o.now_unix_ms, o.latest_hmr_at_unix_ms, HMR_QUIET_MS),
        SettleReason::HmrRecent,
    );
    let r2 = push_if(
        r1,
        p.wait_layout_stable && is_recent(
            o.now_unix_ms,
            o.latest_dom_mutation_at_unix_ms,
            STRUCTURE_QUIET_MS,
        ),
        SettleReason::DomMutationRecent,
    );
    let r3 = push_if(
        r2,
        p.wait_layout_stable && is_recent(
            o.now_unix_ms,
            o.latest_layout_at_unix_ms,
            STRUCTURE_QUIET_MS,
        ),
        SettleReason::LayoutRecent,
    );
    let gate = p.network_quiet_ms is Some;
    let r4 = push_if(
        r3,
        gate && o.inflight_network_requests is None,
        SettleReason::NetworkStateUnknown,
    );
    let r5 = push_if(
        r4,
        gate && (o.inflight_network_requests matches Some(n) && n > 0),
        SettleReason::NetworkInflight,
    );
    push_if(
        r5,
        match p.network_quiet_ms {
            Some(q) => is_recent(o.now_unix_ms, o.latest_network_at_unix_ms, q),
            None => false,
        },
        SettleReason::NetworkRecent,
    )
}

/// What each settle reason means, gate by gate: the snapshot is missing when a
/// readiness gate needs one; each readiness gate (only with a snapshot) blocks
/// when its condition is unmet (`complete` for the DOM, `loaded` or `unsupported`
/// for fonts, no pending image); each quiet gate blocks when its last event is
/// recent; the network gate also blocks on an unknown or non-zero count of
/// requests in flight.
pub open spec fn each_reason_means(p: StableCapturePolicy, o: SettleObservation, reasons: Seq<SettleReason>) -> bool {
    let missing = (p.wait_dom_ready || p.wait_fonts || p.wait_images) && o.latest_semantic_at_unix_ms is None;
    &&& reasons.contains(SettleReason::NoSemanticSnapshot) <==> missing
    &&& reasons.contains(SettleReason::DomNotReady) <==> (!missing && p.wait_dom_ready && !(
    o.ready_state matches Some(s) && s@ == "complete"@))
    &&& reasons.contains(SettleReason::FontsPending) <==> (!missing && p.wait_fonts && !(
    o.fonts_status matches Some(s) && (s@ == "loaded"@ || s@ == "unsupported"@)))
    &&& reasons.contains(SettleReason::ImagesPending) <==> (!missing && p.wait_images
        && o.pending_images != Some(0u32))
    &&& reasons.contains(SettleReason::HmrRecent) <==> (p.wait_hmr_settle && is_recent(
        o.now_unix_ms,
        o.latest_hmr_at_unix_ms,
        HMR_QUIET_MS,
    ))
    &&& reasons.contains(SettleReason::DomMutationRecent) <==> (p.wait_layout_stable && is_recent(
        o.now_unix_ms,
        o.latest_dom_mutation_at_unix_ms,
        STRUCTURE_QUIET_MS,
    ))
    &&& reasons.contains(SettleReason::LayoutRecent) <==> (p.wait_layout_stable && is_recent(
        o.now_unix_ms,
        o.latest_layout_at_unix_ms,
        STRUCTURE_QUIET_MS,
    ))
    &&& reasons.contains(SettleReason::NetworkStateUnknown) <==> (p.network_quiet_ms is Some
        && o.inflight_network_requests is None)
    &&& reasons.contains(SettleReason::NetworkInflight) <==> (p.network_quiet_ms is Some && (
    o.inflight_network_requests matches Some(n) && n > 0))
    &&& reasons.contains(SettleReason::NetworkRecent) <==> (p.network_quiet_ms matches Some(q)
        && is_recent(o.now_unix_ms, o.latest_network_at_unix_ms, q))
}

proof fn lemma_push_if_contains<T>(s: Seq<T>, b: bool, x: T, y: T)
    ensures
        push_if(s, b, x).contains(y) <==> (s.contains(y) || (b && x == y)),
{
    if b {
        let t = s.push(x);
        if s.contains(y) {
            let i = choose|i: int| 0 <= i < s.len() && s[i] == y;
            assert(t[i] == y);
        }
        if t.contains(y) && !(x == y) {
            let i = choose|i: int| 0 <= i < t.len() && t[i] == y;
            assert(i < s.len());
            assert(s[i] == y);
        }
        assert(t[s.len() as int] == x);
    }
}

/// Every settle reason is given exactly when its gate is enabled and unmet; in
/// particular fonts that are `loaded` or `unsupported` never hold a capture back.
pub proof fn lemma_settle_reason_meanings(p: StableCapturePolicy, o: SettleObservation)
    ensures
        each_reason_means(p, o, settle_reasons(p, o)),
{
    let missing = (p.wait_dom_ready || p.wait_fonts || p.wait_images) && o.latest_semantic_at_unix_ms is None;
    let e: Seq<SettleReason> = Seq::empty();
    let dom = p.wait_dom_ready && !text_is(o.ready_state, "complete"@);
    let fonts = p.wait_fonts && !text_is(o.fonts_status, "loaded"@) && !text_is(o.fonts_status, "unsupported"@);
    let images = p.wait_images && o.pending_images != Some(0u32);
    let a1 = push_if(e, dom, SettleReason::DomNotReady);
    let a2 = push_if(a1, fonts, SettleReason::FontsPending);
    let a3 = push_if(a2, images, SettleReason::ImagesPending);
    let rr = readiness_reasons(p, o);
    let hmr = p.wait_hmr_settle && is_recent(o.now_unix_ms, o.latest_hmr_at_unix_ms, HMR_QUIET_MS);
    let dm = p.wait_layout_stable && is_recent(o.now_unix_ms, o.latest_dom_mutation_at_unix_ms, STRUCTURE_QUIET_MS);
    let ly = p.wait_layout_stable && is_recent(o.now_unix_ms, o.latest_layout_at_unix_ms, STRUCTURE_QUIET_MS);
    let gate = p.network_quiet_ms is Some;
    let nu = gate && o.inflight_network_requests is None;
    let ni = gate && (o.inflight_network_requests matches Some(n) && n > 0);
    let nr = match p.network_quiet_ms {
        Some(q) => is_recent(o.now_unix_ms, o.latest_network_at_unix_ms, q),
        None => false,
    };
    let r1 = push_if(rr, hmr, SettleReason::HmrRecent);
    let r2 = push_if(r1, dm, SettleReason::DomMutationRecent);
    let r3 = push_if(r2, ly, SettleReason::LayoutRecent);
    let r4 = push_if(r3, nu, SettleReason::NetworkStateUnknown);
    let r5 = push_if(r4, ni, SettleReason::NetworkInflight);
    let r6 = push_if(r5, nr, SettleReason::NetworkRecent);
    assert(r6 == settle_reasons(p, o));
    assert forall|y: SettleReason| #[trigger] r6.contains(y) <==> (rr.contains(y) || (hmr && y
        == SettleReason::HmrRecent) || (dm && y == SettleReason::DomMutationRecent) || (ly && y
        == SettleReason::LayoutRecent) || (nu && y == SettleReason::NetworkStateUnknown) || (ni && y
        == SettleReason::NetworkInflight) || (nr && y == SettleReason::NetworkRecent)) by {
        lemma_push_if_contains(rr, hmr, SettleReason::HmrRecent, y);
        lemma_push_if_contains(r1, dm, SettleReason::DomMutationRecent, y);
        lemma_push_if_contains(r2, ly, SettleReason::LayoutRecent, y);
        lemma_push_if_contains(r3, nu, SettleReason::NetworkStateUnknown, y);
        lemma_push_if_contains(r4, ni, SettleReason::NetworkInflight, y);
        lemma_push_if_contains(r5, nr, SettleReason::NetworkRecent, y);
    }
    assert forall|y: SettleReason| #[trigger] rr.contains(y) <==> (if missing {
        y == SettleReason::NoSemanticSnapshot
    } else {
        (dom && y == SettleReason::DomNotReady) || (fonts && y == SettleReason::FontsPending) || (images
            && y == SettleReason::ImagesPending)
    }) by {
        if missing {
            assert(rr == seq![SettleReason::NoSemanticSnapshot]);
            if rr.contains(y) {
                let i = choose|i: int| 0 <= i < rr.len() && rr[i] == y;
            }
            if y == SettleReason::NoSemanticSnapshot {
                assert(rr[0] == y);
            }
        } else {
            assert(rr == a3);
            assert(!e.contains(y));
            lemma_push_if_contains(e, dom, SettleReason::DomNotReady, y);
            lemma_push_if_contains(a1, fonts, SettleReason::FontsPending, y);
            lemma_push_if_contains(a2, images, SettleReason::ImagesPending, y);
        }
    }
    assert(r6.contains(SettleReason::NoSemanticSnapshot) <==> rr.contains(SettleReason::NoSemanticSnapshot));
    assert(r6.contains(SettleReason::DomNotReady) <==> rr.contains(SettleReason::DomNotReady));
    assert(r6.contains(SettleReason::FontsPending) <==> rr.contains(SettleReason::FontsPending));
    assert(r6.contains(SettleReason::ImagesPending) <==> rr.contains(SettleReason::ImagesPending));
    assert(r6.contains(SettleReason::HmrRecent) <==> hmr);
    assert(r6.contains(SettleReason::DomMutationRecent) <==> dm);
    assert(r6.contains(SettleReason::LayoutRecent) <==> ly);
    assert(r6.contains(SettleReason::NetworkStateUnknown) <==> nu);
    assert(r6.contains(SettleReason::NetworkInflight) <==> ni);
    assert(r6.contains(SettleReason::NetworkRecent) <==> nr);
}

/// Whether an event is recent enough to hold the capture back.
pub fn recent(now_unix_ms: i64, event_at_unix_ms: Option<i64>, quiet_ms: u64) -> (r: bool)
    ensures
        r == is_recent(now_unix_ms, event_at_unix_ms, quiet_ms),
{
    let event_at = match event_at_unix_ms {
        Some(at) => at,
        None => return false,
    };
    if event_at >= now_unix_ms {
        return true;
    }
    let elapsed: i64 = match now_unix_ms.checked_sub(event_at) {
        Some(d) => d,
        None => i64::MAX,
    };
    let quiet: i64 = if quiet_ms > 9223372036854775807u64 {
        i64::MAX
    } else {
        quiet_ms as i64
    };
    elapsed < quiet
}

fn text_equals(o: &Option<String>, lit: &str) -> (r: bool)
    ensures
        r == text_is(*o, lit@),
{
    match o {
        Some(s) => {
            let v = chars_of(s.as_str());
            eq_lit(v.as_slice(), lit)
        },
        None => false,
    }
}

/// Decides whether the page has settled: stable exactly when no readiness gate is
/// unmet and no enabled quiet period was broken, with every reason that holds, in
/// gate order, and a retry delay of 50 ms.
pub fn evaluate_settle(policy: &StableCapturePolicy, observation: &SettleObservation) -> (r:
    SettleDecision)
    ensures
        r.reasons@ == settle_reasons(*policy, *observation),
        r.stable == (r.reasons@.len() == 0),
        r.retry_after_ms == DEFAULT_RETRY_MS,
        each_reason_means(*policy, *observation, r.reasons@),
{
    proof {
        lemma_settle_reason_meanings(*policy, *observation);
    }
    let mut reasons: Vec<SettleReason> = Vec::new();
    let needs_snapshot = policy.wait_dom_ready || policy.wait_fonts || policy.wait_images;
    if needs_snapshot && observation.latest_semantic_at_unix_ms.is_none() {
        reasons.push(SettleReason::NoSemanticSnapshot);
    } else {
        if policy.wait_dom_ready && !text_equals(&observation.ready_state, "complete") {
            reasons.push(SettleReason::DomNotReady);
        }
        if policy.wait_fonts && !text_equals(&observation.fonts_status, "loaded") && !text_equals(
            &observation.fonts_status,
            "unsupported",
        ) {
            reasons.push(SettleReason::FontsPending);
        }
        if policy.wait_images && observation.pending_images != Some(0u32) {
            reasons.push(SettleReason::ImagesPending);
        }
    }
    proof {
        assert(reasons@ == readiness_reasons(*policy, *observation));
    }
    if policy.wait_hmr_settle && recent(
        observation.now_unix_ms,
        observation.latest_hmr_at_unix_ms,
        HMR_QUIET_MS,
    ) {
        reasons.push(SettleReason::HmrRecent);
    }
    let ghost a1 = reasons@;
    if policy.wait_layout_stable {
        if recent(
            observation.now_unix_ms,
            observation.latest_dom_mutation_at_unix_ms,
            STRUCTURE_QUIET_MS,
        ) {
            reasons.push(SettleReason::DomMutationRecent);
        }
    }
    let ghost a2 = reasons@;
    if policy.wait_layout_stable {
        if recent(observation.now_unix_ms, observation.latest_layout_at_unix_ms, STRUCTURE_QUIET_MS) {
            reasons.push(SettleReason::LayoutRecent);
        }
    }
    let ghost a3 = reasons@;
    let ghost a4 = reasons@;
    if let Some(quiet_ms) = policy.network_quiet_ms {
        match observation.inflight_network_requests {
            None => reasons.push(SettleReason::NetworkStateUnknown),
            Some(n) => {
                if n > 0 {
                    reasons.push(SettleReason::NetworkInflight);
                }
            },
        }
        if recent(observation.now_unix_ms, observation.latest_network_at_unix_ms, quiet_ms) {
            reasons.push(SettleReason::NetworkRecent);
        }
    }
    proof {
        assert(reasons@ == settle_reasons(*policy, *observation));
    }
    let stable = reasons.len() == 0;
    SettleDecision { stable, reasons, retry_after_ms: DEFAULT_RETRY_MS }
}

/// The stages a capture goes through under a policy: each enabled wait in order,
/// the freeze when motion is frozen, masking when there are selectors to mask, then
/// the capture and the restoration.
pub open spec fn plan_stages(p: StableCapturePolicy) -> Seq<CaptureStage> {
    let s1 = push_if(Seq::empty(), p.wait_dom_ready, CaptureStage::DomReady);
    let s2 = push_if(s1, p.wait_fonts, CaptureStage::FontsReady);
    let s3 = push_if(s2, p.wait_images, CaptureStage::ImagesReady);
    let s4 = push_if(s3, p.wait_hmr_settle, CaptureStage::HmrSettled);
    let s5 = push_if(s4, p.wait_layout_stable, CaptureStage::LayoutStable);
    let s6 = push_if(s5, p.network_quiet_ms is Some, CaptureStage::NetworkQuiet);
    let s7 = push_if(s6, p.freeze_animation || p.freeze_transition, CaptureStage::AnimationsFrozen);
    let s8 = push_if(s7, p.mask_selectors@.len() > 0, CaptureStage::Masked);
    s8.push(CaptureStage::Captured).push(CaptureStage::Restored)
}

/// Plans the capture of a target under a policy.
pub fn build_plan<T>(target: T, policy: StableCapturePolicy) -> (r: CapturePlan<T>)
    ensures
        r.target == target,
        r.policy == policy,
        r.stages@ == plan_stages(policy),
{
    let mut stages: Vec<CaptureStage> = Vec::new();
    let ghost p = policy;
    if policy.wait_dom_ready {
        stages.push(CaptureStage::DomReady);
    }
    let ghost s1 = stages@;
    if policy.wait_fonts {
        stages.push(CaptureStage::FontsReady);
    }
    let ghost s2 = stages@;
    if policy.wait_images {
        stages.push(CaptureStage::ImagesReady);
    }
    let ghost s3 = stages@;
    if policy.wait_hmr_settle {
        stages.push(CaptureStage::HmrSettled);
    }
    let ghost s4 = stages@;
    if policy.wait_layout_stable {
        stages.push(CaptureStage::LayoutStable);
    }
    let ghost s5 = stages@;
    if policy.network_quiet_ms.is_some() {
        stages.push(CaptureStage::NetworkQuiet);
    }
    let ghost s6 = stages@;
    if policy.freeze_animation || policy.freeze_transition {
        stages.push(CaptureStage::AnimationsFrozen);
    }
    let ghost s7 = stages@;
    if policy.mask_selectors.len() > 0 {
        stages.push(CaptureStage::Masked);
    }
    stages.push(CaptureStage::Captured);
    stages.push(CaptureStage::Restored);
    proof {
        assert(stages@ == plan_stages(p));
    }
    CapturePlan { target, policy, stages }
}

pub open spec fn gate_enabled(p: StableCapturePolicy, r: SettleReason) -> bool {
    match r {
        SettleReason::NoSemanticSnapshot => p.wait_dom_ready || p.wait_fonts || p.wait_images,
        SettleReason::DomNotReady => p.wait_dom_ready,
        SettleReason::FontsPending => p.wait_fonts,
        SettleReason::ImagesPending => p.wait_images,
        SettleReason::HmrRecent => p.wait_hmr_settle,
        SettleReason::DomMutationRecent => p.wait_layout_stable,
        SettleReason::LayoutRecent => p.wait_layout_stable,
        _ => p.network_quiet_ms is Some,
    }
}

/// The reasons of `s` whose gate `p` enables, in order.
pub open spec fn gated(s: Seq<SettleReason>, p: StableCapturePolicy) -> Seq<SettleReason>
    decreases s.len(),
{
    if s.len() == 0 {
        s
    } else if gate_enabled(p, s.last()) {
        gated(s.drop_last(), p).push(s.last())
    } else {
        gated(s.drop_last(), p)
    }
}

/// `q` waits for no more than `p`: each gate `q` enables, `p` enables too, with the
/// same network quiet period.
pub open spec fn fewer_gates(q: StableCapturePolicy, p: StableCapturePolicy) -> bool {
    &&& q.wait_dom_ready ==> p.wait_dom_ready
    &&& q.wait_fonts ==> p.wait_fonts
    &&& q.wait_images ==> p.wait_images
    &&& q.wait_hmr_settle ==> p.wait_hmr_settle
    &&& q.wait_layout_stable ==> p.wait_layout_stable
    &&& q.network_quiet_ms is Some ==> q.network_quiet_ms == p.network_quiet_ms
}

proof fn lemma_gated_step(
    s: Seq<SettleReason>,
    t: Seq<SettleReason>,
    q: StableCapturePolicy,
    bp: bool,
    bq: bool,
    r: SettleReason,
)
    requires
        t == gated(s, q),
        bq == (bp && gate_enabled(q, r)),
    ensures
        push_if(t, bq, r) == gated(push_if(s, bp, r), q),
{
    if bp {
        assert(s.push(r).drop_last() == s);
    }
}

/// Turning gates off removes exactly their reasons: with a semantic snapshot taken,
/// a policy with fewer gates gives the reasons of the fuller policy that belong to
/// its own gates, in the same order.
pub proof fn lemma_fewer_gates_fewer_reasons(p: StableCapturePolicy, q: StableCapturePolicy, o: SettleObservation)
    requires
        fewer_gates(q, p),
        o.latest_semantic_at_unix_ms is Some,
    ensures
        settle_reasons(q, o) == gated(settle_reasons(p, o), q),
{
    let e = Seq::<SettleReason>::empty();
    let dom = !text_is(o.ready_state, "complete"@);
    let fonts = !text_is(o.fonts_status, "loaded"@) && !text_is(o.fonts_status, "unsupported"@);
    let images = o.pending_images != Some(0u32);
    lemma_gated_step(e, e, q, p.wait_dom_ready && dom, q.wait_dom_ready && dom, SettleReason::DomNotReady);
    let p1 = push_if(e, p.wait_dom_ready && dom, SettleReason::DomNotReady);
    let q1 = push_if(e, q.wait_dom_ready && dom, SettleReason::DomNotReady);
    lemma_gated_step(p1, q1, q, p.wait_fonts && fonts, q.wait_fonts && fonts, SettleReason::FontsPending);
    let p2 = push_if(p1, p.wait_fonts && fonts, SettleReason::FontsPending);
    let q2 = push_if(q1, q.wait_fonts && fonts, SettleReason::FontsPending);
    lemma_gated_step(p2, q2, q, p.wait_images && images, q.wait_images && images, SettleReason::ImagesPending);
    let p3 = readiness_reasons(p, o);
    let q3 = readiness_reasons(q, o);
    let hmr = is_recent(o.now_unix_ms, o.latest_hmr_at_unix_ms, HMR_QUIET_MS);
    lemma_gated_step(p3, q3, q, p.wait_hmr_settle && hmr, q.wait_hmr_settle && hmr, SettleReason::HmrRecent);
    let p4 = push_if(p3, p.wait_hmr_settle && hmr, SettleReason::HmrRecent);
    let q4 = push_if(q3, q.wait_hmr_settle && hmr, SettleReason::HmrRecent);
    let mutation = is_recent(o.now_unix_ms, o.latest_dom_mutation_at_unix_ms, STRUCTURE_QUIET_MS);
    lemma_gated_step(
        p4,
        q4,
        q,
        p.wait_layout_stable && mutation,
        q.wait_layout_stable && mutation,
        SettleReason::DomMutationRecent,
    );
    let p5 = push_if(p4, p.wait_layout_stable && mutation, SettleReason::DomMutationRecent);
    let q5 = push_if(q4, q.wait_layout_stable && mutation, SettleReason::DomMutationRecent);
    let layout = is_recent(o.now_unix_ms, o.latest_layout_at_unix_ms, STRUCTURE_QUIET_MS);
    lemma_gated_step(
        p5,
        q5,
        q,
        p.wait_layout_stable && layout,
        q.wait_layout_stable && layout,
        SettleReason::LayoutRecent,
    );
    let p6 = push_if(p5, p.wait_layout_stable && layout, SettleReason::LayoutRecent);
    let q6 = push_if(q5, q.wait_layout_stable && layout, SettleReason::LayoutRecent);
    let gp = p.network_quiet_ms is Some;
    let gq = q.network_quiet_ms is Some;
    let unknown = o.inflight_network_requests is None;
    lemma_gated_step(p6, q6, q, gp && unknown, gq && unknown, SettleReason::NetworkStateUnknown);
    let p7 = push_if(p6, gp && unknown, SettleReason::NetworkStateUnknown);
    let q7 = push_if(q6, gq && unknown, SettleReason::NetworkStateUnknown);
    let inflight = o.inflight_network_requests matches Some(n) && n > 0;
    lemma_gated_step(p7, q7, q, gp && inflight, gq && inflight, SettleReason::NetworkInflight);
    let p8 = push_if(p7, gp && inflight, SettleReason::NetworkInflight);
    let q8 = push_if(q7, gq && inflight, SettleReason::NetworkInflight);
    let np = match p.network_quiet_ms {
        Some(w) => is_recent(o.now_unix_ms, o.latest_network_at_unix_ms, w),
        None => false,
    };
    let nq = match q.network_quiet_ms {
        Some(w) => is_recent(o.now_unix_ms, o.latest_network_at_unix_ms, w),
        None => false,
    };
    lemma_gated_step(p8, q8, q, np, nq, SettleReason::NetworkRecent);
}
} // verus!

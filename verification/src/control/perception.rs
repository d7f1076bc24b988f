//! Planning a live perception step: the signals read from a live diagnosis, the
//! candidate actions they call for, and what an engine must offer for an action.
use vstd::prelude::*;
use crate::evidence::EvidenceKind;

verus! {

/// The class of an open question of a live diagnosis, as the planner reads it.
#[derive(Debug, Clone, Copy, PartialEq, Eq, Structural)]
pub enum UnknownClass {
    State,
    Visual,
    Cause,
    Other,
}

/// A finding of a live diagnosis: its severity and its confidence in percent.
#[derive(Debug, Clone, Copy, PartialEq, Eq, Structural)]
pub struct Finding {
    pub severity: u8,
    pub confidence: u8,
}

/// What the planner reads of a live diagnosis.
#[derive(Debug, Clone)]
pub struct DiagnosisFacts {
    pub unknowns: Vec<UnknownClass>,
    pub findings: Vec<Finding>,
    pub has_network: bool,
    pub has_console: bool,
}

/// The signals that steer a perception cycle.
#[derive(Debug, Clone, Copy, PartialEq, Eq, Structural)]
pub struct PerceptionCycleSignals {
    pub critical_issue: bool,
    pub explicit_deep_mode: bool,
    pub insufficient_evidence: bool,
    pub browser_specific_suspicion: bool,
}

#[derive(Debug, Clone, Copy, PartialEq, Eq, Structural)]
pub enum PerceptionActionKind {
    SemanticSnapshot,
    ElementInspect,
    RegionCapture,
    ViewportCapture,
    ResponsiveSweep,
    ConsoleRead,
    NetworkRead,
    InteractionReplay,
    AccessibilityScan,
    PerformanceSample,
    ChromiumEscalation,
}

/// What an action is expected to cost.
#[derive(Debug, Clone, Copy, PartialEq, Eq, Structural)]
pub struct PerceptionBudgetUsage {
    pub latency_ms: u64,
    pub text_tokens: u64,
    pub image_regions: u64,
    pub chromium_spawns: u64,
}

/// A candidate action of a perception cycle. The expected uncertainty reduction
/// and risk relevance are given in hundredths.
#[derive(Debug, Clone)]
pub struct PerceptionCandidate {
    pub id: String,
    pub kind: PerceptionActionKind,
    pub target: Option<String>,
    pub expected_evidence: Vec<EvidenceKind>,
    pub uncertainty_reduction_hundredths: u32,
    pub risk_relevance_hundredths: u32,
    pub estimated_cpu_ms: u64,
    pub estimated_tokens: usize,
    pub estimated_capture_bytes: usize,
    pub estimated_usage: PerceptionBudgetUsage,
}

/// A candidate action, as a value of the specification.
pub struct CandidateView {
    pub id: Seq<char>,
    pub kind: PerceptionActionKind,
    pub target: Option<Seq<char>>,
    pub expected_evidence: Seq<EvidenceKind>,
    pub uncertainty_reduction_hundredths: u32,
    pub risk_relevance_hundredths: u32,
    pub estimated_cpu_ms: u64,
    pub estimated_tokens: usize,
    pub estimated_capture_bytes: usize,
    pub estimated_usage: PerceptionBudgetUsage,
}

impl View for PerceptionCandidate {
    type V = CandidateView;

    open spec fn view(&self) -> CandidateView {
        CandidateView {
            id: self.id@,
            kind: self.kind,
            target: match self.target {
                Some(t) => Some(t@),
                None => None,
            },
            expected_evidence: self.expected_evidence@,
            uncertainty_reduction_hundredths: self.uncertainty_reduction_hundredths,
            risk_relevance_hundredths: self.risk_relevance_hundredths,
            estimated_cpu_ms: self.estimated_cpu_ms,
            estimated_tokens: self.estimated_tokens,
            estimated_capture_bytes: self.estimated_capture_bytes,
            estimated_usage: self.estimated_usage,
        }
    }
}

pub open spec fn has_unknown_class(unknowns: Seq<UnknownClass>, class: UnknownClass) -> bool {
    exists|i: int| 0 <= i < unknowns.len() && unknowns[i] == class
}

/// Whether a diagnosis leaves an open question of a class.
pub fn has_unknown(unknowns: &Vec<UnknownClass>, class: UnknownClass) -> (r: bool)
    ensures
        r == has_unknown_class(unknowns@, class),
{
    let mut i: usize = 0;
    while i < unknowns.len()
        invariant
            i <= unknowns@.len(),
            forall|j: int| 0 <= j < i ==> unknowns@[j] != class,
        decreases unknowns@.len() - i,
    {
        if unknowns[i] == class {
            return true;
        }
        i += 1;
    }
    false
}

/// The signals of a diagnosis: a critical issue is a finding of severity at least
/// 3 held with at least 80% confidence; evidence is insufficient while an open
/// question remains that a satisfied visual check does not close; a browser
/// specific suspicion needs a compatibility request, no open state or visual
/// question, and no current compatibility evidence.
pub open spec fn signals_of(
    unknowns: Seq<UnknownClass>,
    findings: Seq<Finding>,
    deep_mode: bool,
    compatibility_requested: bool,
    visual_satisfied: bool,
    chromium_satisfied: bool,
) -> PerceptionCycleSignals {
    let state_unknown = has_unknown_class(unknowns, UnknownClass::State);
    let visual_unknown = has_unknown_class(unknowns, UnknownClass::Visual) && !visual_satisfied;
    PerceptionCycleSignals {
        critical_issue: exists|i: int|
            0 <= i < findings.len() && findings[i].severity >= 3 && findings[i].confidence >= 80,
        explicit_deep_mode: deep_mode,
        insufficient_evidence: exists|i: int|
            0 <= i < unknowns.len() && !(visual_satisfied && unknowns[i] == UnknownClass::Visual),
        browser_specific_suspicion: compatibility_requested && !state_unknown && !visual_unknown
            && !chromium_satisfied,
    }
}

/// The signals that steer a perception cycle.
pub fn derive_signals(
    diagnosis: &DiagnosisFacts,
    deep_mode: bool,
    compatibility_requested: bool,
    visual_satisfied: bool,
    chromium_satisfied: bool,
) -> (r: PerceptionCycleSignals)
    ensures
        r == signals_of(
            diagnosis.unknowns@,
            diagnosis.findings@,
            deep_mode,
            compatibility_requested,
            visual_satisfied,
            chromium_satisfied,
        ),
{
    let state_unknown = has_unknown(&diagnosis.unknowns, UnknownClass::State);
    let visual_unknown = has_unknown(&diagnosis.unknowns, UnknownClass::Visual) && !visual_satisfied;
    let mut critical_issue = false;
    let mut i: usize = 0;
    while i < diagnosis.findings.len()
        invariant
            i <= diagnosis.findings@.len(),
            critical_issue == exists|j: int|
                0 <= j < i && diagnosis.findings@[j].severity >= 3
                    && diagnosis.findings@[j].confidence >= 80,
        decreases diagnosis.findings@.len() - i,
    {
        let f = diagnosis.findings[i];
        if f.severity >= 3 && f.confidence >= 80 {
            critical_issue = true;
        }
        i += 1;
    }
    let mut insufficient_evidence = false;
    let mut k: usize = 0;
    while k < diagnosis.unknowns.len()
        invariant
            k <= diagnosis.unknowns@.len(),
            insufficient_evidence == exists|j: int|
                0 <= j < k && !(visual_satisfied && diagnosis.unknowns@[j] == UnknownClass::Visual),
        decreases diagnosis.unknowns@.len() - k,
    {
        let u = diagnosis.unknowns[k];
        if !(visual_satisfied && u == UnknownClass::Visual) {
            insufficient_evidence = true;
        }
        proof {
            assert(u == diagnosis.unknowns@[k as int]);
        }
        k += 1;
    }
    PerceptionCycleSignals {
        critical_issue,
        explicit_deep_mode: deep_mode,
        insufficient_evidence,
        browser_specific_suspicion: compatibility_requested && !state_unknown && !visual_unknown
            && !chromium_satisfied,
    }
}

pub open spec fn usage(latency_ms: u64, text_tokens: u64, image_regions: u64, chromium_spawns: u64) -> PerceptionBudgetUsage {
    PerceptionBudgetUsage { latency_ms, text_tokens, image_regions, chromium_spawns }
}

/// A semantic snapshot of the current state.
pub open spec fn semantic_candidate(target: Option<Seq<char>>) -> CandidateView {
    CandidateView {
        id: "semantic-current-state"@,
        kind: PerceptionActionKind::SemanticSnapshot,
        target,
        expected_evidence: seq![EvidenceKind::Semantic],
        uncertainty_reduction_hundredths: 100,
        risk_relevance_hundredths: 100,
        estimated_cpu_ms: 20,
        estimated_tokens: 120,
        estimated_capture_bytes: 0,
        estimated_usage: usage(120, 120, 0, 0),
    }
}

/// A capture of the target's region.
pub open spec fn visual_candidate(target: Option<Seq<char>>) -> CandidateView {
    CandidateView {
        id: "visual-target-region"@,
        kind: PerceptionActionKind::RegionCapture,
        target,
        expected_evidence: seq![EvidenceKind::Visual],
        uncertainty_reduction_hundredths: 55,
        risk_relevance_hundredths: 80,
        estimated_cpu_ms: 60,
        estimated_tokens: 160,
        estimated_capture_bytes: 65536,
        estimated_usage: usage(300, 180, 1, 0),
    }
}

/// A read of the network trace for a cause.
pub open spec fn network_candidate(target: Option<Seq<char>>) -> CandidateView {
    CandidateView {
        id: "network-cause-trace"@,
        kind: PerceptionActionKind::NetworkRead,
        target,
        expected_evidence: seq![EvidenceKind::Network, EvidenceKind::Causal],
        uncertainty_reduction_hundredths: 80,
        risk_relevance_hundredths: 95,
        estimated_cpu_ms: 30,
        estimated_tokens: 180,
        estimated_capture_bytes: 0,
        estimated_usage: usage(160, 220, 0, 0),
    }
}

/// A read of the console trace for a cause.
pub open spec fn console_candidate(target: Option<Seq<char>>) -> CandidateView {
    CandidateView {
        id: "console-cause-trace"@,
        kind: PerceptionActionKind::ConsoleRead,
        target,
        expected_evidence: seq![EvidenceKind::Console, EvidenceKind::Causal],
        uncertainty_reduction_hundredths: 80,
        risk_relevance_hundredths: 95,
        estimated_cpu_ms: 20,
        estimated_tokens: 160,
        estimated_capture_bytes: 0,
        estimated_usage: usage(120, 180, 0, 0),
    }
}

/// A compatibility check in Chromium.
pub open spec fn chromium_candidate(target: Option<Seq<char>>) -> CandidateView {
    CandidateView {
        id: "chromium-compatibility-check"@,
        kind: PerceptionActionKind::ChromiumEscalation,
        target,
        expected_evidence: seq![EvidenceKind::Contract],
        uncertainty_reduction_hundredths: 100,
        risk_relevance_hundredths: 100,
        estimated_cpu_ms: 20,
        estimated_tokens: 100,
        estimated_capture_bytes: 0,
        estimated_usage: usage(500, 200, 0, 0),
    }
}

pub open spec fn when(b: bool, c: CandidateView) -> Seq<CandidateView> {
    if b {
        seq![c]
    } else {
        Seq::empty()
    }
}

/// The candidate actions, in this order: a semantic snapshot while the state is
/// open; a region capture while the visual question is open and not satisfied; a
/// network and then a console trace while the cause is open and such a trace
/// exists; a Chromium check under a browser specific suspicion.
pub open spec fn candidates_of(
    unknowns: Seq<UnknownClass>,
    has_network: bool,
    has_console: bool,
    signals: PerceptionCycleSignals,
    target: Option<Seq<char>>,
    visual_satisfied: bool,
) -> Seq<CandidateView> {
    let cause = has_unknown_class(unknowns, UnknownClass::Cause);
    when(has_unknown_class(unknowns, UnknownClass::State), semantic_candidate(target))
        + when(
        has_unknown_class(unknowns, UnknownClass::Visual) && !visual_satisfied,
        visual_candidate(target),
    ) + when(cause && has_network, network_candidate(target)) + when(
        cause && has_console,
        console_candidate(target),
    ) + when(signals.browser_specific_suspicion, chromium_candidate(target))
}

pub open spec fn candidate_views(v: Seq<PerceptionCandidate>) -> Seq<CandidateView> {
    v.map_values(|c: PerceptionCandidate| c@)
}

pub open spec fn opt_str(o: Option<&str>) -> Option<Seq<char>> {
    match o {
        Some(s) => Some(s@),
        None => None,
    }
}

fn owned_target(target: Option<&str>) -> (r: Option<String>)
    ensures
        match r {
            Some(s) => opt_str(target) == Some(s@),
            None => target is None,
        },
{
    match target {
        Some(t) => Some(t.to_owned()),
        None => None,
    }
}

fn push_candidate(
    out: &mut Vec<PerceptionCandidate>,
    id: &str,
    kind: PerceptionActionKind,
    target: Option<&str>,
    expected_evidence: Vec<EvidenceKind>,
    reduction: u32,
    relevance: u32,
    cpu: u64,
    tokens: usize,
    capture: usize,
    estimated_usage: PerceptionBudgetUsage,
)
    ensures
        candidate_views(final(out)@) == candidate_views(old(out)@).push(
            CandidateView {
                id: id@,
                kind,
                target: opt_str(target),
                expected_evidence: expected_evidence@,
                uncertainty_reduction_hundredths: reduction,
                risk_relevance_hundredths: relevance,
                estimated_cpu_ms: cpu,
                estimated_tokens: tokens,
                estimated_capture_bytes: capture,
                estimated_usage,
            },
        ),
{
    let c = PerceptionCandidate {
        id: id.to_owned(),
        kind,
        target: owned_target(target),
        expected_evidence,
        uncertainty_reduction_hundredths: reduction,
        risk_relevance_hundredths: relevance,
        estimated_cpu_ms: cpu,
        estimated_tokens: tokens,
        estimated_capture_bytes: capture,
        estimated_usage,
    };
    let ghost before = out@;
    out.push(c);
    proof {
        assert(candidate_views(out@) =~= candidate_views(before).push(c@));
    }
}

fn evidence_of(kind: EvidenceKind) -> (r: Vec<EvidenceKind>)
    ensures
        r@ == seq![kind],
{
    let mut v: Vec<EvidenceKind> = Vec::new();
    v.push(kind);
    v
}

/// The candidate actions that a diagnosis calls for.
pub fn derive_candidates(
    diagnosis: &DiagnosisFacts,
    signals: &PerceptionCycleSignals,
    target: Option<&str>,
    visual_satisfied: bool,
) -> (r: Vec<PerceptionCandidate>)
    ensures
        candidate_views(r@) == candidates_of(
            diagnosis.unknowns@,
            diagnosis.has_network,
            diagnosis.has_console,
            *signals,
            opt_str(target),
            visual_satisfied,
        ),
{
    let mut out: Vec<PerceptionCandidate> = Vec::new();
    let state_unknown = has_unknown(&diagnosis.unknowns, UnknownClass::State);
    let visual_unknown = has_unknown(&diagnosis.unknowns, UnknownClass::Visual) && !visual_satisfied;
    let cause_unknown = has_unknown(&diagnosis.unknowns, UnknownClass::Cause);
    let ghost t = opt_str(target);
    proof {
        assert(candidate_views(out@) =~= Seq::<CandidateView>::empty());
    }
    let ghost step0 = candidate_views(out@);
    if state_unknown {
        push_candidate(
            &mut out,
            "semantic-current-state",
            PerceptionActionKind::SemanticSnapshot,
            target,
            evidence_of(EvidenceKind::Semantic),
            100,
            100,
            20,
            120,
            0,
            PerceptionBudgetUsage { latency_ms: 120, text_tokens: 120, image_regions: 0, chromium_spawns: 0 },
        );
    }
    let ghost step1 = candidate_views(out@);
    assert(step1 =~= step0 + when(state_unknown, semantic_candidate(t)));
    if visual_unknown {
        push_candidate(
            &mut out,
            "visual-target-region",
            PerceptionActionKind::RegionCapture,
            target,
            evidence_of(EvidenceKind::Visual),
            55,
            80,
            60,
            160,
            65536,
            PerceptionBudgetUsage { latency_ms: 300, text_tokens: 180, image_regions: 1, chromium_spawns: 0 },
        );
    }
    let ghost step2 = candidate_views(out@);
    assert(step2 =~= step1 + when(visual_unknown, visual_candidate(t)));
    if cause_unknown && diagnosis.has_network {
        push_candidate(
            &mut out,
            "network-cause-trace",
            PerceptionActionKind::NetworkRead,
            target,
            vec![EvidenceKind::Network, EvidenceKind::Causal],
            80,
            95,
            30,
            180,
            0,
            PerceptionBudgetUsage { latency_ms: 160, text_tokens: 220, image_regions: 0, chromium_spawns: 0 },
        );
    }
    let ghost step3 = candidate_views(out@);
    assert(step3 =~= step2 + when(cause_unknown && diagnosis.has_network, network_candidate(t)));
    if cause_unknown && diagnosis.has_console {
        push_candidate(
            &mut out,
            "console-cause-trace",
            PerceptionActionKind::ConsoleRead,
            target,
            vec![EvidenceKind::Console, EvidenceKind::Causal],
            80,
            95,
            20,
            160,
            0,
            PerceptionBudgetUsage { latency_ms: 120, text_tokens: 180, image_regions: 0, chromium_spawns: 0 },
        );
    }
    let ghost step4 = candidate_views(out@);
    assert(step4 =~= step3 + when(cause_unknown && diagnosis.has_console, console_candidate(t)));
    if signals.browser_specific_suspicion {
        push_candidate(
            &mut out,
            "chromium-compatibility-check",
            PerceptionActionKind::ChromiumEscalation,
            target,
            evidence_of(EvidenceKind::Contract),
            100,
            100,
            20,
            100,
            0,
            PerceptionBudgetUsage { latency_ms: 500, text_tokens: 200, image_regions: 0, chromium_spawns: 0 },
        );
    }
    let ghost step5 = candidate_views(out@);
    assert(step5 =~= step4 + when(signals.browser_specific_suspicion, chromium_candidate(t)));
    out
}

/// What an engine must offer to run an action.
#[derive(Debug, Clone, Copy, PartialEq, Eq, Structural)]
pub struct EngineNeeds {
    pub javascript: bool,
    pub screenshot: bool,
    pub interaction: bool,
    pub chrome_compatibility: bool,
}

pub open spec fn needs_of(kind: PerceptionActionKind) -> EngineNeeds {
    let none = EngineNeeds { javascript: false, screenshot: false, interaction: false, chrome_compatibility: false };
    match kind {
        PerceptionActionKind::ChromiumEscalation => EngineNeeds { chrome_compatibility: true, ..none },
        PerceptionActionKind::RegionCapture
        | PerceptionActionKind::ViewportCapture
        | PerceptionActionKind::ResponsiveSweep => EngineNeeds { screenshot: true, ..none },
        PerceptionActionKind::InteractionReplay => EngineNeeds { interaction: true, ..none },
        _ => EngineNeeds { javascript: true, ..none },
    }
}

/// What an engine must offer to run an action: Chromium compatibility for an
/// escalation, screenshots for captures and sweeps, interaction for a replay, and
/// JavaScript for every read.
pub fn engine_needs(kind: PerceptionActionKind) -> (r: EngineNeeds)
    ensures
        r == needs_of(kind),
{
    let none = EngineNeeds { javascript: false, screenshot: false, interaction: false, chrome_compatibility: false };
    match kind {
        PerceptionActionKind::ChromiumEscalation => EngineNeeds { chrome_compatibility: true, ..none },
        PerceptionActionKind::RegionCapture
        | PerceptionActionKind::ViewportCapture
        | PerceptionActionKind::ResponsiveSweep => EngineNeeds { screenshot: true, ..none },
        PerceptionActionKind::InteractionReplay => EngineNeeds { interaction: true, ..none },
        PerceptionActionKind::SemanticSnapshot
        | PerceptionActionKind::ElementInspect
        | PerceptionActionKind::ConsoleRead
        | PerceptionActionKind::NetworkRead
        | PerceptionActionKind::AccessibilityScan
        | PerceptionActionKind::PerformanceSample => EngineNeeds { javascript: true, ..none },
    }
}

} // verus!

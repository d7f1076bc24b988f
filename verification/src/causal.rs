//! Causal entities, hypotheses about runtime changes, and the targeted plans that
//! verify them.
use vstd::prelude::*;
use crate::content_addressed::{hashes, sorted_unique, sorted_set_of, strictly_sorted};
use crate::text::{push_char, seq_lt};

verus! {

#[derive(Debug, Clone, Copy, PartialEq, Eq, Structural)]
pub enum CausalEntityKind {
    Source,
    Component,
    Region,
    Element,
    StyleToken,
    Asset,
    Route,
    Request,
    Service,
    RuntimeState,
    ConsoleIssue,
    VisualResult,
    Contract,
}

#[derive(Debug, Clone)]
pub struct CausalNode {
    pub id: String,
    pub kind: CausalEntityKind,
    pub label: String,
}

#[derive(Debug, Clone, Copy, PartialEq, Eq, Structural)]
pub enum CausalRelation {
    Renders,
    Styles,
    Imports,
    Requests,
    Triggers,
    DependsOn,
    Produces,
    Changes,
    MapsTo,
    DerivedFrom,
}

#[derive(Debug, Clone, Copy, PartialEq, Eq, Structural)]
pub enum HypothesisStatus {
    Unverified,
    Supported,
    Falsified,
    Inconclusive,
}

/// The status evidence gives a hypothesis: supported only by support without
/// contradiction, falsified only by contradiction without support, inconclusive
/// with both and unverified with neither.
pub fn hypothesis_status(has_support: bool, has_contradiction: bool) -> (r: HypothesisStatus)
    ensures
        r == (if has_support && !has_contradiction {
            HypothesisStatus::Supported
        } else if !has_support && has_contradiction {
            HypothesisStatus::Falsified
        } else if has_support && has_contradiction {
            HypothesisStatus::Inconclusive
        } else {
            HypothesisStatus::Unverified
        }),
{
    match (has_support, has_contradiction) {
        (true, false) => HypothesisStatus::Supported,
        (false, true) => HypothesisStatus::Falsified,
        (true, true) => HypothesisStatus::Inconclusive,
        (false, false) => HypothesisStatus::Unverified,
    }
}

#[derive(Debug, Clone, Copy, PartialEq, Eq, Structural)]
pub enum VerificationAction {
    Capture,
    SemanticSnapshot,
    ResponsiveSweep,
    Replay,
    NetworkCheck,
    ConsoleCheck,
    AccessibilityCheck,
    PerformanceCheck,
    ContractCheck,
}

#[derive(Debug, Clone)]
pub struct VerificationStep {
    pub id: String,
    pub action: VerificationAction,
    pub target: Option<String>,
    pub expected_evidence: Vec<String>,
}

#[derive(Debug, Clone)]
pub struct VerificationBudget {
    pub max_steps: usize,
    pub max_capture_regions: usize,
    pub allow_chromium_escalation: bool,
}

#[derive(Debug, Clone)]
pub struct VerificationPlan {
    pub hypothesis_id: String,
    pub steps: Vec<VerificationStep>,
    pub budget: VerificationBudget,
}

#[derive(Debug, Clone, Copy, PartialEq, Eq, Structural)]
pub enum ProofVerdict {
    Pass,
    Fail,
    Inconclusive,
    Stale,
}

/// A proof's result, portable when it names both revisions, its plan and evidence.
#[derive(Debug, Clone)]
pub struct ProofCapsule {
    pub baseline_revision: String,
    pub candidate_revision: String,
    pub plan_id: String,
    pub evidence_ids: Vec<String>,
    pub verdict: ProofVerdict,
    pub reasons: Vec<String>,
}

impl ProofCapsule {
    /// Whether the capsule names both revisions, its plan and some evidence.
    pub fn is_portable(&self) -> (r: bool)
        ensures
            r == (self.baseline_revision@.len() > 0 && self.candidate_revision@.len() > 0
                && self.plan_id@.len() > 0 && self.evidence_ids@.len() > 0),
    {
        !self.baseline_revision.as_str().is_empty() && !self.candidate_revision.as_str().is_empty()
            && !self.plan_id.as_str().is_empty() && self.evidence_ids.len() > 0
    }
}

/// The most regions a targeted plan captures.
pub const MAX_CAPTURE_REGIONS: usize = 8;

/// The most steps a targeted plan's budget allows.
pub const MAX_PLAN_STEPS: usize = 12;

pub open spec fn texts(v: Seq<String>) -> Seq<Seq<char>> {
    v.map_values(|s: String| s@)
}

/// The id of the capture step of the region at `index` (below ten).
pub open spec fn region_step_id(index: int) -> Seq<char> {
    "region-"@.push(((index + 48) as u8) as char)
}

/// `t` holds the first regions, in order, of the sorted set of `all`: at most
/// eight, and every region left out comes after all of them.
pub open spec fn first_regions(t: Seq<Seq<char>>, all: Seq<Seq<char>>) -> bool {
    &&& strictly_sorted(t)
    &&& t.len() <= MAX_CAPTURE_REGIONS
    &&& forall|x: Seq<char>| t.contains(x) ==> all.contains(x)
    &&& forall|x: Seq<char>|
        all.contains(x) ==> t.contains(x) || (t.len() == MAX_CAPTURE_REGIONS && forall|k: int|
            0 <= k < t.len() ==> seq_lt(#[trigger] t[k], x))
}

pub open spec fn step_is(
    s: VerificationStep,
    id: Seq<char>,
    action: VerificationAction,
    target: Option<Seq<char>>,
    expected: Seq<Seq<char>>,
) -> bool {
    &&& s.id@ == id
    &&& s.action == action
    &&& (match s.target {
        Some(t) => target == Some(t@),
        None => target is None,
    })
    &&& texts(s.expected_evidence@) == expected
}

fn text_vec1(a: &str) -> (r: Vec<String>)
    ensures
        texts(r@) == seq![a@],
{
    let mut v: Vec<String> = Vec::new();
    v.push(a.to_owned());
    proof {
        assert(texts(v@) == seq![a@]);
    }
    v
}

fn region_id(index: usize) -> (r: String)
    requires
        index < 10,
    ensures
        r@ == region_step_id(index as int),
{
    let mut s = "region-".to_owned();
    push_char(&mut s, ((index + 48) as u8) as char);
    s
}

/// A plan that verifies a hypothesis: a semantic snapshot, a capture of each of
/// the first eight regions (in order) among the confidently impacted ones and the
/// predicted effects, and a console check. `confident_impacts` are the ids of the
/// impacts whose confidence reaches the plan's threshold.
pub fn targeted_plan(
    hypothesis_id: &String,
    predicted_effects: &Vec<String>,
    confident_impacts: &Vec<String>,
) -> (r: VerificationPlan)
    ensures
        r.hypothesis_id@ == hypothesis_id@,
        r.steps@.len() >= 2,
        ({
            let n = (r.steps@.len() - 2) as int;
            let t = Seq::new(n as nat, |k: int| r.steps@[k + 1].target->0@);
            &&& first_regions(t, texts(confident_impacts@) + texts(predicted_effects@))
            &&& forall|k: int|
                0 <= k < n ==> step_is(
                    #[trigger] r.steps@[k + 1],
                    region_step_id(k),
                    VerificationAction::Capture,
                    Some(t[k]),
                    seq!["visual_delta"@, "layout_delta"@],
                )
        }),
        step_is(
            r.steps@[0],
            "semantic"@,
            VerificationAction::SemanticSnapshot,
            None,
            seq!["state_delta"@],
        ),
        step_is(
            r.steps@.last(),
            "runtime"@,
            VerificationAction::ConsoleCheck,
            None,
            seq!["console_delta"@],
        ),
        r.budget.max_steps == if r.steps@.len() < MAX_PLAN_STEPS {
            r.steps@.len()
        } else {
            MAX_PLAN_STEPS as nat
        },
        r.budget.max_capture_regions == MAX_CAPTURE_REGIONS,
        !r.budget.allow_chromium_escalation,
{
    let mut all: Vec<String> = Vec::new();
    let mut i: usize = 0;
    while i < confident_impacts.len()
        invariant
            i <= confident_impacts@.len(),
            texts(all@) == texts(confident_impacts@.take(i as int)),
        decreases confident_impacts@.len() - i,
    {
        let ghost before = texts(all@);
        all.push(confident_impacts[i].clone());
        proof {
            assert(texts(all@) == before.push(confident_impacts@[i as int]@));
            assert(texts(confident_impacts@.take(i + 1)) == texts(confident_impacts@.take(i as int)).push(
                confident_impacts@[i as int]@,
            ));
        }
        i += 1;
    }
    let mut j: usize = 0;
    proof {
        assert(confident_impacts@.take(i as int) == confident_impacts@);
        assert(texts(all@) == texts(confident_impacts@) + texts(predicted_effects@.take(0)));
    }
    while j < predicted_effects.len()
        invariant
            j <= predicted_effects@.len(),
            texts(all@) == texts(confident_impacts@) + texts(predicted_effects@.take(j as int)),
        decreases predicted_effects@.len() - j,
    {
        let ghost before = texts(all@);
        all.push(predicted_effects[j].clone());
        proof {
            let x = predicted_effects@[j as int]@;
            assert(texts(all@) == before.push(x));
            assert(texts(predicted_effects@.take(j + 1)) == texts(predicted_effects@.take(j as int)).push(
                x,
            ));
            assert(texts(confident_impacts@) + texts(predicted_effects@.take(j + 1)) == (texts(
                confident_impacts@,
            ) + texts(predicted_effects@.take(j as int))).push(x));
        }
        j += 1;
    }
    proof {
        assert(predicted_effects@.take(j as int) == predicted_effects@);
    }
    let regions = sorted_unique(&all);
    let ghost whole = texts(confident_impacts@) + texts(predicted_effects@);
    let ghost sorted = hashes(regions@);
    let take = if regions.len() < MAX_CAPTURE_REGIONS {
        regions.len()
    } else {
        MAX_CAPTURE_REGIONS
    };
    let mut steps: Vec<VerificationStep> = Vec::new();
    steps.push(
        VerificationStep {
            id: "semantic".to_owned(),
            action: VerificationAction::SemanticSnapshot,
            target: None,
            expected_evidence: text_vec1("state_delta"),
        },
    );
    let mut k: usize = 0;
    while k < take
        invariant
            take <= regions@.len(),
            take <= MAX_CAPTURE_REGIONS,
            k <= take,
            steps@.len() == k + 1,
            sorted == hashes(regions@),
            step_is(
                steps@[0],
                "semantic"@,
                VerificationAction::SemanticSnapshot,
                None,
                seq!["state_delta"@],
            ),
            forall|m: int|
                0 <= m < k ==> step_is(
                    #[trigger] steps@[m + 1],
                    region_step_id(m),
                    VerificationAction::Capture,
                    Some(sorted[m]),
                    seq!["visual_delta"@, "layout_delta"@],
                ),
        decreases take - k,
    {
        let mut expected: Vec<String> = Vec::new();
        expected.push("visual_delta".to_owned());
        expected.push("layout_delta".to_owned());
        proof {
            assert(texts(expected@) == seq!["visual_delta"@, "layout_delta"@]);
            assert(sorted[k as int] == regions@[k as int]@);
        }
        steps.push(
            VerificationStep {
                id: region_id(k),
                action: VerificationAction::Capture,
                target: Some(regions[k].clone()),
                expected_evidence: expected,
            },
        );
        k += 1;
    }
    steps.push(
        VerificationStep {
            id: "runtime".to_owned(),
            action: VerificationAction::ConsoleCheck,
            target: None,
            expected_evidence: text_vec1("console_delta"),
        },
    );
    let n = steps.len();
    let max_steps = if n < MAX_PLAN_STEPS {
        n
    } else {
        MAX_PLAN_STEPS
    };
    proof {
        let t = Seq::new(take as nat, |m: int| steps@[m + 1].target->0@);
        assert forall|m: int| 0 <= m < take implies t[m] == sorted[m] by {
            assert(step_is(
                steps@[m + 1],
                region_step_id(m),
                VerificationAction::Capture,
                Some(sorted[m]),
                seq!["visual_delta"@, "layout_delta"@],
            ));
        }
        assert(t == sorted.take(take as int));
        lemma_first_of_sorted(sorted, whole, take as int);
    }
    VerificationPlan {
        hypothesis_id: hypothesis_id.clone(),
        steps,
        budget: VerificationBudget {
            max_steps,
            max_capture_regions: MAX_CAPTURE_REGIONS,
            allow_chromium_escalation: false,
        },
    }
}

proof fn lemma_first_of_sorted(sorted: Seq<Seq<char>>, all: Seq<Seq<char>>, take: int)
    requires
        sorted_set_of(sorted, all),
        take == if sorted.len() < MAX_CAPTURE_REGIONS {
            sorted.len() as int
        } else {
            MAX_CAPTURE_REGIONS as int
        },
    ensures
        first_regions(sorted.take(take), all),
{
    let t = sorted.take(take);
    assert forall|a: int, b: int| 0 <= a < b < t.len() implies seq_lt(#[trigger] t[a], #[trigger] t[b]) by {
        assert(seq_lt(sorted[a], sorted[b]));
    }
    assert forall|x: Seq<char>| t.contains(x) implies all.contains(x) by {
        let k = choose|k: int| 0 <= k < t.len() && t[k] == x;
        assert(sorted[k] == x);
        assert(sorted.contains(x));
    }
    assert forall|x: Seq<char>| all.contains(x) implies t.contains(x) || (t.len()
        == MAX_CAPTURE_REGIONS && forall|k: int| 0 <= k < t.len() ==> seq_lt(#[trigger] t[k], x)) by {
        assert(sorted.contains(x));
        let j = choose|j: int| 0 <= j < sorted.len() && sorted[j] == x;
        if j < take {
            assert(t[j] == x);
        } else {
            assert forall|k: int| 0 <= k < t.len() implies seq_lt(#[trigger] t[k], x) by {
                assert(t[k] == sorted[k]);
                assert(seq_lt(sorted[k], sorted[j]));
            }
        }
    }
}

} // verus!

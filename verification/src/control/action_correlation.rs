//! Correlating a completed action with the requests and UI changes that followed
//! it: which evidence becomes a runtime signal, which evidence records the action,
//! when the window has closed, and which evidence the correlation rests on.
use vstd::prelude::*;
use crate::content_addressed::{hashes, sorted_set_of, sorted_unique};
use crate::evidence::EvidenceKind;

verus! {

/// The most recent evidence objects scanned for a correlation.
pub const MAX_CORRELATION_EVIDENCE_SCAN: usize = 512;

#[derive(Debug, Clone, Copy, PartialEq, Eq, Structural)]
pub enum RuntimeSignalKind {
    Network,
    DomMutation,
    Layout,
    Route,
}

/// What a correlation reads of an evidence object.
#[derive(Debug, Clone)]
pub struct CorrelationEvidence {
    pub id: String,
    pub kind: EvidenceKind,
    /// The payload's `kind`, where it is a string.
    pub payload_kind: Option<String>,
    /// The payload's `route`, where it is a string.
    pub payload_route: Option<String>,
    /// The payload's `action_id`, where it is a string.
    pub payload_action_id: Option<String>,
    pub region: Option<String>,
    /// When the evidence was captured, in milliseconds since the Unix epoch.
    pub captured_at_ms: i64,
}

/// A runtime signal of the correlation.
#[derive(Debug, Clone, PartialEq, Eq)]
pub struct RuntimeSignal {
    pub id: String,
    pub kind: RuntimeSignalKind,
    pub observed_ms: u64,
    pub route: Option<String>,
    pub reference: Option<String>,
}

/// A timestamp in milliseconds, with a moment before the epoch read as 0.
pub open spec fn millis(value: i64) -> u64 {
    if value >= 0 {
        value as u64
    } else {
        0
    }
}

pub fn timestamp_millis(value: i64) -> (r: u64)
    ensures
        r == millis(value),
{
    if value >= 0 {
        value as u64
    } else {
        0
    }
}

pub open spec fn spec_signal_kind(kind: EvidenceKind, payload_kind: Option<Seq<char>>) -> Option<RuntimeSignalKind> {
    match payload_kind {
        Some(k) => if k == "network"@ && kind == EvidenceKind::Network {
            Some(RuntimeSignalKind::Network)
        } else if k == "dom_mutation"@ && kind == EvidenceKind::Semantic {
            Some(RuntimeSignalKind::DomMutation)
        } else if k == "layout"@ && kind == EvidenceKind::Layout {
            Some(RuntimeSignalKind::Layout)
        } else if k == "route"@ && kind == EvidenceKind::Interaction {
            Some(RuntimeSignalKind::Route)
        } else {
            None
        },
        None => None,
    }
}

pub open spec fn opt_text(o: Option<String>) -> Option<Seq<char>> {
    match o {
        Some(s) => Some(s@),
        None => None,
    }
}

/// The signal class of an evidence object: network evidence of kind `network`,
/// semantic evidence of kind `dom_mutation`, layout evidence of kind `layout`,
/// interaction evidence of kind `route`; nothing else.
pub fn signal_kind(evidence: &CorrelationEvidence) -> (r: Option<RuntimeSignalKind>)
    ensures
        r == spec_signal_kind(evidence.kind, opt_text(evidence.payload_kind)),
{
    let k = match &evidence.payload_kind {
        Some(k) => k.as_str(),
        None => {
            return None;
        },
    };
    if crate::text::str_eq(k, "network") && evidence.kind == EvidenceKind::Network {
        Some(RuntimeSignalKind::Network)
    } else if crate::text::str_eq(k, "dom_mutation") && evidence.kind == EvidenceKind::Semantic {
        Some(RuntimeSignalKind::DomMutation)
    } else if crate::text::str_eq(k, "layout") && evidence.kind == EvidenceKind::Layout {
        Some(RuntimeSignalKind::Layout)
    } else if crate::text::str_eq(k, "route") && evidence.kind == EvidenceKind::Interaction {
        Some(RuntimeSignalKind::Route)
    } else {
        None
    }
}

/// Whether a signal is the one an evidence object gives.
pub open spec fn signal_of(e: CorrelationEvidence, s: RuntimeSignal) -> bool {
    &&& spec_signal_kind(e.kind, opt_text(e.payload_kind)) == Some(s.kind)
    &&& s.id@ == e.id@
    &&& s.observed_ms == millis(e.captured_at_ms)
    &&& opt_text(s.route) == opt_text(e.payload_route)
    &&& opt_text(s.reference) == opt_text(e.region)
}

fn clone_opt(o: &Option<String>) -> (r: Option<String>)
    ensures
        opt_text(r) == opt_text(*o),
{
    match o {
        Some(s) => Some(s.clone()),
        None => None,
    }
}

/// The runtime signal an evidence object gives, if it is of a signal class.
pub fn runtime_signal(evidence: &CorrelationEvidence) -> (r: Option<RuntimeSignal>)
    ensures
        match r {
            Some(s) => signal_of(*evidence, s),
            None => spec_signal_kind(evidence.kind, opt_text(evidence.payload_kind)) is None,
        },
{
    let kind = match signal_kind(evidence) {
        Some(kind) => kind,
        None => {
            return None;
        },
    };
    Some(
        RuntimeSignal {
            id: evidence.id.clone(),
            kind,
            observed_ms: timestamp_millis(evidence.captured_at_ms),
            route: clone_opt(&evidence.payload_route),
            reference: clone_opt(&evidence.region),
        },
    )
}

/// The signals of the evidence objects of a signal class, in their order.
pub open spec fn signal_sources(e: Seq<CorrelationEvidence>) -> Seq<CorrelationEvidence>
    decreases e.len(),
{
    if e.len() == 0 {
        e
    } else if spec_signal_kind(e.last().kind, opt_text(e.last().payload_kind)) is Some {
        signal_sources(e.drop_last()).push(e.last())
    } else {
        signal_sources(e.drop_last())
    }
}

/// The runtime signals of the evidence, in order: one for each object of a signal
/// class.
pub fn runtime_signals(evidence: &Vec<CorrelationEvidence>) -> (r: Vec<RuntimeSignal>)
    ensures
        r@.len() == signal_sources(evidence@).len(),
        forall|i: int| 0 <= i < r@.len() ==> signal_of(#[trigger] signal_sources(evidence@)[i], r@[i]),
{
    let mut out: Vec<RuntimeSignal> = Vec::new();
    let mut i: usize = 0;
    while i < evidence.len()
        invariant
            i <= evidence@.len(),
            out@.len() == signal_sources(evidence@.take(i as int)).len(),
            forall|k: int| 0 <= k < out@.len() ==> signal_of(#[trigger] signal_sources(evidence@.take(i as int))[k], out@[k]),
        decreases evidence@.len() - i,
    {
        proof {
            assert(evidence@.take(i + 1).drop_last() == evidence@.take(i as int));
            assert(evidence@.take(i + 1).last() == evidence@[i as int]);
        }
        match runtime_signal(&evidence[i]) {
            Some(s) => {
                out.push(s);
            },
            None => {},
        }
        i += 1;
    }
    proof {
        assert(evidence@.take(i as int) == evidence@);
    }
    out
}

/// Whether an evidence object records the action: interaction evidence whose
/// payload names the action.
pub open spec fn records_action(e: CorrelationEvidence, action_id: Seq<char>) -> bool {
    e.kind == EvidenceKind::Interaction && opt_text(e.payload_action_id) == Some(action_id)
}

/// The last evidence object that records the action.
pub fn action_parent(evidence: &Vec<CorrelationEvidence>, action_id: &str) -> (r: Option<usize>)
    ensures
        match r {
            Some(i) => i < evidence@.len() && records_action(evidence@[i as int], action_id@) && forall|j: int|
                i < j < evidence@.len() ==> !records_action(#[trigger] evidence@[j], action_id@),
            None => forall|j: int| 0 <= j < evidence@.len() ==> !records_action(#[trigger] evidence@[j], action_id@),
        },
{
    let mut i: usize = evidence.len();
    while i > 0
        invariant
            i <= evidence@.len(),
            forall|j: int| i <= j < evidence@.len() ==> !records_action(#[trigger] evidence@[j], action_id@),
        decreases i,
    {
        let e = &evidence[i - 1];
        let matches = e.kind == EvidenceKind::Interaction && match &e.payload_action_id {
            Some(a) => crate::text::str_eq(a.as_str(), action_id),
            None => false,
        };
        if matches {
            return Some(i - 1);
        }
        i -= 1;
    }
    None
}

/// Whether the correlation window of an action is still open: it closes a policy
/// tail after the action completed.
pub fn correlation_window_open(completed_ms: u64, tail_ms: u64, now_ms: u64) -> (r: bool)
    ensures
        r == (now_ms < if completed_ms + tail_ms > u64::MAX {
            u64::MAX
        } else {
            (completed_ms + tail_ms) as u64
        }),
{
    now_ms < completed_ms.saturating_add(tail_ms)
}

fn responses_of(links: &Vec<(String, Vec<String>)>, i: usize) -> (r: &Vec<String>)
    requires
        i < links@.len(),
    ensures
        r@ == links@[i as int].1@,
{
    &links[i].1
}

/// The evidence a correlation rests on: the action's own evidence, every linked
/// request and every response, sorted and each once.
pub fn correlation_parent_ids(action_evidence_id: &String, links: &Vec<(String, Vec<String>)>) -> (r: Vec<
    String,
>)
    ensures
        sorted_set_of(
            hashes(r@),
            seq![action_evidence_id@] + links@.map_values(|l: (String, Vec<String>)| seq![l.0@] + hashes(l.1@)).flatten(),
        ),
{
    let mut all: Vec<String> = Vec::new();
    all.push(action_evidence_id.clone());
    let ghost lv = links@.map_values(|l: (String, Vec<String>)| seq![l.0@] + hashes(l.1@));
    let mut i: usize = 0;
    proof {
        assert(lv.take(0).flatten() == Seq::<Seq<char>>::empty());
        assert(hashes(all@) == seq![action_evidence_id@] + lv.take(0).flatten());
    }
    while i < links.len()
        invariant
            i <= links@.len(),
            lv == links@.map_values(|l: (String, Vec<String>)| seq![l.0@] + hashes(l.1@)),
            hashes(all@) == seq![action_evidence_id@] + lv.take(i as int).flatten(),
        decreases links@.len() - i,
    {
        let ghost pre = all@;
        let ghost before = hashes(all@);
        let c = links[i].0.clone();
        all.push(c);
        proof {
            assert(hashes(all@) == hashes(pre).push(c@));
        }
        let responses = responses_of(links, i);
        proof {
            assert(hashes(responses@.take(0)) == Seq::<Seq<char>>::empty());
        }
        let mut k: usize = 0;
        while k < responses.len()
            invariant
                i < links@.len(),
                k <= responses@.len(),
                responses@ == links@[i as int].1@,
                hashes(all@) == before + seq![links@[i as int].0@] + hashes(responses@.take(k as int)),
            decreases responses@.len() - k,
        {
            let ghost pre = all@;
            let c = responses[k].clone();
            all.push(c);
            proof {
                assert(all@ == pre.push(c));
                assert(hashes(all@) == hashes(pre).push(c@));
                assert(hashes(responses@.take(k + 1)) == hashes(responses@.take(k as int)).push(responses@[k as int]@));
                assert(hashes(all@) == before + seq![links@[i as int].0@] + hashes(responses@.take(k + 1)));
            }
            k += 1;
        }
        proof {
            assert(responses@.take(k as int) == responses@);
            assert(lv.take(i + 1) == lv.take(i as int).push(lv[i as int]));
            lv.take(i as int).lemma_flatten_push(lv[i as int]);
            assert(lv[i as int] == seq![links@[i as int].0@] + hashes(links@[i as int].1@));
        }
        i += 1;
    }
    proof {
        assert(lv.take(i as int) == lv);
    }
    sorted_unique(&all)
}

} // verus!

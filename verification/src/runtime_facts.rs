//! Runtime facts for live contract evaluation: which evidence counts, what each
//! fresh payload adds to the facts, which fact domains are known to be complete,
//! and what can be decided from partial facts.
//!
//! Measured metric values and compared values stay with the caller, which holds
//! them as floating-point numbers and JSON; the facts here record their keys.
use vstd::prelude::*;
use crate::content_addressed::{hashes, sorted_set_of, sorted_unique};
use crate::contracts::ContractVerdict;
use crate::canonical_json::{append, decimal, push_decimal};

verus! {

#[derive(Debug, Clone, Copy, PartialEq, Eq, Structural)]
pub enum RuntimeFactDomain {
    Selectors,
    Metrics,
    Values,
    IssueCodes,
    InteractiveNames,
}

/// How sure an evidence object is of what it states.
#[derive(Debug, Clone, Copy, PartialEq, Eq, Structural)]
pub enum EvidenceCertainty {
    Observed,
    Derived,
    /// Any other, weaker class.
    Other,
}

/// What the facts read of an evidence payload object: the string entries of its
/// `selectors` and `issue_codes` arrays, the keys of its `metrics` entries that are
/// finite numbers and of its `values` entries, its `unnamed_interactive_count`, and
/// its completeness flags (false where absent).
#[derive(Debug, Clone)]
pub struct FactPayload {
    pub selectors: Vec<String>,
    pub selectors_complete: bool,
    pub metric_keys: Vec<String>,
    pub metrics_complete: bool,
    pub value_keys: Vec<String>,
    pub values_complete: bool,
    pub issue_codes: Vec<String>,
    pub issue_codes_complete: bool,
    pub unnamed_interactive_count: Option<u64>,
    pub interactive_names_complete: bool,
}

/// What the facts read of an evidence object; `payload` is `None` where the
/// payload is not an object.
#[derive(Debug, Clone)]
pub struct FactEvidence {
    pub id: String,
    pub secret_taint: bool,
    pub revision: Option<String>,
    pub certainty: EvidenceCertainty,
    pub payload: Option<FactPayload>,
}

/// The runtime facts gathered from fresh evidence. Every list is a set, in
/// ascending order.
#[derive(Debug, Clone)]
pub struct LiveRuntimeFacts {
    pub selectors: Vec<String>,
    pub issue_codes: Vec<String>,
    pub unnamed_interactive_count: u64,
    pub complete_domains: Vec<RuntimeFactDomain>,
    pub metric_keys: Vec<String>,
    pub value_keys: Vec<String>,
    pub evidence_ids: Vec<String>,
    pub stale_evidence_ids: Vec<String>,
    pub ignored_tainted_evidence_ids: Vec<String>,
    pub ignored_non_authoritative_evidence_ids: Vec<String>,
}

/// The facts as they are gathered: each text set in the order first seen.
pub struct Gathered {
    pub selectors: Seq<Seq<char>>,
    pub issue_codes: Seq<Seq<char>>,
    pub unnamed: u64,
    pub domains: Seq<RuntimeFactDomain>,
    pub metric_keys: Seq<Seq<char>>,
    pub value_keys: Seq<Seq<char>>,
}

/// Adds the items not yet there, in order; with `skip_empty`, empty texts are not
/// added.
pub open spec fn add_all(s: Seq<Seq<char>>, items: Seq<Seq<char>>, skip_empty: bool) -> Seq<Seq<char>>
    decreases items.len(),
{
    if items.len() == 0 {
        s
    } else {
        let t = add_all(s, items.drop_last(), skip_empty);
        let x = items.last();
        if (skip_empty && x.len() == 0) || t.contains(x) {
            t
        } else {
            t.push(x)
        }
    }
}

pub open spec fn add_domain(s: Seq<RuntimeFactDomain>, d: RuntimeFactDomain, flag: bool) -> Seq<RuntimeFactDomain> {
    if flag && !s.contains(d) {
        s.push(d)
    } else {
        s
    }
}

/// What a payload adds to the facts.
pub open spec fn with_payload(g: Gathered, p: FactPayload) -> Gathered {
    Gathered {
        selectors: add_all(g.selectors, hashes(p.selectors@), true),
        issue_codes: add_all(g.issue_codes, hashes(p.issue_codes@), true),
        unnamed: match p.unnamed_interactive_count {
            Some(c) => if c > g.unnamed {
                c
            } else {
                g.unnamed
            },
            None => g.unnamed,
        },
        domains: add_domain(
            add_domain(
                add_domain(
                    add_domain(
                        add_domain(g.domains, RuntimeFactDomain::Selectors, p.selectors_complete),
                        RuntimeFactDomain::Metrics,
                        p.metrics_complete,
                    ),
                    RuntimeFactDomain::Values,
                    p.values_complete,
                ),
                RuntimeFactDomain::IssueCodes,
                p.issue_codes_complete,
            ),
            RuntimeFactDomain::InteractiveNames,
            p.interactive_names_complete,
        ),
        metric_keys: add_all(g.metric_keys, hashes(p.metric_keys@), false),
        value_keys: add_all(g.value_keys, hashes(p.value_keys@), false),
    }
}

/// How much the facts hold: every selector, metric (counted as a measured value
/// and as a key), value (likewise), issue code and complete domain, and one more
/// once some interactive element is unnamed.
pub open spec fn weight(g: Gathered) -> int {
    g.selectors.len() + 2 * g.metric_keys.len() + 2 * g.value_keys.len() + g.issue_codes.len()
        + g.domains.len() + if g.unnamed > 0 {
        1int
    } else {
        0int
    }
}

/// The facts and the evidence sorted out while gathering them: the evidence that
/// added a fact, the stale, the tainted and the non-authoritative.
pub struct Sorted {
    pub facts: Gathered,
    pub used: Seq<Seq<char>>,
    pub stale: Seq<Seq<char>>,
    pub tainted: Seq<Seq<char>>,
    pub non_authoritative: Seq<Seq<char>>,
}

pub open spec fn opt_text(o: Option<String>) -> Option<Seq<char>> {
    match o {
        Some(s) => Some(s@),
        None => None,
    }
}

pub open spec fn empty_gathered() -> Gathered {
    Gathered {
        selectors: Seq::empty(),
        issue_codes: Seq::empty(),
        unnamed: 0,
        domains: Seq::empty(),
        metric_keys: Seq::empty(),
        value_keys: Seq::empty(),
    }
}

/// Goes through the evidence in order: tainted evidence is ignored, evidence of
/// another revision is stale, evidence that is neither observed nor derived is not
/// authoritative, a payload that is not an object adds nothing, and an evidence
/// object is used when its payload adds to the facts.
pub open spec fn sort_evidence(ev: Seq<FactEvidence>, revision: Seq<char>) -> Sorted
    decreases ev.len(),
{
    if ev.len() == 0 {
        Sorted {
            facts: empty_gathered(),
            used: Seq::empty(),
            stale: Seq::empty(),
            tainted: Seq::empty(),
            non_authoritative: Seq::empty(),
        }
    } else {
        let s = sort_evidence(ev.drop_last(), revision);
        let e = ev.last();
        if e.secret_taint {
            Sorted { tainted: s.tainted.push(e.id@), ..s }
        } else if opt_text(e.revision) != Some(revision) {
            Sorted { stale: s.stale.push(e.id@), ..s }
        } else if e.certainty == EvidenceCertainty::Other {
            Sorted { non_authoritative: s.non_authoritative.push(e.id@), ..s }
        } else {
            match e.payload {
                None => s,
                Some(p) => {
                    let g = with_payload(s.facts, p);
                    if weight(g) > weight(s.facts) {
                        Sorted { facts: g, used: s.used.push(e.id@), ..s }
                    } else {
                        Sorted { facts: g, ..s }
                    }
                },
            }
        }
    }
}

/// Texts with no repeats.
pub open spec fn distinct(s: Seq<Seq<char>>) -> bool {
    forall|i: int, j: int| 0 <= i < j < s.len() ==> s[i] != s[j]
}

proof fn lemma_add_all(s: Seq<Seq<char>>, items: Seq<Seq<char>>, skip_empty: bool)
    requires
        distinct(s),
    ensures
        distinct(add_all(s, items, skip_empty)),
        add_all(s, items, skip_empty).len() >= s.len(),
    decreases items.len(),
{
    if items.len() > 0 {
        lemma_add_all(s, items.drop_last(), skip_empty);
    }
}

/// Adds the texts of `items` not yet in `set`, in order. Gives whether the set grew.
fn add_texts(set: &mut Vec<String>, items: &Vec<String>, skip_empty: bool) -> (grew: bool)
    requires
        distinct(hashes(old(set)@)),
    ensures
        hashes(final(set)@) == add_all(hashes(old(set)@), hashes(items@), skip_empty),
        distinct(hashes(final(set)@)),
        grew == (final(set)@.len() > old(set)@.len()),
        final(set)@.len() >= old(set)@.len(),
{
    let ghost start = hashes(set@);
    let n0 = set.len();
    let mut i: usize = 0;
    proof {
        assert(hashes(items@).take(0) == Seq::<Seq<char>>::empty());
    }
    while i < items.len()
        invariant
            i <= items@.len(),
            hashes(set@) == add_all(start, hashes(items@).take(i as int), skip_empty),
            distinct(hashes(set@)),
            set@.len() >= n0,
            n0 == start.len(),
        decreases items@.len() - i,
    {
        let x = &items[i];
        proof {
            assert(hashes(items@).take(i + 1).drop_last() == hashes(items@).take(i as int));
            assert(hashes(items@).take(i + 1).last() == x@);
        }
        let empty = x.as_str().is_empty();
        if !(skip_empty && empty) && !contains_text(set, x) {
            let ghost before = set@;
            set.push(x.clone());
            proof {
                assert(hashes(set@) == hashes(before).push(x@));
            }
        }
        i += 1;
    }
    proof {
        assert(hashes(items@).take(i as int) == hashes(items@));
    }
    set.len() > n0
}

fn contains_text(set: &Vec<String>, x: &String) -> (r: bool)
    ensures
        r == hashes(set@).contains(x@),
{
    let mut i: usize = 0;
    while i < set.len()
        invariant
            i <= set@.len(),
            forall|k: int| 0 <= k < i ==> set@[k]@ != x@,
        decreases set@.len() - i,
    {
        if crate::text::str_eq(set[i].as_str(), x.as_str()) {
            proof {
                assert(hashes(set@)[i as int] == x@);
            }
            return true;
        }
        i += 1;
    }
    proof {
        if hashes(set@).contains(x@) {
            let k = choose|k: int| 0 <= k < hashes(set@).len() && hashes(set@)[k] == x@;
            assert(set@[k]@ == x@);
        }
    }
    false
}

fn add_domain_to(domains: &mut Vec<RuntimeFactDomain>, d: RuntimeFactDomain, flag: bool)
    ensures
        final(domains)@ == add_domain(old(domains)@, d, flag),
{
    if !flag {
        return;
    }
    let mut i: usize = 0;
    while i < domains.len()
        invariant
            i <= domains@.len(),
            forall|k: int| 0 <= k < i ==> domains@[k] != d,
        decreases domains@.len() - i,
    {
        if domains[i] == d {
            proof {
                assert(domains@.contains(d));
            }
            return;
        }
        i += 1;
    }
    domains.push(d);
}

/// Whether the facts are known to cover a whole domain.
pub fn domain_complete(domains: &Vec<RuntimeFactDomain>, d: RuntimeFactDomain) -> (r: bool)
    ensures
        r == domains@.contains(d),
{
    let mut i: usize = 0;
    while i < domains.len()
        invariant
            i <= domains@.len(),
            forall|k: int| 0 <= k < i ==> domains@[k] != d,
        decreases domains@.len() - i,
    {
        if domains[i] == d {
            proof {
                assert(domains@[i as int] == d);
            }
            return true;
        }
        i += 1;
    }
    false
}

/// The facts while they are gathered.
struct Gathering {
    selectors: Vec<String>,
    issue_codes: Vec<String>,
    unnamed: u64,
    domains: Vec<RuntimeFactDomain>,
    metric_keys: Vec<String>,
    value_keys: Vec<String>,
}

spec fn gathered(g: Gathering) -> Gathered {
    Gathered {
        selectors: hashes(g.selectors@),
        issue_codes: hashes(g.issue_codes@),
        unnamed: g.unnamed,
        domains: g.domains@,
        metric_keys: hashes(g.metric_keys@),
        value_keys: hashes(g.value_keys@),
    }
}

spec fn well_formed(g: Gathering) -> bool {
    &&& distinct(hashes(g.selectors@))
    &&& distinct(hashes(g.issue_codes@))
    &&& distinct(hashes(g.metric_keys@))
    &&& distinct(hashes(g.value_keys@))
}

/// Adds what a payload holds to the facts. Gives whether the facts grew.
#[verifier::spinoff_prover]
#[verifier::rlimit(40)]
fn compile_fact_payload(p: &FactPayload, g: &mut Gathering) -> (grew: bool)
    requires
        well_formed(*old(g)),
    ensures
        well_formed(*final(g)),
        gathered(*final(g)) == with_payload(gathered(*old(g)), *p),
        grew == (weight(gathered(*final(g))) > weight(gathered(*old(g)))),
{
    let ghost before = gathered(*g);
    let domains_start = g.domains.len();
    let a = add_texts(&mut g.selectors, &p.selectors, true);
    add_domain_to(&mut g.domains, RuntimeFactDomain::Selectors, p.selectors_complete);
    let b = add_texts(&mut g.metric_keys, &p.metric_keys, false);
    add_domain_to(&mut g.domains, RuntimeFactDomain::Metrics, p.metrics_complete);
    let c = add_texts(&mut g.value_keys, &p.value_keys, false);
    add_domain_to(&mut g.domains, RuntimeFactDomain::Values, p.values_complete);
    let d = add_texts(&mut g.issue_codes, &p.issue_codes, true);
    add_domain_to(&mut g.domains, RuntimeFactDomain::IssueCodes, p.issue_codes_complete);
    let unnamed_before = g.unnamed;
    match p.unnamed_interactive_count {
        Some(count) => if count > g.unnamed {
            g.unnamed = count;
        },
        None => {},
    }
    add_domain_to(&mut g.domains, RuntimeFactDomain::InteractiveNames, p.interactive_names_complete);
    let e = g.domains.len() > domains_start;
    let f = unnamed_before == 0 && g.unnamed > 0;
    a || b || c || d || e || f
}

pub open spec fn domain_if(s: Seq<RuntimeFactDomain>, d: RuntimeFactDomain) -> Seq<RuntimeFactDomain> {
    if s.contains(d) {
        seq![d]
    } else {
        Seq::empty()
    }
}

/// The complete domains in their order: selectors, metrics, values, issue codes,
/// interactive names.
pub open spec fn ordered_domains(s: Seq<RuntimeFactDomain>) -> Seq<RuntimeFactDomain> {
    domain_if(s, RuntimeFactDomain::Selectors) + domain_if(s, RuntimeFactDomain::Metrics) + domain_if(
        s,
        RuntimeFactDomain::Values,
    ) + domain_if(s, RuntimeFactDomain::IssueCodes) + domain_if(s, RuntimeFactDomain::InteractiveNames)
}

fn push_if_complete(out: &mut Vec<RuntimeFactDomain>, domains: &Vec<RuntimeFactDomain>, d: RuntimeFactDomain)
    ensures
        final(out)@ == old(out)@ + domain_if(domains@, d),
{
    if domain_complete(domains, d) {
        out.push(d);
        proof {
            assert(final(out)@ == old(out)@ + seq![d]);
        }
    } else {
        proof {
            assert(old(out)@ + Seq::<RuntimeFactDomain>::empty() == old(out)@);
        }
    }
}

/// Gathers the runtime facts of the evidence of a revision: see `sort_evidence`.
/// Every text list of the result is the sorted set of what was gathered.
pub fn compile_runtime_facts(evidence: &Vec<FactEvidence>, revision: &str) -> (r: LiveRuntimeFacts)
    ensures
        sorted_set_of(hashes(r.selectors@), sort_evidence(evidence@, revision@).facts.selectors),
        sorted_set_of(hashes(r.issue_codes@), sort_evidence(evidence@, revision@).facts.issue_codes),
        sorted_set_of(hashes(r.metric_keys@), sort_evidence(evidence@, revision@).facts.metric_keys),
        sorted_set_of(hashes(r.value_keys@), sort_evidence(evidence@, revision@).facts.value_keys),
        r.unnamed_interactive_count == sort_evidence(evidence@, revision@).facts.unnamed,
        r.complete_domains@ == ordered_domains(sort_evidence(evidence@, revision@).facts.domains),
        sorted_set_of(hashes(r.evidence_ids@), sort_evidence(evidence@, revision@).used),
        sorted_set_of(hashes(r.stale_evidence_ids@), sort_evidence(evidence@, revision@).stale),
        sorted_set_of(hashes(r.ignored_tainted_evidence_ids@), sort_evidence(evidence@, revision@).tainted),
        sorted_set_of(
            hashes(r.ignored_non_authoritative_evidence_ids@),
            sort_evidence(evidence@, revision@).non_authoritative,
        ),
{
    let mut g = Gathering {
        selectors: Vec::new(),
        issue_codes: Vec::new(),
        unnamed: 0,
        domains: Vec::new(),
        metric_keys: Vec::new(),
        value_keys: Vec::new(),
    };
    let mut used: Vec<String> = Vec::new();
    let mut stale: Vec<String> = Vec::new();
    let mut tainted: Vec<String> = Vec::new();
    let mut non_authoritative: Vec<String> = Vec::new();
    let mut i: usize = 0;
    proof {
        assert(evidence@.take(0) == Seq::<FactEvidence>::empty());
        assert(hashes(g.selectors@) =~= Seq::<Seq<char>>::empty());
        assert(hashes(g.issue_codes@) =~= Seq::<Seq<char>>::empty());
        assert(hashes(g.metric_keys@) =~= Seq::<Seq<char>>::empty());
        assert(hashes(g.value_keys@) =~= Seq::<Seq<char>>::empty());
        assert(hashes(used@) =~= Seq::<Seq<char>>::empty());
        assert(hashes(stale@) =~= Seq::<Seq<char>>::empty());
        assert(hashes(tainted@) =~= Seq::<Seq<char>>::empty());
        assert(hashes(non_authoritative@) =~= Seq::<Seq<char>>::empty());
        assert(gathered(g) == empty_gathered());
    }
    while i < evidence.len()
        invariant
            i <= evidence@.len(),
            well_formed(g),
            gathered(g) == sort_evidence(evidence@.take(i as int), revision@).facts,
            hashes(used@) == sort_evidence(evidence@.take(i as int), revision@).used,
            hashes(stale@) == sort_evidence(evidence@.take(i as int), revision@).stale,
            hashes(tainted@) == sort_evidence(evidence@.take(i as int), revision@).tainted,
            hashes(non_authoritative@) == sort_evidence(evidence@.take(i as int), revision@).non_authoritative,
        decreases evidence@.len() - i,
    {
        let e = &evidence[i];
        proof {
            assert(evidence@.take(i + 1).drop_last() == evidence@.take(i as int));
            assert(evidence@.take(i + 1).last() == *e);
        }
        let current = match &e.revision {
            Some(r) => crate::text::str_eq(r.as_str(), revision),
            None => false,
        };
        if e.secret_taint {
            let ghost before = tainted@;
            tainted.push(e.id.clone());
            proof {
                assert(hashes(tainted@) == hashes(before).push(e.id@));
            }
        } else if !current {
            let ghost before = stale@;
            stale.push(e.id.clone());
            proof {
                assert(hashes(stale@) == hashes(before).push(e.id@));
            }
        } else if e.certainty == EvidenceCertainty::Other {
            let ghost before = non_authoritative@;
            non_authoritative.push(e.id.clone());
            proof {
                assert(hashes(non_authoritative@) == hashes(before).push(e.id@));
            }
        } else {
            match &e.payload {
                None => {},
                Some(p) => {
                    if compile_fact_payload(p, &mut g) {
                        let ghost before = used@;
                        used.push(e.id.clone());
                        proof {
                            assert(hashes(used@) == hashes(before).push(e.id@));
                        }
                    }
                },
            }
        }
        i += 1;
    }
    proof {
        assert(evidence@.take(i as int) == evidence@);
    }
    let mut domains: Vec<RuntimeFactDomain> = Vec::new();
    push_if_complete(&mut domains, &g.domains, RuntimeFactDomain::Selectors);
    push_if_complete(&mut domains, &g.domains, RuntimeFactDomain::Metrics);
    push_if_complete(&mut domains, &g.domains, RuntimeFactDomain::Values);
    push_if_complete(&mut domains, &g.domains, RuntimeFactDomain::IssueCodes);
    push_if_complete(&mut domains, &g.domains, RuntimeFactDomain::InteractiveNames);
    proof {
        assert(Seq::<RuntimeFactDomain>::empty() + domain_if(g.domains@, RuntimeFactDomain::Selectors) == domain_if(
            g.domains@,
            RuntimeFactDomain::Selectors,
        ));
    }
    LiveRuntimeFacts {
        selectors: sorted_unique(&g.selectors),
        issue_codes: sorted_unique(&g.issue_codes),
        unnamed_interactive_count: g.unnamed,
        complete_domains: domains,
        metric_keys: sorted_unique(&g.metric_keys),
        value_keys: sorted_unique(&g.value_keys),
        evidence_ids: sorted_unique(&used),
        stale_evidence_ids: sorted_unique(&stale),
        ignored_tainted_evidence_ids: sorted_unique(&tainted),
        ignored_non_authoritative_evidence_ids: sorted_unique(&non_authoritative),
    }
}

/// What a contract's predicate asks of the facts, as far as partial facts decide
/// it: a selector that must or must not exist, a metric or a value by its key, an
/// issue code that must be absent, or that every interactive element be named.
#[derive(Debug, Clone)]
pub enum PredicateDomain {
    Exists(String),
    NotExists(String),
    Metric(String),
    Value(String),
    NoIssueCode(String),
    EveryInteractiveNamed,
}

/// What live evaluation does with a contract: decide it from the facts, or have the
/// caller evaluate its predicate on the measured facts (under its exception, where
/// one applies).
#[derive(Debug, Clone, PartialEq, Eq)]
pub enum LiveDecision {
    Decided { verdict: ContractVerdict, explanation: String },
    Evaluate { with_exception: bool },
}

/// An exception applies to a contract when it names the contract and does not
/// expire at another revision.
pub open spec fn exception_applies(
    contract_id: Seq<char>,
    exception: Option<(Seq<char>, Option<Seq<char>>)>,
    revision: Seq<char>,
) -> bool {
    match exception {
        Some((id, expires)) => id == contract_id && match expires {
            Some(bound) => bound == revision,
            None => true,
        },
        None => false,
    }
}

pub open spec fn spec_live_decision(
    contract_id: Seq<char>,
    domain: PredicateDomain,
    live: LiveRuntimeFacts,
    exception: Option<(Seq<char>, Option<Seq<char>>)>,
    revision: Seq<char>,
) -> (bool, ContractVerdict, Seq<char>) {
    if exception_applies(contract_id, exception, revision) {
        (false, ContractVerdict::Excepted, Seq::empty())
    } else {
        match domain {
            PredicateDomain::Exists(sel) if hashes(live.selectors@).contains(sel@) => (
                true,
                ContractVerdict::Pass,
                "selector "@ + sel@ + " exists in fresh evidence"@,
            ),
            PredicateDomain::NotExists(sel) if hashes(live.selectors@).contains(sel@) => (
                true,
                ContractVerdict::Fail,
                "selector "@ + sel@ + " unexpectedly exists"@,
            ),
            PredicateDomain::NoIssueCode(code) if hashes(live.issue_codes@).contains(code@) => (
                true,
                ContractVerdict::Fail,
                "issue "@ + code@ + " present"@,
            ),
            PredicateDomain::EveryInteractiveNamed if live.unnamed_interactive_count > 0 => (
                true,
                ContractVerdict::Fail,
                decimal(live.unnamed_interactive_count as nat) + " interactive element(s) are unnamed"@,
            ),
            _ => {
                let known = match domain {
                    PredicateDomain::Exists(_) => live.complete_domains@.contains(RuntimeFactDomain::Selectors),
                    PredicateDomain::NotExists(_) => live.complete_domains@.contains(RuntimeFactDomain::Selectors),
                    PredicateDomain::Metric(m) => hashes(live.metric_keys@).contains(m@)
                        || live.complete_domains@.contains(RuntimeFactDomain::Metrics),
                    PredicateDomain::Value(k) => hashes(live.value_keys@).contains(k@)
                        || live.complete_domains@.contains(RuntimeFactDomain::Values),
                    PredicateDomain::NoIssueCode(_) => live.complete_domains@.contains(RuntimeFactDomain::IssueCodes),
                    PredicateDomain::EveryInteractiveNamed => live.complete_domains@.contains(
                        RuntimeFactDomain::InteractiveNames,
                    ),
                };
                if known {
                    (false, ContractVerdict::Unknown, Seq::empty())
                } else {
                    (true, ContractVerdict::Unknown, "required runtime fact domain is incomplete"@)
                }
            },
        }
    }
}

/// Decides a contract from live facts where they decide it: an applicable exception
/// sends it to evaluation; a selector that must exist and does passes; a selector
/// that must not exist and does, a forbidden issue that is present, or an unnamed
/// interactive element fails, whatever else is incomplete; a contract whose fact
/// domain is not known to be complete is unknown; every other contract is
/// evaluated on the measured facts.
pub fn live_contract_decision(
    contract_id: &str,
    domain: &PredicateDomain,
    live: &LiveRuntimeFacts,
    exception: Option<(&str, Option<&str>)>,
    revision: &str,
) -> (r: LiveDecision)
    ensures
        ({
            let s = spec_live_decision(
                contract_id@,
                *domain,
                *live,
                match exception {
                    Some((id, expires)) => Some(
                        (
                            id@,
                            match expires {
                                Some(b) => Some(b@),
                                None => None,
                            },
                        ),
                    ),
                    None => None,
                },
                revision@,
            );
            match r {
                LiveDecision::Decided { verdict, explanation } => s.0 && verdict == s.1 && explanation@ == s.2,
                LiveDecision::Evaluate { with_exception } => !s.0 && with_exception == (s.1
                    == ContractVerdict::Excepted),
            }
        }),
{
    let applies = match exception {
        Some((id, expires)) => crate::text::str_eq(id, contract_id) && match expires {
            Some(bound) => crate::text::str_eq(bound, revision),
            None => true,
        },
        None => false,
    };
    if applies {
        return LiveDecision::Evaluate { with_exception: true };
    }
    match domain {
        PredicateDomain::Exists(sel) => if contains_text(&live.selectors, sel) {
            let mut e = String::new();
            append(&mut e, "selector ");
            append(&mut e, sel.as_str());
            append(&mut e, " exists in fresh evidence");
            proof {
                assert(Seq::<char>::empty() + "selector "@ == "selector "@);
            }
            return LiveDecision::Decided { verdict: ContractVerdict::Pass, explanation: e };
        },
        PredicateDomain::NotExists(sel) => if contains_text(&live.selectors, sel) {
            let mut e = String::new();
            append(&mut e, "selector ");
            append(&mut e, sel.as_str());
            append(&mut e, " unexpectedly exists");
            proof {
                assert(Seq::<char>::empty() + "selector "@ == "selector "@);
            }
            return LiveDecision::Decided { verdict: ContractVerdict::Fail, explanation: e };
        },
        PredicateDomain::NoIssueCode(code) => if contains_text(&live.issue_codes, code) {
            let mut e = String::new();
            append(&mut e, "issue ");
            append(&mut e, code.as_str());
            append(&mut e, " present");
            proof {
                assert(Seq::<char>::empty() + "issue "@ == "issue "@);
            }
            return LiveDecision::Decided { verdict: ContractVerdict::Fail, explanation: e };
        },
        PredicateDomain::EveryInteractiveNamed => if live.unnamed_interactive_count > 0 {
            let mut e = String::new();
            push_decimal(&mut e, live.unnamed_interactive_count);
            append(&mut e, " interactive element(s) are unnamed");
            proof {
                assert(Seq::<char>::empty() + decimal(live.unnamed_interactive_count as nat) == decimal(
                    live.unnamed_interactive_count as nat,
                ));
            }
            return LiveDecision::Decided { verdict: ContractVerdict::Fail, explanation: e };
        },
        _ => {},
    }
    let known = match domain {
        PredicateDomain::Exists(_) | PredicateDomain::NotExists(_) => domain_complete(
            &live.complete_domains,
            RuntimeFactDomain::Selectors,
        ),
        PredicateDomain::Metric(m) => contains_text(&live.metric_keys, m) || domain_complete(
            &live.complete_domains,
            RuntimeFactDomain::Metrics,
        ),
        PredicateDomain::Value(k) => contains_text(&live.value_keys, k) || domain_complete(
            &live.complete_domains,
            RuntimeFactDomain::Values,
        ),
        PredicateDomain::NoIssueCode(_) => domain_complete(&live.complete_domains, RuntimeFactDomain::IssueCodes),
        PredicateDomain::EveryInteractiveNamed => domain_complete(
            &live.complete_domains,
            RuntimeFactDomain::InteractiveNames,
        ),
    };
    if !known {
        return LiveDecision::Decided {
            verdict: ContractVerdict::Unknown,
            explanation: "required runtime fact domain is incomplete".to_owned(),
        };
    }
    LiveDecision::Evaluate { with_exception: false }
}

/// Tainted, stale or non-authoritative evidence never adds a fact nor counts as
/// used evidence.
pub proof fn lemma_untrusted_evidence_adds_nothing(ev: Seq<FactEvidence>, e: FactEvidence, revision: Seq<char>)
    requires
        e.secret_taint || opt_text(e.revision) != Some(revision) || e.certainty == EvidenceCertainty::Other,
    ensures
        sort_evidence(ev.push(e), revision).facts == sort_evidence(ev, revision).facts,
        sort_evidence(ev.push(e), revision).used == sort_evidence(ev, revision).used,
{
    assert(ev.push(e).drop_last() == ev);
}

/// A selector that must exist but is absent stays unknown until the selectors are
/// known to be complete (and no exception applies).
pub proof fn lemma_absent_selector_is_unknown_until_complete(
    contract_id: Seq<char>,
    selector: String,
    live: LiveRuntimeFacts,
    revision: Seq<char>,
)
    requires
        !hashes(live.selectors@).contains(selector@),
        !live.complete_domains@.contains(RuntimeFactDomain::Selectors),
    ensures
        spec_live_decision(contract_id, PredicateDomain::Exists(selector), live, None, revision).0,
        spec_live_decision(contract_id, PredicateDomain::Exists(selector), live, None, revision).1
            == ContractVerdict::Unknown,
{
}

/// A forbidden issue that was observed fails the contract even while the issue
/// codes are not known to be complete (where no exception applies).
pub proof fn lemma_observed_forbidden_issue_fails(
    contract_id: Seq<char>,
    code: String,
    live: LiveRuntimeFacts,
    revision: Seq<char>,
)
    requires
        hashes(live.issue_codes@).contains(code@),
    ensures
        spec_live_decision(contract_id, PredicateDomain::NoIssueCode(code), live, None, revision).0,
        spec_live_decision(contract_id, PredicateDomain::NoIssueCode(code), live, None, revision).1
            == ContractVerdict::Fail,
{
}


/// A contract predicate that needs no measured value: a selector that must or must
/// not exist, an issue code that must be absent, or that every interactive element
/// be named.
#[derive(Debug, Clone)]
pub enum FactCheck {
    Exists(String),
    NotExists(String),
    NoIssueCode(String),
    EveryInteractiveNamed,
}

/// The verdict and explanation of a fact check over a set of selectors, a set of
/// issue codes and the number of unnamed interactive elements; an approved
/// exception for the contract excepts it.
pub open spec fn spec_fact_verdict(
    excepted: bool,
    check: FactCheck,
    selectors: Seq<Seq<char>>,
    issue_codes: Seq<Seq<char>>,
    unnamed: u64,
) -> (ContractVerdict, Seq<char>) {
    if excepted {
        (ContractVerdict::Excepted, "approved exception applies"@)
    } else {
        match check {
            FactCheck::Exists(sel) => if selectors.contains(sel@) {
                (ContractVerdict::Pass, "selector "@ + sel@ + " exists"@)
            } else {
                (ContractVerdict::Fail, "selector "@ + sel@ + " missing"@)
            },
            FactCheck::NotExists(sel) => if !selectors.contains(sel@) {
                (ContractVerdict::Pass, "selector "@ + sel@ + " absent"@)
            } else {
                (ContractVerdict::Fail, "selector "@ + sel@ + " unexpectedly exists"@)
            },
            FactCheck::NoIssueCode(code) => if !issue_codes.contains(code@) {
                (ContractVerdict::Pass, "issue "@ + code@ + " absent"@)
            } else {
                (ContractVerdict::Fail, "issue "@ + code@ + " present"@)
            },
            FactCheck::EveryInteractiveNamed => if unnamed == 0 {
                (ContractVerdict::Pass, "all interactive elements have accessible names"@)
            } else {
                (ContractVerdict::Fail, decimal(unnamed as nat) + " interactive element(s) are unnamed"@)
            },
        }
    }
}

fn phrase(a: &str, b: &str, c: &str) -> (r: String)
    ensures
        r@ == a@ + b@ + c@,
{
    let mut e = String::new();
    append(&mut e, a);
    append(&mut e, b);
    append(&mut e, c);
    proof {
        assert(Seq::<char>::empty() + a@ == a@);
    }
    e
}

/// Evaluates a contract whose predicate needs no measured value: excepted when an
/// approved exception names the contract, else passed or failed by the facts.
pub fn evaluate_fact_check(
    contract_id: &str,
    exception_contract_id: Option<&str>,
    check: &FactCheck,
    selectors: &Vec<String>,
    issue_codes: &Vec<String>,
    unnamed_interactive_count: u64,
) -> (r: (ContractVerdict, String))
    ensures
        ({
            let s = spec_fact_verdict(
                exception_contract_id matches Some(id) && id@ == contract_id@,
                *check,
                hashes(selectors@),
                hashes(issue_codes@),
                unnamed_interactive_count,
            );
            r.0 == s.0 && r.1@ == s.1
        }),
{
    let excepted = match exception_contract_id {
        Some(id) => crate::text::str_eq(id, contract_id),
        None => false,
    };
    if excepted {
        return (ContractVerdict::Excepted, "approved exception applies".to_owned());
    }
    match check {
        FactCheck::Exists(sel) => if contains_text(selectors, sel) {
            (ContractVerdict::Pass, phrase("selector ", sel.as_str(), " exists"))
        } else {
            (ContractVerdict::Fail, phrase("selector ", sel.as_str(), " missing"))
        },
        FactCheck::NotExists(sel) => if !contains_text(selectors, sel) {
            (ContractVerdict::Pass, phrase("selector ", sel.as_str(), " absent"))
        } else {
            (ContractVerdict::Fail, phrase("selector ", sel.as_str(), " unexpectedly exists"))
        },
        FactCheck::NoIssueCode(code) => if !contains_text(issue_codes, code) {
            (ContractVerdict::Pass, phrase("issue ", code.as_str(), " absent"))
        } else {
            (ContractVerdict::Fail, phrase("issue ", code.as_str(), " present"))
        },
        FactCheck::EveryInteractiveNamed => if unnamed_interactive_count == 0 {
            (ContractVerdict::Pass, "all interactive elements have accessible names".to_owned())
        } else {
            let mut e = String::new();
            push_decimal(&mut e, unnamed_interactive_count);
            append(&mut e, " interactive element(s) are unnamed");
            proof {
                assert(Seq::<char>::empty() + decimal(unnamed_interactive_count as nat) == decimal(
                    unnamed_interactive_count as nat,
                ));
            }
            (ContractVerdict::Fail, e)
        },
    }
}

} // verus!

use localview::autonomous_contracts::{summarize_evaluations, ContractEvaluationRecord};
use localview::contracts::{ContractStrength, ContractVerdict};
use localview::runtime_facts::{
    compile_runtime_facts, domain_complete, evaluate_fact_check, FactCheck, live_contract_decision, EvidenceCertainty, FactEvidence, FactPayload,
    LiveDecision, LiveRuntimeFacts, PredicateDomain, RuntimeFactDomain,
};
use serde_json::Value;

fn obj(entries: &[(&str, Value)]) -> Value {
    let mut map = serde_json::Map::new();
    for (key, value) in entries {
        map.insert((*key).to_string(), value.clone());
    }
    Value::Object(map)
}

fn strings(value: Option<&Value>) -> Vec<String> {
    value
        .and_then(Value::as_array)
        .map(|items| items.iter().filter_map(Value::as_str).map(str::to_owned).collect())
        .unwrap_or_default()
}

fn flag(object: &Value, key: &str) -> bool {
    object.get(key).and_then(Value::as_bool).unwrap_or(false)
}

/// Reads a payload object as the facts read it.
fn payload(object: &Value) -> FactPayload {
    FactPayload {
        selectors: strings(object.get("selectors")),
        selectors_complete: flag(object, "selectors_complete"),
        metric_keys: object
            .get("metrics")
            .and_then(Value::as_object)
            .map(|m| m.iter().filter(|(_, v)| v.as_f64().is_some_and(f64::is_finite)).map(|(k, _)| k.clone()).collect())
            .unwrap_or_default(),
        metrics_complete: flag(object, "metrics_complete"),
        value_keys: object.get("values").and_then(Value::as_object).map(|m| m.keys().cloned().collect()).unwrap_or_default(),
        values_complete: flag(object, "values_complete"),
        issue_codes: strings(object.get("issue_codes")),
        issue_codes_complete: flag(object, "issue_codes_complete"),
        unnamed_interactive_count: object.get("unnamed_interactive_count").and_then(Value::as_u64),
        interactive_names_complete: flag(object, "interactive_names_complete"),
    }
}

fn evidence(object: Value, revision: &str) -> FactEvidence {
    FactEvidence {
        id: format!("ev-{revision}"),
        secret_taint: false,
        revision: Some(revision.into()),
        certainty: EvidenceCertainty::Observed,
        payload: object.is_object().then(|| payload(&object)),
    }
}

fn verdict(decision: &LiveDecision) -> Option<ContractVerdict> {
    match decision {
        LiveDecision::Decided { verdict, .. } => Some(*verdict),
        LiveDecision::Evaluate { .. } => None,
    }
}

#[test]
fn absent_selector_is_unknown_until_selector_denominator_is_complete() {
    let live = compile_runtime_facts(&vec![evidence(obj(&[("selectors", Value::Array(vec![]))]), "abc")], "abc");
    let decision = live_contract_decision("exists.hero", &PredicateDomain::Exists("#hero".into()), &live, None, "abc");
    assert_eq!(verdict(&decision), Some(ContractVerdict::Unknown));
}

#[test]
fn observed_forbidden_issue_fails_even_when_issue_denominator_is_incomplete() {
    let live = compile_runtime_facts(
        &vec![evidence(obj(&[("issue_codes", Value::Array(vec![Value::from("crash")]))]), "abc")],
        "abc",
    );
    let decision = live_contract_decision("no.crash", &PredicateDomain::NoIssueCode("crash".into()), &live, None, "abc");
    assert_eq!(verdict(&decision), Some(ContractVerdict::Fail));
}

#[test]
fn hard_unknown_and_soft_failure_do_not_masquerade_as_passes() {
    let live = compile_runtime_facts(
        &vec![evidence(
            obj(&[("issue_codes", Value::Array(vec![Value::from("style")])), ("issue_codes_complete", Value::Bool(true))]),
            "abc",
        )],
        "abc",
    );
    let contracts = [
        ("hard", ContractStrength::Hard, PredicateDomain::Metric("lcp".into())),
        ("soft", ContractStrength::Soft, PredicateDomain::NoIssueCode("style".into())),
    ];
    let records = contracts
        .iter()
        .map(|(id, strength, domain)| match live_contract_decision(id, domain, &live, None, "abc") {
            LiveDecision::Decided { verdict, explanation } => ContractEvaluationRecord {
                contract_id: (*id).into(),
                strength: *strength,
                verdict,
                explanation,
                evidence_ids: live.evidence_ids.clone(),
            },
            LiveDecision::Evaluate { .. } => panic!("partial facts decide both contracts"),
        })
        .collect::<Vec<_>>();
    let summary = summarize_evaluations(records);
    assert_eq!(summary.hard_unknowns, vec!["hard"]);
    assert_eq!(summary.soft_warnings, vec!["soft"]);
    assert_eq!(summary.pass_count, 0);
}

fn facts_of(items: Vec<FactEvidence>) -> LiveRuntimeFacts {
    compile_runtime_facts(&items, "r1")
}

#[test]
fn evidence_is_sorted_by_trust_and_only_new_facts_count() {
    let mut tainted = evidence(obj(&[("selectors", Value::Array(vec![Value::from("#x")]))]), "r1");
    tainted.id = "t".into();
    tainted.secret_taint = true;
    let mut stale = evidence(obj(&[("selectors", Value::Array(vec![Value::from("#y")]))]), "r0");
    stale.id = "s".into();
    let mut weak = evidence(obj(&[("selectors", Value::Array(vec![Value::from("#z")]))]), "r1");
    weak.id = "w".into();
    weak.certainty = EvidenceCertainty::Other;
    let mut first = evidence(
        obj(&[
            ("selectors", Value::Array(vec![Value::from("#b"), Value::from(""), Value::from("#a")])),
            ("metrics", obj(&[("lcp", Value::from(1.5)), ("bad", Value::from("x"))])),
            ("unnamed_interactive_count", Value::from(2u64)),
            ("interactive_names_complete", Value::Bool(true)),
            ("selectors_complete", Value::Bool(true)),
        ]),
        "r1",
    );
    first.id = "b-first".into();
    let mut repeat = evidence(obj(&[("selectors", Value::Array(vec![Value::from("#a")]))]), "r1");
    repeat.id = "a-repeat".into();
    let mut not_object = evidence(Value::from(3), "r1");
    not_object.id = "n".into();
    let live = facts_of(vec![tainted, stale, weak, first, repeat, not_object]);
    assert_eq!(live.selectors, vec!["#a", "#b"]);
    assert_eq!(live.metric_keys, vec!["lcp"]);
    assert_eq!(live.unnamed_interactive_count, 2);
    assert_eq!(live.complete_domains, vec![RuntimeFactDomain::Selectors, RuntimeFactDomain::InteractiveNames]);
    assert_eq!(live.evidence_ids, vec!["b-first"]);
    assert_eq!(live.stale_evidence_ids, vec!["s"]);
    assert_eq!(live.ignored_tainted_evidence_ids, vec!["t"]);
    assert_eq!(live.ignored_non_authoritative_evidence_ids, vec!["w"]);
    assert!(domain_complete(&live.complete_domains, RuntimeFactDomain::Selectors));

    let decision = live_contract_decision("named", &PredicateDomain::EveryInteractiveNamed, &live, None, "r1");
    assert_eq!(
        decision,
        LiveDecision::Decided { verdict: ContractVerdict::Fail, explanation: "2 interactive element(s) are unnamed".into() }
    );
    let decision = live_contract_decision("hero", &PredicateDomain::Exists("#a".into()), &live, None, "r1");
    assert_eq!(
        decision,
        LiveDecision::Decided { verdict: ContractVerdict::Pass, explanation: "selector #a exists in fresh evidence".into() }
    );
    assert_eq!(
        live_contract_decision("gone", &PredicateDomain::NotExists("#q".into()), &live, None, "r1"),
        LiveDecision::Evaluate { with_exception: false }
    );
    assert_eq!(
        live_contract_decision("lcp", &PredicateDomain::Metric("lcp".into()), &live, None, "r1"),
        LiveDecision::Evaluate { with_exception: false }
    );
    assert_eq!(
        live_contract_decision("hero", &PredicateDomain::Exists("#a".into()), &live, Some(("hero", Some("r1"))), "r1"),
        LiveDecision::Evaluate { with_exception: true }
    );
    assert_eq!(
        verdict(&live_contract_decision("hero", &PredicateDomain::Exists("#a".into()), &live, Some(("hero", Some("r0"))), "r1")),
        Some(ContractVerdict::Pass)
    );
}

#[test]
fn fact_checks_need_no_measured_values() {
    let selectors = vec!["#save".to_string()];
    let issues = vec!["contrast".to_string()];
    let check = |c: &FactCheck, unnamed: u64| evaluate_fact_check("c1", None, c, &selectors, &issues, unnamed);
    assert_eq!(check(&FactCheck::Exists("#save".into()), 0), (ContractVerdict::Pass, "selector #save exists".into()));
    assert_eq!(check(&FactCheck::Exists("#x".into()), 0), (ContractVerdict::Fail, "selector #x missing".into()));
    assert_eq!(check(&FactCheck::NotExists("#x".into()), 0), (ContractVerdict::Pass, "selector #x absent".into()));
    assert_eq!(
        check(&FactCheck::NotExists("#save".into()), 0),
        (ContractVerdict::Fail, "selector #save unexpectedly exists".into())
    );
    assert_eq!(check(&FactCheck::NoIssueCode("contrast".into()), 0), (ContractVerdict::Fail, "issue contrast present".into()));
    assert_eq!(check(&FactCheck::NoIssueCode("focus".into()), 0), (ContractVerdict::Pass, "issue focus absent".into()));
    assert_eq!(
        check(&FactCheck::EveryInteractiveNamed, 3),
        (ContractVerdict::Fail, "3 interactive element(s) are unnamed".into())
    );
    assert_eq!(
        check(&FactCheck::EveryInteractiveNamed, 0),
        (ContractVerdict::Pass, "all interactive elements have accessible names".into())
    );
    assert_eq!(
        evaluate_fact_check("c1", Some("c1"), &FactCheck::Exists("#x".into()), &selectors, &issues, 0),
        (ContractVerdict::Excepted, "approved exception applies".into())
    );
    assert_eq!(
        evaluate_fact_check("c1", Some("c2"), &FactCheck::Exists("#x".into()), &selectors, &issues, 0).0,
        ContractVerdict::Fail
    );
}

use localview::autonomous_contracts::{
    summarize_evaluations, ContractEvaluationRecord,
};
use localview::contracts::{
    AutonomousContractCompileError, ContractCategory, ContractCompileError, ContractRegistry,
    ContractScope, ContractStrength, ContractVerdict, UxContract,
};

#[derive(Debug, Clone, PartialEq)]
enum Predicate {
    Exists { selector: String },
    NotExists { selector: String },
    MetricAtMost { metric: String, max: f64 },
    MetricAtLeast { metric: String, min: f64 },
}

fn predicates_conflict(left: &Predicate, right: &Predicate) -> bool {
    match (left, right) {
        (Predicate::Exists { selector: a }, Predicate::NotExists { selector: b })
        | (Predicate::NotExists { selector: a }, Predicate::Exists { selector: b }) => a == b,
        (Predicate::MetricAtMost { metric: a, max }, Predicate::MetricAtLeast { metric: b, min })
        | (Predicate::MetricAtLeast { metric: a, min }, Predicate::MetricAtMost { metric: b, max }) => {
            a == b && min > max
        }
        _ => false,
    }
}

fn contract(id: &str, strength: ContractStrength, predicate: Predicate) -> UxContract<Predicate> {
    UxContract {
        id: id.into(),
        title: id.into(),
        category: ContractCategory::Safety,
        strength,
        scope: ContractScope::global(),
        predicate,
        provenance: "test".into(),
        inherited_from: None,
    }
}

#[test]
fn effective_conflict_and_inheritance_cycle_fail_compile() {
    let scope = ContractScope::global();
    let mut registry = ContractRegistry::default();
    registry.insert(UxContract {
        id: "parent".into(),
        title: "parent".into(),
        category: ContractCategory::Layout,
        strength: ContractStrength::Hard,
        scope: scope.clone(),
        predicate: Predicate::Exists { selector: "#hero".into() },
        provenance: "test".into(),
        inherited_from: None,
    });
    registry.insert(UxContract {
        id: "child".into(),
        title: "child".into(),
        category: ContractCategory::Layout,
        strength: ContractStrength::Hard,
        scope: ContractScope::global(),
        predicate: Predicate::NotExists { selector: "#hero".into() },
        provenance: "test".into(),
        inherited_from: Some("parent".into()),
    });
    assert!(matches!(
        registry.compile_autonomous_subset(&vec![], predicates_conflict),
        Err(AutonomousContractCompileError::Conflict(_))
    ));

    let mut cycle = ContractRegistry::default();
    let mut a = contract("a", ContractStrength::Hard, Predicate::Exists { selector: "#a".into() });
    a.inherited_from = Some("b".into());
    let mut b = contract("b", ContractStrength::Hard, Predicate::Exists { selector: "#b".into() });
    b.inherited_from = Some("a".into());
    cycle.insert(a);
    cycle.insert(b);
    assert!(matches!(
        cycle.compile_autonomous_subset(&vec![], predicates_conflict),
        Err(AutonomousContractCompileError::Contract(ContractCompileError::InheritanceCycle(_)))
    ));
}

#[test]
fn registry_detects_simple_exists_conflict() {
    let scope = ContractScope::global();
    let mut registry = ContractRegistry::default();
    registry.insert(UxContract {
        id: "a".into(),
        title: "a".into(),
        category: ContractCategory::Layout,
        strength: ContractStrength::Hard,
        scope: scope.clone(),
        predicate: Predicate::Exists { selector: "#hero".into() },
        provenance: "test".into(),
        inherited_from: None,
    });
    registry.insert(UxContract {
        id: "b".into(),
        title: "b".into(),
        category: ContractCategory::Layout,
        strength: ContractStrength::Hard,
        scope,
        predicate: Predicate::NotExists { selector: "#hero".into() },
        provenance: "test".into(),
        inherited_from: None,
    });
    assert_eq!(registry.conflicts(predicates_conflict).len(), 1);
}

#[test]
fn conflicts_need_the_same_scope_and_come_in_pair_order() {
    let mut registry = ContractRegistry::new();
    registry.insert(contract("c", ContractStrength::Hard, Predicate::MetricAtLeast { metric: "lcp".into(), min: 300.0 }));
    registry.insert(contract("a", ContractStrength::Hard, Predicate::MetricAtMost { metric: "lcp".into(), max: 200.0 }));
    registry.insert(contract("b", ContractStrength::Soft, Predicate::MetricAtLeast { metric: "lcp".into(), min: 250.0 }));
    let mut elsewhere = contract("d", ContractStrength::Hard, Predicate::MetricAtLeast { metric: "lcp".into(), min: 900.0 });
    elsewhere.scope.routes = vec!["/other".into()];
    registry.insert(elsewhere);
    let pairs: Vec<(String, String)> = registry
        .conflicts(predicates_conflict)
        .into_iter()
        .map(|c| (c.left, c.right))
        .collect();
    assert_eq!(pairs, vec![("a".to_string(), "b".to_string()), ("a".to_string(), "c".to_string())]);
    let conflicts = registry.conflicts(predicates_conflict);
    assert_eq!(conflicts[0].reason, "same scope contains incompatible predicates");
}

#[test]
fn requested_ids_compile_sorted_and_once() {
    let mut registry = ContractRegistry::new();
    registry.insert(contract("b", ContractStrength::Hard, Predicate::Exists { selector: "#b".into() }));
    registry.insert(contract("a", ContractStrength::Soft, Predicate::Exists { selector: "#a".into() }));
    registry.insert(contract("z", ContractStrength::Soft, Predicate::NotExists { selector: "#a".into() }));
    let set = registry
        .compile_autonomous_subset(&vec!["b".into(), "a".into(), "b".into()], predicates_conflict)
        .expect("compiles");
    assert_eq!(set.contract_ids, vec!["a".to_string(), "b".to_string()]);
    assert_eq!(set.contracts.len(), 2);
    assert_eq!(set.contracts[1].predicate, Predicate::Exists { selector: "#b".into() });
    assert!(matches!(
        registry.compile_autonomous_subset(&vec!["missing".into()], predicates_conflict),
        Err(AutonomousContractCompileError::Contract(ContractCompileError::MissingContract(id))) if id == "missing"
    ));
    match registry.compile_autonomous_subset(&vec![], predicates_conflict) {
        Err(AutonomousContractCompileError::Conflict(conflicts)) => {
            assert_eq!(conflicts.len(), 1);
            assert_eq!(conflicts[0].left, "a");
            assert_eq!(conflicts[0].right, "z");
            assert_eq!(conflicts[0].reason, "effective scope contains incompatible predicates");
        }
        other => panic!("unexpected {other:?}"),
    }
}

fn record(id: &str, strength: ContractStrength, verdict: ContractVerdict) -> ContractEvaluationRecord {
    ContractEvaluationRecord {
        contract_id: id.into(),
        strength,
        verdict,
        explanation: String::new(),
        evidence_ids: vec![],
    }
}

#[test]
fn summary_tallies_each_outcome_once() {
    let summary = summarize_evaluations(vec![
        record("hard", ContractStrength::Hard, ContractVerdict::Unknown),
        record("soft", ContractStrength::Soft, ContractVerdict::Fail),
        record("ok", ContractStrength::Hard, ContractVerdict::Pass),
        record("waived", ContractStrength::Soft, ContractVerdict::Excepted),
        record("broken", ContractStrength::Hard, ContractVerdict::Fail),
        record("vague", ContractStrength::Soft, ContractVerdict::Unknown),
    ]);
    assert_eq!(summary.hard_unknowns, vec!["hard".to_string()]);
    assert_eq!(summary.soft_warnings, vec!["soft".to_string(), "vague".to_string()]);
    assert_eq!(summary.hard_failures, vec!["broken".to_string()]);
    assert_eq!(summary.pass_count, 1);
    assert_eq!(summary.excepted_count, 1);
    assert_eq!(summary.evaluated.len(), 6);
    assert_eq!(summary.evaluated[4].contract_id, "broken");
}

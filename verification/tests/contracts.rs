use localview::contracts::{
    bool_result, merge_scope, ContractCategory, ContractCompileError, ContractRegistry,
    ContractScope, ContractStrength, ContractVerdict, UxContract,
};

fn contract(id: &str, parent: Option<&str>, scope: ContractScope, provenance: &str) -> UxContract<u32> {
    UxContract {
        id: id.into(),
        title: id.into(),
        category: ContractCategory::Layout,
        strength: ContractStrength::Hard,
        scope,
        predicate: 7,
        provenance: provenance.into(),
        inherited_from: parent.map(str::to_string),
    }
}

fn scope(routes: &[&str]) -> ContractScope {
    ContractScope {
        routes: routes.iter().map(|r| r.to_string()).collect(),
        ..ContractScope::global()
    }
}

#[test]
fn global_scope_restricts_nothing() {
    let s = ContractScope::global();
    assert!(s.routes.is_empty() && s.regions.is_empty() && s.personas.is_empty() && s.viewports.is_empty());
}

#[test]
fn child_scope_wins_where_it_names_something() {
    let parent = ContractScope { regions: vec!["hero".into()], ..scope(&["/"]) };
    let child = scope(&["/settings"]);
    let merged = merge_scope(&parent, &child);
    assert_eq!(merged.routes, vec!["/settings".to_string()]);
    assert_eq!(merged.regions, vec!["hero".to_string()]);
}

#[test]
fn effective_contract_inherits_scope_and_provenance() {
    let mut registry = ContractRegistry::new();
    registry.insert(contract("base", None, ContractScope { regions: vec!["hero".into()], ..scope(&["/"]) }, "policy"));
    registry.insert(contract("child", Some("base"), scope(&["/settings"]), ""));
    let effective = registry.effective_contract("child").expect("resolved");
    assert_eq!(effective.id, "child");
    assert_eq!(effective.scope.routes, vec!["/settings".to_string()]);
    assert_eq!(effective.scope.regions, vec!["hero".to_string()]);
    assert_eq!(effective.provenance, "policy");
    assert_eq!(effective.inherited_from, None);
    assert_eq!(effective.predicate, 7);
}

#[test]
fn effective_contract_reports_cycles_and_missing_contracts() {
    let mut registry = ContractRegistry::new();
    registry.insert(contract("a", Some("b"), ContractScope::global(), "x"));
    registry.insert(contract("b", Some("a"), ContractScope::global(), "x"));
    registry.insert(contract("c", Some("missing"), ContractScope::global(), "x"));
    assert_eq!(
        registry.effective_contract("a").unwrap_err(),
        ContractCompileError::InheritanceCycle("a".into())
    );
    assert_eq!(
        registry.effective_contract("c").unwrap_err(),
        ContractCompileError::MissingParent("missing".into())
    );
    assert_eq!(
        registry.effective_contract("zzz").unwrap_err(),
        ContractCompileError::MissingContract("zzz".into())
    );
}

#[test]
fn insert_replaces_and_keeps_ids_ordered() {
    let mut registry = ContractRegistry::new();
    registry.insert(contract("b", None, ContractScope::global(), "one"));
    registry.insert(contract("a", None, ContractScope::global(), "two"));
    registry.insert(contract("b", None, ContractScope::global(), "three"));
    let ids: Vec<&str> = registry.contracts().iter().map(|c| c.id.as_str()).collect();
    assert_eq!(ids, vec!["a", "b"]);
    assert_eq!(registry.get("b").expect("b").provenance, "three");
    assert!(registry.get("c").is_none());
}

#[test]
fn bool_result_picks_the_message() {
    assert_eq!(bool_result(true, "ok".into(), "bad".into()), (ContractVerdict::Pass, "ok".to_string()));
    assert_eq!(bool_result(false, "ok".into(), "bad".into()), (ContractVerdict::Fail, "bad".to_string()));
}

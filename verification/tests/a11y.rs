use localview::a11y::{
    bounded_identifier, bounded_text, field_discrepancies, match_native_to_dom,
    native_ax_discrepancy_findings, normalize_axe_findings, unique_finding_codes,
    valid_stable_reference, audit, AuditNode, A11yDiscrepancy, A11yEvidenceKind, A11yFinding, AxFields,
    AxeRuleNode, NativeAxEnrichment, TargetResolution,
};

fn axe(reference: Option<&str>, exact: bool) -> AxeRuleNode {
    AxeRuleNode {
        rule_id: "button-name!".into(),
        impact: Some("critical".into()),
        help: "Buttons must have discernible text".into(),
        stable_reference: reference.map(str::to_string),
        exact_reference_mapping: exact,
    }
}

#[test]
fn axe_unresolved_target_never_fabricates_reference() {
    let findings = normalize_axe_findings(&[axe(Some("@eabc"), false), axe(Some("button.save"), true)], 10);
    for finding in &findings {
        assert_eq!(finding.reference, "");
        assert_eq!(finding.target_resolution, TargetResolution::Unresolved);
        assert_eq!(finding.confidence, 88);
    }
    let resolved = normalize_axe_findings(&[axe(Some("@eabc"), true)], 10);
    assert_eq!(resolved[0].reference, "@eabc");
    assert_eq!(resolved[0].target_resolution, TargetResolution::StableRef("@eabc".into()));
    assert_eq!(resolved[0].code, "button-name");
    assert_eq!(resolved[0].rule_id.as_deref(), Some("button-name"));
    assert_eq!(resolved[0].evidence_kind, A11yEvidenceKind::AxeRule);
}

#[test]
fn axe_output_is_hard_bounded() {
    let nodes: Vec<AxeRuleNode> = (0..300).map(|_| axe(None, false)).collect();
    assert_eq!(normalize_axe_findings(&nodes, usize::MAX).len(), 128);
    assert_eq!(normalize_axe_findings(&nodes, 3).len(), 3);
}

fn discrepancy(field: &str) -> A11yDiscrepancy {
    A11yDiscrepancy { field: field.into(), dom_value: Some("a".into()), native_value: Some("b".into()) }
}

#[test]
fn native_ax_discrepancy_is_classified_as_native_evidence() {
    let entries = vec![
        NativeAxEnrichment { reference: "@e1".into(), native: (), discrepancies: vec![] },
        NativeAxEnrichment {
            reference: "@e2".into(),
            native: (),
            discrepancies: vec![discrepancy("role"), discrepancy("name")],
        },
    ];
    let findings = native_ax_discrepancy_findings(&entries);
    assert_eq!(findings.len(), 1);
    assert_eq!(findings[0].code, "dom_native_ax_discrepancy");
    assert_eq!(findings[0].evidence_kind, A11yEvidenceKind::NativeAx);
    assert_eq!(findings[0].message, "DOM/native AX evidence differs for: role,name");
    assert_eq!(findings[0].confidence, 92);
    assert_eq!(findings[0].discrepancies.len(), 2);
}

#[test]
fn native_ax_conflict_is_retained_as_discrepancy() {
    let dom = AxFields {
        role: Some("button".into()),
        name: Some(" Save ".into()),
        focusable: Some(true),
        enabled: Some(true),
        selected: None,
        expanded: Some(false),
        offscreen: None,
    };
    let native = AxFields {
        role: Some("link".into()),
        name: Some("Save".into()),
        focusable: Some(false),
        enabled: None,
        selected: Some(true),
        expanded: Some(false),
        offscreen: None,
    };
    let found = field_discrepancies(&dom, &native);
    assert_eq!(found.len(), 2);
    assert_eq!(found[0].field, "role");
    assert_eq!(found[0].dom_value.as_deref(), Some("button"));
    assert_eq!(found[0].native_value.as_deref(), Some("link"));
    assert_eq!(found[1].field, "focusable");
    assert_eq!(found[1].dom_value.as_deref(), Some("true"));
    assert_eq!(found[1].native_value.as_deref(), Some("false"));
}

#[test]
fn stable_references_are_bounded_hexadecimal() {
    assert!(valid_stable_reference("@e0aF"));
    assert!(!valid_stable_reference("@e"));
    assert!(!valid_stable_reference("@eg1"));
    assert!(valid_stable_reference(&format!("@e{}", "a".repeat(64))));
    assert!(!valid_stable_reference(&format!("@e{}", "a".repeat(65))));
}

#[test]
fn bounded_text_cuts_at_a_character_boundary() {
    assert_eq!(bounded_text("héllo", 2), "h");
    assert_eq!(bounded_text("héllo", 3), "hé");
    assert_eq!(bounded_text("abc", 10), "abc");
    assert_eq!(bounded_identifier("a b/c-d_e.f!", 100), "abc-d_e.f");
    assert_eq!(bounded_identifier("abcdef", 3), "abc");
}

#[test]
fn finding_codes_are_sorted_and_unique() {
    let local = |code: &str| A11yFinding::local(code, "@e1", "m".into(), true, 100);
    let codes = unique_finding_codes(&[local("b"), local("a"), local("b")]);
    assert_eq!(codes, vec!["a".to_string(), "b".to_string()]);
    let f = A11yFinding::local("x", "@e1", "m".repeat(300), false, 84);
    assert_eq!(f.message.len(), 240);
    assert_eq!(f.evidence_kind, A11yEvidenceKind::Heuristic);
}

#[test]
fn native_entries_pair_with_the_last_dom_entry_of_their_reference() {
    let dom = vec!["@e1".to_string(), "@e2".to_string(), "@e1".to_string()];
    let native = vec![Some("@e1".to_string()), None, Some("bogus".to_string()), Some("@e3".to_string()), Some("@e2".to_string())];
    assert_eq!(match_native_to_dom(&dom, &native), vec![(0, 2), (4, 1)]);
}

fn node(reference: &str, role: &str, name: Option<&str>, interactive: bool) -> AuditNode {
    AuditNode {
        reference: reference.into(),
        role: Some(role.into()),
        name: name.map(str::to_owned),
        interactive,
        nominal_target: None,
        children: vec![],
    }
}

#[test]
fn nameless_button_is_flagged_as_local_deterministic() {
    let finding = audit(&node("@e1", "button", None, true)).remove(0);
    assert_eq!(finding.code, "interactive_name_missing");
    assert!(finding.deterministic);
    assert_eq!(finding.evidence_kind, A11yEvidenceKind::LocalDeterministic);
}

#[test]
fn image_alt_is_checked_without_reusing_page_text() {
    let finding = audit(&node("@e2", "img", None, false)).remove(0);
    assert_eq!(finding.code, "image_name_missing");
    assert!(!finding.message.contains("<"));
}

#[test]
fn small_target_is_nominal_geometry_suspicion_not_delivery_proof() {
    let mut target = node("@e3", "button", Some("Tiny"), true);
    target.nominal_target = Some("12×18".into());
    let finding = audit(&target)
        .into_iter()
        .find(|finding| finding.code == "small_nominal_hit_target")
        .expect("small nominal target finding");
    assert!(!finding.deterministic);
    assert_eq!(finding.evidence_kind, A11yEvidenceKind::Heuristic);
    assert_eq!(finding.message, "Nominal hit target is 12×18px");
    assert_eq!(finding.confidence, 84);
}

#[test]
fn audit_walks_the_tree_depth_first_and_ignores_whitespace_names() {
    let mut root = node("@e1", "main", None, false);
    let mut group = node("@e2", "group", None, false);
    group.children.push(node("@e3", "img", Some("  "), false));
    root.children.push(group);
    root.children.push(node("@e4", "button", Some("Save"), true));
    root.children.push(node("@e5", "link", Some("\t"), true));
    let findings = audit(&root);
    let refs: Vec<_> = findings.iter().map(|f| (f.code.as_str(), f.reference.as_str())).collect();
    assert_eq!(refs, vec![("image_name_missing", "@e3"), ("interactive_name_missing", "@e5")]);
    assert_eq!(findings[1].target_resolution, TargetResolution::StableRef("@e5".into()));
}

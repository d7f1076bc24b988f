use localview::native_ax::{
    adapt_native_ax, NativeAxStableRefBinding, NativeSemanticNode, ProviderElementRealization,
    ProviderElementRef,
};

fn provider_element(cut: &str) -> ProviderElementRef {
    ProviderElementRef {
        provider_family: "windows_uia".into(),
        provider_incarnation_ref: "provider:wave6".into(),
        target_incarnation_ref: "target:wave6".into(),
        opaque_provider_element_id: "uia-runtime:[42]".into(),
        semantic_locator_hints: vec![],
        parent_surface_ref: Some("window:wave6".into()),
        acquisition_cut_ref: cut.into(),
        realization: ProviderElementRealization::RealizedCurrent,
        lifetime_profile_revision: "windows-uia-lifetime-v1".into(),
    }
}

fn node(cut: &str) -> NativeSemanticNode {
    NativeSemanticNode {
        element_ref: provider_element(cut),
        role: Some("button".into()),
        name: Some("Save".into()),
        is_enabled: Some(true),
        is_offscreen: Some(false),
        attributes: vec![
            ("windows_uia.expand_collapse.state".into(), "1".into()),
            ("windows_uia.selection_item.is_selected".into(), "true".into()),
        ],
    }
}

fn binding(cut: &str) -> NativeAxStableRefBinding {
    NativeAxStableRefBinding { provider_element: provider_element(cut), stable_reference: "@eabc".into() }
}

#[test]
fn exact_provider_identity_maps_to_stable_ref() {
    let evidence = adapt_native_ax(&[node("cut:7")], &[binding("cut:7")]);
    assert_eq!(evidence.len(), 1);
    assert_eq!(evidence[0].stable_reference, "@eabc");
    assert_eq!(evidence[0].fields.role.as_deref(), Some("button"));
    assert_eq!(evidence[0].fields.selected, Some(true));
    assert_eq!(evidence[0].fields.expanded, Some(true));
}

#[test]
fn stale_cut_never_maps_by_opaque_id_similarity() {
    let evidence = adapt_native_ax(&[node("cut:8")], &[binding("cut:7")]);
    assert!(evidence.is_empty());
}

#[test]
fn password_node_never_exports_native_name() {
    let mut password = node("cut:7");
    password.name = Some("private-account-name".into());
    password.attributes.push(("windows_uia.is_password".into(), "true".into()));
    let evidence = adapt_native_ax(&[password], &[binding("cut:7")]);
    assert_eq!(evidence.len(), 1);
    assert_eq!(evidence[0].fields.name, None);
}

#[test]
fn unrealized_provider_object_is_not_enrichment_authority() {
    let mut virtual_node = node("cut:7");
    virtual_node.element_ref.realization = ProviderElementRealization::RealizationRequired;
    let evidence = adapt_native_ax(&[virtual_node], &[binding("cut:7")]);
    assert!(evidence.is_empty());
}

#[test]
fn native_attributes_are_read_in_provider_order_and_text_is_bounded() {
    let mut mac = node("cut:7");
    mac.name = Some("é".repeat(100));
    mac.attributes = vec![
        ("macos_ax.expanded".into(), "0".into()),
        ("macos_ax.focusable".into(), "maybe".into()),
        ("atspi.focusable".into(), "1".into()),
        ("windows_uia.expand_collapse.state".into(), "collapsed".into()),
    ];
    let mut invalid = binding("cut:7");
    invalid.stable_reference = "#save".into();
    let evidence = adapt_native_ax(&[mac], &[invalid, binding("cut:7")]);
    assert_eq!(evidence.len(), 1);
    assert_eq!(evidence[0].fields.expanded, Some(false));
    assert_eq!(evidence[0].fields.focusable, Some(true));
    assert_eq!(evidence[0].fields.name.as_ref().map(|n| n.len()), Some(120));
    let many = (0..300).map(|_| node("cut:7")).collect::<Vec<_>>();
    assert_eq!(adapt_native_ax(&many, &[binding("cut:7")]).len(), 256);
}

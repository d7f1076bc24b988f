use localview::control::fresh_snapshot::{project_ownership, project_source, SourceHint};
use serde_json::Value;

fn obj(entries: &[(&str, Value)]) -> Value {
    let mut map = serde_json::Map::new();
    for (key, value) in entries {
        map.insert((*key).to_string(), value.clone());
    }
    Value::Object(map)
}

fn s(text: &str) -> Value {
    Value::from(text)
}

fn n(value: u64) -> Value {
    Value::from(value)
}

fn text_field(value: &Value, key: &str) -> Option<Option<String>> {
    value.get(key).map(|field| field.as_str().map(str::to_owned))
}

/// Reads a `sourceHint` object as the projection reads it.
fn hint(value: &Value) -> SourceHint {
    SourceHint {
        origin: text_field(value, "origin"),
        file: text_field(value, "file"),
        line: value.get("line").and_then(Value::as_u64),
        column: match value.get("column") {
            None | Some(Value::Null) => None,
            Some(raw) => Some(raw.as_u64()),
        },
        component: text_field(value, "component"),
        signal: text_field(value, "signal"),
    }
}

#[test]
fn generic_source_hint_never_becomes_component_ownership() {
    let source = obj(&[("origin", s("data-source")), ("file", s("button.tsx")), ("line", n(7)), ("column", n(2))]);
    let projected = project_source(Some(&hint(&source))).expect("valid source hint").expect("source location");
    assert_eq!(projected.file, "button.tsx");
    assert_eq!(projected.component, None);
}

#[test]
fn component_source_hint_preserves_explicit_component_evidence() {
    let source = obj(&[
        ("origin", s("data-component-source")),
        ("file", s("SettingsCard.tsx")),
        ("line", n(10)),
        ("column", Value::Null),
    ]);
    let projected =
        project_source(Some(&hint(&source))).expect("valid component source hint").expect("source location");
    assert_eq!(projected.component.as_deref(), Some("SettingsCard.tsx:10"));
}

fn react(file: &str, line: u64, column: u64) -> Value {
    obj(&[
        ("origin", s("react-dev-fiber")),
        ("file", s(file)),
        ("line", n(line)),
        ("column", n(column)),
        ("component", s("SettingsCard")),
    ])
}

#[test]
fn react_dev_fiber_hint_preserves_bounded_component_evidence() {
    let source = react("src/SettingsCard.tsx", 17, 5);
    let projected = project_source(Some(&hint(&source))).expect("valid React source hint").expect("source location");
    assert_eq!(projected.file, "src/SettingsCard.tsx");
    assert_eq!(projected.line, 17);
    assert_eq!(projected.column, Some(5));
    assert_eq!(projected.component.as_deref(), Some("react:src/SettingsCard.tsx:SettingsCard"));
}

#[test]
fn react_component_identity_is_stable_across_host_jsx_lines() {
    let first = project_source(Some(&hint(&react("src/SettingsCard.tsx", 17, 5))))
        .expect("valid first React source")
        .expect("first source location");
    let second = project_source(Some(&hint(&react("src/SettingsCard.tsx", 29, 9))))
        .expect("valid second React source")
        .expect("second source location");

    assert_eq!(first.component, second.component);
    assert_ne!(first.line, second.line);
    assert_eq!(first.component.as_deref(), Some("react:src/SettingsCard.tsx:SettingsCard"));
}

fn svelte(file: &str, line: u64, column: Option<u64>, component: Option<&str>) -> Value {
    let mut entries = vec![("origin", s("svelte-dev-meta")), ("file", s(file)), ("line", n(line))];
    if let Some(column) = column {
        entries.push(("column", n(column)));
    }
    if let Some(component) = component {
        entries.push(("component", s(component)));
    }
    obj(&entries)
}

#[test]
fn svelte_dev_meta_hint_preserves_real_zero_based_source_coordinates() {
    let source = svelte("src/SvelteCard.svelte", 17, Some(0), Some("SvelteCard"));
    let projected = project_source(Some(&hint(&source))).expect("valid Svelte source hint").expect("source location");
    assert_eq!(projected.file, "src/SvelteCard.svelte");
    assert_eq!(projected.line, 17);
    assert_eq!(projected.column, Some(0));
    assert_eq!(projected.component.as_deref(), Some("svelte:src/SvelteCard.svelte:SvelteCard"));
}

#[test]
fn svelte_component_identity_is_stable_across_element_locations() {
    let first = project_source(Some(&hint(&svelte("src/SvelteCard.svelte", 7, Some(0), Some("SvelteCard")))))
        .expect("valid first Svelte source")
        .expect("first source location");
    let second = project_source(Some(&hint(&svelte("src/SvelteCard.svelte", 23, Some(4), Some("SvelteCard")))))
        .expect("valid second Svelte source")
        .expect("second source location");

    assert_eq!(first.component, second.component);
    assert_ne!(first.line, second.line);
    assert_eq!(first.component.as_deref(), Some("svelte:src/SvelteCard.svelte:SvelteCard"));
}

#[test]
fn svelte_dev_meta_hint_fails_closed_for_unsafe_or_incomplete_identity() {
    for source in [
        svelte("/private/SvelteCard.svelte", 1, Some(0), Some("SvelteCard")),
        svelte("src/../SvelteCard.svelte", 1, Some(0), Some("SvelteCard")),
        svelte("src/SvelteCard.svelte", 0, Some(0), Some("SvelteCard")),
        svelte("src/SvelteCard.svelte", 1, None, Some("SvelteCard")),
        svelte("src/SvelteCard.svelte", 1, Some(10_000_001), Some("SvelteCard")),
        svelte("src/SvelteCard.svelte", 1, Some(0), None),
    ] {
        assert!(project_source(Some(&hint(&source))).is_none(), "invalid Svelte ownership must fail closed");
    }
}

#[test]
fn react_dev_fiber_hint_fails_closed_without_valid_identity() {
    let no_component =
        obj(&[("origin", s("react-dev-fiber")), ("file", s("src/App.tsx")), ("line", n(1)), ("column", n(1))]);
    for source in [
        obj(&[("origin", s("react-dev-fiber")), ("file", s("src/App.tsx")), ("line", n(0)), ("column", n(1)), ("component", s("App"))]),
        obj(&[("origin", s("react-dev-fiber")), ("file", s("src/App.tsx")), ("line", n(1)), ("column", n(0)), ("component", s("App"))]),
        no_component,
    ] {
        assert!(project_source(Some(&hint(&source))).is_none(), "invalid React ownership must fail closed");
    }
}

fn vue(file: &str) -> Value {
    obj(&[
        ("origin", s("vue-dev-instance")),
        ("file", s(file)),
        ("component", s("VueCard")),
        ("signal", s("element_parent_component")),
    ])
}

#[test]
fn vue_file_only_ownership_never_fabricates_source_location() {
    let h = hint(&vue("src/VueCard.vue"));
    assert_eq!(project_source(Some(&h)), Some(None));
    let ownership = project_ownership(Some(&h)).expect("valid Vue ownership").expect("Vue component ownership");
    assert_eq!(ownership.framework.as_deref(), Some("vue"));
    assert_eq!(ownership.file, "src/VueCard.vue");
    assert_eq!(ownership.component, "VueCard");
    assert_eq!(ownership.signal, "element_parent_component");
}

#[test]
fn vue_file_only_ownership_fails_closed_for_unsafe_identity() {
    for file in [
        "/private/VueCard.vue",
        "src/../VueCard.vue",
        "src/%2e%2e/VueCard.vue",
        "https://example.test/VueCard.vue",
        "src/VueCard.ts",
    ] {
        assert_eq!(
            project_ownership(Some(&hint(&vue(file)))),
            Some(None),
            "unsafe Vue ownership must be dropped without invalidating the snapshot: {file}"
        );
    }
}

#[test]
fn ownership_follows_the_origin_and_its_signal() {
    let with_signal = |signal: &str| {
        obj(&[
            ("origin", s("react-dev-fiber")),
            ("file", s("src/App.tsx")),
            ("line", n(3)),
            ("column", n(1)),
            ("component", s("App")),
            ("signal", s(signal)),
        ])
    };
    let owned = project_ownership(Some(&hint(&with_signal("debug_stack")))).unwrap().unwrap();
    assert_eq!(owned.framework.as_deref(), Some("react"));
    assert_eq!(owned.component, "App");
    assert_eq!(project_ownership(Some(&hint(&with_signal("guess")))), Some(None));
    let component = obj(&[("origin", s("data-component-source")), ("file", s("Card.tsx")), ("line", n(4))]);
    let owned = project_ownership(Some(&hint(&component))).unwrap().unwrap();
    assert_eq!(owned.component, "Card.tsx:4");
    assert_eq!(owned.signal, "data_component_source");
    assert_eq!(owned.framework, None);
    let plain = obj(&[("origin", s("data-source")), ("file", s("a.tsx")), ("line", n(1))]);
    assert_eq!(project_ownership(Some(&hint(&plain))), Some(None));
    let unknown = obj(&[("origin", s("guess")), ("file", s("a.tsx")), ("line", n(1))]);
    assert_eq!(project_ownership(Some(&hint(&unknown))), None);
    assert_eq!(project_source(Some(&hint(&unknown))), None);
    assert_eq!(project_source(None), Some(None));
    let bad_column = obj(&[("origin", s("data-source")), ("file", s("a.tsx")), ("line", n(1)), ("column", s("x"))]);
    assert_eq!(project_source(Some(&hint(&bad_column))), None);
}

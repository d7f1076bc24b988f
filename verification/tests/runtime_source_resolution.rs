use localview::control::runtime_source_resolution::{
    map_fetch_reason, map_reference_from_script, source_fetch_reason, source_too_large, BoundedFetchError,
};
use localview::control::runtime_source_resolution::{generated_position, resolved_record, ResolvedSourceResponse};
use base64::Engine;
use localview::control::runtime_source_resolution::{
    contains_redacted_marker, decode_inline_map, parse_map_reference, sanitize_retained_url,
    source_map_header, source_mapping_url_annotation, unresolved_record, validate_exact_origin_url,
    validate_generated_source_url, DiscoveryMethod, Endpoint, MapReference, UnresolvedReason,
};
use localview::web_url::UrlParts;

fn endpoint() -> Endpoint {
    Endpoint { host: "127.0.0.1".into(), port: 5173, scheme: "http".into() }
}

fn url(text: &str) -> UrlParts {
    UrlParts::parse(text).expect("test URL parses")
}

#[test]
fn exact_origin_rejects_alias_port_scheme_credentials_and_redacted_query() {
    let endpoint = endpoint();
    assert!(validate_exact_origin_url(&endpoint, &url("http://127.0.0.1:5173/app.js?t=1")).is_ok());

    for rejected in [
        "http://localhost:5173/app.js",
        "http://127.0.0.2:5173/app.js",
        "http://127.0.0.1:5174/app.js",
        "https://127.0.0.1:5173/app.js",
        "http://user@127.0.0.1:5173/app.js",
        "http://127.0.0.1:5173/app.js?token=%5BREDACTED%5D",
    ] {
        assert!(
            validate_exact_origin_url(&endpoint, &url(rejected)).is_err(),
            "{rejected} must not inherit session source authority"
        );
    }
}

#[test]
fn generated_source_requires_script_like_path() {
    let endpoint = endpoint();
    assert!(validate_generated_source_url(&endpoint, "http://127.0.0.1:5173/src/App.tsx?t=123").is_ok());
    assert!(validate_generated_source_url(&endpoint, "http://127.0.0.1:5173/api/source").is_err());
}

#[test]
fn external_map_reference_cannot_escape_session_origin() {
    let endpoint = endpoint();
    let source = url("http://127.0.0.1:5173/assets/app.js");

    let valid = parse_map_reference(&endpoint, &source, "./app.js.map", DiscoveryMethod::ExternalAnnotation).unwrap();
    match valid {
        MapReference::External { url, .. } => {
            assert_eq!(url.as_str(), "http://127.0.0.1:5173/assets/app.js.map");
        }
        MapReference::Inline { .. } => panic!("expected external map"),
    }

    assert!(matches!(
        parse_map_reference(&endpoint, &source, "http://127.0.0.1:9999/app.js.map", DiscoveryMethod::ExternalAnnotation),
        Err(UnresolvedReason::MapOutsideSessionOrigin)
    ));
}

#[test]
fn inline_base64_map_is_bounded_and_decoded_without_retaining_data_url() {
    let map_json = r#"{"version":3,"sources":["src/App.tsx"],"names":[],"mappings":"AAAA"}"#;
    let encoded = base64::engine::general_purpose::STANDARD.encode(map_json);
    let reference = format!("data:application/json;charset=utf-8;base64,{encoded}");

    let decoded = decode_inline_map(&reference, DiscoveryMethod::InlineAnnotation).unwrap();
    match decoded {
        MapReference::Inline { json, method } => {
            assert_eq!(json, map_json);
            assert_eq!(method, DiscoveryMethod::InlineAnnotation);
        }
        MapReference::External { .. } => panic!("expected inline map"),
    }
}

#[test]
fn inline_maps_need_json_metadata_base64_and_utf8() {
    let m = DiscoveryMethod::InlineAnnotation;
    assert!(matches!(decode_inline_map("data:application/json;base64", m), Err(UnresolvedReason::MapReferenceInvalid)));
    assert!(matches!(decode_inline_map("data:text/plain;base64,e30=", m), Err(UnresolvedReason::MapReferenceInvalid)));
    assert!(matches!(decode_inline_map("data:application/json,e30=", m), Err(UnresolvedReason::MapReferenceInvalid)));
    assert!(matches!(decode_inline_map("DATA:Application/JSON;BASE64,e30=", m), Ok(MapReference::Inline { .. })));
    assert!(matches!(decode_inline_map("data:application/json;base64,!!!", m), Err(UnresolvedReason::MapInvalid)));
    assert!(matches!(decode_inline_map("data:application/json;base64,/w==", m), Err(UnresolvedReason::MapInvalid)));
    let large = base64::engine::general_purpose::STANDARD.encode(vec![b' '; 2 * 1024 * 1024 + 1]);
    assert!(matches!(
        decode_inline_map(&format!("data:application/json;base64,{large}"), m),
        Err(UnresolvedReason::MapTooLarge)
    ));
}

#[test]
fn map_references_are_bounded_and_lose_their_fragment() {
    let endpoint = endpoint();
    let source = url("http://127.0.0.1:5173/assets/app.js");
    let m = DiscoveryMethod::SourceMapHeader;
    let long = format!("{}.map", "a".repeat(2048));
    assert!(matches!(parse_map_reference(&endpoint, &source, &long, m), Err(UnresolvedReason::MapReferenceInvalid)));
    match parse_map_reference(&endpoint, &source, "/maps/app.js.map#section", m).unwrap() {
        MapReference::External { url, method } => {
            assert_eq!(url.as_str(), "http://127.0.0.1:5173/maps/app.js.map");
            assert_eq!(method, DiscoveryMethod::SourceMapHeader);
        }
        MapReference::Inline { .. } => panic!("expected external map"),
    }
    assert!(matches!(
        parse_map_reference(&endpoint, &source, "data:application/json;base64,e30=", m),
        Ok(MapReference::Inline { .. })
    ));
}

#[test]
fn retained_urls_drop_query_fragment_and_credentials() {
    assert_eq!(
        sanitize_retained_url("http://127.0.0.1:5173/app.js?token=secret#frag").as_deref(),
        Some("http://127.0.0.1:5173/app.js")
    );
    assert_eq!(sanitize_retained_url("http://user:pw@127.0.0.1:5173/app.js"), None);
    assert_eq!(sanitize_retained_url("not a url"), None);
}

#[test]
fn source_map_header_prefers_sourcemap_then_x_sourcemap() {
    assert_eq!(
        source_map_header(Some("  a.map "), Some("b.map")),
        Some((DiscoveryMethod::SourceMapHeader, "a.map".to_string()))
    );
    assert_eq!(
        source_map_header(Some("   "), Some("b.map")),
        Some((DiscoveryMethod::XSourceMapHeader, "b.map".to_string()))
    );
    assert_eq!(source_map_header(None, Some("")), None);
}

#[test]
fn annotation_is_standalone_and_limited_to_final_nonempty_lines() {
    let source = [
        "const decoy = '//# sourceMappingURL=decoy.map';",
        "",
        "console.log('x');",
        "",
        "//# sourceMappingURL=real.map",
    ]
    .join("\n");
    assert_eq!(source_mapping_url_annotation(&source).as_deref(), Some("real.map"));

    let too_early = [
        "//# sourceMappingURL=early.map",
        "one",
        "two",
        "three",
        "four",
        "five",
    ]
    .join("\n");
    assert_eq!(source_mapping_url_annotation(&too_early), None);
}

#[test]
fn legacy_annotation_and_crlf_lines_are_read() {
    let source = "code();\r\n//@ sourceMappingURL=  legacy.map  \r\n\r\n";
    assert_eq!(source_mapping_url_annotation(source).as_deref(), Some("legacy.map"));
    assert_eq!(source_mapping_url_annotation("//# sourceMappingURL=   "), None);
}

#[test]
fn redaction_markers_are_found_in_any_case_or_encoding() {
    assert!(contains_redacted_marker(Some("a=[REDACTED]")));
    assert!(contains_redacted_marker(Some("a=%5Bredacted%5D")));
    assert!(contains_redacted_marker(Some("a=%5B%52%45%44%41%43%54%45%44%5D")));
    assert!(!contains_redacted_marker(Some("a=redacted")));
    assert!(!contains_redacted_marker(None));
}

#[test]
fn unresolved_record_names_only_the_reason() {
    let record = unresolved_record(7, Some("app.js".into()), Some(3), None, UnresolvedReason::MapTooLarge);
    assert_eq!(record.observer_seq, 7);
    assert_eq!(record.unresolved_reason, Some(UnresolvedReason::MapTooLarge));
    assert!(record.original.is_none());
    assert!(record.discovery_method.is_none());
}

#[test]
fn runtime_positions_are_one_based_lines_and_zero_based_columns() {
    assert_eq!(generated_position(Some(3), Some(1)), (Some(3), Some(0)));
    assert_eq!(generated_position(Some(0), Some(0)), (None, None));
    assert_eq!(generated_position(Some(u64::from(u32::MAX) + 1), None), (None, None));
    let original = ResolvedSourceResponse { source: "src/App.tsx".into(), line: 4, column: 2, name: None };
    let record = resolved_record(9, None, 3, 0, DiscoveryMethod::InlineAnnotation, original);
    assert_eq!(record.generated_line, Some(3));
    assert_eq!(record.discovery_method, Some(DiscoveryMethod::InlineAnnotation));
    assert_eq!(record.unresolved_reason, None);
    assert_eq!(record.original.map(|o| o.line), Some(4));
}

#[test]
fn script_annotations_choose_inline_or_external_maps() {
    let endpoint = Endpoint { host: "127.0.0.1".into(), port: 5173, scheme: "http".into() };
    let source = UrlParts::parse("http://127.0.0.1:5173/src/main.js").unwrap();
    match map_reference_from_script(&endpoint, &source, "let a = 1;\n//# sourceMappingURL=main.js.map\n") {
        Ok(MapReference::External { url, method }) => {
            assert_eq!(url.as_str(), "http://127.0.0.1:5173/src/main.js.map");
            assert_eq!(method, DiscoveryMethod::ExternalAnnotation);
        }
        _ => panic!("external map expected"),
    }
    match map_reference_from_script(
        &endpoint,
        &source,
        "x\n//# sourceMappingURL=data:application/json;base64,e30=\n",
    ) {
        Ok(MapReference::Inline { json, method }) => {
            assert_eq!(json, "{}");
            assert_eq!(method, DiscoveryMethod::InlineAnnotation);
        }
        _ => panic!("inline map expected"),
    }
    assert!(matches!(
        map_reference_from_script(&endpoint, &source, "let a = 1;\n"),
        Err(UnresolvedReason::MapReferenceMissing)
    ));
    assert_eq!(source_fetch_reason(BoundedFetchError::Failed), UnresolvedReason::SourceFetchFailed);
    assert_eq!(source_fetch_reason(BoundedFetchError::TooLarge), UnresolvedReason::SourceTooLarge);
    assert_eq!(map_fetch_reason(BoundedFetchError::Failed), UnresolvedReason::MapFetchFailed);
    assert_eq!(map_fetch_reason(BoundedFetchError::TooLarge), UnresolvedReason::MapTooLarge);
    assert!(source_too_large(Some(2 * 1024 * 1024 + 1)));
    assert!(!source_too_large(Some(2 * 1024 * 1024)));
    assert!(!source_too_large(None));
}

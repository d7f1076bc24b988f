use localview::control::runtime_source_map::{
    bounded_payload_u32, is_loopback_url, runtime_source_position, RuntimeSourceError,
};
use localview::control::runtime_source_resolution::Endpoint;
use localview::control::source_map_runtime::ProjectSourceMapError;
use localview::web_url::UrlParts;

fn endpoint() -> Endpoint {
    Endpoint { host: "127.0.0.1".into(), port: 5173, scheme: "http".into() }
}

#[test]
fn loopback_authority_is_conservative() {
    for value in [
        "http://localhost:5173/app.js",
        "http://127.0.0.1:5173/app.js",
        "http://127.42.0.9:5173/app.js",
        "http://[::1]:5173/app.js",
    ] {
        assert!(is_loopback_url(&UrlParts::parse(value).expect("valid loopback URL")));
    }

    for value in ["http://192.168.1.20:5173/app.js", "http://example.com:5173/app.js"] {
        assert!(!is_loopback_url(&UrlParts::parse(value).expect("valid non-loopback URL")));
    }
}

#[test]
fn payload_position_bounds_are_exact() {
    let mut object = serde_json::Map::new();
    object.insert("line".to_string(), serde_json::Value::from(1u64));
    object.insert("column".to_string(), serde_json::Value::from(10_000_001u64));
    let payload = serde_json::Value::Object(object);
    let field = |key: &str| payload.get(key).and_then(serde_json::Value::as_u64);
    assert_eq!(bounded_payload_u32(field("line"), 1, 1_000_000), Some(1));
    assert_eq!(bounded_payload_u32(field("column"), 1, 10_000_001), Some(10_000_001));
    assert_eq!(bounded_payload_u32(field("missing"), 1, 10), None);
}

#[test]
fn runtime_positions_name_a_project_file_and_a_zero_based_column() {
    let endpoint = endpoint();
    assert_eq!(
        runtime_source_position(&endpoint, true, Some("http://localhost:5173/src/main.ts?t=1"), Some(12), Some(5)),
        Ok(("src/main.ts".to_string(), 12, 4))
    );
    assert_eq!(
        runtime_source_position(&endpoint, false, Some("http://127.0.0.1:5173/a.js"), Some(1), Some(1)),
        Err(RuntimeSourceError::RuntimeEventKindUnsupported)
    );
    assert_eq!(runtime_source_position(&endpoint, true, None, Some(1), Some(1)), Err(RuntimeSourceError::RuntimeSourceMissing));
    assert_eq!(runtime_source_position(&endpoint, true, Some(""), Some(1), Some(1)), Err(RuntimeSourceError::RuntimeSourceMissing));
    let long = format!("http://127.0.0.1:5173/{}.js", "a".repeat(1000));
    assert_eq!(runtime_source_position(&endpoint, true, Some(&long), Some(1), Some(1)), Err(RuntimeSourceError::RuntimeSourceMissing));
    assert_eq!(
        runtime_source_position(&endpoint, true, Some("file:///tmp/a.js"), Some(1), Some(1)),
        Err(RuntimeSourceError::RuntimeSourceUnsupported)
    );
    assert_eq!(
        runtime_source_position(&endpoint, true, Some("https://127.0.0.1:5173/a.js"), Some(1), Some(1)),
        Err(RuntimeSourceError::RuntimeSourceAuthorityMismatch)
    );
    assert_eq!(
        runtime_source_position(&endpoint, true, Some("http://127.0.0.1:9999/a.js"), Some(1), Some(1)),
        Err(RuntimeSourceError::RuntimeSourceAuthorityMismatch)
    );
    assert_eq!(
        runtime_source_position(&endpoint, true, Some("http://example.com:5173/a.js"), Some(1), Some(1)),
        Err(RuntimeSourceError::RuntimeSourceAuthorityMismatch)
    );
    assert_eq!(
        runtime_source_position(&endpoint, true, Some("http://127.0.0.1:5173/a%20b.js"), Some(1), Some(1)),
        Err(RuntimeSourceError::RuntimeSourceUnsupported)
    );
    assert_eq!(
        runtime_source_position(&endpoint, true, Some("http://127.0.0.1:5173/"), Some(1), Some(1)),
        Err(RuntimeSourceError::RuntimeSourceUnsupported)
    );
    assert_eq!(
        runtime_source_position(&endpoint, true, Some("http://127.0.0.1:5173/a.js"), Some(0), Some(1)),
        Err(RuntimeSourceError::RuntimePositionInvalid)
    );
    assert_eq!(
        runtime_source_position(&endpoint, true, Some("http://127.0.0.1:5173/a.js"), Some(1), Some(10_000_002)),
        Err(RuntimeSourceError::RuntimePositionInvalid)
    );
}

#[test]
fn runtime_source_errors_answer_with_their_status_and_code() {
    assert_eq!(RuntimeSourceError::RuntimeEventNotFound.status_and_code(), (404, "runtime_event_not_found"));
    assert_eq!(RuntimeSourceError::RuntimePositionInvalid.status_and_code(), (422, "runtime_position_invalid"));
    assert_eq!(
        RuntimeSourceError::Project(ProjectSourceMapError::SourceOutsideProject).status_and_code(),
        (403, "source_outside_project")
    );
    assert_eq!(ProjectSourceMapError::ProjectRootUnavailable.status(), 409);
}

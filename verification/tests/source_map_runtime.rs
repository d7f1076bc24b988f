use localview::control::source_map_runtime::{bounded_project_relative_path, MAX_REQUEST_PATH_BYTES};

#[test]
fn caller_path_must_be_bounded_and_project_relative() {
    assert_eq!(
        bounded_project_relative_path("dist/./app.js"),
        Some("dist/app.js".to_string())
    );
    assert!(bounded_project_relative_path("../outside.js").is_none());
    assert!(bounded_project_relative_path("").is_none());
    assert!(bounded_project_relative_path(&"a".repeat(MAX_REQUEST_PATH_BYTES + 1)).is_none());
}

use localview::control::vue_snapshot_authority::is_absolute_vue_candidate;

#[test]
fn recognizes_cross_platform_absolute_vue_candidates() {
    assert!(is_absolute_vue_candidate("/project/src/App.vue"));
    assert!(is_absolute_vue_candidate(r"\project\src\App.vue"));
    assert!(is_absolute_vue_candidate("C:/project/src/App.vue"));
    assert!(is_absolute_vue_candidate(r"C:\project\src\App.vue"));
    assert!(!is_absolute_vue_candidate("src/App.vue"));
}

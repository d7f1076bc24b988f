use localview::control::css_source_coordinate::{
    bounded_project_relative_path, direct_authority, project_relative_display, query_stylesheet,
    CssEvidenceQuery, CssSourceAuthority,
};
use localview::css_source::{
    normalize_css_value, normalize_selector, parse_stylesheet, CssParseError, ParsedDeclaration,
};

fn chars(s: &str) -> Vec<char> {
    s.chars().collect()
}

fn locate(
    source: &str,
    selector: &str,
    property: &str,
    value: &str,
    important: bool,
) -> Vec<ParsedDeclaration> {
    let selector: String = normalize_selector(&chars(selector))
        .expect("selector")
        .into_iter()
        .collect();
    let value: String = normalize_css_value(&chars(value))
        .expect("value")
        .into_iter()
        .collect();
    parse_stylesheet(source)
        .expect("parse CSS")
        .into_iter()
        .filter(|candidate| {
            candidate.selector == selector
                && candidate.property == property
                && candidate.value == value
                && candidate.important == important
        })
        .collect()
}

#[test]
fn simple_exact_match_and_minified_position_are_deterministic() {
    let matches = locate(".save{color:red}", ".save", "color", "red", false);
    assert_eq!(matches.len(), 1);
    assert_eq!((matches[0].line, matches[0].column), (1, 6));
}

#[test]
fn multiple_declarations_and_duplicate_selectors_remain_ambiguous() {
    let source = ".save { color: red; color: red; }\n.save { color: red; }";
    assert_eq!(locate(source, ".save", "color", "red", false).len(), 3);
}

#[test]
fn comments_quoted_semicolons_and_data_urls_do_not_split_declarations() {
    let source = r#"
            /* before */
            .save {
                content: "a;b";
                background-image: url("data:image/svg+xml;utf8,<svg></svg>");
                color: /* x */ red !important;
            }
        "#;
    let color = locate(source, ".save", "color", "red", true);
    assert_eq!(color.len(), 1);
    assert_eq!(locate(source, ".save", "content", r#""a;b""#, false).len(), 1);
    assert_eq!(
        locate(
            source,
            ".save",
            "background-image",
            r#"url("data:image/svg+xml;utf8,<svg></svg>")"#,
            false,
        )
        .len(),
        1
    );
}

#[test]
fn nested_media_and_supports_are_located_without_claiming_runtime_activity() {
    let source = "@media (min-width: 1px) { @supports (display: grid) { .save { color: red; } } }";
    assert_eq!(locate(source, ".save", "color", "red", false).len(), 1);
}

#[test]
fn unsupported_cascade_containers_fail_closed() {
    assert_eq!(
        parse_stylesheet("@layer base { .save { color: red; } }"),
        Err(CssParseError::Unsupported)
    );
    assert_eq!(
        parse_stylesheet(".save { & .child { color: red; } }"),
        Err(CssParseError::Unsupported)
    );
}

#[test]
fn crlf_and_utf8_columns_are_counted_from_source_text() {
    let crlf = ".x { color: blue; }\r\n.save { color: red; }";
    let match_crlf = &locate(crlf, ".save", "color", "red", false)[0];
    assert_eq!((match_crlf.line, match_crlf.column), (2, 8));

    let utf8 = ".é{color:red}";
    let match_utf8 = &locate(utf8, ".é", "color", "red", false)[0];
    assert_eq!((match_utf8.line, match_utf8.column), (1, 3));
    assert_eq!(match_utf8.source_map_column, 3);
}

#[test]
fn important_text_inside_string_is_not_priority() {
    let source = r#".x { content: "!important"; color: red ! IMPORTANT; }"#;
    assert_eq!(locate(source, ".x", "content", r#""!important""#, false).len(), 1);
    assert_eq!(locate(source, ".x", "color", "red", true).len(), 1);
}

#[test]
fn traversal_and_encoded_traversal_are_not_project_relative() {
    assert!(bounded_project_relative_path("../outside.css").is_none());
    assert!(bounded_project_relative_path("src/%2e%2e/outside.css").is_none());
    assert!(bounded_project_relative_path("/tmp/outside.css").is_none());
}

fn query(kind: &str, path: Option<&str>, selector: Option<&str>) -> CssEvidenceQuery {
    CssEvidenceQuery {
        source_kind: kind.to_string(),
        stylesheet_path: path.map(str::to_string),
        selector: selector.map(str::to_string),
        property: "Color".to_string(),
        value: "red".to_string(),
        important: false,
    }
}

#[test]
fn initial_authority_follows_the_runtime_source_kind() {
    assert_eq!(CssSourceAuthority::initial("same_origin_stylesheet").level, "stylesheet_hint");
    assert_eq!(CssSourceAuthority::initial("inline_element").level, "runtime_inline");
    assert_eq!(CssSourceAuthority::initial("inline_stylesheet").level, "runtime_inline");
    assert_eq!(CssSourceAuthority::initial("user_agent").level, "unresolved");
}

#[test]
fn query_needs_a_bounded_stylesheet_path_and_a_selector() {
    let inline = query("inline_element", Some("src/app.css"), Some(".save"));
    assert_eq!(query_stylesheet(&inline).unwrap_err().level, "runtime_inline");
    let no_selector = query("same_origin_stylesheet", Some("src/app.css"), None);
    assert_eq!(query_stylesheet(&no_selector).unwrap_err().level, "stylesheet_hint");
    let traversal = query("same_origin_stylesheet", Some("../app.css"), Some(".save"));
    assert_eq!(query_stylesheet(&traversal).unwrap_err().level, "stylesheet_hint");
    let ok = query("same_origin_stylesheet", Some("./src/app.css"), Some(".save"));
    assert_eq!(query_stylesheet(&ok).unwrap(), "src/app.css");
}

#[test]
fn unique_match_gives_the_exact_position_and_ambiguity_only_the_file() {
    let q = query("same_origin_stylesheet", Some("src/app.css"), Some(".save"));
    let exact = direct_authority("src/app.css".to_string(), ".save{color:red}", &q);
    assert_eq!(exact.level, "exact_declaration_position");
    assert_eq!((exact.line, exact.column), (Some(1), Some(6)));
    assert_eq!(exact.mapping.as_deref(), Some("direct_css"));
    let ambiguous = direct_authority(
        "src/app.css".to_string(),
        ".save{color:red} .save{color:red}",
        &q,
    );
    assert_eq!(ambiguous.level, "project_file_verified");
    assert_eq!(ambiguous.file.as_deref(), Some("src/app.css"));
    assert_eq!(ambiguous.line, None);
}

#[test]
fn verified_display_is_relative_with_forward_slashes() {
    assert_eq!(
        project_relative_display("/project", "/project/src/app.css"),
        Some("src/app.css".to_string())
    );
    assert_eq!(project_relative_display("/project", "/other/app.css"), None);
    assert_eq!(project_relative_display("/project", "/project/src/50%.css"), None);
}

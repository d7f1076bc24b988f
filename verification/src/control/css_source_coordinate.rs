//! How strongly a CSS declaration seen at runtime is tied to a project source
//! file: the decisions taken before and after the stylesheet is read.
use vstd::prelude::*;
use crate::css_source::{
    normalize_css_value, normalize_selector, parse_stylesheet, spec_normalize_css_value,
    spec_normalize_selector, spec_parse_stylesheet, CssDeclView, ParsedDeclaration,
};
use crate::control::source_map_runtime::{
    bounded_project_relative_path as request_relative_path, project_relative_display as request_display,
    spec_bounded_project_relative_path, spec_project_relative_display,
};
use crate::text::{chars_of, contains_char, has_char, lower_seq, lower_seq_eq, lowercase_ascii, eq_lit};

verus! {

/// A source authority: its level and, as far as it reaches, the file, position,
/// kind of mapping and coordinate space.
#[derive(Debug, Clone, PartialEq, Eq)]
pub struct CssSourceAuthority {
    pub level: String,
    pub file: Option<String>,
    pub line: Option<u32>,
    pub column: Option<u32>,
    pub mapping: Option<String>,
    pub coordinate_space: Option<String>,
}

/// An authority of a level alone.
pub open spec fn bare_level(a: CssSourceAuthority, level: Seq<char>) -> bool {
    &&& a.level@ == level
    &&& a.file is None
    &&& a.line is None
    &&& a.column is None
    &&& a.mapping is None
    &&& a.coordinate_space is None
}

/// A verified project file without a position.
pub open spec fn file_level(a: CssSourceAuthority, file: Seq<char>) -> bool {
    &&& a.level@ == "project_file_verified"@
    &&& (a.file matches Some(f) && f@ == file)
    &&& a.line is None
    &&& a.column is None
    &&& a.mapping is None
    &&& a.coordinate_space is None
}

/// An exact declaration position.
pub open spec fn exact_level(
    a: CssSourceAuthority,
    file: Seq<char>,
    line: u32,
    column: u32,
    mapping: Seq<char>,
    space: Seq<char>,
) -> bool {
    &&& a.level@ == "exact_declaration_position"@
    &&& (a.file matches Some(f) && f@ == file)
    &&& a.line == Some(line)
    &&& a.column == Some(column)
    &&& (a.mapping matches Some(m) && m@ == mapping)
    &&& (a.coordinate_space matches Some(c) && c@ == space)
}

/// The level a runtime source kind starts at: a hint for a same-origin stylesheet,
/// runtime-inline for inline styles, else unresolved.
pub open spec fn initial_level(source_kind: Seq<char>) -> Seq<char> {
    if source_kind == "same_origin_stylesheet"@ {
        "stylesheet_hint"@
    } else if source_kind == "inline_element"@ || source_kind == "inline_stylesheet"@ {
        "runtime_inline"@
    } else {
        "unresolved"@
    }
}

impl CssSourceAuthority {
    fn level_only(level: &str) -> (r: Self)
        ensures
            bare_level(r, level@),
    {
        CssSourceAuthority {
            level: level.to_owned(),
            file: None,
            line: None,
            column: None,
            mapping: None,
            coordinate_space: None,
        }
    }

    /// The authority a runtime source kind starts with.
    pub fn initial(source_kind: &str) -> (r: Self)
        ensures
            bare_level(r, initial_level(source_kind@)),
    {
        let v = chars_of(source_kind);
        if eq_lit(v.as_slice(), "same_origin_stylesheet") {
            Self::stylesheet_hint()
        } else if eq_lit(v.as_slice(), "inline_element") || eq_lit(v.as_slice(), "inline_stylesheet") {
            Self::runtime_inline()
        } else {
            Self::unresolved()
        }
    }

    pub fn unresolved() -> (r: Self)
        ensures
            bare_level(r, "unresolved"@),
    {
        Self::level_only("unresolved")
    }

    pub fn stylesheet_hint() -> (r: Self)
        ensures
            bare_level(r, "stylesheet_hint"@),
    {
        Self::level_only("stylesheet_hint")
    }

    pub fn runtime_inline() -> (r: Self)
        ensures
            bare_level(r, "runtime_inline"@),
    {
        Self::level_only("runtime_inline")
    }

    pub fn project_file_verified(file: String) -> (r: Self)
        ensures
            file_level(r, file@),
    {
        CssSourceAuthority {
            level: "project_file_verified".to_owned(),
            file: Some(file),
            line: None,
            column: None,
            mapping: None,
            coordinate_space: None,
        }
    }

    pub fn exact(file: String, line: u32, column: u32, mapping: &str, coordinate_space: &str) -> (r: Self)
        ensures
            exact_level(r, file@, line, column, mapping@, coordinate_space@),
    {
        CssSourceAuthority {
            level: "exact_declaration_position".to_owned(),
            file: Some(file),
            line: Some(line),
            column: Some(column),
            mapping: Some(mapping.to_owned()),
            coordinate_space: Some(coordinate_space.to_owned()),
        }
    }
}

/// What is known of a declaration at runtime.
#[derive(Debug, Clone)]
pub struct CssEvidenceQuery {
    pub source_kind: String,
    pub stylesheet_path: Option<String>,
    pub selector: Option<String>,
    pub property: String,
    pub value: String,
    pub important: bool,
}

/// A stylesheet path a page names: a bounded project-relative path without `%`.
pub open spec fn spec_css_relative_path(v: Seq<char>) -> Option<Seq<char>> {
    if contains_char(v, '%') {
        None
    } else {
        spec_bounded_project_relative_path(v)
    }
}

/// The project-relative form of a stylesheet path a page names.
pub fn bounded_project_relative_path(value: &str) -> (r: Option<String>)
    ensures
        match r {
            Some(n) => spec_css_relative_path(value@) == Some(n@),
            None => spec_css_relative_path(value@) is None,
        },
{
    let v = chars_of(value);
    if has_char(v.as_slice(), '%') {
        return None;
    }
    request_relative_path(value)
}

/// How a verified file is shown: relative to the root, with forward slashes,
/// bounded, and itself an acceptable stylesheet path.
pub open spec fn spec_css_display(path: Seq<char>, root: Seq<char>) -> Option<Seq<char>> {
    match spec_project_relative_display(path, root) {
        Some(v) => if spec_css_relative_path(v) is Some {
            Some(v)
        } else {
            None
        },
        None => None,
    }
}

/// How a verified file is shown.
pub fn project_relative_display(root: &str, path: &str) -> (r: Option<String>)
    ensures
        match r {
            Some(n) => spec_css_display(path@, root@) == Some(n@),
            None => spec_css_display(path@, root@) is None,
        },
{
    let value = match request_display(root, path) {
        Some(v) => v,
        None => return None,
    };
    if bounded_project_relative_path(value.as_str()).is_none() {
        return None;
    }
    Some(value)
}

/// The project-relative stylesheet a query may be resolved in, or the authority
/// given without reading any file.
pub open spec fn query_target(q: CssEvidenceQuery) -> Result<Seq<char>, Seq<char>> {
    if q.source_kind@ != "same_origin_stylesheet"@ {
        Err(initial_level(q.source_kind@))
    } else {
        match (q.stylesheet_path, q.selector) {
            (Some(p), Some(_)) => match spec_css_relative_path(p@) {
                Some(rel) => Ok(rel),
                None => Err("stylesheet_hint"@),
            },
            _ => Err("stylesheet_hint"@),
        }
    }
}

/// The stylesheet to read for a query, or the authority it gets without one.
pub fn query_stylesheet(query: &CssEvidenceQuery) -> (r: Result<String, CssSourceAuthority>)
    ensures
        match r {
            Ok(rel) => query_target(*query) == Ok::<Seq<char>, Seq<char>>(rel@),
            Err(a) => query_target(*query) matches Err(level) && bare_level(a, level),
        },
{
    let kind = chars_of(query.source_kind.as_str());
    if !eq_lit(kind.as_slice(), "same_origin_stylesheet") {
        return Err(CssSourceAuthority::initial(query.source_kind.as_str()));
    }
    let path = match &query.stylesheet_path {
        Some(p) => p,
        None => return Err(CssSourceAuthority::stylesheet_hint()),
    };
    if query.selector.is_none() {
        return Err(CssSourceAuthority::stylesheet_hint());
    }
    match bounded_project_relative_path(path.as_str()) {
        Some(rel) => Ok(rel),
        None => Err(CssSourceAuthority::stylesheet_hint()),
    }
}

/// Whether a located declaration is the one a query describes.
pub open spec fn declaration_matches(
    d: CssDeclView,
    selector: Seq<char>,
    property: Seq<char>,
    value: Seq<char>,
    important: bool,
) -> bool {
    &&& d.selector == selector
    &&& d.property.len() == property.len()
    &&& lower_seq(d.property) == lower_seq(property)
    &&& d.value == value
    &&& d.important == important
}

/// The positions of the declarations that match.
pub open spec fn matching(
    ds: Seq<CssDeclView>,
    selector: Seq<char>,
    property: Seq<char>,
    value: Seq<char>,
    important: bool,
) -> Seq<int>
    decreases ds.len(),
{
    if ds.len() == 0 {
        Seq::empty()
    } else {
        let rest = matching(ds.drop_last(), selector, property, value, important);
        if declaration_matches(ds.last(), selector, property, value, important) {
            rest.push(ds.len() - 1)
        } else {
            rest
        }
    }
}

/// The declaration a query pins down in a stylesheet's text: the stylesheet
/// parses, the query's selector and value normalise, and exactly one declaration
/// matches them.
pub open spec fn located(source: Seq<char>, q: CssEvidenceQuery) -> Option<CssDeclView> {
    match (spec_parse_stylesheet(source), spec_normalize_selector(q.selector->0@), spec_normalize_css_value(q.value@)) {
        (Ok(ds), Some(sel), Some(val)) => {
            let m = matching(ds, sel, q.property@, val, q.important);
            if q.selector is Some && m.len() == 1 {
                Some(ds[m[0]])
            } else {
                None
            }
        },
        _ => None,
    }
}

fn property_matches(a: &String, b: &String) -> (r: bool)
    ensures
        r == (a@.len() == b@.len() && lower_seq(a@) == lower_seq(b@)),
{
    let av = chars_of(a.as_str());
    let bv = chars_of(b.as_str());
    if av.len() != bv.len() {
        return false;
    }
    let bl = lowercase_ascii(bv.as_slice());
    lower_seq_eq(av.as_slice(), bl.as_slice())
}

/// The authority of a query once its verified stylesheet has been read: the exact
/// position of the one declaration the query pins down, else the verified file.
pub fn direct_authority(verified_file: String, source: &str, query: &CssEvidenceQuery) -> (r:
    CssSourceAuthority)
    requires
        query.selector matches Some(s) ==> s@.len() < crate::css_source::scan_bound(),
        query.value@.len() < crate::css_source::scan_bound(),
    ensures
        match located(source@, *query) {
            Some(d) => exact_level(
                r,
                verified_file@,
                d.line as u32,
                d.column as u32,
                "direct_css"@,
                "line_1_based_column_unicode_scalar_0_based"@,
            ),
            None => file_level(r, verified_file@),
        },
{
    let selector = match &query.selector {
        Some(s) => s,
        None => return CssSourceAuthority::project_file_verified(verified_file),
    };
    let parsed = match parse_stylesheet(source) {
        Ok(p) => p,
        Err(_) => return CssSourceAuthority::project_file_verified(verified_file),
    };
    let sv = chars_of(selector.as_str());
    let expected_selector = match normalize_selector(sv.as_slice()) {
        Some(s) => s,
        None => return CssSourceAuthority::project_file_verified(verified_file),
    };
    let vv = chars_of(query.value.as_str());
    let expected_value = match normalize_css_value(vv.as_slice()) {
        Some(v) => v,
        None => return CssSourceAuthority::project_file_verified(verified_file),
    };
    let ghost ds = crate::css_source::views(parsed@);
    let mut found: Option<usize> = None;
    let mut count: usize = 0;
    let mut i: usize = 0;
    while i < parsed.len()
        invariant
            i <= parsed@.len(),
            ds == crate::css_source::views(parsed@),
            count == matching(ds.take(i as int), expected_selector@, query.property@, expected_value@, query.important).len(),
            count <= i,
            count >= 1 ==> (found matches Some(k) && k < i && k == matching(
                ds.take(i as int),
                expected_selector@,
                query.property@,
                expected_value@,
                query.important,
            )[0]),
        decreases parsed@.len() - i,
    {
        let d = &parsed[i];
        proof {
            assert(ds.take(i + 1).drop_last() == ds.take(i as int));
            assert(ds.take(i + 1).last() == ds[i as int]);
            assert(ds[i as int] == parsed@[i as int]@);
        }
        let sel_here = chars_of(d.selector.as_str());
        let val_here = chars_of(d.value.as_str());
        if crate::text::seq_eq(sel_here.as_slice(), expected_selector.as_slice()) && property_matches(
            &d.property,
            &query.property,
        ) && crate::text::seq_eq(val_here.as_slice(), expected_value.as_slice()) && d.important
            == query.important {
            if count == 0 {
                found = Some(i);
            }
            proof {
                let before = matching(ds.take(i as int), expected_selector@, query.property@, expected_value@, query.important);
                let after = matching(ds.take(i + 1), expected_selector@, query.property@, expected_value@, query.important);
                assert(after == before.push(i as int));
                if count >= 1 {
                    assert(after[0] == before[0]);
                }
            }
            count += 1;
        }
        i += 1;
    }
    proof {
        assert(ds.take(i as int) == ds);
    }
    if count != 1 {
        return CssSourceAuthority::project_file_verified(verified_file);
    }
    match found {
        Some(k) => {
            let d = &parsed[k];
            proof {
                assert(ds[k as int] == parsed@[k as int]@);
            }
            CssSourceAuthority::exact(
                verified_file,
                d.line,
                d.column,
                "direct_css",
                "line_1_based_column_unicode_scalar_0_based",
            )
        },
        None => CssSourceAuthority::project_file_verified(verified_file),
    }
}

} // verus!

//! Fresh semantic snapshots: validation of framework source hints, and the source
//! locations and component ownership they give.
use vstd::prelude::*;
use crate::control::css_trace::{all_segments_normal, has_special_or_control, segments_normal, url_special};
use crate::text::{byte_len, byte_len_within, chars_of, contains_char, ends_with, has_char, has_prefix, has_suffix, starts_with};
use crate::canonical_json::decimal;

verus! {

pub open spec fn spec_valid_framework_relative_file(f: Seq<char>, extension: Seq<char>) -> bool {
    ends_with(f, extension) && !starts_with(f, seq!['/']) && !contains_char(f, '\\') && !(exists|i: int|
        0 <= i < f.len() && (url_special(f[i]) || crate::text::is_control(f[i]))) && all_segments_normal(f)
}

pub fn valid_framework_relative_file(file: &str, extension: &str) -> (r: bool)
    ensures
        r == spec_valid_framework_relative_file(file@, extension@),
{
    let v = chars_of(file);
    let ext = chars_of(extension);
    let slash: [char; 1] = ['/'];
    proof {
        assert(slash@ =~= seq!['/']);
    }
    if !has_suffix(v.as_slice(), ext.as_slice()) || has_prefix(v.as_slice(), &slash) || has_char(
        v.as_slice(),
        '\\',
    ) || has_special_or_control(v.as_slice()) {
        return false;
    }
    segments_normal(v.as_slice())
}

pub fn valid_svelte_relative_file(file: &str) -> (r: bool)
    ensures
        r == spec_valid_framework_relative_file(file@, ".svelte"@),
{
    valid_framework_relative_file(file, ".svelte")
}

pub fn valid_vue_relative_file(file: &str) -> (r: bool)
    ensures
        r == spec_valid_framework_relative_file(file@, ".vue"@),
{
    valid_framework_relative_file(file, ".vue")
}

/// Why a fresh semantic snapshot could not be had.
#[derive(Debug, Clone, Copy, PartialEq, Eq, Structural)]
pub enum FreshSnapshotError {
    SessionNotFound,
    Timeout,
    Failed,
    Invalid,
}

impl FreshSnapshotError {
    pub open spec fn spec_route_answer(self) -> (u16, Seq<char>) {
        match self {
            FreshSnapshotError::SessionNotFound => (404, "session_not_found"@),
            FreshSnapshotError::Timeout => (504, "fresh_semantic_snapshot_timeout"@),
            FreshSnapshotError::Failed => (502, "fresh_semantic_snapshot_failed"@),
            FreshSnapshotError::Invalid => (502, "invalid_fresh_semantic_snapshot"@),
        }
    }

    /// The HTTP status and error code with which the fresh snapshot route answers.
    pub fn route_answer(self) -> (r: (u16, &'static str))
        ensures
            (r.0, r.1@) == self.spec_route_answer(),
    {
        match self {
            FreshSnapshotError::SessionNotFound => (404, "session_not_found"),
            FreshSnapshotError::Timeout => (504, "fresh_semantic_snapshot_timeout"),
            FreshSnapshotError::Failed => (502, "fresh_semantic_snapshot_failed"),
            FreshSnapshotError::Invalid => (502, "invalid_fresh_semantic_snapshot"),
        }
    }
}


pub const MAX_SOURCE_FILE_BYTES: usize = 260;
pub const MAX_REACT_COMPONENT_BYTES: usize = 96;
pub const MAX_REACT_COMPONENT_ID_BYTES: usize = 384;
pub const MAX_REACT_SOURCE_LINE: u32 = 1000000;
pub const MAX_REACT_SOURCE_COLUMN: u32 = 10000001;
pub const MAX_SVELTE_COMPONENT_BYTES: usize = 96;
pub const MAX_SVELTE_COMPONENT_ID_BYTES: usize = 384;
pub const MAX_SVELTE_SOURCE_LINE: u32 = 1000000;
pub const MAX_SVELTE_SOURCE_COLUMN: u32 = 10000000;
pub const MAX_VUE_COMPONENT_BYTES: usize = 96;
pub const MAX_COMPONENT_SIGNAL_BYTES: usize = 64;
pub const MAX_ORIGIN_BYTES: usize = 64;

/// What a snapshot node's `sourceHint` object holds. A text field is absent
/// (`None`), present but not a string (`Some(None)`), or a string. `line` is there
/// only where it is a count; `column` is absent or null (`None`), present but not
/// a count (`Some(None)`), or a count.
#[derive(Debug, Clone)]
pub struct SourceHint {
    pub origin: Option<Option<String>>,
    pub file: Option<Option<String>>,
    pub line: Option<u64>,
    pub column: Option<Option<u64>>,
    pub component: Option<Option<String>>,
    pub signal: Option<Option<String>>,
}

/// Where in the project's source a node was written.
#[derive(Debug, Clone, PartialEq, Eq)]
pub struct SourceLocation {
    pub file: String,
    pub line: u32,
    pub column: Option<u32>,
    pub component: Option<String>,
}

/// Which framework component owns a node, and the signal that says so.
#[derive(Debug, Clone, PartialEq, Eq)]
pub struct ComponentOwnership {
    pub framework: Option<String>,
    pub file: String,
    pub component: String,
    pub signal: String,
}

pub struct SourceView {
    pub file: Seq<char>,
    pub line: u32,
    pub column: Option<u32>,
    pub component: Option<Seq<char>>,
}

pub struct OwnershipView {
    pub framework: Option<Seq<char>>,
    pub file: Seq<char>,
    pub component: Seq<char>,
    pub signal: Seq<char>,
}

pub open spec fn opt_seq(o: Option<String>) -> Option<Seq<char>> {
    match o {
        Some(s) => Some(s@),
        None => None,
    }
}

pub open spec fn source_view(s: SourceLocation) -> SourceView {
    SourceView { file: s.file@, line: s.line, column: s.column, component: opt_seq(s.component) }
}

pub open spec fn ownership_view(o: ComponentOwnership) -> OwnershipView {
    OwnershipView { framework: opt_seq(o.framework), file: o.file@, component: o.component@, signal: o.signal@ }
}

/// A text field that is a non-empty string of at most `max` bytes.
pub open spec fn bounded_field(f: Option<Option<String>>, max: usize) -> Option<Seq<char>> {
    match f {
        Some(Some(s)) => if s@.len() > 0 && byte_len(s@) <= max {
            Some(s@)
        } else {
            None
        },
        _ => None,
    }
}

fn bounded_required_string(f: &Option<Option<String>>, max: usize) -> (r: Option<String>)
    ensures
        opt_seq(r) == bounded_field(*f, max),
{
    match f {
        Some(Some(s)) => {
            let v = chars_of(s.as_str());
            proof {
                assert(v@.subrange(0, v@.len() as int) == v@);
            }
            if v.len() > 0 && byte_len_within(v.as_slice(), 0, v.len(), max).is_some() {
                Some(s.clone())
            } else {
                None
            }
        },
        _ => None,
    }
}

pub open spec fn known_origin(o: Seq<char>) -> bool {
    o == "data-component-source"@ || o == "data-source"@ || o == "react-dev-fiber"@ || o == "svelte-dev-meta"@
        || o == "vue-dev-instance"@
}

/// The column a hint gives: none where absent or null, nothing valid where it is
/// not a count of `u32`.
pub open spec fn hint_column(c: Option<Option<u64>>) -> Option<Option<u32>> {
    match c {
        None => Some(None),
        Some(None) => None,
        Some(Some(v)) => if v <= u32::MAX {
            Some(Some(v as u32))
        } else {
            None
        },
    }
}

/// The source location a hint gives. Hints of an unknown origin, or without a
/// bounded file and a line, are invalid; a Vue hint gives none. An explicit
/// component source names its component by file and line; a React hint needs a
/// line in `1..=MAX_REACT_SOURCE_LINE`, a column (if any) in
/// `1..=MAX_REACT_SOURCE_COLUMN` and a bounded component name, and names it
/// `react:file:name`; a Svelte hint needs a project-relative `.svelte` file, such
/// a line, a column up to `MAX_SVELTE_SOURCE_COLUMN` and a name, and names it
/// `svelte:file:name`; a plain source hint names no component.
pub open spec fn spec_project_source(h: Option<SourceHint>) -> Option<Option<SourceView>> {
    match h {
        None => Some(None),
        Some(h) => match bounded_field(h.origin, MAX_ORIGIN_BYTES) {
            None => None,
            Some(o) => if !known_origin(o) {
                None
            } else if o == "vue-dev-instance"@ {
                Some(None)
            } else {
                match (bounded_field(h.file, MAX_SOURCE_FILE_BYTES), h.line) {
                    (Some(file), Some(l)) => if l > u32::MAX {
                        None
                    } else {
                        let line = l as u32;
                        match hint_column(h.column) {
                            None => None,
                            Some(column) => if o == "data-component-source"@ {
                                Some(
                                    Some(
                                        SourceView {
                                            file,
                                            line,
                                            column,
                                            component: Some(file + ":"@ + decimal(line as nat)),
                                        },
                                    ),
                                )
                            } else if o == "react-dev-fiber"@ {
                                if line == 0 || line > MAX_REACT_SOURCE_LINE || (column matches Some(c) && (c
                                    == 0 || c > MAX_REACT_SOURCE_COLUMN)) {
                                    None
                                } else {
                                    match bounded_field(h.component, MAX_REACT_COMPONENT_BYTES) {
                                        None => None,
                                        Some(name) => {
                                            let id = "react:"@ + file + ":"@ + name;
                                            if byte_len(id) > MAX_REACT_COMPONENT_ID_BYTES {
                                                None
                                            } else {
                                                Some(Some(SourceView { file, line, column, component: Some(id) }))
                                            }
                                        },
                                    }
                                }
                            } else if o == "svelte-dev-meta"@ {
                                if !spec_valid_framework_relative_file(file, ".svelte"@) || line == 0 || line
                                    > MAX_SVELTE_SOURCE_LINE || column is None || column->0
                                    > MAX_SVELTE_SOURCE_COLUMN {
                                    None
                                } else {
                                    match bounded_field(h.component, MAX_SVELTE_COMPONENT_BYTES) {
                                        None => None,
                                        Some(name) => {
                                            let id = "svelte:"@ + file + ":"@ + name;
                                            if byte_len(id) > MAX_SVELTE_COMPONENT_ID_BYTES {
                                                None
                                            } else {
                                                Some(Some(SourceView { file, line, column, component: Some(id) }))
                                            }
                                        },
                                    }
                                }
                            } else {
                                Some(Some(SourceView { file, line, column, component: None }))
                            },
                        }
                    },
                    _ => None,
                }
            },
        },
    }
}

pub open spec fn opt_source(r: Option<Option<SourceLocation>>) -> Option<Option<SourceView>> {
    match r {
        Some(Some(s)) => Some(Some(source_view(s))),
        Some(None) => Some(None),
        None => None,
    }
}

fn text_eq(s: &String, lit: &str) -> (r: bool)
    ensures
        r == (s@ == lit@),
{
    crate::text::str_eq(s.as_str(), lit)
}

fn component_identity(prefix: &str, file: &String, name: &String) -> (r: String)
    ensures
        r@ == prefix@ + file@ + ":"@ + name@,
{
    let mut out = String::new();
    proof {
        assert(out@ == Seq::<char>::empty());
    }
    crate::canonical_json::append(&mut out, prefix);
    crate::canonical_json::append(&mut out, file.as_str());
    crate::canonical_json::append(&mut out, ":");
    crate::canonical_json::append(&mut out, name.as_str());
    proof {
        assert(out@ == Seq::<char>::empty() + prefix@ + file@ + ":"@ + name@);
        assert(Seq::<char>::empty() + prefix@ == prefix@);
    }
    out
}

fn byte_len_over(s: &String, max: usize) -> (r: bool)
    ensures
        r == (byte_len(s@) > max),
{
    let v = chars_of(s.as_str());
    proof {
        assert(v@.subrange(0, v@.len() as int) == v@);
    }
    byte_len_within(v.as_slice(), 0, v.len(), max).is_none()
}

/// The source location of a snapshot node's source hint.
pub fn project_source(hint: Option<&SourceHint>) -> (r: Option<Option<SourceLocation>>)
    ensures
        opt_source(r) == spec_project_source(match hint {
            Some(h) => Some(*h),
            None => None,
        }),
{
    let h = match hint {
        Some(h) => h,
        None => {
            return Some(None);
        },
    };
    let origin = match bounded_required_string(&h.origin, MAX_ORIGIN_BYTES) {
        Some(o) => o,
        None => {
            return None;
        },
    };
    let is_component = text_eq(&origin, "data-component-source");
    let is_plain = text_eq(&origin, "data-source");
    let is_react = text_eq(&origin, "react-dev-fiber");
    let is_svelte = text_eq(&origin, "svelte-dev-meta");
    let is_vue = text_eq(&origin, "vue-dev-instance");
    if !(is_component || is_plain || is_react || is_svelte || is_vue) {
        return None;
    }
    if is_vue {
        return Some(None);
    }
    let file = match bounded_required_string(&h.file, MAX_SOURCE_FILE_BYTES) {
        Some(f) => f,
        None => {
            return None;
        },
    };
    let l = match h.line {
        Some(l) => l,
        None => {
            return None;
        },
    };
    if l > u32::MAX as u64 {
        return None;
    }
    let line = l as u32;
    let column: Option<u32> = match h.column {
        None => None,
        Some(None) => {
            return None;
        },
        Some(Some(c)) => if c > u32::MAX as u64 {
            return None;
        } else {
            Some(c as u32)
        },
    };
    let component = if is_component {
        let mut id = String::new();
        proof {
            assert(id@ == Seq::<char>::empty());
        }
        crate::canonical_json::append(&mut id, file.as_str());
        crate::canonical_json::append(&mut id, ":");
        crate::canonical_json::push_decimal(&mut id, line as u64);
        proof {
            assert(Seq::<char>::empty() + file@ == file@);
        }
        Some(id)
    } else if is_react {
        if line == 0 || line > MAX_REACT_SOURCE_LINE || match column {
            Some(c) => c == 0 || c > MAX_REACT_SOURCE_COLUMN,
            None => false,
        } {
            return None;
        }
        let name = match bounded_required_string(&h.component, MAX_REACT_COMPONENT_BYTES) {
            Some(n) => n,
            None => {
                return None;
            },
        };
        let id = component_identity("react:", &file, &name);
        if byte_len_over(&id, MAX_REACT_COMPONENT_ID_BYTES) {
            return None;
        }
        Some(id)
    } else if is_svelte {
        if !valid_svelte_relative_file(file.as_str()) || line == 0 || line > MAX_SVELTE_SOURCE_LINE || match column {
            Some(c) => c > MAX_SVELTE_SOURCE_COLUMN,
            None => true,
        } {
            return None;
        }
        let name = match bounded_required_string(&h.component, MAX_SVELTE_COMPONENT_BYTES) {
            Some(n) => n,
            None => {
                return None;
            },
        };
        let id = component_identity("svelte:", &file, &name);
        if byte_len_over(&id, MAX_SVELTE_COMPONENT_ID_BYTES) {
            return None;
        }
        Some(id)
    } else {
        None
    };
    Some(Some(SourceLocation { file, line, column, component }))
}

/// The component ownership a source hint gives. A plain source hint gives none;
/// an explicit component source owns by its file-and-line component; React and
/// Svelte hints need a valid source location and a bounded component name, and
/// own only with a known signal (`debug_source` or `debug_stack`; `element_meta`);
/// a Vue hint owns with a project-relative `.vue` file, a component name and the
/// signal `element_parent_component`, and otherwise owns nothing without
/// invalidating the snapshot. Any other origin is invalid.
pub open spec fn spec_project_ownership(h: Option<SourceHint>) -> Option<Option<OwnershipView>> {
    match h {
        None => Some(None),
        Some(h) => match bounded_field(h.origin, MAX_ORIGIN_BYTES) {
            None => None,
            Some(o) => if o == "data-source"@ {
                Some(None)
            } else if o == "data-component-source"@ {
                match spec_project_source(Some(h)) {
                    Some(Some(s)) => match s.component {
                        Some(c) => Some(
                            Some(
                                OwnershipView {
                                    framework: None,
                                    file: s.file,
                                    component: c,
                                    signal: "data_component_source"@,
                                },
                            ),
                        ),
                        None => None,
                    },
                    _ => None,
                }
            } else if o == "react-dev-fiber"@ || o == "svelte-dev-meta"@ {
                match spec_project_source(Some(h)) {
                    Some(Some(s)) => match bounded_field(
                        h.component,
                        if o == "react-dev-fiber"@ {
                            MAX_REACT_COMPONENT_BYTES
                        } else {
                            MAX_SVELTE_COMPONENT_BYTES
                        },
                    ) {
                        None => None,
                        Some(c) => match bounded_field(h.signal, MAX_COMPONENT_SIGNAL_BYTES) {
                            None => Some(None),
                            Some(sig) => if (o == "react-dev-fiber"@ && (sig == "debug_source"@ || sig
                                == "debug_stack"@)) || (o == "svelte-dev-meta"@ && sig == "element_meta"@) {
                                Some(
                                    Some(
                                        OwnershipView {
                                            framework: Some(
                                                if o == "react-dev-fiber"@ {
                                                    "react"@
                                                } else {
                                                    "svelte"@
                                                },
                                            ),
                                            file: s.file,
                                            component: c,
                                            signal: sig,
                                        },
                                    ),
                                )
                            } else {
                                Some(None)
                            },
                        },
                    },
                    _ => None,
                }
            } else if o == "vue-dev-instance"@ {
                match (
                    bounded_field(h.file, MAX_SOURCE_FILE_BYTES),
                    bounded_field(h.component, MAX_VUE_COMPONENT_BYTES),
                    bounded_field(h.signal, MAX_COMPONENT_SIGNAL_BYTES),
                ) {
                    (Some(file), Some(component), Some(signal)) => if spec_valid_framework_relative_file(
                        file,
                        ".vue"@,
                    ) && signal == "element_parent_component"@ {
                        Some(Some(OwnershipView { framework: Some("vue"@), file, component, signal }))
                    } else {
                        Some(None)
                    },
                    _ => Some(None),
                }
            } else {
                None
            },
        },
    }
}

pub open spec fn opt_ownership(r: Option<Option<ComponentOwnership>>) -> Option<Option<OwnershipView>> {
    match r {
        Some(Some(o)) => Some(Some(ownership_view(o))),
        Some(None) => Some(None),
        None => None,
    }
}

/// The component ownership of a snapshot node's source hint.
pub fn project_ownership(hint: Option<&SourceHint>) -> (r: Option<Option<ComponentOwnership>>)
    ensures
        opt_ownership(r) == spec_project_ownership(match hint {
            Some(h) => Some(*h),
            None => None,
        }),
{
    let h = match hint {
        Some(h) => h,
        None => {
            return Some(None);
        },
    };
    let origin = match bounded_required_string(&h.origin, MAX_ORIGIN_BYTES) {
        Some(o) => o,
        None => {
            return None;
        },
    };
    if text_eq(&origin, "data-source") {
        return Some(None);
    }
    if text_eq(&origin, "data-component-source") {
        let source = match project_source(Some(h)) {
            Some(Some(s)) => s,
            _ => {
                return None;
            },
        };
        let component = match source.component {
            Some(c) => c,
            None => {
                return None;
            },
        };
        return Some(
            Some(
                ComponentOwnership {
                    framework: None,
                    file: source.file,
                    component,
                    signal: "data_component_source".to_owned(),
                },
            ),
        );
    }
    let is_react = text_eq(&origin, "react-dev-fiber");
    let is_svelte = text_eq(&origin, "svelte-dev-meta");
    if is_react || is_svelte {
        let source = match project_source(Some(h)) {
            Some(Some(s)) => s,
            _ => {
                return None;
            },
        };
        let max = if is_react {
            MAX_REACT_COMPONENT_BYTES
        } else {
            MAX_SVELTE_COMPONENT_BYTES
        };
        let component = match bounded_required_string(&h.component, max) {
            Some(c) => c,
            None => {
                return None;
            },
        };
        let signal = match bounded_required_string(&h.signal, MAX_COMPONENT_SIGNAL_BYTES) {
            Some(s) => s,
            None => {
                return Some(None);
            },
        };
        let known = if is_react {
            text_eq(&signal, "debug_source") || text_eq(&signal, "debug_stack")
        } else {
            text_eq(&signal, "element_meta")
        };
        if !known {
            proof {
                reveal_strlit("react-dev-fiber");
                reveal_strlit("svelte-dev-meta");
                assert(origin@ == "react-dev-fiber"@ ==> origin@ != "svelte-dev-meta"@);
            }
            return Some(None);
        }
        let framework = if is_react {
            "react".to_owned()
        } else {
            "svelte".to_owned()
        };
        return Some(Some(ComponentOwnership { framework: Some(framework), file: source.file, component, signal }));
    }
    if text_eq(&origin, "vue-dev-instance") {
        let file = match bounded_required_string(&h.file, MAX_SOURCE_FILE_BYTES) {
            Some(f) => f,
            None => {
                return Some(None);
            },
        };
        let component = match bounded_required_string(&h.component, MAX_VUE_COMPONENT_BYTES) {
            Some(c) => c,
            None => {
                return Some(None);
            },
        };
        let signal = match bounded_required_string(&h.signal, MAX_COMPONENT_SIGNAL_BYTES) {
            Some(s) => s,
            None => {
                return Some(None);
            },
        };
        if !valid_vue_relative_file(file.as_str()) || !text_eq(&signal, "element_parent_component") {
            return Some(None);
        }
        return Some(Some(ComponentOwnership { framework: Some("vue".to_owned()), file, component, signal }));
    }
    None
}

proof fn lemma_origins_differ()
    ensures
        "data-source"@ != "data-component-source"@,
        "data-source"@ != "react-dev-fiber"@,
        "data-source"@ != "svelte-dev-meta"@,
        "data-source"@ != "vue-dev-instance"@,
        "react-dev-fiber"@ != "data-component-source"@,
        "react-dev-fiber"@ != "vue-dev-instance"@,
        "svelte-dev-meta"@ != "data-component-source"@,
        "svelte-dev-meta"@ != "vue-dev-instance"@,
        "svelte-dev-meta"@ != "react-dev-fiber"@,
{
    reveal_strlit("data-source");
    reveal_strlit("data-component-source");
    reveal_strlit("react-dev-fiber");
    reveal_strlit("svelte-dev-meta");
    reveal_strlit("vue-dev-instance");
    assert("data-source"@.len() != "data-component-source"@.len());
    assert("data-source"@[5] != "react-dev-fiber"@[5]);
    assert("data-source"@[0] != "svelte-dev-meta"@[0]);
    assert("data-source"@[0] != "vue-dev-instance"@[0]);
    assert("react-dev-fiber"@[0] != "data-component-source"@[0]);
    assert("react-dev-fiber"@[0] != "vue-dev-instance"@[0]);
    assert("svelte-dev-meta"@[0] != "data-component-source"@[0]);
    assert("svelte-dev-meta"@[0] != "vue-dev-instance"@[0]);
    assert("svelte-dev-meta"@[0] != "react-dev-fiber"@[0]);
}

/// A plain source hint locates a node but never names a component or gives
/// ownership.
pub proof fn lemma_plain_source_hint_owns_nothing(h: SourceHint)
    requires
        bounded_field(h.origin, MAX_ORIGIN_BYTES) == Some("data-source"@),
    ensures
        spec_project_ownership(Some(h)) == Some(None::<OwnershipView>),
        spec_project_source(Some(h)) matches Some(Some(s)) ==> s.component is None,
{
    lemma_origins_differ();
    reveal_strlit("data-source");
}

/// A Vue hint never gives a source location.
pub proof fn lemma_vue_hint_never_locates(h: SourceHint)
    requires
        bounded_field(h.origin, MAX_ORIGIN_BYTES) == Some("vue-dev-instance"@),
    ensures
        spec_project_source(Some(h)) == Some(None::<SourceView>),
{
    reveal_strlit("vue-dev-instance");
}

/// A React or Svelte component is named by its file and component alone: two
/// hints of the same origin, file and component that both give a location give the
/// same component, whatever their lines and columns.
pub proof fn lemma_component_identity_ignores_position(a: SourceHint, b: SourceHint)
    requires
        bounded_field(a.origin, MAX_ORIGIN_BYTES) == bounded_field(b.origin, MAX_ORIGIN_BYTES),
        bounded_field(a.origin, MAX_ORIGIN_BYTES) == Some("react-dev-fiber"@) || bounded_field(
            a.origin,
            MAX_ORIGIN_BYTES,
        ) == Some("svelte-dev-meta"@),
        a.file == b.file,
        a.component == b.component,
        spec_project_source(Some(a)) is Some,
        spec_project_source(Some(b)) is Some,
    ensures
        spec_project_source(Some(a)) matches Some(Some(_)),
        spec_project_source(Some(a))->0->0.component == spec_project_source(Some(b))->0->0.component,
{
    lemma_origins_differ();
}

} // verus!

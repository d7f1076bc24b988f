//! Accessibility findings: normalising axe results, comparing DOM and native
//! accessibility evidence, and bounding the text a finding carries.
//!
//! Element references are held as their text (`@e` and hexadecimal digits).
use vstd::prelude::*;
use crate::text::{
    chars_of, eq_lit, has_prefix, is_ascii_alnum, is_ascii_hex, is_ws, push_char, string_of,
    utf8_width, width8, trim, trim_bounds,
};

verus! {

pub const MAX_AXE_FINDINGS: usize = 128;

pub const MAX_NATIVE_AX_RECORDS: usize = 256;

pub const MAX_FINDING_MESSAGE_BYTES: usize = 240;

pub const MAX_NATIVE_TEXT_BYTES: usize = 120;

#[derive(Debug, Clone, Copy, PartialEq, Eq, Structural)]
pub enum A11yEvidenceKind {
    LocalDeterministic,
    AxeRule,
    NativeAx,
    Heuristic,
}

impl Default for A11yEvidenceKind {
    fn default() -> (r: Self)
        ensures
            r == A11yEvidenceKind::LocalDeterministic,
    {
        A11yEvidenceKind::LocalDeterministic
    }
}

/// Where a finding points: a stable element reference, or nowhere in particular.
#[derive(Debug, Clone, PartialEq, Eq)]
pub enum TargetResolution {
    StableRef(String),
    Unresolved,
}

impl Default for TargetResolution {
    fn default() -> (r: Self)
        ensures
            r is Unresolved,
    {
        TargetResolution::Unresolved
    }
}

#[derive(Debug, Clone, PartialEq, Eq)]
pub struct A11yDiscrepancy {
    pub field: String,
    pub dom_value: Option<String>,
    pub native_value: Option<String>,
}

#[derive(Debug, Clone, PartialEq, Eq)]
pub struct A11yFinding {
    pub code: String,
    pub reference: String,
    pub message: String,
    pub deterministic: bool,
    pub confidence: u8,
    pub evidence_kind: A11yEvidenceKind,
    pub target_resolution: TargetResolution,
    pub rule_id: Option<String>,
    pub discrepancies: Vec<A11yDiscrepancy>,
}

#[derive(Debug, Clone, PartialEq, Eq)]
pub struct AxeRuleNode {
    pub rule_id: String,
    pub impact: Option<String>,
    pub help: String,
    pub stable_reference: Option<String>,
    pub exact_reference_mapping: bool,
}

/// The native evidence of an element together with where it differs from the DOM.
#[derive(Debug, Clone)]
pub struct NativeAxEnrichment<N> {
    pub reference: String,
    pub native: N,
    pub discrepancies: Vec<A11yDiscrepancy>,
}

#[derive(Debug, Clone, Copy, PartialEq, Eq, Structural)]
pub enum HitTestAuthority {
    GeometryOnly,
    BrowserHitTest,
    NativePointerHitTest,
}

/// A stable element reference: `@e` and one to 64 hexadecimal digits.
pub open spec fn is_stable_reference(s: Seq<char>) -> bool {
    &&& s.len() >= 3
    &&& s.len() <= 66
    &&& s[0] == '@'
    &&& s[1] == 'e'
    &&& forall|i: int| 2 <= i < s.len() ==> is_ascii_hex(#[trigger] s[i])
}

/// Whether a text is a stable element reference.
pub fn valid_stable_reference(reference: &str) -> (r: bool)
    ensures
        r == is_stable_reference(reference@),
{
    let v = chars_of(reference);
    if v.len() < 3 || v.len() > 66 || v[0] != '@' || v[1] != 'e' {
        return false;
    }
    let mut i: usize = 2;
    while i < v.len()
        invariant
            v@ == reference@,
            2 <= i <= v@.len(),
            forall|k: int| 2 <= k < i ==> is_ascii_hex(#[trigger] v@[k]),
        decreases v@.len() - i,
    {
        if !crate::text::ascii_hex(v[i]) {
            return false;
        }
        i += 1;
    }
    true
}

/// The number of leading characters that fit in `budget` UTF-8 bytes.
pub open spec fn fit_count(s: Seq<char>, budget: int) -> nat
    decreases s.len(),
{
    if s.len() == 0 || utf8_width(s[0]) > budget {
        0
    } else {
        1 + fit_count(s.drop_first(), budget - utf8_width(s[0]))
    }
}

/// The longest beginning of a text whose UTF-8 form has at most `max` bytes.
pub open spec fn bounded(s: Seq<char>, max: nat) -> Seq<char> {
    s.take(fit_count(s, max as int) as int)
}

fn fitting_chars(v: &[char], max_bytes: usize) -> (r: usize)
    ensures
        r == fit_count(v@, max_bytes as int),
        r <= v@.len(),
{
    let mut i: usize = 0;
    let mut used: usize = 0;
    proof {
        assert(v@.skip(0) == v@);
    }
    while i < v.len()
        invariant
            i <= v@.len(),
            used <= max_bytes,
            fit_count(v@, max_bytes as int) == i + fit_count(v@.skip(i as int), max_bytes - used),
        decreases v@.len() - i,
    {
        let w = width8(v[i]);
        proof {
            assert(v@.skip(i as int)[0] == v@[i as int]);
            assert(v@.skip(i as int).drop_first() == v@.skip(i + 1));
        }
        if w > max_bytes - used {
            return i;
        }
        used = used + w;
        i += 1;
    }
    proof {
        assert(v@.skip(i as int).len() == 0);
    }
    i
}

/// A text cut to at most `max_bytes` UTF-8 bytes, at a character boundary.
pub fn bounded_text(value: &str, max_bytes: usize) -> (r: String)
    ensures
        r@ == bounded(value@, max_bytes as nat),
{
    let v = chars_of(value);
    let n = fitting_chars(v.as_slice(), max_bytes);
    let r = string_of(v.as_slice(), 0, n);
    proof {
        assert(v@.subrange(0, n as int) == v@.take(n as int));
    }
    r
}

/// Native accessibility text cut to 120 UTF-8 bytes.
pub fn bounded_native_text(value: &str) -> (r: String)
    ensures
        r@ == bounded(value@, MAX_NATIVE_TEXT_BYTES as nat),
{
    bounded_text(value, MAX_NATIVE_TEXT_BYTES)
}

/// A character kept in an identifier: ASCII letters and digits, `-`, `_` and `.`.
pub open spec fn ident_char(c: char) -> bool {
    is_ascii_alnum(c) || c == '-' || c == '_' || c == '.'
}

/// The identifier characters of a text, in order.
pub open spec fn ident_chars(s: Seq<char>) -> Seq<char>
    decreases s.len(),
{
    if s.len() == 0 {
        Seq::empty()
    } else if ident_char(s.last()) {
        ident_chars(s.drop_last()).push(s.last())
    } else {
        ident_chars(s.drop_last())
    }
}

/// The identifier characters of a text, cut to `max_bytes` bytes.
pub fn bounded_identifier(value: &str, max_bytes: usize) -> (r: String)
    ensures
        r@ == bounded(ident_chars(value@), max_bytes as nat),
{
    let v = chars_of(value);
    let mut kept: Vec<char> = Vec::new();
    let mut i: usize = 0;
    while i < v.len()
        invariant
            i <= v@.len(),
            kept@ == ident_chars(v@.take(i as int)),
        decreases v@.len() - i,
    {
        proof {
            assert(v@.take(i + 1).drop_last() == v@.take(i as int));
        }
        let c = v[i];
        if crate::text::ascii_alnum(c) || c == '-' || c == '_' || c == '.' {
            kept.push(c);
        }
        i += 1;
    }
    proof {
        assert(v@.take(i as int) == v@);
    }
    let n = fitting_chars(kept.as_slice(), max_bytes);
    let r = string_of(kept.as_slice(), 0, n);
    proof {
        assert(kept@.subrange(0, n as int) == kept@.take(n as int));
    }
    r
}

pub open spec fn opt_text(o: Option<String>) -> Option<Seq<char>> {
    match o {
        Some(s) => Some(s@),
        None => None,
    }
}

/// A text without its surrounding whitespace, unless nothing is left.
pub open spec fn nonempty_trimmed(o: Option<Seq<char>>) -> Option<Seq<char>> {
    match o {
        Some(s) => if trim(s).len() == 0 {
            None
        } else {
            Some(trim(s))
        },
        None => None,
    }
}

/// A text without its surrounding whitespace, unless nothing is left.
pub fn normalize_nonempty(value: Option<&str>) -> (r: Option<String>)
    ensures
        opt_text(r) == nonempty_trimmed(match value {
            Some(s) => Some(s@),
            None => None,
        }),
{
    match value {
        Some(s) => {
            let v = chars_of(s);
            let (a, b) = trim_bounds(v.as_slice());
            if a == b {
                None
            } else {
                Some(string_of(v.as_slice(), a, b))
            }
        },
        None => None,
    }
}

/// A discrepancy as texts.
pub struct DiscrepancyView {
    pub field: Seq<char>,
    pub dom_value: Option<Seq<char>>,
    pub native_value: Option<Seq<char>>,
}

pub open spec fn discrepancy_view(d: A11yDiscrepancy) -> DiscrepancyView {
    DiscrepancyView {
        field: d.field@,
        dom_value: opt_text(d.dom_value),
        native_value: opt_text(d.native_value),
    }
}

pub open spec fn discrepancy_views(v: Seq<A11yDiscrepancy>) -> Seq<DiscrepancyView> {
    v.map_values(|d: A11yDiscrepancy| discrepancy_view(d))
}

/// The discrepancy of a text field: both sides present (after trimming) and
/// different, each side then cut to 120 bytes.
pub open spec fn text_difference(field: Seq<char>, dom: Option<Seq<char>>, native: Option<Seq<char>>) -> Seq<
    DiscrepancyView,
> {
    let d = nonempty_trimmed(dom);
    let n = nonempty_trimmed(native);
    if d is Some && n is Some && d != n {
        seq![
            DiscrepancyView {
                field,
                dom_value: Some(bounded(d->0, 120)),
                native_value: Some(bounded(n->0, 120)),
            },
        ]
    } else {
        Seq::empty()
    }
}

pub open spec fn bool_text(b: bool) -> Seq<char> {
    if b {
        "true"@
    } else {
        "false"@
    }
}

/// The discrepancy of a yes-or-no field: both sides present and different.
pub open spec fn bool_difference(field: Seq<char>, dom: Option<bool>, native: Option<bool>) -> Seq<
    DiscrepancyView,
> {
    if dom is Some && native is Some && dom != native {
        seq![
            DiscrepancyView {
                field,
                dom_value: Some(bool_text(dom->0)),
                native_value: Some(bool_text(native->0)),
            },
        ]
    } else {
        Seq::empty()
    }
}

/// Records where a text field differs between the DOM and native evidence.
pub fn discrepancy(out: &mut Vec<A11yDiscrepancy>, field: &str, dom: Option<&str>, native: Option<&str>)
    ensures
        discrepancy_views(final(out)@) == discrepancy_views(old(out)@) + text_difference(
            field@,
            match dom {
                Some(s) => Some(s@),
                None => None,
            },
            match native {
                Some(s) => Some(s@),
                None => None,
            },
        ),
{
    let d = normalize_nonempty(dom);
    let n = normalize_nonempty(native);
    let ghost before = discrepancy_views(out@);
    match (&d, &n) {
        (Some(a), Some(b)) => {
            if *a != *b {
                let entry = A11yDiscrepancy {
                    field: field.to_owned(),
                    dom_value: Some(bounded_text(a.as_str(), 120)),
                    native_value: Some(bounded_text(b.as_str(), 120)),
                };
                out.push(entry);
                proof {
                    assert(discrepancy_views(out@) == before.push(discrepancy_view(entry)));
                }
            } else {
                proof {
                    assert(discrepancy_views(out@) == before + Seq::<DiscrepancyView>::empty());
                }
            }
        },
        _ => {
            proof {
                assert(discrepancy_views(out@) == before + Seq::<DiscrepancyView>::empty());
            }
        },
    }
}

/// Records where a yes-or-no field differs between the DOM and native evidence.
pub fn discrepancy_bool(out: &mut Vec<A11yDiscrepancy>, field: &str, dom: Option<bool>, native: Option<bool>)
    ensures
        discrepancy_views(final(out)@) == discrepancy_views(old(out)@) + bool_difference(
            field@,
            dom,
            native,
        ),
{
    let ghost before = discrepancy_views(out@);
    match (dom, native) {
        (Some(a), Some(b)) => {
            if a != b {
                let av = if a {
                    "true".to_owned()
                } else {
                    "false".to_owned()
                };
                let bv = if b {
                    "true".to_owned()
                } else {
                    "false".to_owned()
                };
                let entry = A11yDiscrepancy {
                    field: field.to_owned(),
                    dom_value: Some(av),
                    native_value: Some(bv),
                };
                out.push(entry);
                proof {
                    assert(discrepancy_views(out@) == before.push(discrepancy_view(entry)));
                }
            } else {
                proof {
                    assert(discrepancy_views(out@) == before + Seq::<DiscrepancyView>::empty());
                }
            }
        },
        _ => {
            proof {
                assert(discrepancy_views(out@) == before + Seq::<DiscrepancyView>::empty());
            }
        },
    }
}

/// The fields of accessibility evidence that DOM and native sources both give.
#[derive(Debug, Clone)]
pub struct AxFields {
    pub role: Option<String>,
    pub name: Option<String>,
    pub focusable: Option<bool>,
    pub enabled: Option<bool>,
    pub selected: Option<bool>,
    pub expanded: Option<bool>,
    pub offscreen: Option<bool>,
}

/// Where DOM and native evidence differ, field by field in a fixed order.
pub open spec fn field_differences(dom: AxFields, native: AxFields) -> Seq<DiscrepancyView> {
    text_difference("role"@, opt_text(dom.role), opt_text(native.role)) + text_difference(
        "name"@,
        opt_text(dom.name),
        opt_text(native.name),
    ) + bool_difference("focusable"@, dom.focusable, native.focusable) + bool_difference(
        "enabled"@,
        dom.enabled,
        native.enabled,
    ) + bool_difference("selected"@, dom.selected, native.selected) + bool_difference(
        "expanded"@,
        dom.expanded,
        native.expanded,
    ) + bool_difference("offscreen"@, dom.offscreen, native.offscreen)
}

fn opt_str(o: &Option<String>) -> (r: Option<&str>)
    ensures
        match r {
            Some(s) => opt_text(*o) == Some(s@),
            None => o is None,
        },
{
    match o {
        Some(s) => Some(s.as_str()),
        None => None,
    }
}

/// Where DOM and native evidence differ in role, name and the yes-or-no fields.
pub fn field_discrepancies(dom: &AxFields, native: &AxFields) -> (r: Vec<A11yDiscrepancy>)
    ensures
        discrepancy_views(r@) == field_differences(*dom, *native),
{
    let mut out: Vec<A11yDiscrepancy> = Vec::new();
    proof {
        assert(discrepancy_views(out@) == Seq::<DiscrepancyView>::empty());
    }
    discrepancy(&mut out, "role", opt_str(&dom.role), opt_str(&native.role));
    discrepancy(&mut out, "name", opt_str(&dom.name), opt_str(&native.name));
    discrepancy_bool(&mut out, "focusable", dom.focusable, native.focusable);
    discrepancy_bool(&mut out, "enabled", dom.enabled, native.enabled);
    discrepancy_bool(&mut out, "selected", dom.selected, native.selected);
    discrepancy_bool(&mut out, "expanded", dom.expanded, native.expanded);
    discrepancy_bool(&mut out, "offscreen", dom.offscreen, native.offscreen);
    proof {
        assert(discrepancy_views(out@) == field_differences(*dom, *native));
    }
    out
}

fn clone_text(o: &Option<String>) -> (r: Option<String>)
    ensures
        r == *o,
{
    match o {
        Some(s) => Some(s.clone()),
        None => None,
    }
}

fn clone_discrepancies(v: &Vec<A11yDiscrepancy>) -> (r: Vec<A11yDiscrepancy>)
    ensures
        r@ == v@,
{
    let mut out: Vec<A11yDiscrepancy> = Vec::new();
    let mut i: usize = 0;
    while i < v.len()
        invariant
            i <= v@.len(),
            out@ == v@.take(i as int),
        decreases v@.len() - i,
    {
        let d = &v[i];
        out.push(
            A11yDiscrepancy {
                field: d.field.clone(),
                dom_value: clone_text(&d.dom_value),
                native_value: clone_text(&d.native_value),
            },
        );
        proof {
            assert(v@.take(i + 1) == v@.take(i as int).push(v@[i as int]));
        }
        i += 1;
    }
    proof {
        assert(v@.take(i as int) == v@);
    }
    out
}

impl A11yFinding {
    /// A finding of the local audit about the element `reference`, its message cut
    /// to 240 bytes; deterministic findings are local evidence, others heuristic.
    pub fn local(code: &str, reference: &str, message: String, deterministic: bool, confidence: u8) -> (r:
        Self)
        ensures
            r.code@ == code@,
            r.reference@ == reference@,
            r.message@ == bounded(message@, MAX_FINDING_MESSAGE_BYTES as nat),
            r.deterministic == deterministic,
            r.confidence == confidence,
            r.evidence_kind == if deterministic {
                A11yEvidenceKind::LocalDeterministic
            } else {
                A11yEvidenceKind::Heuristic
            },
            r.target_resolution matches TargetResolution::StableRef(s) && s@ == reference@,
            r.rule_id is None,
            r.discrepancies@.len() == 0,
    {
        A11yFinding {
            code: code.to_owned(),
            reference: reference.to_owned(),
            message: bounded_text(message.as_str(), MAX_FINDING_MESSAGE_BYTES),
            deterministic,
            confidence,
            evidence_kind: if deterministic {
                A11yEvidenceKind::LocalDeterministic
            } else {
                A11yEvidenceKind::Heuristic
            },
            target_resolution: TargetResolution::StableRef(reference.to_owned()),
            rule_id: None,
            discrepancies: Vec::new(),
        }
    }
}

/// Whether an axe result names the element it is about: an exact mapping to a
/// stable reference.
pub open spec fn axe_resolved(n: AxeRuleNode) -> bool {
    n.exact_reference_mapping && (n.stable_reference matches Some(r) && is_stable_reference(r@))
}

/// The finding an axe result becomes.
pub open spec fn axe_finding(f: A11yFinding, n: AxeRuleNode) -> bool {
    let resolved = axe_resolved(n);
    let reference = if resolved {
        n.stable_reference->0@
    } else {
        Seq::empty()
    };
    &&& f.code@ == bounded(ident_chars(n.rule_id@), 96)
    &&& f.reference@ == reference
    &&& f.message@ == bounded(n.help@, MAX_FINDING_MESSAGE_BYTES as nat)
    &&& !f.deterministic
    &&& f.confidence == (if resolved {
        96u8
    } else {
        88u8
    })
    &&& f.evidence_kind == A11yEvidenceKind::AxeRule
    &&& (if resolved {
        f.target_resolution matches TargetResolution::StableRef(s) && s@ == reference
    } else {
        f.target_resolution is Unresolved
    })
    &&& (f.rule_id matches Some(id) && id@ == f.code@)
    &&& f.discrepancies@.len() == 0
}

/// Findings of the first axe results (at most `max_findings`, and never more than
/// 128), one per result and in order.
pub fn normalize_axe_findings(nodes: &[AxeRuleNode], max_findings: usize) -> (r: Vec<A11yFinding>)
    ensures
        r@.len() == vstd::math::min(
            nodes@.len() as int,
            vstd::math::min(max_findings as int, MAX_AXE_FINDINGS as int),
        ),
        forall|k: int| 0 <= k < r@.len() ==> axe_finding(#[trigger] r@[k], nodes@[k]),
{
    let cap = if max_findings < MAX_AXE_FINDINGS {
        max_findings
    } else {
        MAX_AXE_FINDINGS
    };
    let n = if nodes.len() < cap {
        nodes.len()
    } else {
        cap
    };
    let mut out: Vec<A11yFinding> = Vec::new();
    let mut i: usize = 0;
    while i < n
        invariant
            n <= nodes@.len(),
            i <= n,
            out@.len() == i,
            forall|k: int| 0 <= k < i ==> axe_finding(#[trigger] out@[k], nodes@[k]),
        decreases n - i,
    {
        let node = &nodes[i];
        let resolved = node.exact_reference_mapping && match &node.stable_reference {
            Some(r) => valid_stable_reference(r.as_str()),
            None => false,
        };
        let reference = if resolved {
            match &node.stable_reference {
                Some(r) => r.clone(),
                None => String::new(),
            }
        } else {
            String::new()
        };
        let code = bounded_identifier(node.rule_id.as_str(), 96);
        let finding = A11yFinding {
            code: code.clone(),
            reference: reference.clone(),
            message: bounded_text(node.help.as_str(), MAX_FINDING_MESSAGE_BYTES),
            deterministic: false,
            confidence: if resolved {
                96
            } else {
                88
            },
            evidence_kind: A11yEvidenceKind::AxeRule,
            target_resolution: if resolved {
                TargetResolution::StableRef(reference)
            } else {
                TargetResolution::Unresolved
            },
            rule_id: Some(code),
            discrepancies: Vec::new(),
        };
        out.push(finding);
        i += 1;
    }
    out
}

/// The positions of the enrichments that found a discrepancy.
pub open spec fn flagged<N>(entries: Seq<NativeAxEnrichment<N>>) -> Seq<int>
    decreases entries.len(),
{
    if entries.len() == 0 {
        Seq::empty()
    } else if entries.last().discrepancies@.len() > 0 {
        flagged(entries.drop_last()).push(entries.len() - 1)
    } else {
        flagged(entries.drop_last())
    }
}

/// Texts joined by commas.
pub open spec fn comma_joined(t: Seq<Seq<char>>) -> Seq<char>
    decreases t.len(),
{
    if t.len() == 0 {
        Seq::empty()
    } else if t.len() == 1 {
        t[0]
    } else {
        comma_joined(t.drop_last()) + seq![','] + t.last()
    }
}

/// The names of the first eight discrepant fields.
pub open spec fn listed_fields(d: Seq<A11yDiscrepancy>) -> Seq<Seq<char>> {
    d.take(vstd::math::min(d.len() as int, 8)).map_values(|x: A11yDiscrepancy| x.field@)
}

/// The finding a discrepant enrichment becomes.
pub open spec fn native_finding<N>(f: A11yFinding, e: NativeAxEnrichment<N>) -> bool {
    &&& f.code@ == "dom_native_ax_discrepancy"@
    &&& f.reference@ == e.reference@
    &&& f.message@ == bounded(
        "DOM/native AX evidence differs for: "@ + comma_joined(listed_fields(e.discrepancies@)),
        MAX_FINDING_MESSAGE_BYTES as nat,
    )
    &&& !f.deterministic
    &&& f.confidence == 92
    &&& f.evidence_kind == A11yEvidenceKind::NativeAx
    &&& (f.target_resolution matches TargetResolution::StableRef(s) && s@ == e.reference@)
    &&& f.rule_id is None
    &&& f.discrepancies@ == e.discrepancies@
}

fn push_str_chars(out: &mut Vec<char>, s: &String)
    ensures
        final(out)@ == old(out)@ + s@,
{
    let v = chars_of(s.as_str());
    let mut i: usize = 0;
    let ghost start = out@;
    while i < v.len()
        invariant
            i <= v@.len(),
            out@ == start + v@.take(i as int),
        decreases v@.len() - i,
    {
        out.push(v[i]);
        proof {
            assert(v@.take(i + 1) == v@.take(i as int).push(v@[i as int]));
        }
        i += 1;
    }
    proof {
        assert(v@.take(i as int) == v@);
    }
}

fn discrepancy_message(d: &Vec<A11yDiscrepancy>) -> (r: String)
    ensures
        r@ == bounded(
            "DOM/native AX evidence differs for: "@ + comma_joined(listed_fields(d@)),
            MAX_FINDING_MESSAGE_BYTES as nat,
        ),
{
    let mut text: Vec<char> = chars_of("DOM/native AX evidence differs for: ");
    let ghost head = text@;
    let n = if d.len() < 8 {
        d.len()
    } else {
        8
    };
    let ghost fields = listed_fields(d@);
    let mut k: usize = 0;
    while k < n
        invariant
            n <= d@.len(),
            n == vstd::math::min(d@.len() as int, 8),
            fields == listed_fields(d@),
            k <= n,
            text@ == head + comma_joined(fields.take(k as int)),
        decreases n - k,
    {
        proof {
            assert(fields.take(k + 1).drop_last() == fields.take(k as int));
            assert(fields.take(k + 1).last() == d@[k as int].field@);
        }
        if k > 0 {
            text.push(',');
        }
        push_str_chars(&mut text, &d[k].field);
        proof {
            if k == 0 {
                assert(fields.take(1).len() == 1);
                assert(comma_joined(fields.take(1)) == fields.take(1)[0]);
                assert(text@ == head + comma_joined(fields.take(1)));
            } else {
                assert(text@ == head + comma_joined(fields.take(k + 1)));
            }
        }
        k += 1;
    }
    proof {
        assert(fields.take(n as int) == fields);
    }
    let m = fitting_chars(text.as_slice(), MAX_FINDING_MESSAGE_BYTES);
    let r = string_of(text.as_slice(), 0, m);
    proof {
        assert(text@.subrange(0, m as int) == text@.take(m as int));
    }
    r
}

/// Findings of the enrichments that found a discrepancy: the first 256 of them,
/// in order, each naming the first eight discrepant fields.
pub fn native_ax_discrepancy_findings<N>(enrichments: &[NativeAxEnrichment<N>]) -> (r: Vec<A11yFinding>)
    ensures
        r@.len() == vstd::math::min(flagged(enrichments@).len() as int, MAX_NATIVE_AX_RECORDS as int),
        forall|k: int|
            0 <= k < r@.len() ==> native_finding(#[trigger] r@[k], enrichments@[flagged(enrichments@)[k]]),
{
    let mut out: Vec<A11yFinding> = Vec::new();
    let mut i: usize = 0;
    proof {
        assert(enrichments@.take(0) == Seq::<NativeAxEnrichment<N>>::empty());
    }
    while i < enrichments.len() && out.len() < MAX_NATIVE_AX_RECORDS
        invariant
            i <= enrichments@.len(),
            out@.len() <= MAX_NATIVE_AX_RECORDS,
            out@.len() == flagged(enrichments@.take(i as int)).len(),
            forall|k: int| 0 <= k < out@.len() ==> 0 <= #[trigger] flagged(enrichments@.take(i as int))[k] < i,
            forall|k: int|
                0 <= k < out@.len() ==> native_finding(
                    #[trigger] out@[k],
                    enrichments@[flagged(enrichments@.take(i as int))[k]],
                ),
        decreases enrichments@.len() - i,
    {
        let e = &enrichments[i];
        proof {
            assert(enrichments@.take(i + 1).drop_last() == enrichments@.take(i as int));
            assert(enrichments@.take(i + 1).last() == enrichments@[i as int]);
        }
        if e.discrepancies.len() > 0 {
            let finding = A11yFinding {
                code: "dom_native_ax_discrepancy".to_owned(),
                reference: e.reference.clone(),
                message: discrepancy_message(&e.discrepancies),
                deterministic: false,
                confidence: 92,
                evidence_kind: A11yEvidenceKind::NativeAx,
                target_resolution: TargetResolution::StableRef(e.reference.clone()),
                rule_id: None,
                discrepancies: clone_discrepancies(&e.discrepancies),
            };
            out.push(finding);
        }
        i += 1;
    }
    proof {
        lemma_flagged_prefix(enrichments@, i as int);
        if i == enrichments@.len() {
            assert(enrichments@.take(i as int) == enrichments@);
        }
        assert forall|k: int| 0 <= k < out@.len() implies native_finding(
            #[trigger] out@[k],
            enrichments@[flagged(enrichments@)[k]],
        ) by {
            assert(flagged(enrichments@.take(i as int))[k] == flagged(enrichments@)[k]);
        }
    }
    out
}

/// The codes of the findings, sorted and each once.
pub fn unique_finding_codes(findings: &[A11yFinding]) -> (r: Vec<String>)
    ensures
        crate::content_addressed::sorted_set_of(
            crate::content_addressed::hashes(r@),
            findings@.map_values(|f: A11yFinding| f.code@),
        ),
{
    let mut codes: Vec<String> = Vec::new();
    let mut i: usize = 0;
    while i < findings.len()
        invariant
            i <= findings@.len(),
            crate::content_addressed::hashes(codes@) == findings@.take(i as int).map_values(
                |f: A11yFinding| f.code@,
            ),
        decreases findings@.len() - i,
    {
        let ghost before = crate::content_addressed::hashes(codes@);
        codes.push(findings[i].code.clone());
        proof {
            assert(crate::content_addressed::hashes(codes@) == before.push(findings@[i as int].code@));
            assert(findings@.take(i + 1).map_values(|f: A11yFinding| f.code@) == findings@.take(
                i as int,
            ).map_values(|f: A11yFinding| f.code@).push(findings@[i as int].code@));
        }
        i += 1;
    }
    proof {
        assert(findings@.take(i as int) == findings@);
    }
    crate::content_addressed::sorted_unique(&codes)
}

/// The position of the last DOM entry with the reference `r`.
pub open spec fn last_dom_with(dom: Seq<String>, r: Seq<char>) -> Option<int>
    decreases dom.len(),
{
    if dom.len() == 0 {
        None
    } else if dom.last()@ == r {
        Some(dom.len() - 1)
    } else {
        last_dom_with(dom.drop_last(), r)
    }
}

/// The native entries to compare with the DOM, each with its DOM entry: among the
/// first 256 native entries, those with a stable reference that the DOM has (the
/// last DOM entry with it), in order.
pub open spec fn native_dom_pairs(dom: Seq<String>, native: Seq<Option<String>>) -> Seq<(int, int)>
    decreases native.len(),
{
    if native.len() == 0 {
        Seq::empty()
    } else {
        let rest = native_dom_pairs(dom, native.drop_last());
        let i = native.len() - 1;
        match native.last() {
            Some(r) => if i < MAX_NATIVE_AX_RECORDS && is_stable_reference(r@) && last_dom_with(
                dom,
                r@,
            ) is Some {
                rest.push((i, last_dom_with(dom, r@)->0))
            } else {
                rest
            },
            None => rest,
        }
    }
}

fn last_dom_index(dom: &Vec<String>, r: &String) -> (k: Option<usize>)
    ensures
        match k {
            Some(j) => last_dom_with(dom@, r@) == Some(j as int),
            None => last_dom_with(dom@, r@) is None,
        },
{
    let mut j: usize = dom.len();
    proof {
        assert(dom@.take(j as int) == dom@);
    }
    while j > 0
        invariant
            j <= dom@.len(),
            last_dom_with(dom@, r@) == last_dom_with(dom@.take(j as int), r@),
        decreases j,
    {
        proof {
            assert(dom@.take(j as int).drop_last() == dom@.take(j - 1));
        }
        if dom[j - 1] == *r {
            return Some(j - 1);
        }
        j -= 1;
    }
    None
}

/// Pairs the native entries to compare with their DOM entries, by stable reference.
pub fn match_native_to_dom(dom_refs: &Vec<String>, native_refs: &Vec<Option<String>>) -> (r: Vec<
    (usize, usize),
>)
    ensures
        r@.len() == native_dom_pairs(dom_refs@, native_refs@).len(),
        forall|k: int|
            0 <= k < r@.len() ==> (#[trigger] r@[k]).0 as int == native_dom_pairs(dom_refs@, native_refs@)[k].0
                && r@[k].1 as int == native_dom_pairs(dom_refs@, native_refs@)[k].1,
{
    let mut out: Vec<(usize, usize)> = Vec::new();
    let mut i: usize = 0;
    while i < native_refs.len()
        invariant
            i <= native_refs@.len(),
            out@.len() == native_dom_pairs(dom_refs@, native_refs@.take(i as int)).len(),
            forall|k: int|
                0 <= k < out@.len() ==> (#[trigger] out@[k]).0 as int == native_dom_pairs(
                    dom_refs@,
                    native_refs@.take(i as int),
                )[k].0 && out@[k].1 as int == native_dom_pairs(dom_refs@, native_refs@.take(i as int))[k].1,
        decreases native_refs@.len() - i,
    {
        proof {
            assert(native_refs@.take(i + 1).drop_last() == native_refs@.take(i as int));
            assert(native_refs@.take(i + 1).last() == native_refs@[i as int]);
        }
        if i < MAX_NATIVE_AX_RECORDS {
            match &native_refs[i] {
                Some(reference) => {
                    if valid_stable_reference(reference.as_str()) {
                        match last_dom_index(dom_refs, reference) {
                            Some(j) => {
                                out.push((i, j));
                            },
                            None => {},
                        }
                    }
                },
                None => {},
            }
        }
        i += 1;
    }
    proof {
        assert(native_refs@.take(i as int) == native_refs@);
    }
    out
}

proof fn lemma_flagged_prefix<N>(entries: Seq<NativeAxEnrichment<N>>, i: int)
    requires
        0 <= i <= entries.len(),
    ensures
        flagged(entries.take(i)).len() <= flagged(entries).len(),
        forall|k: int|
            0 <= k < flagged(entries.take(i)).len() ==> #[trigger] flagged(entries.take(i))[k]
                == flagged(entries)[k],
    decreases entries.len() - i,
{
    if i < entries.len() {
        lemma_flagged_prefix(entries, i + 1);
        let a = entries.take(i);
        let b = entries.take(i + 1);
        assert(b.drop_last() == a);
        assert forall|k: int| 0 <= k < flagged(a).len() implies #[trigger] flagged(a)[k] == flagged(
            entries,
        )[k] by {
            assert(flagged(b)[k] == flagged(a)[k]);
        }
    } else {
        assert(entries.take(i) == entries);
    }
}

proof fn lemma_byte_len_cons(s: Seq<char>)
    requires
        s.len() > 0,
    ensures
        crate::text::byte_len(s) == utf8_width(s[0]) + crate::text::byte_len(s.drop_first()),
    decreases s.len(),
{
    if s.len() > 1 {
        lemma_byte_len_cons(s.drop_last());
        assert(s.drop_last().drop_first() == s.drop_first().drop_last());
        assert(s.drop_last()[0] == s[0]);
        assert(s.drop_first().last() == s.last());
        assert(crate::text::byte_len(s.drop_first()) == crate::text::byte_len(s.drop_first().drop_last())
            + utf8_width(s.drop_first().last()));
        assert(crate::text::byte_len(s) == crate::text::byte_len(s.drop_last()) + utf8_width(s.last()));
    } else {
        assert(s.drop_first().len() == 0);
        assert(s.drop_last().len() == 0);
        assert(s.last() == s[0]);
        assert(crate::text::byte_len(s.drop_first()) == 0);
        assert(crate::text::byte_len(s.drop_last()) == 0);
        assert(crate::text::byte_len(s) == crate::text::byte_len(s.drop_last()) + utf8_width(s.last()));
    }
}

/// Bounded text is the longest beginning of the text that fits: it has at most
/// `max` UTF-8 bytes, and one more character would not fit.
pub proof fn lemma_bounded_fits(s: Seq<char>, max: nat)
    ensures
        bounded(s, max).len() <= s.len(),
        bounded(s, max) == s.take(bounded(s, max).len() as int),
        crate::text::byte_len(bounded(s, max)) <= max,
        bounded(s, max).len() < s.len() ==> crate::text::byte_len(
            s.take(bounded(s, max).len() + 1 as int),
        ) > max,
{
    lemma_fit_count(s, max as int);
}

proof fn lemma_fit_count(s: Seq<char>, budget: int)
    requires
        budget >= 0,
    ensures
        fit_count(s, budget) <= s.len(),
        crate::text::byte_len(s.take(fit_count(s, budget) as int)) <= budget,
        fit_count(s, budget) < s.len() ==> crate::text::byte_len(
            s.take(fit_count(s, budget) + 1 as int),
        ) > budget,
    decreases s.len(),
{
    let n = fit_count(s, budget) as int;
    if s.len() == 0 {
        assert(s.take(0).len() == 0);
    } else if utf8_width(s[0]) > budget {
        assert(s.take(0).len() == 0);
        let one = s.take(1);
        lemma_byte_len_cons(one);
        assert(one.drop_first().len() == 0);
    } else {
        let rest = s.drop_first();
        let b2 = budget - utf8_width(s[0]);
        lemma_fit_count(rest, b2);
        let t = s.take(n);
        lemma_byte_len_cons(t);
        assert(t.drop_first() == rest.take(n - 1));
        if n < s.len() {
            let t1 = s.take(n + 1);
            lemma_byte_len_cons(t1);
            assert(t1.drop_first() == rest.take(n));
        }
    }
}


/// A node of a page's semantic tree, as the local audit reads it.
/// `nominal_target` is the text of the node's box size (`{:.0}×{:.0}`) when the box
/// is narrower or lower than 24 px; the caller measures the box.
#[derive(Debug)]
pub struct AuditNode {
    pub reference: String,
    pub role: Option<String>,
    pub name: Option<String>,
    pub interactive: bool,
    pub nominal_target: Option<String>,
    pub children: Vec<AuditNode>,
}

/// A finding of the local audit: code, reference, message, whether it is
/// deterministic, and its confidence.
pub type LocalFindingView = (Seq<char>, Seq<char>, Seq<char>, bool, u8);

/// A missing name: none, or only whitespace.
pub open spec fn blank_name(name: Option<String>) -> bool {
    match name {
        None => true,
        Some(n) => trim(n@).len() == 0,
    }
}

/// The role `img`.
pub open spec fn img_role(role: Option<String>) -> bool {
    match role {
        Some(r) => r@ == "img"@,
        None => false,
    }
}

/// The findings about a node itself, in the order the audit checks them.
pub open spec fn own_findings(n: AuditNode) -> Seq<LocalFindingView> {
    let a: Seq<LocalFindingView> = if n.interactive && blank_name(n.name) {
        seq![
            (
                "interactive_name_missing"@,
                n.reference@,
                "Interactive control has no accessible name"@,
                true,
                100u8,
            ),
        ]
    } else {
        Seq::empty()
    };
    let b: Seq<LocalFindingView> = if img_role(n.role) && blank_name(n.name) {
        seq![("image_name_missing"@, n.reference@, "Image lacks an accessible alternative"@, true, 100u8)]
    } else {
        Seq::empty()
    };
    let c: Seq<LocalFindingView> = match n.nominal_target {
        Some(size) => if n.interactive {
            seq![
                (
                    "small_nominal_hit_target"@,
                    n.reference@,
                    "Nominal hit target is "@ + size@ + "px"@,
                    false,
                    84u8,
                ),
            ]
        } else {
            Seq::empty()
        },
        None => Seq::empty(),
    };
    a + b + c
}

/// The findings of a node and its subtree, depth first, the node before its children.
pub open spec fn node_findings(n: AuditNode) -> Seq<LocalFindingView>
    decreases n,
{
    own_findings(n) + list_findings(n.children@)
}

/// The findings of a list of subtrees, in order.
pub open spec fn list_findings(s: Seq<AuditNode>) -> Seq<LocalFindingView>
    decreases s,
{
    if s.len() == 0 {
        Seq::empty()
    } else {
        list_findings(s.subrange(0, s.len() - 1)) + node_findings(s[s.len() - 1])
    }
}

/// A finding is the local finding that `t` describes.
pub open spec fn is_local_finding(f: A11yFinding, t: LocalFindingView) -> bool {
    &&& f.code@ == t.0
    &&& f.reference@ == t.1
    &&& f.message@ == bounded(t.2, MAX_FINDING_MESSAGE_BYTES as nat)
    &&& f.deterministic == t.3
    &&& f.confidence == t.4
    &&& f.evidence_kind == if t.3 {
        A11yEvidenceKind::LocalDeterministic
    } else {
        A11yEvidenceKind::Heuristic
    }
    &&& f.target_resolution matches TargetResolution::StableRef(s) && s@ == t.1
    &&& f.rule_id is None
    &&& f.discrepancies@.len() == 0
}

/// The findings are, one for one, those that `ts` describes.
pub open spec fn local_findings(fs: Seq<A11yFinding>, ts: Seq<LocalFindingView>) -> bool {
    fs.len() == ts.len() && forall|i: int| 0 <= i < fs.len() ==> is_local_finding(#[trigger] fs[i], ts[i])
}

proof fn lemma_local_findings_concat(
    fa: Seq<A11yFinding>,
    ta: Seq<LocalFindingView>,
    fb: Seq<A11yFinding>,
    tb: Seq<LocalFindingView>,
)
    requires
        local_findings(fa, ta),
        local_findings(fb, tb),
    ensures
        local_findings(fa + fb, ta + tb),
{
    assert forall|i: int| 0 <= i < (fa + fb).len() implies is_local_finding(
        #[trigger] (fa + fb)[i],
        (ta + tb)[i],
    ) by {
        if i < fa.len() {
            assert((fa + fb)[i] == fa[i] && (ta + tb)[i] == ta[i]);
        } else {
            assert((fa + fb)[i] == fb[i - fa.len()] && (ta + tb)[i] == tb[i - fa.len()]);
        }
    }
}

fn is_blank_name(name: &Option<String>) -> (r: bool)
    ensures
        r == blank_name(*name),
{
    match name {
        None => true,
        Some(n) => {
            let v = chars_of(n.as_str());
            let (a, b) = trim_bounds(v.as_slice());
            a == b
        },
    }
}

fn push_local(
    out: &mut Vec<A11yFinding>,
    code: &str,
    reference: &str,
    message: String,
    deterministic: bool,
    confidence: u8,
    Ghost(ts): Ghost<Seq<LocalFindingView>>,
)
    requires
        local_findings(old(out)@, ts),
    ensures
        local_findings(
            final(out)@,
            ts.push((code@, reference@, message@, deterministic, confidence)),
        ),
{
    let f = A11yFinding::local(code, reference, message, deterministic, confidence);
    out.push(f);
    proof {
        let t = ts.push((code@, reference@, message@, deterministic, confidence));
        assert forall|i: int| 0 <= i < out@.len() implies is_local_finding(#[trigger] out@[i], t[i]) by {
            if i < ts.len() {
                assert(out@[i] == old(out)@[i]);
            }
        }
    }
}

fn walk(node: &AuditNode) -> (r: Vec<A11yFinding>)
    ensures
        local_findings(r@, node_findings(*node)),
    decreases node,
{
    let mut out: Vec<A11yFinding> = Vec::new();
    let blank = is_blank_name(&node.name);
    let ghost t0: Seq<LocalFindingView> = Seq::empty();
    proof {
        reveal_strlit("interactive_name_missing");
        reveal_strlit("image_name_missing");
        reveal_strlit("img");
    }
    let ghost ta: Seq<LocalFindingView> = if node.interactive && blank_name(node.name) {
        seq![
            (
                "interactive_name_missing"@,
                node.reference@,
                "Interactive control has no accessible name"@,
                true,
                100u8,
            ),
        ]
    } else {
        Seq::empty()
    };
    if node.interactive && blank {
        push_local(
            &mut out,
            "interactive_name_missing",
            node.reference.as_str(),
            "Interactive control has no accessible name".to_owned(),
            true,
            100,
            Ghost(t0),
        );
    }
    proof {
        assert(t0.push(
            (
                "interactive_name_missing"@,
                node.reference@,
                "Interactive control has no accessible name"@,
                true,
                100u8,
            ),
        ) =~= seq![
            (
                "interactive_name_missing"@,
                node.reference@,
                "Interactive control has no accessible name"@,
                true,
                100u8,
            ),
        ]);
    }
    let is_img = match &node.role {
        Some(r) => crate::text::str_eq(r.as_str(), "img"),
        None => false,
    };
    let ghost tb: Seq<LocalFindingView> = if img_role(node.role) && blank_name(node.name) {
        seq![("image_name_missing"@, node.reference@, "Image lacks an accessible alternative"@, true, 100u8)]
    } else {
        Seq::empty()
    };
    if is_img && blank {
        push_local(
            &mut out,
            "image_name_missing",
            node.reference.as_str(),
            "Image lacks an accessible alternative".to_owned(),
            true,
            100,
            Ghost(ta),
        );
    }
    proof {
        assert(ta.push(
            ("image_name_missing"@, node.reference@, "Image lacks an accessible alternative"@, true, 100u8),
        ) =~= ta + seq![
            ("image_name_missing"@, node.reference@, "Image lacks an accessible alternative"@, true, 100u8),
        ]);
        assert(ta + Seq::<LocalFindingView>::empty() =~= ta);
        assert(local_findings(out@, ta + tb));
    }
    match &node.nominal_target {
        Some(size) => {
            if node.interactive {
                let mut message = String::new();
                crate::canonical_json::append(&mut message, "Nominal hit target is ");
                crate::canonical_json::append(&mut message, size.as_str());
                crate::canonical_json::append(&mut message, "px");
                push_local(
                    &mut out,
                    "small_nominal_hit_target",
                    node.reference.as_str(),
                    message,
                    false,
                    84,
                    Ghost(ta + tb),
                );
                proof {
                    assert(message@ == "Nominal hit target is "@ + size@ + "px"@);
                }
            }
        },
        None => {},
    }
    proof {
        assert((ta + tb) + Seq::<LocalFindingView>::empty() =~= ta + tb);
        assert(local_findings(out@, own_findings(*node)));
    }
    let mut i: usize = 0;
    while i < node.children.len()
        invariant
            i <= node.children@.len(),
            local_findings(out@, own_findings(*node) + list_findings(node.children@.subrange(0, i as int))),
        decreases node.children@.len() - i,
    {
        let child = &node.children[i];
        proof {
            assert(decreases_to!(*node => node.children));
            assert(decreases_to!(node.children => node.children@));
            assert(decreases_to!(node.children@ => node.children@[i as int]));
        }
        let mut more = walk(child);
        let ghost before = out@;
        let ghost pre = node.children@.subrange(0, i as int);
        let ghost next = node.children@.subrange(0, i + 1);
        proof {
            assert(next.subrange(0, next.len() - 1) =~= pre);
            assert(next[next.len() - 1] == node.children@[i as int]);
            assert(list_findings(next) == list_findings(pre) + node_findings(node.children@[i as int]));
            lemma_local_findings_concat(
                before,
                own_findings(*node) + list_findings(pre),
                more@,
                node_findings(node.children@[i as int]),
            );
        }
        out.append(&mut more);
        proof {
            assert(own_findings(*node) + list_findings(next) =~= own_findings(*node) + list_findings(pre)
                + node_findings(node.children@[i as int]));
        }
        i += 1;
    }
    proof {
        assert(node.children@.subrange(0, i as int) =~= node.children@);
    }
    out
}

/// The local audit of a semantic tree: for each node, depth first and the node
/// before its children, a deterministic finding for an interactive control without
/// a name and for an image without a name, and a heuristic one for an interactive
/// control whose box is under 24 px in width or height.
pub fn audit(root: &AuditNode) -> (r: Vec<A11yFinding>)
    ensures
        local_findings(r@, node_findings(*root)),
        forall|path: Seq<int>|
            #[trigger] subtree_at(*root, path) is Some ==> reports_node(r@, subtree_at(*root, path)->0),
        forall|i: int| 0 <= i < r@.len() ==> justified(*root, #[trigger] r@[i]),
{
    let r = walk(root);
    proof {
        lemma_findings_are_justified(*root, r@);
        assert forall|path: Seq<int>| #[trigger] subtree_at(*root, path) is Some implies reports_node(
            r@,
            subtree_at(*root, path)->0,
        ) by {
            lemma_every_node_is_audited(*root, path, r@);
        }
    }
    r
}

/// The node reached from `n` by following child positions.
pub open spec fn subtree_at(n: AuditNode, path: Seq<int>) -> Option<AuditNode>
    decreases path.len(),
{
    if path.len() == 0 {
        Some(n)
    } else if 0 <= path[0] < n.children@.len() {
        subtree_at(n.children@[path[0]], path.drop_first())
    } else {
        None
    }
}

/// A name that names nothing: none, or only whitespace.
pub open spec fn unnamed(n: AuditNode) -> bool {
    n.name is None || trim(n.name->0@).len() == 0
}

/// Findings report a node as the audit must: an interactive control without a
/// name, an image without a name, and an interactive control with a small box each
/// have a finding with its code and the node's reference.
pub open spec fn reports_node(r: Seq<A11yFinding>, n: AuditNode) -> bool {
    &&& (n.interactive && unnamed(n) ==> exists|i: int|
        0 <= i < r.len() && (#[trigger] r[i]).code@ == "interactive_name_missing"@ && r[i].reference@
            == n.reference@ && r[i].deterministic)
    &&& ((n.role matches Some(role) && role@ == "img"@) && unnamed(n) ==> exists|i: int|
        0 <= i < r.len() && (#[trigger] r[i]).code@ == "image_name_missing"@ && r[i].reference@
            == n.reference@ && r[i].deterministic)
    &&& (n.interactive && n.nominal_target is Some ==> exists|i: int|
        0 <= i < r.len() && (#[trigger] r[i]).code@ == "small_nominal_hit_target"@ && r[i].reference@
            == n.reference@ && !r[i].deterministic)
}

/// A finding is about a node of the tree that calls for it: an unnamed
/// interactive control, an unnamed image, or an interactive control with a small
/// box, named by its reference.
pub open spec fn justified(root: AuditNode, f: A11yFinding) -> bool {
    exists|path: Seq<int>|
        #[trigger] subtree_at(root, path) is Some && {
            let n = subtree_at(root, path)->0;
            &&& f.reference@ == n.reference@
            &&& (f.code@ == "interactive_name_missing"@ && n.interactive && unnamed(n) || f.code@
                == "image_name_missing"@ && (n.role matches Some(role) && role@ == "img"@) && unnamed(n)
                || f.code@ == "small_nominal_hit_target"@ && n.interactive && n.nominal_target is Some)
        }
}

/// What an entry of the audit's view is justified by: a node of the tree whose own
/// findings hold it.
pub open spec fn from_some_node(root: AuditNode, t: LocalFindingView) -> bool {
    exists|path: Seq<int>|
        #[trigger] subtree_at(root, path) is Some && own_findings(subtree_at(root, path)->0).contains(t)
}

proof fn lemma_list_findings_from(s: Seq<AuditNode>, t: LocalFindingView)
    requires
        list_findings(s).contains(t),
    ensures
        exists|j: int| 0 <= j < s.len() && node_findings(#[trigger] s[j]).contains(t),
    decreases s.len(),
{
    let init = s.subrange(0, s.len() - 1);
    let last = node_findings(s[s.len() - 1]);
    let l = list_findings(init);
    let k = choose|k: int| 0 <= k < (l + last).len() && (l + last)[k] == t;
    if k < l.len() {
        assert(l[k] == t);
        lemma_list_findings_from(init, t);
        let j = choose|j: int| 0 <= j < init.len() && node_findings(#[trigger] init[j]).contains(t);
        assert(init[j] == s[j]);
    } else {
        assert(last[k - l.len()] == t);
        assert(node_findings(s[s.len() - 1]).contains(t));
    }
}

proof fn lemma_node_findings_from(n: AuditNode, t: LocalFindingView)
    requires
        node_findings(n).contains(t),
    ensures
        from_some_node(n, t),
    decreases n,
{
    let own = own_findings(n);
    let l = list_findings(n.children@);
    let k = choose|k: int| 0 <= k < (own + l).len() && (own + l)[k] == t;
    if k < own.len() {
        assert(own[k] == t);
        let p: Seq<int> = Seq::empty();
        assert(subtree_at(n, p) == Some(n));
    } else {
        assert(l[k - own.len()] == t);
        lemma_list_findings_from(n.children@, t);
        let j = choose|j: int| 0 <= j < n.children@.len() && node_findings(#[trigger] n.children@[j]).contains(t);
        let c = n.children@[j];
        assert(decreases_to!(n => n.children));
        assert(decreases_to!(n.children => n.children@));
        assert(decreases_to!(n.children@ => n.children@[j]));
        lemma_node_findings_from(c, t);
        let q = choose|q: Seq<int>| #[trigger] subtree_at(c, q) is Some && own_findings(subtree_at(c, q)->0).contains(t);
        let p = seq![j].add(q);
        assert(p.drop_first() =~= q);
        assert(subtree_at(n, p) == subtree_at(c, q));
    }
}

/// Every finding of an audit is about a node of the tree that calls for it: the
/// audit reports nothing that the tree does not hold.
pub proof fn lemma_findings_are_justified(root: AuditNode, r: Seq<A11yFinding>)
    requires
        local_findings(r, node_findings(root)),
    ensures
        forall|i: int| 0 <= i < r.len() ==> justified(root, #[trigger] r[i]),
{
    assert forall|i: int| 0 <= i < r.len() implies justified(root, #[trigger] r[i]) by {
        let t = node_findings(root)[i];
        assert(node_findings(root).contains(t));
        assert(is_local_finding(r[i], t));
        lemma_node_findings_from(root, t);
        let p = choose|p: Seq<int>| #[trigger] subtree_at(root, p) is Some && own_findings(subtree_at(root, p)->0).contains(t);
        let n = subtree_at(root, p)->0;
        let own = own_findings(n);
        let k = choose|k: int| 0 <= k < own.len() && own[k] == t;
        assert(blank_name(n.name) == unnamed(n));
        assert(img_role(n.role) == (n.role matches Some(role) && role@ == "img"@));
        reveal_strlit("interactive_name_missing");
        reveal_strlit("image_name_missing");
        reveal_strlit("small_nominal_hit_target");
        assert(subtree_at(root, p) is Some);
    }
}

proof fn lemma_list_findings_include(s: Seq<AuditNode>, j: int, t: LocalFindingView)
    requires
        0 <= j < s.len(),
        node_findings(s[j]).contains(t),
    ensures
        list_findings(s).contains(t),
    decreases s.len(),
{
    let init = s.subrange(0, s.len() - 1);
    let last = node_findings(s[s.len() - 1]);
    if j == s.len() - 1 {
        let k = choose|k: int| 0 <= k < last.len() && last[k] == t;
        assert((list_findings(init) + last)[list_findings(init).len() + k] == t);
    } else {
        assert(init[j] == s[j]);
        lemma_list_findings_include(init, j, t);
        let k = choose|k: int| 0 <= k < list_findings(init).len() && list_findings(init)[k] == t;
        assert((list_findings(init) + last)[k] == t);
    }
}

proof fn lemma_subtree_findings_included(n: AuditNode, path: Seq<int>, t: LocalFindingView)
    requires
        subtree_at(n, path) matches Some(m) && own_findings(m).contains(t),
    ensures
        node_findings(n).contains(t),
    decreases path.len(),
{
    if path.len() == 0 {
        let k = choose|k: int| 0 <= k < own_findings(n).len() && own_findings(n)[k] == t;
        assert((own_findings(n) + list_findings(n.children@))[k] == t);
    } else {
        let j = path[0];
        let c = n.children@[j];
        lemma_subtree_findings_included(c, path.drop_first(), t);
        lemma_list_findings_include(n.children@, j, t);
        let l = list_findings(n.children@);
        let k = choose|k: int| 0 <= k < l.len() && l[k] == t;
        assert((own_findings(n) + l)[own_findings(n).len() + k] == t);
    }
}

proof fn lemma_reported(r: Seq<A11yFinding>, ts: Seq<LocalFindingView>, t: LocalFindingView)
    requires
        local_findings(r, ts),
        ts.contains(t),
    ensures
        exists|i: int| 0 <= i < r.len() && is_local_finding(#[trigger] r[i], t),
{
    let k = choose|k: int| 0 <= k < ts.len() && ts[k] == t;
    assert(is_local_finding(r[k], ts[k]));
}

/// Every node of a tree is audited, whatever its ancestors: the findings of an
/// audit report each node as `reports_node` requires.
pub proof fn lemma_every_node_is_audited(root: AuditNode, path: Seq<int>, r: Seq<A11yFinding>)
    requires
        local_findings(r, node_findings(root)),
    ensures
        subtree_at(root, path) matches Some(n) ==> reports_node(r, n),
{
    if let Some(n) = subtree_at(root, path) {
        assert(blank_name(n.name) == unnamed(n));
        assert(img_role(n.role) == (n.role matches Some(role) && role@ == "img"@));
        let own = own_findings(n);
        let a: Seq<LocalFindingView> = if n.interactive && blank_name(n.name) {
            seq![
                (
                    "interactive_name_missing"@,
                    n.reference@,
                    "Interactive control has no accessible name"@,
                    true,
                    100u8,
                ),
            ]
        } else {
            Seq::empty()
        };
        let b: Seq<LocalFindingView> = if img_role(n.role) && blank_name(n.name) {
            seq![("image_name_missing"@, n.reference@, "Image lacks an accessible alternative"@, true, 100u8)]
        } else {
            Seq::empty()
        };
        assert(own == a + b + (own.subrange((a + b).len() as int, own.len() as int)));
        if n.interactive && unnamed(n) {
            let t = a[0];
            assert(own[0] == t);
            lemma_subtree_findings_included(root, path, t);
            lemma_reported(r, node_findings(root), t);
        }
        if img_role(n.role) && unnamed(n) {
            let t = b[0];
            assert(own[a.len() as int] == t);
            lemma_subtree_findings_included(root, path, t);
            lemma_reported(r, node_findings(root), t);
        }
        if n.interactive && n.nominal_target is Some {
            let size = n.nominal_target->0;
            let t: LocalFindingView = (
                "small_nominal_hit_target"@,
                n.reference@,
                "Nominal hit target is "@ + size@ + "px"@,
                false,
                84u8,
            );
            assert(own[own.len() - 1] == t);
            lemma_subtree_findings_included(root, path, t);
            lemma_reported(r, node_findings(root), t);
        }
    }
}


/// Pairs each native entry with the DOM entry of its stable reference (as
/// `match_native_to_dom` does) and lists where their accessibility fields differ.
/// Each result is the native position, the DOM position and the discrepancies.
pub fn enrich_native_fields(
    dom_refs: &Vec<String>,
    dom_fields: &Vec<AxFields>,
    native_refs: &Vec<Option<String>>,
    native_fields: &Vec<AxFields>,
) -> (r: Vec<(usize, usize, Vec<A11yDiscrepancy>)>)
    requires
        dom_refs@.len() == dom_fields@.len(),
        native_refs@.len() == native_fields@.len(),
    ensures
        r@.len() == native_dom_pairs(dom_refs@, native_refs@).len(),
        forall|k: int|
            0 <= k < r@.len() ==> {
                let p = native_dom_pairs(dom_refs@, native_refs@)[k];
                &&& (#[trigger] r@[k]).0 as int == p.0
                &&& r@[k].1 as int == p.1
                &&& discrepancy_views(r@[k].2@) == field_differences(dom_fields@[p.1], native_fields@[p.0])
            },
{
    let pairs = match_native_to_dom(dom_refs, native_refs);
    proof {
        lemma_native_dom_pairs_in_range(dom_refs@, native_refs@);
    }
    let mut out: Vec<(usize, usize, Vec<A11yDiscrepancy>)> = Vec::new();
    let mut k: usize = 0;
    while k < pairs.len()
        invariant
            k <= pairs@.len(),
            pairs@.len() == native_dom_pairs(dom_refs@, native_refs@).len(),
            forall|j: int|
                0 <= j < pairs@.len() ==> (#[trigger] pairs@[j]).0 as int == native_dom_pairs(
                    dom_refs@,
                    native_refs@,
                )[j].0 && pairs@[j].1 as int == native_dom_pairs(dom_refs@, native_refs@)[j].1,
            forall|j: int|
                0 <= j < native_dom_pairs(dom_refs@, native_refs@).len() ==> 0 <= (
                #[trigger] native_dom_pairs(dom_refs@, native_refs@)[j]).0 < native_refs@.len() && 0
                    <= native_dom_pairs(dom_refs@, native_refs@)[j].1 < dom_refs@.len(),
            dom_refs@.len() == dom_fields@.len(),
            native_refs@.len() == native_fields@.len(),
            out@.len() == k,
            forall|j: int|
                0 <= j < k ==> {
                    let p = native_dom_pairs(dom_refs@, native_refs@)[j];
                    &&& (#[trigger] out@[j]).0 as int == p.0
                    &&& out@[j].1 as int == p.1
                    &&& discrepancy_views(out@[j].2@) == field_differences(dom_fields@[p.1], native_fields@[p.0])
                },
        decreases pairs@.len() - k,
    {
        let (n, d) = pairs[k];
        proof {
            assert(pairs@[k as int].0 as int == native_dom_pairs(dom_refs@, native_refs@)[k as int].0);
        }
        let found = field_discrepancies(&dom_fields[d], &native_fields[n]);
        out.push((n, d, found));
        k += 1;
    }
    out
}

proof fn lemma_native_dom_pairs_in_range(dom: Seq<String>, native: Seq<Option<String>>)
    ensures
        forall|j: int|
            0 <= j < native_dom_pairs(dom, native).len() ==> 0 <= (#[trigger] native_dom_pairs(
                dom,
                native,
            )[j]).0 < native.len() && 0 <= native_dom_pairs(dom, native)[j].1 < dom.len(),
    decreases native.len(),
{
    if native.len() > 0 {
        let init = native.drop_last();
        lemma_native_dom_pairs_in_range(dom, init);
        let rest = native_dom_pairs(dom, init);
        let all = native_dom_pairs(dom, native);
        assert forall|j: int| 0 <= j < all.len() implies 0 <= (#[trigger] all[j]).0 < native.len() && 0
            <= all[j].1 < dom.len() by {
            if j < rest.len() {
                assert(all[j] == rest[j]);
            } else {
                let r = native.last()->0;
                lemma_last_dom_with_in_range(dom, r@);
            }
        }
    }
}


proof fn lemma_last_dom_with_in_range(dom: Seq<String>, r: Seq<char>)
    ensures
        last_dom_with(dom, r) matches Some(j) ==> 0 <= j < dom.len(),
    decreases dom.len(),
{
    if dom.len() > 0 {
        lemma_last_dom_with_in_range(dom.drop_last(), r);
    }
}

} // verus!

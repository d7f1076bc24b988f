//! Adapting native accessibility observations of a platform provider into the
//! evidence that is compared with the DOM.
//!
//! An observation becomes evidence only for a provider element that is realised
//! now and that a binding names by its full identity (provider and target
//! incarnation and acquisition cut included); no locator, role or name similarity
//! can mint a stable reference.
use vstd::prelude::*;
use crate::a11y::{bounded, bounded_native_text, is_stable_reference, valid_stable_reference, AxFields};
use crate::text::str_eq;

verus! {

pub const MAX_NATIVE_AX_OBSERVATIONS: usize = 256;

/// Whether a provider element is realised now.
#[derive(Debug, Clone, Copy, PartialEq, Eq, Structural)]
pub enum ProviderElementRealization {
    RealizedCurrent,
    RealizationRequired,
}

/// The full identity of a provider element.
#[derive(Debug, Clone)]
pub struct ProviderElementRef {
    pub provider_family: String,
    pub provider_incarnation_ref: String,
    pub target_incarnation_ref: String,
    pub opaque_provider_element_id: String,
    pub semantic_locator_hints: Vec<String>,
    pub parent_surface_ref: Option<String>,
    pub acquisition_cut_ref: String,
    pub realization: ProviderElementRealization,
    pub lifetime_profile_revision: String,
}

/// What the adapter reads of a native semantic node: its element, role, name, the
/// enabled and offscreen states, and its provider attributes (each key once).
#[derive(Debug, Clone)]
pub struct NativeSemanticNode {
    pub element_ref: ProviderElementRef,
    pub role: Option<String>,
    pub name: Option<String>,
    pub is_enabled: Option<bool>,
    pub is_offscreen: Option<bool>,
    pub attributes: Vec<(String, String)>,
}

/// A provider element bound to a stable element reference.
#[derive(Debug, Clone)]
pub struct NativeAxStableRefBinding {
    pub provider_element: ProviderElementRef,
    pub stable_reference: String,
}

/// Native evidence of an element: its stable reference and its accessibility
/// fields. It has no bounds: no provider gives them with authority.
#[derive(Debug, Clone)]
pub struct NativeAxObservation {
    pub stable_reference: String,
    pub fields: AxFields,
}

pub open spec fn texts(v: Seq<String>) -> Seq<Seq<char>> {
    v.map_values(|s: String| s@)
}

pub open spec fn opt_text(o: Option<String>) -> Option<Seq<char>> {
    match o {
        Some(s) => Some(s@),
        None => None,
    }
}

/// Two provider element identities are the same.
pub open spec fn same_element(a: ProviderElementRef, b: ProviderElementRef) -> bool {
    &&& a.provider_family@ == b.provider_family@
    &&& a.provider_incarnation_ref@ == b.provider_incarnation_ref@
    &&& a.target_incarnation_ref@ == b.target_incarnation_ref@
    &&& a.opaque_provider_element_id@ == b.opaque_provider_element_id@
    &&& texts(a.semantic_locator_hints@) == texts(b.semantic_locator_hints@)
    &&& opt_text(a.parent_surface_ref) == opt_text(b.parent_surface_ref)
    &&& a.acquisition_cut_ref@ == b.acquisition_cut_ref@
    &&& a.realization == b.realization
    &&& a.lifetime_profile_revision@ == b.lifetime_profile_revision@
}

/// The value of an attribute: that of the first pair with the key.
pub open spec fn attr(attrs: Seq<(String, String)>, key: Seq<char>) -> Option<Seq<char>>
    decreases attrs.len(),
{
    if attrs.len() == 0 {
        None
    } else if attrs[0].0@ == key {
        Some(attrs[0].1@)
    } else {
        attr(attrs.drop_first(), key)
    }
}

/// An attribute read as a yes or no: `true` or `1`, `false` or `0`.
pub open spec fn bool_attr(attrs: Seq<(String, String)>, key: Seq<char>) -> Option<bool> {
    match attr(attrs, key) {
        Some(v) => if v == "true"@ || v == "1"@ {
            Some(true)
        } else if v == "false"@ || v == "0"@ {
            Some(false)
        } else {
            None
        },
        None => None,
    }
}

/// The first of three attributes that reads as a yes or no.
pub open spec fn first_bool(attrs: Seq<(String, String)>, a: Seq<char>, b: Seq<char>, c: Seq<char>) -> Option<
    bool,
> {
    if bool_attr(attrs, a) is Some {
        bool_attr(attrs, a)
    } else if bool_attr(attrs, b) is Some {
        bool_attr(attrs, b)
    } else {
        bool_attr(attrs, c)
    }
}

/// Whether an element is expanded: the UIA expand/collapse state where it is
/// given (`0` or `collapsed`, `1` or `expanded`, nothing else), else the macOS or
/// AT-SPI attribute.
pub open spec fn expanded_of(attrs: Seq<(String, String)>) -> Option<bool> {
    match attr(attrs, "windows_uia.expand_collapse.state"@) {
        Some(v) => if v == "0"@ || v == "collapsed"@ {
            Some(false)
        } else if v == "1"@ || v == "expanded"@ {
            Some(true)
        } else {
            None
        },
        None => if bool_attr(attrs, "macos_ax.expanded"@) is Some {
            bool_attr(attrs, "macos_ax.expanded"@)
        } else {
            bool_attr(attrs, "atspi.expanded"@)
        },
    }
}

/// A node whose name must not leave the provider: a password field, or one
/// marked sensitive.
pub open spec fn sensitive(attrs: Seq<(String, String)>) -> bool {
    bool_attr(attrs, "windows_uia.is_password"@) == Some(true) || bool_attr(attrs, "localview.sensitive"@)
        == Some(true)
}

/// The first binding that names the node's element and a valid stable reference.
pub open spec fn binding_for(bindings: Seq<NativeAxStableRefBinding>, e: ProviderElementRef) -> Option<Seq<char>>
    decreases bindings.len(),
{
    if bindings.len() == 0 {
        None
    } else if same_element(bindings[0].provider_element, e) && is_stable_reference(
        bindings[0].stable_reference@,
    ) {
        Some(bindings[0].stable_reference@)
    } else {
        binding_for(bindings.drop_first(), e)
    }
}

pub open spec fn bounded_opt(o: Option<String>) -> Option<Seq<char>> {
    match o {
        Some(s) => Some(bounded(s@, 120)),
        None => None,
    }
}

/// The evidence an observation gives, bound to `reference`.
pub open spec fn observed(o: NativeAxObservation, n: NativeSemanticNode, reference: Seq<char>) -> bool {
    let a = n.attributes@;
    &&& o.stable_reference@ == reference
    &&& opt_text(o.fields.role) == bounded_opt(n.role)
    &&& opt_text(o.fields.name) == (if sensitive(a) {
        None
    } else {
        bounded_opt(n.name)
    })
    &&& o.fields.focusable == first_bool(
        a,
        "windows_uia.is_keyboard_focusable"@,
        "macos_ax.focusable"@,
        "atspi.focusable"@,
    )
    &&& o.fields.enabled == n.is_enabled
    &&& o.fields.selected == first_bool(
        a,
        "windows_uia.selection_item.is_selected"@,
        "macos_ax.selected"@,
        "atspi.selected"@,
    )
    &&& o.fields.expanded == expanded_of(a)
    &&& o.fields.offscreen == n.is_offscreen
}

/// The nodes (positions in order) that give evidence, with their references:
/// among the first 256 nodes, those realised now whose element a binding names.
pub open spec fn adapted(nodes: Seq<NativeSemanticNode>, bindings: Seq<NativeAxStableRefBinding>) -> Seq<
    (int, Seq<char>),
>
    decreases nodes.len(),
{
    if nodes.len() == 0 {
        Seq::empty()
    } else {
        let rest = adapted(nodes.drop_last(), bindings);
        let i = nodes.len() - 1;
        let n = nodes.last();
        if i < MAX_NATIVE_AX_OBSERVATIONS && n.element_ref.realization
            == ProviderElementRealization::RealizedCurrent && binding_for(bindings, n.element_ref) is Some {
            rest.push((i, binding_for(bindings, n.element_ref)->0))
        } else {
            rest
        }
    }
}

fn find_attr<'a>(attrs: &'a Vec<(String, String)>, key: &str) -> (r: Option<&'a String>)
    ensures
        match r {
            Some(v) => attr(attrs@, key@) == Some(v@),
            None => attr(attrs@, key@) is None,
        },
{
    let mut i: usize = 0;
    proof {
        assert(attrs@.skip(0) =~= attrs@);
    }
    while i < attrs.len()
        invariant
            i <= attrs@.len(),
            attr(attrs@, key@) == attr(attrs@.skip(i as int), key@),
        decreases attrs@.len() - i,
    {
        proof {
            assert(attrs@.skip(i as int)[0] == attrs@[i as int]);
            assert(attrs@.skip(i as int).drop_first() == attrs@.skip(i + 1));
        }
        if str_eq(attrs[i].0.as_str(), key) {
            return Some(&attrs[i].1);
        }
        i += 1;
    }
    proof {
        assert(attrs@.skip(i as int).len() == 0);
    }
    None
}

fn read_bool(attrs: &Vec<(String, String)>, key: &str) -> (r: Option<bool>)
    ensures
        r == bool_attr(attrs@, key@),
{
    proof {
        reveal_strlit("true");
        reveal_strlit("1");
        reveal_strlit("false");
        reveal_strlit("0");
    }
    match find_attr(attrs, key) {
        Some(v) => if str_eq(v.as_str(), "true") || str_eq(v.as_str(), "1") {
            Some(true)
        } else if str_eq(v.as_str(), "false") || str_eq(v.as_str(), "0") {
            Some(false)
        } else {
            None
        },
        None => None,
    }
}

fn read_first_bool(attrs: &Vec<(String, String)>, a: &str, b: &str, c: &str) -> (r: Option<bool>)
    ensures
        r == first_bool(attrs@, a@, b@, c@),
{
    let x = read_bool(attrs, a);
    if x.is_some() {
        return x;
    }
    let y = read_bool(attrs, b);
    if y.is_some() {
        return y;
    }
    read_bool(attrs, c)
}

fn read_expanded(attrs: &Vec<(String, String)>) -> (r: Option<bool>)
    ensures
        r == expanded_of(attrs@),
{
    match find_attr(attrs, "windows_uia.expand_collapse.state") {
        Some(v) => if str_eq(v.as_str(), "0") || str_eq(v.as_str(), "collapsed") {
            Some(false)
        } else if str_eq(v.as_str(), "1") || str_eq(v.as_str(), "expanded") {
            Some(true)
        } else {
            None
        },
        None => {
            let x = read_bool(attrs, "macos_ax.expanded");
            if x.is_some() {
                x
            } else {
                read_bool(attrs, "atspi.expanded")
            }
        },
    }
}

fn opt_eq(a: &Option<String>, b: &Option<String>) -> (r: bool)
    ensures
        r == (opt_text(*a) == opt_text(*b)),
{
    match (a, b) {
        (Some(x), Some(y)) => str_eq(x.as_str(), y.as_str()),
        (None, None) => true,
        _ => false,
    }
}

fn strings_eq(a: &Vec<String>, b: &Vec<String>) -> (r: bool)
    ensures
        r == (texts(a@) == texts(b@)),
{
    if a.len() != b.len() {
        proof {
            assert(texts(a@).len() != texts(b@).len());
        }
        return false;
    }
    let mut i: usize = 0;
    while i < a.len()
        invariant
            i <= a@.len(),
            a@.len() == b@.len(),
            forall|k: int| 0 <= k < i ==> (#[trigger] a@[k])@ == b@[k]@,
        decreases a@.len() - i,
    {
        if !str_eq(a[i].as_str(), b[i].as_str()) {
            proof {
                assert(texts(a@)[i as int] != texts(b@)[i as int]);
            }
            return false;
        }
        i += 1;
    }
    proof {
        assert(texts(a@) =~= texts(b@));
    }
    true
}

/// Whether two provider element identities are the same.
pub fn same_provider_element(a: &ProviderElementRef, b: &ProviderElementRef) -> (r: bool)
    ensures
        r == same_element(*a, *b),
{
    str_eq(a.provider_family.as_str(), b.provider_family.as_str()) && str_eq(
        a.provider_incarnation_ref.as_str(),
        b.provider_incarnation_ref.as_str(),
    ) && str_eq(a.target_incarnation_ref.as_str(), b.target_incarnation_ref.as_str()) && str_eq(
        a.opaque_provider_element_id.as_str(),
        b.opaque_provider_element_id.as_str(),
    ) && strings_eq(&a.semantic_locator_hints, &b.semantic_locator_hints) && opt_eq(
        &a.parent_surface_ref,
        &b.parent_surface_ref,
    ) && str_eq(a.acquisition_cut_ref.as_str(), b.acquisition_cut_ref.as_str())
        && a.realization == b.realization && str_eq(
        a.lifetime_profile_revision.as_str(),
        b.lifetime_profile_revision.as_str(),
    )
}

fn find_binding<'a>(bindings: &'a [NativeAxStableRefBinding], e: &ProviderElementRef) -> (r: Option<
    &'a String,
>)
    ensures
        match r {
            Some(s) => binding_for(bindings@, *e) == Some(s@),
            None => binding_for(bindings@, *e) is None,
        },
{
    let mut i: usize = 0;
    proof {
        assert(bindings@.skip(0) =~= bindings@);
    }
    while i < bindings.len()
        invariant
            i <= bindings@.len(),
            binding_for(bindings@, *e) == binding_for(bindings@.skip(i as int), *e),
        decreases bindings@.len() - i,
    {
        proof {
            assert(bindings@.skip(i as int)[0] == bindings@[i as int]);
            assert(bindings@.skip(i as int).drop_first() == bindings@.skip(i + 1));
        }
        if same_provider_element(&bindings[i].provider_element, e) && valid_stable_reference(
            bindings[i].stable_reference.as_str(),
        ) {
            return Some(&bindings[i].stable_reference);
        }
        i += 1;
    }
    proof {
        assert(bindings@.skip(i as int).len() == 0);
    }
    None
}

fn bounded_opt_text(o: &Option<String>) -> (r: Option<String>)
    ensures
        opt_text(r) == bounded_opt(*o),
{
    match o {
        Some(s) => Some(bounded_native_text(s.as_str())),
        None => None,
    }
}

fn observe(n: &NativeSemanticNode, reference: &String) -> (r: NativeAxObservation)
    ensures
        observed(r, *n, reference@),
{
    let a = &n.attributes;
    let secret = read_bool(a, "windows_uia.is_password") == Some(true) || read_bool(a, "localview.sensitive")
        == Some(true);
    let name = if secret {
        None
    } else {
        bounded_opt_text(&n.name)
    };
    NativeAxObservation {
        stable_reference: reference.clone(),
        fields: AxFields {
            role: bounded_opt_text(&n.role),
            name,
            focusable: read_first_bool(
                a,
                "windows_uia.is_keyboard_focusable",
                "macos_ax.focusable",
                "atspi.focusable",
            ),
            enabled: n.is_enabled,
            selected: read_first_bool(
                a,
                "windows_uia.selection_item.is_selected",
                "macos_ax.selected",
                "atspi.selected",
            ),
            expanded: read_expanded(a),
            offscreen: n.is_offscreen,
        },
    }
}

/// The native evidence of the first 256 nodes that are realised now and whose
/// exact element a binding names with a valid stable reference, in order: role
/// and name cut to 120 bytes (no name for a password or sensitive node), and the
/// focusable, selected and expanded states read from the provider's attributes.
pub fn adapt_native_ax(nodes: &[NativeSemanticNode], bindings: &[NativeAxStableRefBinding]) -> (r: Vec<
    NativeAxObservation,
>)
    ensures
        r@.len() == adapted(nodes@, bindings@).len(),
        forall|k: int|
            0 <= k < r@.len() ==> observed(
                #[trigger] r@[k],
                nodes@[adapted(nodes@, bindings@)[k].0],
                adapted(nodes@, bindings@)[k].1,
            ),
{
    let mut out: Vec<NativeAxObservation> = Vec::new();
    let mut i: usize = 0;
    while i < nodes.len()
        invariant
            i <= nodes@.len(),
            out@.len() == adapted(nodes@.take(i as int), bindings@).len(),
            forall|k: int|
                0 <= k < out@.len() ==> 0 <= adapted(nodes@.take(i as int), bindings@)[k].0 < i && observed(
                    #[trigger] out@[k],
                    nodes@[adapted(nodes@.take(i as int), bindings@)[k].0],
                    adapted(nodes@.take(i as int), bindings@)[k].1,
                ),
        decreases nodes@.len() - i,
    {
        let ghost pre = nodes@.take(i as int);
        let ghost next = nodes@.take(i + 1);
        proof {
            assert(next.drop_last() == pre);
            assert(next.last() == nodes@[i as int]);
            lemma_adapted_positions(pre, bindings@);
        }
        let n = &nodes[i];
        if i < MAX_NATIVE_AX_OBSERVATIONS && n.element_ref.realization
            == ProviderElementRealization::RealizedCurrent {
            match find_binding(bindings, &n.element_ref) {
                Some(reference) => {
                    let o = observe(n, reference);
                    out.push(o);
                },
                None => {},
            }
        }
        i += 1;
    }
    proof {
        assert(nodes@.take(i as int) == nodes@);
    }
    out
}

proof fn lemma_adapted_positions(nodes: Seq<NativeSemanticNode>, bindings: Seq<NativeAxStableRefBinding>)
    ensures
        forall|k: int|
            0 <= k < adapted(nodes, bindings).len() ==> 0 <= #[trigger] adapted(nodes, bindings)[k].0
                < nodes.len(),
    decreases nodes.len(),
{
    if nodes.len() > 0 {
        let init = nodes.drop_last();
        lemma_adapted_positions(init, bindings);
        let rest = adapted(init, bindings);
        let all = adapted(nodes, bindings);
        assert forall|k: int| 0 <= k < all.len() implies 0 <= #[trigger] all[k].0 < nodes.len() by {
            if k < rest.len() {
                assert(all[k] == rest[k]);
            } else {
                assert(all[k].0 == nodes.len() - 1);
            }
        }
    }
}

} // verus!

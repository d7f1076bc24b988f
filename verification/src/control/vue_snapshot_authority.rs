//! Scrubbing of Vue component source hints before retention.
use vstd::prelude::*;
use crate::control::css_trace::{all_segments_normal, has_special_or_control, segments_normal, url_special};
use crate::paths::{forward_slashes, relative_display, relative_display_of, relative_has_parent, relative_has_parent_of, path_starts_with, starts_with_path, to_forward_slashes};
use crate::text::{any_control, byte_len, byte_len_within, chars_of, contains_char, ends_with, has_char, has_control, has_suffix, is_ascii_alpha, segments, split, starts_with, string_of};

verus! {

pub const MAX_ABSOLUTE_VUE_PATH_BYTES: usize = 1024;
pub const MAX_RETAINED_VUE_PATH_BYTES: usize = 260;

pub open spec fn vue_ext() -> Seq<char> {
    seq!['.', 'v', 'u', 'e']
}

/// The component name a Vue file path implies: the last path piece without `.vue`.
pub open spec fn spec_vue_component_for_file(f: Seq<char>) -> Option<Seq<char>> {
    let parts = split(forward_slashes(f), '/');
    let base = parts.last();
    if !ends_with(base, vue_ext()) {
        None
    } else {
        let component = base.take(base.len() - 4);
        if component.len() == 0 || byte_len(component) > 96 || any_control(component) {
            None
        } else {
            Some(component)
        }
    }
}

pub fn vue_component_for_file(file: &str) -> (r: Option<String>)
    ensures
        match r {
            Some(n) => spec_vue_component_for_file(file@) == Some(n@),
            None => spec_vue_component_for_file(file@) is None,
        },
{
    let v = chars_of(file);
    let normalized = to_forward_slashes(v.as_slice());
    let segs = segments(normalized.as_slice(), '/');
    proof {
        crate::text::lemma_split_nonempty(normalized@, '/');
    }
    let (a, b) = segs[segs.len() - 1];
    let base = &normalized.as_slice()[a..b];
    proof {
        assert(base@ == split(forward_slashes(file@), '/').last());
    }
    let ext: [char; 4] = ['.', 'v', 'u', 'e'];
    proof {
        assert(ext@ =~= vue_ext());
    }
    if !has_suffix(base, &ext) {
        return None;
    }
    let component = &base[0..base.len() - 4];
    proof {
        assert(component@ == base@.take(base@.len() - 4));
        assert(component@.subrange(0, component@.len() as int) == component@);
    }
    if component.len() == 0 || byte_len_within(component, 0, component.len(), 96).is_none()
        || has_control(component) {
        return None;
    }
    Some(string_of(component, 0, component.len()))
}

pub open spec fn spec_is_safe_relative_vue_file(f: Seq<char>) -> bool {
    !(f.len() == 0 || byte_len(f) > 260 || !ends_with(f, vue_ext()) || starts_with(f, seq!['/'])
        || starts_with(f, seq!['\\']) || contains_char(f, '\\') || (exists|i: int|
        0 <= i < f.len() && (url_special(f[i]) || crate::text::is_control(f[i]))))
        && all_segments_normal(f)
}

pub fn is_safe_relative_vue_file(file: &str) -> (r: bool)
    ensures
        r == spec_is_safe_relative_vue_file(file@),
{
    let v = chars_of(file);
    let ext: [char; 4] = ['.', 'v', 'u', 'e'];
    let slash: [char; 1] = ['/'];
    let backslash: [char; 1] = ['\\'];
    proof {
        assert(ext@ =~= vue_ext());
        assert(slash@ =~= seq!['/']);
        assert(backslash@ =~= seq!['\\']);
        assert(v@.subrange(0, v@.len() as int) == v@);
    }
    if v.len() == 0 || byte_len_within(v.as_slice(), 0, v.len(), MAX_RETAINED_VUE_PATH_BYTES).is_none()
        || !has_suffix(v.as_slice(), &ext) || crate::text::has_prefix(v.as_slice(), &slash)
        || crate::text::has_prefix(v.as_slice(), &backslash) || has_char(v.as_slice(), '\\')
        || has_special_or_control(v.as_slice()) {
        return false;
    }
    segments_normal(v.as_slice())
}

/// A path that is absolute on Unix or Windows (`/x`, `\x`, `C:/x`, `C:\x`).
pub open spec fn spec_is_absolute_vue_candidate(f: Seq<char>) -> bool {
    starts_with(f, seq!['/']) || starts_with(f, seq!['\\']) || (f.len() >= 3 && is_ascii_alpha(f[0])
        && f[1] == ':' && (f[2] == '/' || f[2] == '\\'))
}

pub fn is_absolute_vue_candidate(file: &str) -> (r: bool)
    ensures
        r == spec_is_absolute_vue_candidate(file@),
{
    let v = chars_of(file);
    let slash: [char; 1] = ['/'];
    let backslash: [char; 1] = ['\\'];
    proof {
        assert(slash@ =~= seq!['/']);
        assert(backslash@ =~= seq!['\\']);
    }
    crate::text::has_prefix(v.as_slice(), &slash) || crate::text::has_prefix(v.as_slice(), &backslash)
        || (v.len() >= 3 && crate::text::ascii_alpha(v[0]) && v[1] == ':' && (v[2] == '/' || v[2]
        == '\\'))
}

pub open spec fn spec_project_relative_display(path: Seq<char>, root: Seq<char>) -> Option<Seq<char>> {
    if !path_starts_with(path, root) || relative_has_parent(path, root) {
        None
    } else {
        match relative_display(path, root) {
            None => None,
            Some(v) => if v.len() == 0 || byte_len(v) > 260 || !ends_with(v, vue_ext()) || any_control(v) {
                None
            } else {
                Some(v)
            },
        }
    }
}

pub fn project_relative_display(root: &str, path: &str) -> (r: Option<String>)
    ensures
        match r {
            Some(n) => spec_project_relative_display(path@, root@) == Some(n@),
            None => spec_project_relative_display(path@, root@) is None,
        },
{
    let rv = chars_of(root);
    let pv = chars_of(path);
    if !starts_with_path(pv.as_slice(), rv.as_slice()) {
        return None;
    }
    if relative_has_parent_of(rv.as_slice(), pv.as_slice()) {
        return None;
    }
    let value = match relative_display_of(rv.as_slice(), pv.as_slice()) {
        Some(v) => v,
        None => return None,
    };
    let ext: [char; 4] = ['.', 'v', 'u', 'e'];
    proof {
        assert(ext@ =~= vue_ext());
        assert(value@.subrange(0, value@.len() as int) == value@);
    }
    if value.len() == 0 || byte_len_within(value.as_slice(), 0, value.len(), MAX_RETAINED_VUE_PATH_BYTES).is_none()
        || !has_suffix(value.as_slice(), &ext) || has_control(value.as_slice()) {
        return None;
    }
    Some(string_of(value.as_slice(), 0, value.len()))
}

} // verus!

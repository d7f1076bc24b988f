//! Validation of CSS trace requests.
use vstd::prelude::*;
use crate::text::{any_control, byte_len, byte_len_within, chars_of, contains_char, eq_lit, has_char, has_control, has_prefix, segments, split, starts_with};

verus! {

pub const MAX_REFERENCE_BYTES: usize = 256;

/// Computed-style properties that a CSS trace may ask about.
pub open spec fn traced_css_property(s: Seq<char>) -> bool {
    s == "display"@ || s == "position"@ || s == "overflowX"@ || s == "overflowY"@ || s == "boxSizing"@ || s == "zIndex"@ || s == "flexDirection"@ || s == "flexWrap"@ || s == "justifyContent"@ || s == "alignItems"@ || s == "gap"@ || s == "rowGap"@ || s == "columnGap"@ || s == "gridTemplateColumns"@ || s == "gridTemplateRows"@ || s == "paddingTop"@ || s == "paddingRight"@ || s == "paddingBottom"@ || s == "paddingLeft"@ || s == "marginTop"@ || s == "marginRight"@ || s == "marginBottom"@ || s == "marginLeft"@ || s == "borderTopWidth"@ || s == "borderRightWidth"@ || s == "borderBottomWidth"@ || s == "borderLeftWidth"@ || s == "fontSize"@ || s == "fontWeight"@ || s == "fontFamily"@ || s == "lineHeight"@ || s == "color"@ || s == "backgroundColor"@ || s == "opacity"@ || s == "pointerEvents"@ || s == "visibility"@ || s == "overflow-x"@ || s == "overflow-y"@ || s == "box-sizing"@ || s == "z-index"@ || s == "flex-direction"@ || s == "flex-wrap"@ || s == "justify-content"@ || s == "align-items"@ || s == "row-gap"@ || s == "column-gap"@ || s == "grid-template-columns"@ || s == "grid-template-rows"@ || s == "padding-top"@ || s == "padding-right"@ || s == "padding-bottom"@ || s == "padding-left"@ || s == "margin-top"@ || s == "margin-right"@ || s == "margin-bottom"@ || s == "margin-left"@ || s == "border-top-width"@ || s == "border-right-width"@ || s == "border-bottom-width"@ || s == "border-left-width"@ || s == "font-size"@ || s == "font-weight"@ || s == "font-family"@ || s == "line-height"@ || s == "background-color"@ || s == "pointer-events"@
}

pub fn valid_css_property(property: &str) -> (r: bool)
    ensures
        r == traced_css_property(property@),
{
    let v = chars_of(property);
    eq_lit(v.as_slice(), "display")
        || eq_lit(v.as_slice(), "position")
        || eq_lit(v.as_slice(), "overflowX")
        || eq_lit(v.as_slice(), "overflowY")
        || eq_lit(v.as_slice(), "boxSizing")
        || eq_lit(v.as_slice(), "zIndex")
        || eq_lit(v.as_slice(), "flexDirection")
        || eq_lit(v.as_slice(), "flexWrap")
        || eq_lit(v.as_slice(), "justifyContent")
        || eq_lit(v.as_slice(), "alignItems")
        || eq_lit(v.as_slice(), "gap")
        || eq_lit(v.as_slice(), "rowGap")
        || eq_lit(v.as_slice(), "columnGap")
        || eq_lit(v.as_slice(), "gridTemplateColumns")
        || eq_lit(v.as_slice(), "gridTemplateRows")
        || eq_lit(v.as_slice(), "paddingTop")
        || eq_lit(v.as_slice(), "paddingRight")
        || eq_lit(v.as_slice(), "paddingBottom")
        || eq_lit(v.as_slice(), "paddingLeft")
        || eq_lit(v.as_slice(), "marginTop")
        || eq_lit(v.as_slice(), "marginRight")
        || eq_lit(v.as_slice(), "marginBottom")
        || eq_lit(v.as_slice(), "marginLeft")
        || eq_lit(v.as_slice(), "borderTopWidth")
        || eq_lit(v.as_slice(), "borderRightWidth")
        || eq_lit(v.as_slice(), "borderBottomWidth")
        || eq_lit(v.as_slice(), "borderLeftWidth")
        || eq_lit(v.as_slice(), "fontSize")
        || eq_lit(v.as_slice(), "fontWeight")
        || eq_lit(v.as_slice(), "fontFamily")
        || eq_lit(v.as_slice(), "lineHeight")
        || eq_lit(v.as_slice(), "color")
        || eq_lit(v.as_slice(), "backgroundColor")
        || eq_lit(v.as_slice(), "opacity")
        || eq_lit(v.as_slice(), "pointerEvents")
        || eq_lit(v.as_slice(), "visibility")
        || eq_lit(v.as_slice(), "overflow-x")
        || eq_lit(v.as_slice(), "overflow-y")
        || eq_lit(v.as_slice(), "box-sizing")
        || eq_lit(v.as_slice(), "z-index")
        || eq_lit(v.as_slice(), "flex-direction")
        || eq_lit(v.as_slice(), "flex-wrap")
        || eq_lit(v.as_slice(), "justify-content")
        || eq_lit(v.as_slice(), "align-items")
        || eq_lit(v.as_slice(), "row-gap")
        || eq_lit(v.as_slice(), "column-gap")
        || eq_lit(v.as_slice(), "grid-template-columns")
        || eq_lit(v.as_slice(), "grid-template-rows")
        || eq_lit(v.as_slice(), "padding-top")
        || eq_lit(v.as_slice(), "padding-right")
        || eq_lit(v.as_slice(), "padding-bottom")
        || eq_lit(v.as_slice(), "padding-left")
        || eq_lit(v.as_slice(), "margin-top")
        || eq_lit(v.as_slice(), "margin-right")
        || eq_lit(v.as_slice(), "margin-bottom")
        || eq_lit(v.as_slice(), "margin-left")
        || eq_lit(v.as_slice(), "border-top-width")
        || eq_lit(v.as_slice(), "border-right-width")
        || eq_lit(v.as_slice(), "border-bottom-width")
        || eq_lit(v.as_slice(), "border-left-width")
        || eq_lit(v.as_slice(), "font-size")
        || eq_lit(v.as_slice(), "font-weight")
        || eq_lit(v.as_slice(), "font-family")
        || eq_lit(v.as_slice(), "line-height")
        || eq_lit(v.as_slice(), "background-color")
        || eq_lit(v.as_slice(), "pointer-events")
}

/// A path piece that names a directory or file (not empty, `.` or `..`).
pub open spec fn normal_segment(seg: Seq<char>) -> bool {
    seg.len() > 0 && seg != seq!['.'] && seg != seq!['.', '.']
}

pub open spec fn all_segments_normal(s: Seq<char>) -> bool {
    forall|i: int| 0 <= i < split(s, '/').len() ==> normal_segment(#[trigger] split(s, '/')[i])
}

pub open spec fn url_special(c: char) -> bool {
    c == '%' || c == '?' || c == '#' || c == ':'
}

pub open spec fn spec_valid_relative_file(f: Seq<char>) -> bool {
    !(f.len() == 0 || starts_with(f, seq!['/']) || contains_char(f, '\\') || (exists|i: int|
        0 <= i < f.len() && (url_special(f[i]) || crate::text::is_control(f[i])))) && all_segments_normal(f)
}

/// Whether every piece of `v` between slashes is a normal segment.
pub fn segments_normal(v: &[char]) -> (r: bool)
    ensures
        r == all_segments_normal(v@),
{
    let segs = segments(v, '/');
    let mut i: usize = 0;
    while i < segs.len()
        invariant
            i <= segs@.len(),
            segs@.len() == split(v@, '/').len(),
            forall|k: int| 0 <= k < segs@.len() ==> (#[trigger] segs@[k]).0 <= segs@[k].1 <= v@.len(),
            forall|k: int|
                0 <= k < segs@.len() ==> (v@.subrange(segs@[k].0 as int, segs@[k].1 as int)
                    == #[trigger] split(v@, '/')[k]),
            forall|k: int| 0 <= k < i ==> normal_segment(#[trigger] split(v@, '/')[k]),
        decreases segs@.len() - i,
    {
        let (a, b) = segs[i];
        let seg = &v[a..b];
        proof {
            assert(seg@ == split(v@, '/')[i as int]);
        }
        let dot: [char; 1] = ['.'];
        let dotdot: [char; 2] = ['.', '.'];
        proof {
            assert(dot@ =~= seq!['.']);
            assert(dotdot@ =~= seq!['.', '.']);
        }
        if seg.len() == 0 || crate::text::seq_eq(seg, &dot) || crate::text::seq_eq(seg, &dotdot) {
            return false;
        }
        i += 1;
    }
    true
}

/// Whether some character is one of `%`, `?`, `#`, `:` or a control character.
pub fn has_special_or_control(v: &[char]) -> (r: bool)
    ensures
        r == (exists|i: int| 0 <= i < v@.len() && (url_special(v@[i]) || crate::text::is_control(v@[i]))),
{
    let mut i: usize = 0;
    while i < v.len()
        invariant
            i <= v@.len(),
            forall|k: int| 0 <= k < i ==> !(url_special(#[trigger] v@[k]) || crate::text::is_control(v@[k])),
        decreases v@.len() - i,
    {
        let c = v[i];
        if c == '%' || c == '?' || c == '#' || c == ':' || crate::text::control(c) {
            return true;
        }
        i += 1;
    }
    false
}

pub fn valid_relative_file(file: &str) -> (r: bool)
    ensures
        r == spec_valid_relative_file(file@),
{
    let v = chars_of(file);
    let slash: [char; 1] = ['/'];
    proof {
        assert(slash@ =~= seq!['/']);
    }
    if v.len() == 0 || has_prefix(v.as_slice(), &slash) || has_char(v.as_slice(), '\\')
        || has_special_or_control(v.as_slice()) {
        return false;
    }
    segments_normal(v.as_slice())
}

pub open spec fn spec_valid_reference(r: Seq<char>) -> bool {
    r.len() > 0 && byte_len(r) <= 256 && !any_control(r)
}

pub fn valid_reference(reference: &str) -> (r: bool)
    ensures
        r == spec_valid_reference(reference@),
{
    let v = chars_of(reference);
    proof {
        assert(v@.subrange(0, v@.len() as int) == v@);
    }
    v.len() > 0 && byte_len_within(v.as_slice(), 0, v.len(), MAX_REFERENCE_BYTES).is_some()
        && !has_control(v.as_slice())
}

} // verus!

//! Validation of visual artifacts reported by native surfaces.
use vstd::prelude::*;
use crate::text::{chars_of, eq_lit, is_lower_hex, starts_with};

verus! {

/// A retained visual artifact id: `lv-` followed by 16 lower-case hexadecimal digits.
pub open spec fn spec_valid_artifact_id(v: Seq<char>) -> bool {
    v.len() == 19 && starts_with(v, seq!['l', 'v', '-']) && forall|i: int|
        3 <= i < 19 ==> is_lower_hex(#[trigger] v[i])
}

pub fn artifact_id_shape(value: &str) -> (r: bool)
    ensures
        r == spec_valid_artifact_id(value@),
{
    let v = chars_of(value);
    if v.len() != 19 || v[0] != 'l' || v[1] != 'v' || v[2] != '-' {
        proof {
            if v@.len() == 19 {
                assert(v@.take(3)[0] == v@[0]);
                assert(v@.take(3)[1] == v@[1]);
                assert(v@.take(3)[2] == v@[2]);
            }
        }
        return false;
    }
    proof {
        assert(v@.take(3) =~= seq!['l', 'v', '-']);
    }
    let mut i: usize = 3;
    while i < 19
        invariant
            3 <= i <= 19,
            v@.len() == 19,
            v@ == value@,
            forall|k: int| 3 <= k < i ==> is_lower_hex(#[trigger] v@[k]),
        decreases 19 - i,
    {
        let c = v[i];
        if !(crate::text::ascii_digit(c) || ('a' <= c && c <= 'f')) {
            proof {
                assert(!is_lower_hex(v@[i as int]));
            }
            return false;
        }
        i += 1;
    }
    true
}

pub fn valid_visual_artifact_id(value: &str) -> (r: bool)
    ensures
        r == spec_valid_artifact_id(value@),
{
    artifact_id_shape(value)
}

/// The native visual backends.
pub open spec fn spec_valid_backend(v: Seq<char>) -> bool {
    v == "webview2"@ || v == "wk_web_view"@ || v == "web_kit_gtk"@
}

pub fn backend_name(value: &str) -> (r: bool)
    ensures
        r == spec_valid_backend(value@),
{
    let v = chars_of(value);
    eq_lit(v.as_slice(), "webview2") || eq_lit(v.as_slice(), "wk_web_view") || eq_lit(
        v.as_slice(),
        "web_kit_gtk",
    )
}

pub fn valid_visual_backend(value: &str) -> (r: bool)
    ensures
        r == spec_valid_backend(value@),
{
    backend_name(value)
}

} // verus!

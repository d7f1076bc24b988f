//! Resolving runtime source positions: finding a script's source map annotation
//! and recording why a position could not be resolved.
use vstd::prelude::*;
use crate::text::{
    byte_len, byte_len_within, chars_of, contains_seq, ends_with, find_seq, has_prefix, has_suffix, lowercase_ascii, lower_seq,
    lower_seq_eq, seq_eq, segments, split, starts_with, string_of, trim, trim_bounds,
};
use crate::web_url::{
    join_whatwg, without_fragment_whatwg, without_query_whatwg, whatwg_join, whatwg_parse,
    whatwg_without_fragment, whatwg_without_query, HostView, UrlParts, UrlView,
};
use vstd::utf8::{decode_utf8, encode_utf8, valid_utf8};
use base64::Engine;

verus! {

/// How many of a script's last non-blank lines may hold its source map annotation.
pub const MAX_ANNOTATION_LINES: usize = 4;

/// The largest source map accepted, in bytes.
pub const MAX_MAP_BYTES: usize = 2097152;

/// The longest external source map reference accepted, in bytes.
pub const MAX_EXTERNAL_MAP_REFERENCE_BYTES: usize = 2048;

/// Where a session's application is served.
#[derive(Debug, Clone)]
pub struct Endpoint {
    pub host: String,
    pub port: u16,
    pub scheme: String,
}

#[derive(Debug, Clone, Copy, PartialEq, Eq, Structural)]
pub enum DiscoveryMethod {
    SourceMapHeader,
    XSourceMapHeader,
    ExternalAnnotation,
    InlineAnnotation,
}

#[derive(Debug, Clone, Copy, PartialEq, Eq, Structural)]
pub enum UnresolvedReason {
    InvalidRuntimePosition,
    SourceOutsideSessionOrigin,
    SourceFetchFailed,
    SourceTooLarge,
    MapReferenceMissing,
    MapReferenceInvalid,
    MapOutsideSessionOrigin,
    MapFetchFailed,
    MapTooLarge,
    MapInvalid,
    PositionUnmapped,
}

#[derive(Debug, Clone)]
pub struct ResolvedSourceResponse {
    pub source: String,
    pub line: u32,
    pub column: u32,
    pub name: Option<String>,
}

#[derive(Debug, Clone)]
pub struct RuntimeSourceResolutionRecord {
    pub observer_seq: u64,
    pub generated_source: Option<String>,
    pub generated_line: Option<u32>,
    pub generated_column: Option<u32>,
    pub original: Option<ResolvedSourceResponse>,
    pub discovery_method: Option<DiscoveryMethod>,
    pub unresolved_reason: Option<UnresolvedReason>,
}

/// The record of a position that could not be resolved, and why.
pub fn unresolved_record(
    observer_seq: u64,
    generated_source: Option<String>,
    generated_line: Option<u32>,
    generated_column: Option<u32>,
    unresolved_reason: UnresolvedReason,
) -> (r: RuntimeSourceResolutionRecord)
    ensures
        r.observer_seq == observer_seq,
        r.generated_source == generated_source,
        r.generated_line == generated_line,
        r.generated_column == generated_column,
        r.original is None,
        r.discovery_method is None,
        r.unresolved_reason == Some(unresolved_reason),
{
    RuntimeSourceResolutionRecord {
        observer_seq,
        generated_source,
        generated_line,
        generated_column,
        original: None,
        discovery_method: None,
        unresolved_reason: Some(unresolved_reason),
    }
}

/// The non-blank lines, last first.
pub open spec fn nonblank_from_end(lines: Seq<Seq<char>>) -> Seq<Seq<char>>
    decreases lines.len(),
{
    if lines.len() == 0 {
        Seq::empty()
    } else if trim(lines.last()).len() > 0 {
        seq![lines.last()] + nonblank_from_end(lines.drop_last())
    } else {
        nonblank_from_end(lines.drop_last())
    }
}

/// The value a line gives as an annotation: after `//# sourceMappingURL=` or
/// `//@ sourceMappingURL=` at the start of the trimmed line, trimmed, if not empty.
pub open spec fn annotation_value(line: Seq<char>) -> Option<Seq<char>> {
    let t = trim(line);
    let p1 = "//# sourceMappingURL="@;
    let p2 = "//@ sourceMappingURL="@;
    let rest = if starts_with(t, p1) {
        Some(t.skip(p1.len() as int))
    } else if starts_with(t, p2) {
        Some(t.skip(p2.len() as int))
    } else {
        None
    };
    match rest {
        Some(v) => if trim(v).len() > 0 {
            Some(trim(v))
        } else {
            None
        },
        None => None,
    }
}

/// The first line, in order, that gives an annotation value.
pub open spec fn first_annotation(lines: Seq<Seq<char>>) -> Option<Seq<char>>
    decreases lines.len(),
{
    if lines.len() == 0 {
        None
    } else {
        match annotation_value(lines[0]) {
            Some(v) => Some(v),
            None => first_annotation(lines.drop_first()),
        }
    }
}

/// A script's source map annotation: the value of the first annotation among its
/// last four non-blank lines, read from the end.
pub open spec fn source_map_annotation(source: Seq<char>) -> Option<Seq<char>> {
    let lines = nonblank_from_end(split(source, '\n'));
    first_annotation(lines.take(vstd::math::min(lines.len() as int, MAX_ANNOTATION_LINES as int)))
}

fn annotation_of_line(line: &[char]) -> (r: Option<String>)
    ensures
        match r {
            Some(s) => annotation_value(line@) == Some(s@),
            None => annotation_value(line@) is None,
        },
{
    let (a, b) = trim_bounds(line);
    let t = &line[a..b];
    let p1 = chars_of("//# sourceMappingURL=");
    let p2 = chars_of("//@ sourceMappingURL=");
    proof {
        assert(t@ == trim(line@));
    }
    let start = if has_prefix(t, p1.as_slice()) {
        p1.len()
    } else if has_prefix(t, p2.as_slice()) {
        p2.len()
    } else {
        return None;
    };
    let rest = &t[start..t.len()];
    proof {
        assert(rest@ == t@.skip(start as int));
    }
    let (c, d) = trim_bounds(rest);
    if c == d {
        return None;
    }
    let r = string_of(rest, c, d);
    Some(r)
}

/// A script's source map annotation.
pub fn source_mapping_url_annotation(source: &str) -> (r: Option<String>)
    ensures
        match r {
            Some(s) => source_map_annotation(source@) == Some(s@),
            None => source_map_annotation(source@) is None,
        },
{
    let v = chars_of(source);
    let segs = segments(v.as_slice(), '\n');
    let ghost lines = split(v@, '\n');
    let ghost picked = nonblank_from_end(lines);
    let ghost window = picked.take(vstd::math::min(picked.len() as int, MAX_ANNOTATION_LINES as int));
    let mut j: usize = segs.len();
    let mut seen: usize = 0;
    proof {
        assert(lines.take(j as int) == lines);
    }
    while j > 0 && seen < MAX_ANNOTATION_LINES
        invariant
            segs@.len() == lines.len(),
            lines == split(v@, '\n'),
            v@ == source@,
            forall|i: int| 0 <= i < segs@.len() ==> (#[trigger] segs@[i]).0 <= segs@[i].1 <= v@.len(),
            forall|i: int|
                0 <= i < segs@.len() ==> v@.subrange(segs@[i].0 as int, segs@[i].1 as int) == #[trigger] lines[i],
            j <= lines.len(),
            seen <= MAX_ANNOTATION_LINES,
            picked == nonblank_from_end(lines),
            window == picked.take(vstd::math::min(picked.len() as int, MAX_ANNOTATION_LINES as int)),
            first_annotation(window) == first_annotation(
                nonblank_from_end(lines.take(j as int)).take(
                    vstd::math::min(
                        nonblank_from_end(lines.take(j as int)).len() as int,
                        MAX_ANNOTATION_LINES - seen,
                    ),
                ),
            ),
        decreases j,
    {
        let (a, b) = segs[j - 1];
        let line = &v[a..b];
        let ghost pre = lines.take(j as int);
        proof {
            assert(line@ == lines[j - 1]);
            assert(pre.drop_last() == lines.take(j - 1));
            assert(pre.last() == lines[j - 1]);
        }
        let (c, d) = trim_bounds(line);
        if c < d {
            match annotation_of_line(line) {
                Some(value) => {
                    proof {
                        let rest = nonblank_from_end(pre);
                        let w = rest.take(vstd::math::min(rest.len() as int, MAX_ANNOTATION_LINES - seen));
                        assert(w[0] == lines[j - 1]);
                        assert(w.len() > 0);
                    }
                    return Some(value);
                },
                None => {
                    proof {
                        let rest = nonblank_from_end(pre);
                        let tail = nonblank_from_end(lines.take(j - 1));
                        let n = vstd::math::min(rest.len() as int, MAX_ANNOTATION_LINES - seen);
                        let w = rest.take(n);
                        assert(rest == seq![lines[j - 1]] + tail);
                        assert(w.drop_first() == tail.take(
                            vstd::math::min(tail.len() as int, MAX_ANNOTATION_LINES - (seen + 1)),
                        ));
                    }
                    seen += 1;
                },
            }
        } else {
            proof {
                assert(nonblank_from_end(pre) == nonblank_from_end(lines.take(j - 1)));
            }
        }
        j -= 1;
    }
    proof {
        let rest = nonblank_from_end(lines.take(j as int));
        let n = vstd::math::min(rest.len() as int, MAX_ANNOTATION_LINES - seen);
        if j == 0 {
            assert(lines.take(0) == Seq::<Seq<char>>::empty());
        }
        assert(rest.take(n).len() == 0);
    }
    None
}

/// Whether a query holds a redaction marker, in any case or percent-encoding.
pub open spec fn has_redacted_marker(query: Option<Seq<char>>) -> bool {
    match query {
        Some(q) => contains_seq(lower_seq(q), "[redacted]"@) || contains_seq(
            lower_seq(q),
            "%5bredacted%5d"@,
        ) || contains_seq(lower_seq(q), "%5b%52%45%44%41%43%54%45%44%5d"@),
        None => false,
    }
}

/// Whether a query holds a redaction marker.
pub fn contains_redacted_marker(query: Option<&str>) -> (r: bool)
    ensures
        r == has_redacted_marker(match query {
            Some(q) => Some(q@),
            None => None,
        }),
{
    match query {
        Some(q) => {
            let v = chars_of(q);
            let lower = lowercase_ascii(v.as_slice());
            let m1 = chars_of("[redacted]");
            let m2 = chars_of("%5bredacted%5d");
            let m3 = chars_of("%5b%52%45%44%41%43%54%45%44%5d");
            find_seq(lower.as_slice(), m1.as_slice()) || find_seq(lower.as_slice(), m2.as_slice())
                || find_seq(lower.as_slice(), m3.as_slice())
        },
        None => false,
    }
}


/// Whether a URL's host is a loopback host: `localhost` in any case, or an IPv4
/// address in `127.0.0.0/8`. An IPv6 host is written in brackets, which an address
/// parser does not read, so it never counts.
pub open spec fn loopback_host(host_str: Seq<char>, host: Option<HostView>) -> bool {
    lower_seq(host_str) == "localhost"@ || (host matches Some(HostView::Ipv4(o)) && o[0] == 127)
}

/// Whether a URL stays within a session's exact origin: no credentials, the
/// session's scheme (HTTP or HTTPS), its host in any case and a loopback host,
/// its port (or the scheme's default), and no redaction marker in the query.
pub open spec fn exact_origin(endpoint: Endpoint, url: UrlView) -> bool {
    &&& url.username.len() == 0
    &&& !url.has_password
    &&& (url.scheme == "http"@ || url.scheme == "https"@)
    &&& lower_seq(url.scheme) == lower_seq(endpoint.scheme@)
    &&& url.host_str matches Some(h)
    &&& lower_seq(url.host_str->0) == lower_seq(endpoint.host@)
    &&& loopback_host(url.host_str->0, url.host)
    &&& url.port == Some(endpoint.port)
    &&& !has_redacted_marker(url.query)
}

/// Whether two texts are equal up to ASCII case.
fn eq_ignore_case(a: &str, b: &str) -> (r: bool)
    ensures
        r == (lower_seq(a@) == lower_seq(b@)),
{
    let x = chars_of(a);
    let y = chars_of(b);
    let lx = lowercase_ascii(x.as_slice());
    let ly = lowercase_ascii(y.as_slice());
    seq_eq(lx.as_slice(), ly.as_slice())
}

fn is_loopback_host(url: &UrlParts) -> (r: bool)
    requires
        url.host_str is Some,
    ensures
        r == loopback_host(url.host_str->0@, url@.host),
{
    let h = match &url.host_str {
        Some(h) => h,
        None => {
            return false;
        },
    };
    let hv = chars_of(h.as_str());
    let l = chars_of("localhost");
    if lower_seq_eq(hv.as_slice(), l.as_slice()) {
        return true;
    }
    match &url.host {
        Some(crate::web_url::UrlHost::Ipv4(o)) => o[0] == 127,
        _ => false,
    }
}

/// Whether a URL stays within a session's exact origin.
pub fn validate_exact_origin_url(endpoint: &Endpoint, url: &UrlParts) -> (r: Result<(), ()>)
    ensures
        r is Ok <==> exact_origin(*endpoint, url@),
{
    if !url.username.as_str().is_empty() || url.has_password {
        return Err(());
    }
    let sv = chars_of(url.scheme.as_str());
    if !crate::text::eq_lit(sv.as_slice(), "http") && !crate::text::eq_lit(sv.as_slice(), "https") {
        return Err(());
    }
    if !eq_ignore_case(url.scheme.as_str(), endpoint.scheme.as_str()) {
        return Err(());
    }
    let host = match &url.host_str {
        Some(h) => h,
        None => {
            return Err(());
        },
    };
    if !eq_ignore_case(host.as_str(), endpoint.host.as_str()) || !is_loopback_host(url) {
        return Err(());
    }
    if url.port != Some(endpoint.port) {
        return Err(());
    }
    let query = match &url.query {
        Some(q) => Some(q.as_str()),
        None => None,
    };
    if contains_redacted_marker(query) {
        return Err(());
    }
    Ok(())
}

/// Whether a path names a script: it ends, in any case, with `.js`, `.mjs`,
/// `.cjs`, `.ts`, `.tsx` or `.jsx`.
pub open spec fn script_like_path(path: Seq<char>) -> bool {
    let p = lower_seq(path);
    ends_with(p, ".js"@) || ends_with(p, ".mjs"@) || ends_with(p, ".cjs"@) || ends_with(p, ".ts"@)
        || ends_with(p, ".tsx"@) || ends_with(p, ".jsx"@)
}

fn is_script_like_path(path: &str) -> (r: bool)
    ensures
        r == script_like_path(path@),
{
    let v = chars_of(path);
    let p = lowercase_ascii(v.as_slice());
    let e1 = chars_of(".js");
    let e2 = chars_of(".mjs");
    let e3 = chars_of(".cjs");
    let e4 = chars_of(".ts");
    let e5 = chars_of(".tsx");
    let e6 = chars_of(".jsx");
    has_suffix(p.as_slice(), e1.as_slice()) || has_suffix(p.as_slice(), e2.as_slice())
        || has_suffix(p.as_slice(), e3.as_slice()) || has_suffix(p.as_slice(), e4.as_slice())
        || has_suffix(p.as_slice(), e5.as_slice()) || has_suffix(p.as_slice(), e6.as_slice())
}

/// The URL of a script that raised a runtime error, where it parses, stays within
/// the session's exact origin and names a script.
pub open spec fn generated_source(endpoint: Endpoint, raw: Seq<char>) -> Result<UrlView, UnresolvedReason> {
    match whatwg_parse(raw) {
        Some(u) => if exact_origin(endpoint, u) && script_like_path(u.path) {
            Ok(u)
        } else {
            Err(UnresolvedReason::SourceOutsideSessionOrigin)
        },
        None => Err(UnresolvedReason::SourceOutsideSessionOrigin),
    }
}

pub open spec fn url_result(r: Result<UrlParts, UnresolvedReason>) -> Result<UrlView, UnresolvedReason> {
    match r {
        Ok(u) => Ok(u@),
        Err(e) => Err(e),
    }
}

/// Checks the URL of a script that raised a runtime error.
pub fn validate_generated_source_url(endpoint: &Endpoint, raw: &str) -> (r: Result<
    UrlParts,
    UnresolvedReason,
>)
    ensures
        url_result(r) == generated_source(*endpoint, raw@),
{
    let url = match UrlParts::parse(raw) {
        Some(url) => url,
        None => {
            return Err(UnresolvedReason::SourceOutsideSessionOrigin);
        },
    };
    if validate_exact_origin_url(endpoint, &url).is_err() {
        return Err(UnresolvedReason::SourceOutsideSessionOrigin);
    }
    if !is_script_like_path(url.path.as_str()) {
        return Err(UnresolvedReason::SourceOutsideSessionOrigin);
    }
    Ok(url)
}

/// The form in which a script's source map is referenced.
#[derive(Debug, Clone)]
pub enum MapReference {
    External { url: UrlParts, method: DiscoveryMethod },
    Inline { json: String, method: DiscoveryMethod },
}

pub enum MapReferenceView {
    External { url: UrlView, method: DiscoveryMethod },
    Inline { json: Seq<char>, method: DiscoveryMethod },
}

impl View for MapReference {
    type V = MapReferenceView;

    open spec fn view(&self) -> MapReferenceView {
        match self {
            MapReference::External { url, method } => MapReferenceView::External {
                url: url@,
                method: *method,
            },
            MapReference::Inline { json, method } => MapReferenceView::Inline {
                json: json@,
                method: *method,
            },
        }
    }
}

pub open spec fn reference_result(r: Result<MapReference, UnresolvedReason>) -> Result<
    MapReferenceView,
    UnresolvedReason,
> {
    match r {
        Ok(m) => Ok(m@),
        Err(e) => Err(e),
    }
}

/// What the `base64` crate's standard engine decodes a text to, if it is valid.
pub uninterp spec fn standard_base64_decoded(input: Seq<u8>) -> Option<Seq<u8>>;

/// `base64::engine::general_purpose::STANDARD.decode`: the bytes that a text in
/// the standard alphabet, with padding, decodes to, or `None` where it is not
/// valid. The result is claimed to be a function of the input alone.
#[verifier::external_body]
fn base64_standard_decode(input: &[u8]) -> (r: Option<Vec<u8>>)
    ensures
        match r {
            Some(b) => standard_base64_decoded(input@) == Some(b@),
            None => standard_base64_decoded(input@) is None,
        },
{
    match base64::engine::general_purpose::STANDARD.decode(input) {
        Ok(bytes) => Some(bytes),
        Err(_) => None,
    }
}

/// `String::from_utf8`: the text that the bytes encode, where they are valid UTF-8
/// (as its documentation says: it fails exactly on bytes that are not UTF-8).
#[verifier::external_body]
fn utf8_text(bytes: Vec<u8>) -> (r: Option<String>)
    ensures
        match r {
            Some(s) => valid_utf8(bytes@) && s@ == decode_utf8(bytes@),
            None => !valid_utf8(bytes@),
        },
{
    match String::from_utf8(bytes) {
        Ok(text) => Some(text),
        Err(_) => None,
    }
}

/// Whether `i` is the place of the first comma in `s`.
pub open spec fn first_comma(s: Seq<char>, i: int) -> bool {
    &&& 0 <= i < s.len()
    &&& s[i] == ','
    &&& forall|j: int| 0 <= j < i ==> s[j] != ','
}

/// What an inline `data:` source map reference gives: the metadata before the first
/// comma must, in lower case, start with `data:application/json` and hold a
/// `;`-separated part `base64`; the rest is decoded as standard base64, at most
/// `MAX_MAP_BYTES` long, and must be UTF-8.
pub open spec fn decoded_inline_map(value: Seq<char>, method: DiscoveryMethod) -> Result<
    MapReferenceView,
    UnresolvedReason,
> {
    if !(exists|i: int| first_comma(value, i)) {
        Err(UnresolvedReason::MapReferenceInvalid)
    } else {
        let i = choose|i: int| first_comma(value, i);
        let meta = lower_seq(value.take(i));
        if !starts_with(meta, "data:application/json"@) || !split(meta, ';').contains("base64"@) {
            Err(UnresolvedReason::MapReferenceInvalid)
        } else {
            match standard_base64_decoded(encode_utf8(value.skip(i + 1))) {
                None => Err(UnresolvedReason::MapInvalid),
                Some(bytes) => if bytes.len() > MAX_MAP_BYTES {
                    Err(UnresolvedReason::MapTooLarge)
                } else if !valid_utf8(bytes) {
                    Err(UnresolvedReason::MapInvalid)
                } else {
                    Ok(MapReferenceView::Inline { json: decode_utf8(bytes), method })
                },
            }
        }
    }
}

proof fn lemma_first_comma_unique(s: Seq<char>, i: int, k: int)
    requires
        first_comma(s, i),
        first_comma(s, k),
    ensures
        i == k,
{
}

/// Whether one of the `;`-separated parts of `v` is `base64`.
fn has_base64_part(v: &[char]) -> (r: bool)
    ensures
        r == split(v@, ';').contains("base64"@),
{
    let segs = segments(v, ';');
    let b = chars_of("base64");
    let mut k: usize = 0;
    while k < segs.len()
        invariant
            segs@.len() == split(v@, ';').len(),
            b@ == "base64"@,
            forall|i: int| 0 <= i < segs@.len() ==> (#[trigger] segs@[i]).0 <= segs@[i].1 <= v@.len(),
            forall|i: int|
                0 <= i < segs@.len() ==> v@.subrange(segs@[i].0 as int, segs@[i].1 as int) == #[trigger] split(
                    v@,
                    ';',
                )[i],
            k <= segs@.len(),
            forall|i: int| 0 <= i < k ==> split(v@, ';')[i] != "base64"@,
        decreases segs@.len() - k,
    {
        let (a, c) = segs[k];
        if seq_eq(&v[a..c], b.as_slice()) {
            proof {
                assert(split(v@, ';')[k as int] == "base64"@);
            }
            return true;
        }
        k += 1;
    }
    false
}

/// Decodes an inline `data:` source map reference.
pub fn decode_inline_map(value: &str, method: DiscoveryMethod) -> (r: Result<MapReference, UnresolvedReason>)
    ensures
        reference_result(r) == decoded_inline_map(value@, method),
{
    let v = chars_of(value);
    let mut i: usize = 0;
    while i < v.len() && v[i] != ','
        invariant
            i <= v@.len(),
            forall|j: int| 0 <= j < i ==> v@[j] != ',',
        decreases v@.len() - i,
    {
        i += 1;
    }
    if i == v.len() {
        proof {
            assert(v@ == value@);
            assert(!(exists|k: int| first_comma(value@, k)));
        }
        return Err(UnresolvedReason::MapReferenceInvalid);
    }
    proof {
        assert(first_comma(value@, i as int));
        let c = choose|k: int| first_comma(value@, k);
        lemma_first_comma_unique(value@, i as int, c);
    }
    let meta = lowercase_ascii(&v[0..i]);
    let prefix = chars_of("data:application/json");
    proof {
        assert(v@.subrange(0, i as int) == value@.take(i as int));
    }
    if !has_prefix(meta.as_slice(), prefix.as_slice()) || !has_base64_part(meta.as_slice()) {
        return Err(UnresolvedReason::MapReferenceInvalid);
    }
    let payload = string_of(v.as_slice(), i + 1, v.len());
    proof {
        assert(payload@ == value@.skip(i + 1));
    }
    let decoded = match base64_standard_decode(payload.as_str().as_bytes()) {
        Some(bytes) => bytes,
        None => {
            return Err(UnresolvedReason::MapInvalid);
        },
    };
    if decoded.len() > MAX_MAP_BYTES {
        return Err(UnresolvedReason::MapTooLarge);
    }
    match utf8_text(decoded) {
        Some(json) => Ok(MapReference::Inline { json, method }),
        None => Err(UnresolvedReason::MapInvalid),
    }
}

/// What a source map reference found for a script gives: an inline `data:` map
/// is decoded; any other reference, at most `MAX_EXTERNAL_MAP_REFERENCE_BYTES`
/// long, is resolved against the script's URL, loses its fragment, and must stay
/// within the session's exact origin.
pub open spec fn parsed_map_reference(
    endpoint: Endpoint,
    source: UrlView,
    value: Seq<char>,
    method: DiscoveryMethod,
) -> Result<MapReferenceView, UnresolvedReason> {
    if starts_with(value, "data:"@) {
        decoded_inline_map(value, method)
    } else if byte_len(value) > MAX_EXTERNAL_MAP_REFERENCE_BYTES {
        Err(UnresolvedReason::MapReferenceInvalid)
    } else {
        match whatwg_join(source, value) {
            None => Err(UnresolvedReason::MapReferenceInvalid),
            Some(joined) => {
                let url = whatwg_without_fragment(joined);
                if exact_origin(endpoint, url) {
                    Ok(MapReferenceView::External { url, method })
                } else {
                    Err(UnresolvedReason::MapOutsideSessionOrigin)
                }
            },
        }
    }
}

/// Reads a source map reference found for a script.
pub fn parse_map_reference(
    endpoint: &Endpoint,
    source_url: &UrlParts,
    value: &str,
    method: DiscoveryMethod,
) -> (r: Result<MapReference, UnresolvedReason>)
    ensures
        reference_result(r) == parsed_map_reference(*endpoint, source_url@, value@, method),
{
    let v = chars_of(value);
    let data = chars_of("data:");
    if has_prefix(v.as_slice(), data.as_slice()) {
        return decode_inline_map(value, method);
    }
    proof {
        assert(v@.subrange(0, v@.len() as int) == v@);
    }
    if byte_len_within(v.as_slice(), 0, v.len(), MAX_EXTERNAL_MAP_REFERENCE_BYTES).is_none() {
        return Err(UnresolvedReason::MapReferenceInvalid);
    }
    let joined = match join_whatwg(source_url, value) {
        Some(url) => url,
        None => {
            return Err(UnresolvedReason::MapReferenceInvalid);
        },
    };
    let url = without_fragment_whatwg(&joined);
    proof {
        assert(v@ == value@);
        assert(!starts_with(value@, "data:"@));
        assert(whatwg_join(source_url@, value@) == Some(joined@));
    }
    if validate_exact_origin_url(endpoint, &url).is_err() {
        return Err(UnresolvedReason::MapOutsideSessionOrigin);
    }
    Ok(MapReference::External { url, method })
}

/// The URL of a script as a record keeps it: without query and fragment, and
/// nothing where it does not parse or carries credentials.
pub open spec fn retained_url(raw: Seq<char>) -> Option<Seq<char>> {
    match whatwg_parse(raw) {
        Some(u) => if u.username.len() > 0 || u.has_password {
            None
        } else {
            Some(whatwg_without_fragment(whatwg_without_query(u)).text)
        },
        None => None,
    }
}

/// The URL of a script as a record keeps it.
pub fn sanitize_retained_url(raw: &str) -> (r: Option<String>)
    ensures
        match r {
            Some(s) => retained_url(raw@) == Some(s@),
            None => retained_url(raw@) is None,
        },
{
    let url = match UrlParts::parse(raw) {
        Some(url) => url,
        None => {
            return None;
        },
    };
    if !url.username.as_str().is_empty() || url.has_password {
        return None;
    }
    let url = without_query_whatwg(&url);
    let url = without_fragment_whatwg(&url);
    Some(url.text)
}

/// A header's value as a source map reference: trimmed, and nothing where empty.
pub open spec fn header_value(value: Option<Seq<char>>) -> Option<Seq<char>> {
    match value {
        Some(v) => if trim(v).len() > 0 {
            Some(trim(v))
        } else {
            None
        },
        None => None,
    }
}

fn header_text(value: Option<&str>) -> (r: Option<String>)
    ensures
        match value {
            Some(v) => match r {
                Some(s) => header_value(Some(v@)) == Some(s@),
                None => header_value(Some(v@)) is None,
            },
            None => r is None,
        },
{
    match value {
        Some(v) => {
            let c = chars_of(v);
            let (a, b) = trim_bounds(c.as_slice());
            if a == b {
                None
            } else {
                Some(string_of(c.as_slice(), a, b))
            }
        },
        None => None,
    }
}

/// The source map reference that a script's response headers give: `SourceMap`
/// first, then `X-SourceMap`, each trimmed and only where not empty.
pub fn source_map_header(sourcemap: Option<&str>, x_sourcemap: Option<&str>) -> (r: Option<
    (DiscoveryMethod, String),
>)
    ensures
        match r {
            Some((m, v)) => {
                ||| m == DiscoveryMethod::SourceMapHeader && header_value(
                    match sourcemap {
                        Some(s) => Some(s@),
                        None => None,
                    },
                ) == Some(v@)
                ||| m == DiscoveryMethod::XSourceMapHeader && header_value(
                    match sourcemap {
                        Some(s) => Some(s@),
                        None => None,
                    },
                ) is None && header_value(
                    match x_sourcemap {
                        Some(s) => Some(s@),
                        None => None,
                    },
                ) == Some(v@)
            },
            None => header_value(
                match sourcemap {
                    Some(s) => Some(s@),
                    None => None,
                },
            ) is None && header_value(
                match x_sourcemap {
                    Some(s) => Some(s@),
                    None => None,
                },
            ) is None,
        },
{
    match header_text(sourcemap) {
        Some(v) => Some((DiscoveryMethod::SourceMapHeader, v)),
        None => match header_text(x_sourcemap) {
            Some(v) => Some((DiscoveryMethod::XSourceMapHeader, v)),
            None => None,
        },
    }
}

/// The generated position a runtime error reports: a line that fits `u32` and is
/// above zero, and the one-based column, fitting `u32`, made zero-based.
pub open spec fn spec_generated_position(line: Option<u64>, column: Option<u64>) -> (Option<u32>, Option<u32>) {
    (
        match line {
            Some(l) => if 0 < l && l <= u32::MAX {
                Some(l as u32)
            } else {
                None
            },
            None => None,
        },
        match column {
            Some(c) => if 1 <= c && c <= u32::MAX {
                Some((c - 1) as u32)
            } else {
                None
            },
            None => None,
        },
    )
}

/// The generated position a runtime error reports.
pub fn generated_position(line: Option<u64>, column: Option<u64>) -> (r: (Option<u32>, Option<u32>))
    ensures
        r == spec_generated_position(line, column),
{
    let l = match line {
        Some(l) => if 0 < l && l <= u32::MAX as u64 {
            Some(l as u32)
        } else {
            None
        },
        None => None,
    };
    let c = match column {
        Some(c) => if 1 <= c && c <= u32::MAX as u64 {
            Some((c - 1) as u32)
        } else {
            None
        },
        None => None,
    };
    (l, c)
}

/// The record of a position resolved to its original source.
pub fn resolved_record(
    observer_seq: u64,
    generated_source: Option<String>,
    generated_line: u32,
    generated_column: u32,
    discovery_method: DiscoveryMethod,
    original: ResolvedSourceResponse,
) -> (r: RuntimeSourceResolutionRecord)
    ensures
        r.observer_seq == observer_seq,
        r.generated_source == generated_source,
        r.generated_line == Some(generated_line),
        r.generated_column == Some(generated_column),
        r.original == Some(original),
        r.discovery_method == Some(discovery_method),
        r.unresolved_reason is None,
{
    RuntimeSourceResolutionRecord {
        observer_seq,
        generated_source,
        generated_line: Some(generated_line),
        generated_column: Some(generated_column),
        original: Some(original),
        discovery_method: Some(discovery_method),
        unresolved_reason: None,
    }
}


pub const MAX_SOURCE_BYTES: usize = 2097152;

/// Why a bounded fetch gave no body: the request failed, or the body is too large.
#[derive(Debug, Clone, Copy, PartialEq, Eq, Structural)]
pub enum BoundedFetchError {
    Failed,
    TooLarge,
}

/// The reason a failed fetch of the script gives.
pub fn source_fetch_reason(error: BoundedFetchError) -> (r: UnresolvedReason)
    ensures
        r == match error {
            BoundedFetchError::Failed => UnresolvedReason::SourceFetchFailed,
            BoundedFetchError::TooLarge => UnresolvedReason::SourceTooLarge,
        },
{
    match error {
        BoundedFetchError::Failed => UnresolvedReason::SourceFetchFailed,
        BoundedFetchError::TooLarge => UnresolvedReason::SourceTooLarge,
    }
}

/// The reason a failed fetch of an external source map gives.
pub fn map_fetch_reason(error: BoundedFetchError) -> (r: UnresolvedReason)
    ensures
        r == match error {
            BoundedFetchError::Failed => UnresolvedReason::MapFetchFailed,
            BoundedFetchError::TooLarge => UnresolvedReason::MapTooLarge,
        },
{
    match error {
        BoundedFetchError::Failed => UnresolvedReason::MapFetchFailed,
        BoundedFetchError::TooLarge => UnresolvedReason::MapTooLarge,
    }
}

/// How an annotation refers to its map: inline when it is a `data:` URL, else
/// external.
pub open spec fn annotation_method(annotation: Seq<char>) -> DiscoveryMethod {
    if starts_with(annotation, "data:"@) {
        DiscoveryMethod::InlineAnnotation
    } else {
        DiscoveryMethod::ExternalAnnotation
    }
}

/// The map reference that a script's text gives, where no header named one: its
/// `sourceMappingURL` annotation, inline when it is a `data:` URL, else external;
/// no annotation is a missing reference.
pub open spec fn script_map_reference(endpoint: Endpoint, source: UrlView, script: Seq<char>) -> Result<
    MapReferenceView,
    UnresolvedReason,
> {
    match source_map_annotation(script) {
        None => Err(UnresolvedReason::MapReferenceMissing),
        Some(a) => parsed_map_reference(endpoint, source, a, annotation_method(a)),
    }
}

/// Reads the map reference of a script from its text.
pub fn map_reference_from_script(endpoint: &Endpoint, source_url: &UrlParts, script: &str) -> (r: Result<
    MapReference,
    UnresolvedReason,
>)
    ensures
        reference_result(r) == script_map_reference(*endpoint, source_url@, script@),
{
    let annotation = match source_mapping_url_annotation(script) {
        Some(a) => a,
        None => {
            return Err(UnresolvedReason::MapReferenceMissing);
        },
    };
    let v = chars_of(annotation.as_str());
    let data = chars_of("data:");
    let method = if has_prefix(v.as_slice(), data.as_slice()) {
        DiscoveryMethod::InlineAnnotation
    } else {
        DiscoveryMethod::ExternalAnnotation
    };
    parse_map_reference(endpoint, source_url, annotation.as_str(), method)
}

/// The text of a script's body: `SourceFetchFailed` for bytes that are not UTF-8.
pub fn script_text(bytes: Vec<u8>) -> (r: Result<String, UnresolvedReason>)
    ensures
        match r {
            Ok(s) => valid_utf8(bytes@) && s@ == decode_utf8(bytes@),
            Err(e) => !valid_utf8(bytes@) && e == UnresolvedReason::SourceFetchFailed,
        },
{
    match utf8_text(bytes) {
        Some(s) => Ok(s),
        None => Err(UnresolvedReason::SourceFetchFailed),
    }
}

/// The text of an external map's body: `MapInvalid` for bytes that are not UTF-8.
pub fn map_text(bytes: Vec<u8>) -> (r: Result<String, UnresolvedReason>)
    ensures
        match r {
            Ok(s) => valid_utf8(bytes@) && s@ == decode_utf8(bytes@),
            Err(e) => !valid_utf8(bytes@) && e == UnresolvedReason::MapInvalid,
        },
{
    match utf8_text(bytes) {
        Some(s) => Ok(s),
        None => Err(UnresolvedReason::MapInvalid),
    }
}

/// Whether a script's announced length refuses it: more than `MAX_SOURCE_BYTES`.
pub fn source_too_large(content_length: Option<u64>) -> (r: bool)
    ensures
        r == (content_length matches Some(n) && n > MAX_SOURCE_BYTES),
{
    match content_length {
        Some(n) => n > MAX_SOURCE_BYTES as u64,
        None => false,
    }
}

} // verus!

//! The checks that turn a runtime error's script URL and position into a
//! generated file and position of the project.
use vstd::prelude::*;
use crate::control::runtime_source_resolution::Endpoint;
use crate::control::source_map_runtime::ProjectSourceMapError;
use crate::text::{
    byte_len, byte_len_within, chars_of, contains_char, eq_lit, has_char, has_prefix, lower_seq,
    lower_seq_eq, lowercase_ascii, seq_eq, starts_with, string_of,
};
use crate::web_url::{whatwg_parse, HostView, UrlHost, UrlParts};

verus! {

/// How many recent observer events are searched for the runtime error.
pub const MAX_RECENT_RUNTIME_EVENTS: usize = 2048;

/// The longest script URL read from a runtime error, in bytes.
pub const MAX_RUNTIME_SOURCE_URL_BYTES: usize = 1000;

/// The largest one-based line a browser reports that is accepted.
pub const MAX_BROWSER_LINE: u32 = 1000000;

/// The largest one-based column a browser reports that is accepted.
pub const MAX_BROWSER_COLUMN: u32 = 10000001;

#[derive(Debug, Clone, Copy, PartialEq, Eq)]
pub enum RuntimeSourceError {
    Unauthorized,
    SessionNotFound,
    RuntimeEventNotFound,
    RuntimeEventKindUnsupported,
    RuntimeSourceMissing,
    RuntimeSourceUnsupported,
    RuntimeSourceAuthorityMismatch,
    RuntimePositionInvalid,
    Project(ProjectSourceMapError),
}

impl RuntimeSourceError {
    pub open spec fn spec_status_and_code(self) -> (u16, Seq<char>) {
        match self {
            RuntimeSourceError::Unauthorized => (401, "unauthorized"@),
            RuntimeSourceError::SessionNotFound => (404, "session_not_found"@),
            RuntimeSourceError::RuntimeEventNotFound => (404, "runtime_event_not_found"@),
            RuntimeSourceError::RuntimeEventKindUnsupported => (422, "runtime_event_kind_unsupported"@),
            RuntimeSourceError::RuntimeSourceMissing => (422, "runtime_source_missing"@),
            RuntimeSourceError::RuntimeSourceUnsupported => (422, "runtime_source_unsupported"@),
            RuntimeSourceError::RuntimeSourceAuthorityMismatch => (
                422,
                "runtime_source_authority_mismatch"@,
            ),
            RuntimeSourceError::RuntimePositionInvalid => (422, "runtime_position_invalid"@),
            RuntimeSourceError::Project(e) => (e.spec_status(), e.spec_code()),
        }
    }

    /// The HTTP status and error code sent to the client; an error of the project
    /// source-map route is answered as that route answers it.
    pub fn status_and_code(self) -> (r: (u16, &'static str))
        ensures
            (r.0, r.1@) == self.spec_status_and_code(),
    {
        match self {
            RuntimeSourceError::Unauthorized => (401, "unauthorized"),
            RuntimeSourceError::SessionNotFound => (404, "session_not_found"),
            RuntimeSourceError::RuntimeEventNotFound => (404, "runtime_event_not_found"),
            RuntimeSourceError::RuntimeEventKindUnsupported => (422, "runtime_event_kind_unsupported"),
            RuntimeSourceError::RuntimeSourceMissing => (422, "runtime_source_missing"),
            RuntimeSourceError::RuntimeSourceUnsupported => (422, "runtime_source_unsupported"),
            RuntimeSourceError::RuntimeSourceAuthorityMismatch => (422, "runtime_source_authority_mismatch"),
            RuntimeSourceError::RuntimePositionInvalid => (422, "runtime_position_invalid"),
            RuntimeSourceError::Project(e) => (e.status(), e.code()),
        }
    }
}

/// Whether a host is a loopback host: `localhost` in any case, an IPv4 address in
/// `127.0.0.0/8`, or `::1`.
pub open spec fn loopback(host: Option<HostView>) -> bool {
    match host {
        Some(HostView::Domain(d)) => lower_seq(d) == "localhost"@,
        Some(HostView::Ipv4(o)) => o[0] == 127,
        Some(HostView::Ipv6(s)) => s == seq![0u16, 0, 0, 0, 0, 0, 0, 1],
        None => false,
    }
}

/// Whether a URL's host is a loopback host.
pub fn is_loopback_url(url: &UrlParts) -> (r: bool)
    ensures
        r == loopback(url@.host),
{
    match &url.host {
        Some(UrlHost::Domain(d)) => {
            let dv = chars_of(d.as_str());
            let l = chars_of("localhost");
            lower_seq_eq(dv.as_slice(), l.as_slice())
        },
        Some(UrlHost::Ipv4(o)) => o[0] == 127,
        Some(UrlHost::Ipv6(s)) => crate::chromium::ipv6_loopback(s),
        None => false,
    }
}

/// A number read from a runtime error, where it fits `min..=max`.
pub open spec fn bounded(value: Option<u64>, min: u32, max: u32) -> Option<u32> {
    match value {
        Some(v) => if min <= v && v <= max {
            Some(v as u32)
        } else {
            None
        },
        None => None,
    }
}

/// A number read from a runtime error's payload, where it fits `min..=max`.
pub fn bounded_payload_u32(value: Option<u64>, min: u32, max: u32) -> (r: Option<u32>)
    ensures
        r == bounded(value, min, max),
{
    match value {
        Some(v) => if min as u64 <= v && v <= max as u64 {
            Some(v as u32)
        } else {
            None
        },
        None => None,
    }
}

/// The generated file and zero-based position that a runtime error points at.
///
/// The event must be a runtime error; its script URL must be present, at most
/// `MAX_RUNTIME_SOURCE_URL_BYTES` long, parse as HTTP(S) in the session's scheme
/// (any case) at a loopback host and the session's port, and have a path without
/// `%` that is one `/` and then a non-empty file. The line must lie in
/// `1..=MAX_BROWSER_LINE` and the one-based column in `1..=MAX_BROWSER_COLUMN`.
pub open spec fn runtime_position(
    endpoint: Endpoint,
    is_runtime_error: bool,
    source: Option<Seq<char>>,
    line: Option<u64>,
    column: Option<u64>,
) -> Result<(Seq<char>, u32, u32), RuntimeSourceError> {
    if !is_runtime_error {
        Err(RuntimeSourceError::RuntimeEventKindUnsupported)
    } else {
        match source {
            None => Err(RuntimeSourceError::RuntimeSourceMissing),
            Some(s) => if s.len() == 0 || byte_len(s) > MAX_RUNTIME_SOURCE_URL_BYTES {
                Err(RuntimeSourceError::RuntimeSourceMissing)
            } else {
                match whatwg_parse(s) {
                    None => Err(RuntimeSourceError::RuntimeSourceUnsupported),
                    Some(u) => if !(u.scheme == "http"@ || u.scheme == "https"@) {
                        Err(RuntimeSourceError::RuntimeSourceUnsupported)
                    } else if lower_seq(u.scheme) != lower_seq(endpoint.scheme@) {
                        Err(RuntimeSourceError::RuntimeSourceAuthorityMismatch)
                    } else if !loopback(u.host) || u.port != Some(endpoint.port) {
                        Err(RuntimeSourceError::RuntimeSourceAuthorityMismatch)
                    } else if contains_char(u.path, '%') || starts_with(u.path, "//"@) {
                        Err(RuntimeSourceError::RuntimeSourceUnsupported)
                    } else if !starts_with(u.path, "/"@) || u.path.len() == 1 {
                        Err(RuntimeSourceError::RuntimeSourceUnsupported)
                    } else {
                        match (
                            bounded(line, 1, MAX_BROWSER_LINE),
                            bounded(column, 1, MAX_BROWSER_COLUMN),
                        ) {
                            (Some(l), Some(c)) => Ok((u.path.skip(1), l, (c - 1) as u32)),
                            _ => Err(RuntimeSourceError::RuntimePositionInvalid),
                        }
                    },
                }
            },
        }
    }
}

pub open spec fn position_view(r: Result<(String, u32, u32), RuntimeSourceError>) -> Result<
    (Seq<char>, u32, u32),
    RuntimeSourceError,
> {
    match r {
        Ok((f, l, c)) => Ok((f@, l, c)),
        Err(e) => Err(e),
    }
}

/// Checks a runtime error and gives the generated file (its URL path without the
/// leading `/`), the line, and the zero-based column to resolve.
pub fn runtime_source_position(
    endpoint: &Endpoint,
    is_runtime_error: bool,
    source: Option<&str>,
    line: Option<u64>,
    column: Option<u64>,
) -> (r: Result<(String, u32, u32), RuntimeSourceError>)
    ensures
        position_view(r) == runtime_position(
            *endpoint,
            is_runtime_error,
            match source {
                Some(s) => Some(s@),
                None => None,
            },
            line,
            column,
        ),
{
    if !is_runtime_error {
        return Err(RuntimeSourceError::RuntimeEventKindUnsupported);
    }
    let source = match source {
        Some(s) => s,
        None => {
            return Err(RuntimeSourceError::RuntimeSourceMissing);
        },
    };
    let sv = chars_of(source);
    if sv.len() == 0 || byte_len_within(sv.as_slice(), 0, sv.len(), MAX_RUNTIME_SOURCE_URL_BYTES).is_none() {
        proof {
            assert(sv@.subrange(0, sv@.len() as int) == sv@);
        }
        return Err(RuntimeSourceError::RuntimeSourceMissing);
    }
    proof {
        assert(sv@.subrange(0, sv@.len() as int) == sv@);
    }
    let url = match UrlParts::parse(source) {
        Some(url) => url,
        None => {
            return Err(RuntimeSourceError::RuntimeSourceUnsupported);
        },
    };
    let scheme = chars_of(url.scheme.as_str());
    if !eq_lit(scheme.as_slice(), "http") && !eq_lit(scheme.as_slice(), "https") {
        return Err(RuntimeSourceError::RuntimeSourceUnsupported);
    }
    let wanted = chars_of(endpoint.scheme.as_str());
    let ls = lowercase_ascii(scheme.as_slice());
    let lw = lowercase_ascii(wanted.as_slice());
    if !seq_eq(ls.as_slice(), lw.as_slice()) {
        return Err(RuntimeSourceError::RuntimeSourceAuthorityMismatch);
    }
    if !is_loopback_url(&url) || url.port != Some(endpoint.port) {
        return Err(RuntimeSourceError::RuntimeSourceAuthorityMismatch);
    }
    let path = chars_of(url.path.as_str());
    let two = chars_of("//");
    if has_char(path.as_slice(), '%') || has_prefix(path.as_slice(), two.as_slice()) {
        return Err(RuntimeSourceError::RuntimeSourceUnsupported);
    }
    let one = chars_of("/");
    if !has_prefix(path.as_slice(), one.as_slice()) || path.len() == 1 {
        return Err(RuntimeSourceError::RuntimeSourceUnsupported);
    }
    let l = match bounded_payload_u32(line, 1, MAX_BROWSER_LINE) {
        Some(l) => l,
        None => {
            return Err(RuntimeSourceError::RuntimePositionInvalid);
        },
    };
    let c = match bounded_payload_u32(column, 1, MAX_BROWSER_COLUMN) {
        Some(c) => c,
        None => {
            return Err(RuntimeSourceError::RuntimePositionInvalid);
        },
    };
    proof {
        reveal_strlit("/");
    }
    let file = string_of(path.as_slice(), 1, path.len());
    proof {
        assert(path@.subrange(1, path@.len() as int) == url.path@.skip(1));
    }
    Ok((file, l, c - 1))
}

} // verus!

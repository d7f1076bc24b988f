//! URLs as the logic reads them: the parts of a URL parsed by the `url` crate,
//! held as plain values.
use vstd::prelude::*;
use url::{Host, Url};

verus! {

#[verifier::external_type_specification]
#[verifier::external_body]
pub struct ExUrl(Url);

/// The host of a URL.
#[derive(Debug, Clone, PartialEq, Eq)]
pub enum UrlHost {
    Domain(String),
    Ipv4([u8; 4]),
    Ipv6([u16; 8]),
}

/// The host of a URL, as a value of the specification.
pub enum HostView {
    Domain(Seq<char>),
    Ipv4(Seq<u8>),
    Ipv6(Seq<u16>),
}

impl View for UrlHost {
    type V = HostView;

    open spec fn view(&self) -> HostView {
        match self {
            UrlHost::Domain(d) => HostView::Domain(d@),
            UrlHost::Ipv4(o) => HostView::Ipv4(o@),
            UrlHost::Ipv6(s) => HostView::Ipv6(s@),
        }
    }
}

/// A parsed URL: its serialization and the parts that the logic reads.
#[derive(Debug, Clone)]
pub struct UrlParts {
    /// The whole serialization (`Url::as_str`).
    pub text: String,
    pub scheme: String,
    pub username: String,
    pub has_password: bool,
    pub host: Option<UrlHost>,
    /// The host as written in the serialization; an IPv6 address stands in brackets.
    pub host_str: Option<String>,
    /// The port, or the scheme's known default port.
    pub port: Option<u16>,
    pub path: String,
    pub query: Option<String>,
}

/// A parsed URL, as a value of the specification.
pub struct UrlView {
    pub text: Seq<char>,
    pub scheme: Seq<char>,
    pub username: Seq<char>,
    pub has_password: bool,
    pub host: Option<HostView>,
    pub host_str: Option<Seq<char>>,
    pub port: Option<u16>,
    pub path: Seq<char>,
    pub query: Option<Seq<char>>,
}

pub open spec fn opt_text(o: Option<String>) -> Option<Seq<char>> {
    match o {
        Some(s) => Some(s@),
        None => None,
    }
}

pub open spec fn opt_host(o: Option<UrlHost>) -> Option<HostView> {
    match o {
        Some(h) => Some(h@),
        None => None,
    }
}

impl View for UrlParts {
    type V = UrlView;

    open spec fn view(&self) -> UrlView {
        UrlView {
            text: self.text@,
            scheme: self.scheme@,
            username: self.username@,
            has_password: self.has_password,
            host: opt_host(self.host),
            host_str: opt_text(self.host_str),
            port: self.port,
            path: self.path@,
            query: opt_text(self.query),
        }
    }
}

pub open spec fn opt_url(o: Option<UrlParts>) -> Option<UrlView> {
    match o {
        Some(u) => Some(u@),
        None => None,
    }
}

/// What `Url::parse` makes of a text, if it parses.
pub uninterp spec fn whatwg_parse(input: Seq<char>) -> Option<UrlView>;

/// What `Url::join` makes of a reference against a base URL, if it resolves.
pub uninterp spec fn whatwg_join(base: UrlView, input: Seq<char>) -> Option<UrlView>;

/// A URL after `Url::set_fragment(None)`.
pub uninterp spec fn whatwg_without_fragment(url: UrlView) -> UrlView;

/// A URL after `Url::set_query(None)`.
pub uninterp spec fn whatwg_without_query(url: UrlView) -> UrlView;

/// Reads the parts of a `Url`: one accessor of the `url` crate for each field.
/// Nothing is claimed of it; the wrappers below state what their results are.
#[verifier::external_body]
fn parts_of(url: &Url) -> UrlParts {
    UrlParts {
        text: url.as_str().to_owned(),
        scheme: url.scheme().to_owned(),
        username: url.username().to_owned(),
        has_password: url.password().is_some(),
        host: url_host(url),
        host_str: url.host_str().map(str::to_owned),
        port: url.port_or_known_default(),
        path: url.path().to_owned(),
        query: url.query().map(str::to_owned),
    }
}

/// `Url::host`, with an address given as its octets or segments.
#[verifier::external_body]
fn url_host(url: &Url) -> Option<UrlHost> {
    match url.host() {
        Some(Host::Domain(domain)) => Some(UrlHost::Domain(domain.to_owned())),
        Some(Host::Ipv4(address)) => Some(UrlHost::Ipv4(address.octets())),
        Some(Host::Ipv6(address)) => Some(UrlHost::Ipv6(address.segments())),
        None => None,
    }
}

/// `Url::parse`: the parts of the URL that a text gives, or `None` where it does
/// not parse. The result is claimed to be a function of the text alone.
#[verifier::external_body]
fn parse_whatwg(input: &str) -> (r: Option<UrlParts>)
    ensures
        opt_url(r) == whatwg_parse(input@),
{
    match Url::parse(input) {
        Ok(url) => Some(parts_of(&url)),
        Err(_) => None,
    }
}

/// `Url::join` on the URL whose serialization the base holds. The result is
/// claimed to be a function of the base and the reference alone.
#[verifier::external_body]
pub(crate) fn join_whatwg(base: &UrlParts, input: &str) -> (r: Option<UrlParts>)
    ensures
        opt_url(r) == whatwg_join(base@, input@),
{
    match Url::parse(base.text.as_str()) {
        Ok(url) => match url.join(input) {
            Ok(joined) => Some(parts_of(&joined)),
            Err(_) => None,
        },
        Err(_) => None,
    }
}

/// `Url::set_fragment(None)` on the URL whose serialization `url` holds.
#[verifier::external_body]
pub(crate) fn without_fragment_whatwg(url: &UrlParts) -> (r: UrlParts)
    ensures
        r@ == whatwg_without_fragment(url@),
{
    match Url::parse(url.text.as_str()) {
        Ok(mut parsed) => {
            parsed.set_fragment(None);
            parts_of(&parsed)
        },
        Err(_) => url.clone(),
    }
}

/// `Url::set_query(None)` on the URL whose serialization `url` holds.
#[verifier::external_body]
pub(crate) fn without_query_whatwg(url: &UrlParts) -> (r: UrlParts)
    ensures
        r@ == whatwg_without_query(url@),
{
    match Url::parse(url.text.as_str()) {
        Ok(mut parsed) => {
            parsed.set_query(None);
            parts_of(&parsed)
        },
        Err(_) => url.clone(),
    }
}

impl UrlParts {
    /// Parses a URL.
    pub fn parse(input: &str) -> (r: Option<UrlParts>)
        ensures
            opt_url(r) == whatwg_parse(input@),
    {
        parse_whatwg(input)
    }

    /// The serialization.
    pub fn as_str(&self) -> (r: &str)
        ensures
            r@ == self.text@,
    {
        self.text.as_str()
    }
}

} // verus!

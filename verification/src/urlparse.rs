//! The consumed URL-parser interface.
//!
//! Parsing raw URLs — syntax, percent-decoding, IDN — is delegated to the
//! `url` crate. The core only ever sees the parsed components as plain
//! character vectors, gathered in [`ParsedUrl`]. What each component is for
//! a given input is named by the `url_*` spec functions below: `url::Url`
//! parsing is deterministic, so each component is a function of the raw
//! string alone, and every contract downstream is stated over these names.

use vstd::prelude::*;

verus! {

/// A parsed URL, as the external parser reports it: scheme, optional host,
/// optional explicit port, dot-segment-resolved path, decoded query pairs,
/// optional domain (the host when it is a domain name rather than an IP
/// address) and optional fragment.
pub struct ParsedUrl {
    /// URL scheme, e.g. `https`.
    pub scheme: Vec<char>,
    /// Host, if the URL has one.
    pub host: Option<Vec<char>>,
    /// Explicit port, when present and not the scheme's known default.
    pub port: Option<u16>,
    /// Path, with dot segments already resolved by the parser.
    pub path: Vec<char>,
    /// Whether a query string is present at all (it may decode to no pairs).
    pub has_query: bool,
    /// Decoded query key/value pairs, in textual order.
    pub pairs: Vec<(Vec<char>, Vec<char>)>,
    /// The host when it is a domain name.
    pub domain: Option<Vec<char>>,
    /// Fragment, if present.
    pub fragment: Option<Vec<char>>,
}

/// View of an optional character vector.
pub open spec fn opt_view(o: Option<Vec<char>>) -> Option<Seq<char>> {
    match o {
        Some(v) => Some(v@),
        None => None,
    }
}

/// View of a vector of decoded query pairs.
pub open spec fn pairs_view(p: Seq<(Vec<char>, Vec<char>)>) -> Seq<(Seq<char>, Seq<char>)> {
    p.map_values(|kv: (Vec<char>, Vec<char>)| (kv.0@, kv.1@))
}

/// Whether `url::Url::parse` accepts the string.
pub uninterp spec fn url_parses(s: Seq<char>) -> bool;

/// The scheme `url::Url::scheme` reports for a parseable string.
pub uninterp spec fn url_scheme(s: Seq<char>) -> Seq<char>;

/// The host `url::Url::host_str` reports for a parseable string.
pub uninterp spec fn url_host(s: Seq<char>) -> Option<Seq<char>>;

/// The explicit port `url::Url::port` reports for a parseable string.
pub uninterp spec fn url_port(s: Seq<char>) -> Option<u16>;

/// The path `url::Url::path` reports for a parseable string.
pub uninterp spec fn url_path(s: Seq<char>) -> Seq<char>;

/// Whether `url::Url::query` reports a query string for a parseable string.
pub uninterp spec fn url_has_query(s: Seq<char>) -> bool;

/// The decoded pairs `url::Url::query_pairs` reports for a parseable string.
pub uninterp spec fn url_pairs(s: Seq<char>) -> Seq<(Seq<char>, Seq<char>)>;

/// The domain `url::Url::domain` reports for a parseable string.
pub uninterp spec fn url_domain(s: Seq<char>) -> Option<Seq<char>>;

/// The fragment `url::Url::fragment` reports for a parseable string.
pub uninterp spec fn url_fragment(s: Seq<char>) -> Option<Seq<char>>;

/// Relies on `url::Url::parse` and the component accessors `scheme`,
/// `host_str`, `port`, `path`, `query`, `query_pairs`, `domain` and
/// `fragment`: parsing is deterministic, and each accessor reports the
/// component named by the matching `url_*` spec function.
#[verifier::external_body]
pub fn parse_url(input: &str) -> (r: Option<ParsedUrl>)
    ensures
        r is Some <==> url_parses(input@),
        r matches Some(p) ==> {
            &&& p.scheme@ == url_scheme(input@)
            &&& opt_view(p.host) == url_host(input@)
            &&& p.port == url_port(input@)
            &&& p.path@ == url_path(input@)
            &&& p.has_query == url_has_query(input@)
            &&& pairs_view(p.pairs@) == url_pairs(input@)
            &&& opt_view(p.domain) == url_domain(input@)
            &&& opt_view(p.fragment) == url_fragment(input@)
        },
{
    let u = match url::Url::parse(input) {
        Ok(u) => u,
        Err(_) => return None,
    };
    let cv = |s: &str| s.chars().collect::<Vec<char>>();
    Some(ParsedUrl {
        scheme: cv(u.scheme()),
        host: u.host_str().map(cv),
        port: u.port(),
        path: cv(u.path()),
        has_query: u.query().is_some(),
        pairs: u.query_pairs().map(|(k, v)| (cv(&k), cv(&v))).collect(),
        domain: u.domain().map(cv),
        fragment: u.fragment().map(cv),
    })
}

} // verus!

//! Splitting configuration URLs into scheme, authority, path, host and
//! port. The splitting itself is done by the `url` crate; the parts it
//! returns are named here and everything built on them is verified.

use vstd::prelude::*;

verus! {

/// Whether `url::Url::parse` accepts the URL text.
pub uninterp spec fn url_parses(s: Seq<u8>) -> bool;

/// Scheme of the URL text, as `url::Url::scheme` returns it.
pub uninterp spec fn url_scheme_of(s: Seq<u8>) -> Seq<u8>;

/// Authority (`host[:port]`) of the URL text, as `url::Url::authority`
/// returns it.
pub uninterp spec fn url_authority_of(s: Seq<u8>) -> Seq<u8>;

/// Path of the URL text, as `url::Url::path` returns it.
pub uninterp spec fn url_path_of(s: Seq<u8>) -> Seq<u8>;

/// Whether the URL text parses and its host is a domain name, as
/// `url::Url::host` decides it.
pub uninterp spec fn url_has_domain_host(s: Seq<u8>) -> bool;

/// Domain name of the URL text, as `url::Url::host` returns it.
pub uninterp spec fn url_host_of(s: Seq<u8>) -> Seq<u8>;

/// Explicit port of the URL text, as `url::Url::port` returns it.
pub uninterp spec fn url_port_of(s: Seq<u8>) -> Option<u16>;

/// Scheme, authority and path of a URL given as ASCII text.
///
/// Relies on `url::Url::parse` and its accessors `scheme`, `authority`
/// and `path`: each is a pure function of the URL text alone.
#[verifier::external_body]
pub fn parse_url_parts(s: &Vec<u8>) -> (r: Option<(Vec<u8>, Vec<u8>, Vec<u8>)>)
    ensures
        (r is Some) == url_parses(s@),
        match r {
            Some(parts) => parts.0@ == url_scheme_of(s@) && parts.1@ == url_authority_of(s@)
                && parts.2@ == url_path_of(s@),
            None => true,
        },
{
    let text = match core::str::from_utf8(s.as_slice()) {
        Ok(t) => t,
        Err(_) => return None,
    };
    let u = match url::Url::parse(text) {
        Ok(u) => u,
        Err(_) => return None,
    };
    Some((
        u.scheme().as_bytes().to_vec(),
        u.authority().as_bytes().to_vec(),
        u.path().as_bytes().to_vec(),
    ))
}

/// Domain host and explicit port of a URL given as ASCII text; `None`
/// when the URL does not parse or its host is not a domain name.
///
/// Relies on `url::Url::parse` and its accessors `host` and `port`: each
/// is a pure function of the URL text alone.
#[verifier::external_body]
pub fn parse_url_host_port(s: &Vec<u8>) -> (r: Option<(Vec<u8>, Option<u16>)>)
    ensures
        (r is Some) == url_has_domain_host(s@),
        r is Some ==> url_parses(s@),
        match r {
            Some(hp) => hp.0@ == url_host_of(s@) && hp.1 == url_port_of(s@),
            None => true,
        },
{
    let text = match core::str::from_utf8(s.as_slice()) {
        Ok(t) => t,
        Err(_) => return None,
    };
    let u = match url::Url::parse(text) {
        Ok(u) => u,
        Err(_) => return None,
    };
    match u.host() {
        Some(url::Host::Domain(d)) => Some((d.as_bytes().to_vec(), u.port())),
        _ => None,
    }
}

} // verus!

//! Error kinds surfaced by the query-resolution engine.

use vstd::prelude::*;

verus! {

/// Terminal error kinds of the engine. The pipeline surfaces the first
/// terminal error to the listener; cache-insert failures never surface.
#[derive(Clone, Copy, Debug, PartialEq, Eq, Structural)]
pub enum DapError {
    /// The wire bytes do not form a well-formed DNS query.
    InvalidDnsQuery,
    /// The wire bytes do not form a well-formed DNS response.
    InvalidDnsResponse,
    /// The path set is empty or entirely filtered out.
    NoPathAvailable,
    /// Upstream HTTP returned non-200 or the transport failed.
    DoHQueryError,
    /// ODoH was requested but no relay URL is configured.
    ODoHNoRelayUrl,
    /// No HPKE configuration is available for the selected target.
    ODoHNoClientConfig,
    /// The GET method is not allowed for oblivious queries.
    ODoHGetNotAllowed,
    /// The oblivious response carried no content length.
    ODoHInvalidContentLength,
    /// The sealed response could not be opened or decoded.
    ODoHInvalidResponse,
    /// Bearer-token acquisition failed.
    AuthError,
    /// The configuration yields no well-formed DoH URL.
    FailedToBuildDohUrl,
    /// Self-resolution produced no usable address.
    FailedToResolveIpsForHttpClient,
    /// A response could not be cached (no TTL-bearing records).
    FailedToCache,
    /// A recognized configuration option holds an unusable value.
    InvalidConfig,
}

impl DapError {
    /// Short stable name of the error kind, for logs kept outside the core.
    pub fn name(&self) -> &'static str {
        match self {
            DapError::InvalidDnsQuery => "invalid dns query",
            DapError::InvalidDnsResponse => "invalid dns response",
            DapError::NoPathAvailable => "no path available",
            DapError::DoHQueryError => "doh query error",
            DapError::ODoHNoRelayUrl => "odoh no relay url",
            DapError::ODoHNoClientConfig => "odoh no client config",
            DapError::ODoHGetNotAllowed => "odoh get not allowed",
            DapError::ODoHInvalidContentLength => "odoh invalid content length",
            DapError::ODoHInvalidResponse => "odoh invalid response",
            DapError::AuthError => "auth error",
            DapError::FailedToBuildDohUrl => "failed to build doh url",
            DapError::FailedToResolveIpsForHttpClient => "failed to resolve ips for http client",
            DapError::FailedToCache => "failed to cache",
            DapError::InvalidConfig => "invalid config",
        }
    }
}

} // verus!

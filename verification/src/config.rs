//! Recognized configuration of the query-resolution engine, and the
//! rules that turn raw option values into a usable configuration.

use vstd::prelude::*;

use crate::errors::DapError;
use crate::urlparse::{parse_url_parts, url_parses};

verus! {

/// HTTP method for standard DoH; oblivious queries are always POST.
#[derive(Clone, Copy, Debug)]
pub enum DoHMethod {
    Get,
    Post,
}

/// Targets and how to query them.
#[derive(Debug)]
pub struct TargetConfig {
    /// One or more target URLs, as ASCII text.
    pub doh_target_urls: Vec<Vec<u8>>,
    /// Pick a target uniformly at random; else always the first.
    pub target_randomization: bool,
    /// Method for standard DoH.
    pub doh_method: DoHMethod,
}

/// Next-hop relays; their presence enables ODoH.
#[derive(Debug)]
pub struct NexthopRelayConfig {
    pub odoh_relay_urls: Vec<Vec<u8>>,
    pub odoh_relay_randomization: bool,
}

/// Intermediate relays; their presence enables MODoH.
#[derive(Debug)]
pub struct SubseqRelayConfig {
    pub mid_relay_urls: Vec<Vec<u8>>,
    /// Upper bound on the chain length after the next hop.
    pub max_mid_relays: usize,
}

/// The engine's whole configuration.
#[derive(Debug)]
pub struct ProxyConfig {
    pub target_config: TargetConfig,
    pub nexthop_relay_config: Option<NexthopRelayConfig>,
    pub subseq_relay_config: Option<SubseqRelayConfig>,
    /// Cache capacity in entries (at least one).
    pub max_cache_size: usize,
    /// Floor for cached TTLs, in seconds.
    pub min_ttl: u32,
    /// Hard ceiling on concurrent connections across transports.
    pub max_connections: usize,
    /// Whether a bearer token is attached to upstream requests.
    pub auth_enabled: bool,
}

/// Deep view of a URL list.
pub open spec fn urls_view(v: Seq<Vec<u8>>) -> Seq<Seq<u8>> {
    v.map_values(|x: Vec<u8>| x@)
}

/// Every URL in the list parses.
pub open spec fn urls_parse(v: Seq<Vec<u8>>) -> bool {
    forall|i: int| 0 <= i < v.len() ==> url_parses((#[trigger] v[i])@)
}

/// Whether every URL in the list parses.
fn all_urls_parse(urls: &Vec<Vec<u8>>) -> (r: bool)
    ensures
        r == urls_parse(urls@),
{
    let mut i: usize = 0;
    while i < urls.len()
        invariant
            i <= urls@.len(),
            forall|j: int| 0 <= j < i ==> url_parses((#[trigger] urls@[j])@),
        decreases urls@.len() - i,
    {
        if parse_url_parts(&urls[i]).is_none() {
            return false;
        }
        i = i + 1;
    }
    true
}

/// Raw option values, as the configuration file or the command line
/// hands them over. `None` means the option was not given.
#[derive(Debug)]
pub struct ConfigInput {
    pub doh_target_urls: Option<Vec<Vec<u8>>>,
    pub target_randomization: Option<bool>,
    pub use_get_method: Option<bool>,
    pub odoh_relay_urls: Option<Vec<Vec<u8>>>,
    pub odoh_relay_randomization: Option<bool>,
    pub mid_relay_urls: Option<Vec<Vec<u8>>>,
    pub max_mid_relays: Option<usize>,
    pub max_cache_size: Option<usize>,
    pub min_ttl: Option<u32>,
    pub max_connections: Option<usize>,
    pub auth_enabled: bool,
    /// Built-in target used when none is configured.
    pub default_target_url: Vec<u8>,
}

/// Default cache capacity, in entries.
pub const DEFAULT_CACHE_SIZE: usize = 16384;

/// Default TTL floor, in seconds.
pub const DEFAULT_MIN_TTL: u32 = 10;

/// Default connection ceiling.
pub const DEFAULT_MAX_CONNECTIONS: usize = 128;

/// Build the engine configuration from raw option values.
///
/// Targets default to the built-in target; every target and relay URL
/// must parse. Relay options matter only when next-hop relays are given:
/// then ODoH is enabled, MODoH when intermediate relays are also given,
/// and `max_mid_relays` (default 1 with intermediate relays, 0 without)
/// must not exceed the number of intermediate relays.
pub fn build_proxy_config(input: ConfigInput) -> (r: Result<ProxyConfig, DapError>)
    ensures
        (r is Ok) == ({
            &&& match input.doh_target_urls {
                Some(u) => u@.len() > 0 && urls_parse(u@),
                None => url_parses(input.default_target_url@),
            }
            &&& match input.max_cache_size {
                Some(s) => s > 0,
                None => true,
            }
            &&& match input.odoh_relay_urls {
                Some(u) => u@.len() > 0 && urls_parse(u@),
                None => true,
            }
            &&& match input.mid_relay_urls {
                Some(u) => input.odoh_relay_urls is Some && u@.len() > 0 && urls_parse(u@) && (
                match input.max_mid_relays {
                    Some(m) => m,
                    None => 1,
                }) <= u@.len(),
                None => true,
            }
        }),
        match r {
            Ok(c) => {
                &&& c.max_cache_size >= 1
                &&& c.max_cache_size == match input.max_cache_size {
                    Some(s) => s,
                    None => DEFAULT_CACHE_SIZE,
                }
                &&& c.min_ttl == match input.min_ttl {
                    Some(t) => t,
                    None => DEFAULT_MIN_TTL,
                }
                &&& c.max_connections == match input.max_connections {
                    Some(m) => m,
                    None => DEFAULT_MAX_CONNECTIONS,
                }
                &&& c.target_config.target_randomization == (input.target_randomization
                    != Some(false))
                &&& (c.target_config.doh_method is Get <==> input.use_get_method == Some(true))
                &&& (c.nexthop_relay_config is Some <==> input.odoh_relay_urls is Some)
                &&& urls_view(c.target_config.doh_target_urls@) == match input
                    .doh_target_urls {
                    Some(urls) => urls_view(urls@),
                    None => seq![input.default_target_url@],
                }
                &&& match c.nexthop_relay_config {
                    Some(nh) => nh.odoh_relay_urls@ == input.odoh_relay_urls.unwrap()@
                        && nh.odoh_relay_randomization == (input.odoh_relay_randomization
                        != Some(false)),
                    None => true,
                }
                &&& (c.subseq_relay_config is Some ==> input.odoh_relay_urls is Some
                    && input.mid_relay_urls is Some)
                &&& match c.subseq_relay_config {
                    Some(sq) => sq.mid_relay_urls@ == input.mid_relay_urls.unwrap()@
                        && sq.max_mid_relays == match input.max_mid_relays {
                        Some(m) => m,
                        None => 1,
                    } && sq.max_mid_relays <= sq.mid_relay_urls@.len(),
                    None => true,
                }
                &&& c.auth_enabled == input.auth_enabled
            },
            Err(e) => e == DapError::InvalidConfig,
        },
{
    let ConfigInput {
        doh_target_urls,
        target_randomization,
        use_get_method,
        odoh_relay_urls,
        odoh_relay_randomization,
        mid_relay_urls,
        max_mid_relays,
        max_cache_size,
        min_ttl,
        max_connections,
        auth_enabled,
        default_target_url,
    } = input;
    let targets: Vec<Vec<u8>> = match doh_target_urls {
        Some(urls) => urls,
        None => {
            let mut v: Vec<Vec<u8>> = Vec::new();
            v.push(default_target_url);
            assert(v@ =~= seq![input.default_target_url]);
            v
        },
    };
    if targets.len() == 0 || !all_urls_parse(&targets) {
        return Err(DapError::InvalidConfig);
    }
    assert(urls_view(targets@) =~= match input.doh_target_urls {
        Some(urls) => urls_view(urls@),
        None => seq![input.default_target_url@],
    });
    let max_cache_size = match max_cache_size {
        Some(s) => s,
        None => DEFAULT_CACHE_SIZE,
    };
    if max_cache_size == 0 {
        return Err(DapError::InvalidConfig);
    }
    let nexthop_relay_config = match odoh_relay_urls {
        Some(urls) => {
            if urls.len() == 0 || !all_urls_parse(&urls) {
                return Err(DapError::InvalidConfig);
            }
            Some(
                NexthopRelayConfig {
                    odoh_relay_urls: urls,
                    odoh_relay_randomization: match odoh_relay_randomization {
                        Some(v) => v,
                        None => true,
                    },
                },
            )
        },
        None => None,
    };
    let subseq_relay_config = match mid_relay_urls {
        Some(urls) => {
            if nexthop_relay_config.is_none() {
                // intermediate relays without a next hop are unusable
                return Err(DapError::InvalidConfig);
            }
            if urls.len() == 0 || !all_urls_parse(&urls) {
                return Err(DapError::InvalidConfig);
            }
            let max = match max_mid_relays {
                Some(m) => m,
                None => 1,
            };
            if max > urls.len() {
                return Err(DapError::InvalidConfig);
            }
            Some(SubseqRelayConfig { mid_relay_urls: urls, max_mid_relays: max })
        },
        None => None,
    };
    proof {
        if input.doh_target_urls is None {
            assert(targets@[0] == input.default_target_url);
            assert(url_parses((targets@[0])@));
        }
    }
    Ok(
        ProxyConfig {
            target_config: TargetConfig {
                doh_target_urls: targets,
                target_randomization: match target_randomization {
                    Some(v) => v,
                    None => true,
                },
                doh_method: match use_get_method {
                    Some(true) => DoHMethod::Get,
                    _ => DoHMethod::Post,
                },
            },
            nexthop_relay_config,
            subseq_relay_config,
            max_cache_size,
            min_ttl: match min_ttl {
                Some(t) => t,
                None => DEFAULT_MIN_TTL,
            },
            max_connections: match max_connections {
                Some(m) => m,
                None => DEFAULT_MAX_CONNECTIONS,
            },
            auth_enabled,
        },
    )
}

} // verus!

//! The query pipeline: validate the wire query, consult the cache,
//! select a path, assemble the upstream request, interpret the upstream
//! response, and cache it.
//!
//! The pipeline never performs I/O itself. [`DoHClient::plan_query`]
//! turns a wire query into either a finished response or a fully
//! assembled upstream request; the driver performs the HTTP exchange
//! (sealing the oblivious plaintext on the way) and hands the outcome to
//! [`DoHClient::handle_upstream`], which yields the wire response and
//! maintains cache, health flags and key-staleness state.

use vstd::prelude::*;

use crate::cache::{
    build_response, elapsed_of, fingerprint_of, fp_of, is_expiry, Cache, Fingerprint,
};
use crate::config::{DoHMethod, ProxyConfig};
use crate::dns::{
    a_addrs, adjust_msg, answer_a_records, enc_msg, is_query, is_response, parse_msg, rcode_of,
    valid_query, valid_response, wf_msg, DnsMessage, Ipv4Quad,
};
use crate::errors::DapError;
use crate::odoh::{odoh_plain, odoh_unpad, pad_query, unpad_response, OdohConfig, OdohConfigStore, SlotView};
use crate::path::{config_urls_parse, scheme_bytes, url_of, DoHPathManager, DoHType, Scheme};
use crate::urlparse::{
    parse_url_host_port, parse_url_parts, url_has_domain_host, url_host_of, url_port_of,
    url_scheme_of,
};

verus! {

// ---------------------------------------------------------------------
// Base64url of the GET query parameter
// ---------------------------------------------------------------------

/// Character of the base64url alphabet for a 6-bit value.
pub open spec fn b64_char(n: int) -> u8 {
    if n < 26 {
        (65 + n) as u8
    } else if n < 52 {
        (97 + n - 26) as u8
    } else if n < 62 {
        (48 + n - 52) as u8
    } else if n == 62 {
        45u8
    } else {
        95u8
    }
}

/// Unpadded base64url encoding of a byte string.
pub open spec fn b64url(s: Seq<u8>) -> Seq<u8>
    decreases s.len(),
{
    if s.len() == 0 {
        Seq::empty()
    } else if s.len() == 1 {
        let b0 = s[0] as int;
        seq![b64_char(b0 / 4), b64_char((b0 % 4) * 16)]
    } else if s.len() == 2 {
        let b0 = s[0] as int;
        let b1 = s[1] as int;
        seq![b64_char(b0 / 4), b64_char((b0 % 4) * 16 + b1 / 16), b64_char((b1 % 16) * 4)]
    } else {
        let b0 = s[0] as int;
        let b1 = s[1] as int;
        let b2 = s[2] as int;
        seq![
            b64_char(b0 / 4),
            b64_char((b0 % 4) * 16 + b1 / 16),
            b64_char((b1 % 16) * 4 + b2 / 64),
            b64_char(b2 % 64),
        ] + b64url(s.subrange(3, s.len() as int))
    }
}

/// Unpadded base64url of the bytes.
///
/// Relies on `data_encoding::BASE64URL_NOPAD.encode`: standard base64
/// with the URL-safe alphabet (`A–Z a–z 0–9 - _`) and no padding,
/// a function of the input bytes alone.
#[verifier::external_body]
fn b64url_encode(b: &Vec<u8>) -> (r: Vec<u8>)
    ensures
        r@ == b64url(b@),
{
    data_encoding::BASE64URL_NOPAD.encode(b.as_slice()).into_bytes()
}

/// `"?dns="`.
pub open spec fn dns_param_key() -> Seq<u8> {
    seq![63u8, 100, 110, 115, 61]
}

fn push_dns_param(out: &mut Vec<u8>)
    ensures
        final(out)@ == old(out)@ + dns_param_key(),
{
    out.push(63);
    out.push(100);
    out.push(110);
    out.push(115);
    out.push(61);
    assert(out@ =~= old(out)@ + dns_param_key());
}

// ---------------------------------------------------------------------
// Headers
// ---------------------------------------------------------------------

/// `"Bearer "`.
pub open spec fn bearer_prefix() -> Seq<u8> {
    seq![66u8, 101, 97, 114, 101, 114, 32]
}

/// The headers of an upstream request, as plain values. The driver
/// renders them: `Accept` and `Content-Type` from the DoH flavour's
/// media type, `Cache-Control: no-cache, no-store` when `no_cache`, and
/// `Authorization` from the bearer value.
pub struct HeaderSet {
    pub doh_type: DoHType,
    pub no_cache: bool,
    /// Full `Authorization` value (`Bearer` and the token), when auth is
    /// enabled.
    pub bearer: Option<Vec<u8>>,
}

// ---------------------------------------------------------------------
// Plans
// ---------------------------------------------------------------------

/// What the driver must send.
pub enum RequestBody {
    /// GET: no body.
    Empty,
    /// POST of the wire query.
    Wire(Vec<u8>),
    /// Oblivious POST: seal `plaintext` to `config` and post the sealed
    /// bytes.
    ToSeal { plaintext: Vec<u8>, config: OdohConfig },
}

/// What a response must be matched against.
pub struct QueryContext {
    pub fingerprint: Fingerprint,
    pub query_id: u16,
    /// Selected path: target row, next-hop group, path index.
    pub sel: (usize, usize, usize),
    pub oblivious: bool,
}

/// A fully assembled upstream request.
pub struct HttpRequest {
    pub url: Vec<u8>,
    pub method: DoHMethod,
    pub headers: HeaderSet,
    pub body: RequestBody,
    pub ctx: QueryContext,
}

/// Outcome of planning a query.
pub enum QueryPlan {
    /// Answer from the cache; no upstream contact.
    Cached(Vec<u8>),
    /// Perform this upstream request and come back.
    Send(HttpRequest),
    /// Fail the query now.
    Refuse(DapError),
}

/// What the driver got back from upstream.
pub enum UpstreamBody {
    /// Standard DoH: the HTTP body.
    Raw(Vec<u8>),
    /// Oblivious: the AEAD-opened response plaintext.
    Opened(Vec<u8>),
    /// Oblivious: the sealed response failed to open.
    OpenFailed,
}

// ---------------------------------------------------------------------
// The client
// ---------------------------------------------------------------------

/// DoH, ODoH and MODoH client state: paths, cache, per-target HPKE
/// configurations, and the configured flavour and method.
pub struct DoHClient {
    pub path_manager: DoHPathManager,
    pub cache: Cache,
    pub odoh_store: Option<OdohConfigStore>,
    pub doh_type: DoHType,
    pub doh_method: DoHMethod,
    pub auth_enabled: bool,
    pub min_ttl: u32,
    /// Set when an oblivious response signalled a stale target key; the
    /// driver refreshes the well-known configurations and clears it.
    pub needs_refresh: bool,
}

impl DoHClient {
    /// Invariant tying the pieces together.
    pub open spec fn wf(&self) -> bool {
        &&& self.path_manager.wf()
        &&& self.cache.wf()
        &&& (self.doh_type is Oblivious <==> self.odoh_store is Some)
        &&& match self.odoh_store {
            Some(st) => st@.len() == self.path_manager.paths@.len(),
            None => true,
        }
        &&& (self.doh_type is Oblivious ==> self.doh_method is Post
            && self.path_manager.all_oblivious())
        &&& (self.doh_type is Standard ==> self.path_manager.all_standard())
    }

    /// Build the client for a configuration: all paths, an empty cache,
    /// and an unprobed configuration store when oblivious. ODoH is
    /// enabled exactly when next-hop relays are configured; the method
    /// is then forced to POST.
    pub fn new(config: &ProxyConfig) -> (r: Result<DoHClient, DapError>)
        ensures
            (r == Err::<DoHClient, DapError>(DapError::ODoHNoRelayUrl)) <==> (
            config.nexthop_relay_config matches Some(nh) && nh.odoh_relay_urls@.len() == 0),
            (r == Err::<DoHClient, DapError>(DapError::InvalidConfig)) <==> (!(
            config.nexthop_relay_config matches Some(nh) && nh.odoh_relay_urls@.len() == 0)
                && config.max_cache_size == 0),
            (r == Err::<DoHClient, DapError>(DapError::FailedToBuildDohUrl)) <==> (!(
            config.nexthop_relay_config matches Some(nh) && nh.odoh_relay_urls@.len() == 0)
                && config.max_cache_size > 0 && !config_urls_parse(config)),
            match r {
                Ok(c) => {
                    &&& c.wf()
                    &&& (c.doh_type is Oblivious <==> config.nexthop_relay_config is Some)
                    &&& match config.nexthop_relay_config {
                        Some(_) => c.doh_method is Post,
                        None => c.doh_method == config.target_config.doh_method,
                    }
                    &&& c.auth_enabled == config.auth_enabled
                    &&& c.min_ttl == config.min_ttl
                    &&& c.cache@.len() == 0
                    &&& c.cache.spec_max_size() == config.max_cache_size
                    &&& c.needs_refresh == false
                    &&& c.path_manager.target_randomization
                        == config.target_config.target_randomization
                    &&& match config.nexthop_relay_config {
                        None => c.path_manager.all_standard() && c.path_manager.paths@.len()
                            == config.target_config.doh_target_urls@.len()
                            && c.path_manager.nexthop_randomization == false,
                        Some(nh) => c.path_manager.all_oblivious()
                            && c.path_manager.nexthop_randomization
                            == nh.odoh_relay_randomization,
                    }
                },
                Err(e) => e == DapError::ODoHNoRelayUrl || e == DapError::FailedToBuildDohUrl
                    || e == DapError::InvalidConfig,
            },
    {
        if let Some(nh) = &config.nexthop_relay_config {
            if nh.odoh_relay_urls.len() == 0 {
                return Err(DapError::ODoHNoRelayUrl);
            }
        }
        if config.max_cache_size == 0 {
            return Err(DapError::InvalidConfig);
        }
        let path_manager = match DoHPathManager::new(config) {
            Ok(m) => m,
            Err(e) => {
                return Err(e);
            },
        };
        let (doh_type, doh_method, odoh_store): (DoHType, DoHMethod, Option<OdohConfigStore>) =
            match &config.nexthop_relay_config {
            Some(_) => (
                DoHType::Oblivious,
                DoHMethod::Post,
                Some(OdohConfigStore::new(path_manager.num_targets())),
            ),
            None => (DoHType::Standard, config.target_config.doh_method, None),
        };
        let cache = Cache::new(config.max_cache_size);
        Ok(
            DoHClient {
                path_manager,
                cache,
                odoh_store,
                doh_type,
                doh_method,
                auth_enabled: config.auth_enabled,
                min_ttl: config.min_ttl,
                needs_refresh: false,
            },
        )
    }

    /// Base headers plus the bearer value when auth is enabled; fails
    /// with `AuthError` when auth is enabled and no token came.
    fn build_headers(&self, token: Option<&Vec<u8>>) -> (r: Result<HeaderSet, DapError>)
        ensures
            match r {
                Ok(h) => {
                    &&& h.doh_type == self.doh_type
                    &&& h.no_cache == (self.doh_type is Oblivious)
                    &&& match h.bearer {
                        Some(b) => self.auth_enabled && token is Some && b@ == bearer_prefix()
                            + token.unwrap()@,
                        None => !self.auth_enabled,
                    }
                },
                Err(e) => e == DapError::AuthError && self.auth_enabled && token is None,
            },
    {
        let bearer: Option<Vec<u8>> = if self.auth_enabled {
            match token {
                None => {
                    return Err(DapError::AuthError);
                },
                Some(t) => {
                    let mut b: Vec<u8> = Vec::new();
                    b.push(66);
                    b.push(101);
                    b.push(97);
                    b.push(114);
                    b.push(101);
                    b.push(114);
                    b.push(32);
                    assert(b@ =~= bearer_prefix());
                    crate::bytes::extend_bytes(&mut b, t);
                    Some(b)
                },
            }
        } else {
            None
        };
        Ok(
            HeaderSet {
                doh_type: self.doh_type,
                no_cache: match self.doh_type {
                    DoHType::Oblivious => true,
                    DoHType::Standard => false,
                },
                bearer,
            },
        )
    }
}


/// The cache holds a fresh entry for the fingerprint whose TTLs cover
/// the elapsed time: a lookup now must answer from the cache.
pub open spec fn fresh_hit(c: Seq<crate::cache::EntryView>, fpv: crate::cache::FingerprintView, now: u64) -> bool {
    exists|k: int|
        0 <= k < c.len() && (#[trigger] c[k]).fp == fpv && now < c[k].expires_at && elapsed_of(
            c[k],
            now,
        ) <= u32::MAX && (forall|j: int|
            0 <= j < c[k].msg.records.len() ==> (#[trigger] c[k].msg.records[j]).ttl
                >= elapsed_of(c[k], now))
}

/// How one planning step may change the cache: not at all, by removing
/// one expired entry under the query's fingerprint, or by moving the
/// fresh entry under that fingerprint to the back (most recently used).
pub open spec fn cache_evolution(
    pre: Seq<crate::cache::EntryView>,
    post: Seq<crate::cache::EntryView>,
    fpv: crate::cache::FingerprintView,
    now: u64,
) -> bool {
    ||| post == pre
    ||| exists|i: int|
        0 <= i < pre.len() && (#[trigger] pre[i]).fp == fpv && now >= pre[i].expires_at && post
            == pre.remove(i)
    ||| exists|i: int|
        0 <= i < pre.len() && (#[trigger] pre[i]).fp == fpv && now < pre[i].expires_at && post
            == pre.remove(i).push(pre[i])
}

impl DoHClient {
    /// Everything but the cache is unchanged.
    pub open spec fn same_but_cache(pre: DoHClient, post: DoHClient) -> bool {
        &&& post.path_manager == pre.path_manager
        &&& post.odoh_store == pre.odoh_store
        &&& post.doh_type == pre.doh_type
        &&& post.doh_method == pre.doh_method
        &&& post.auth_enabled == pre.auth_enabled
        &&& post.min_ttl == pre.min_ttl
        &&& post.needs_refresh == pre.needs_refresh
    }

    /// Turn a wire query into a finished response, an upstream request,
    /// or a refusal, in the pipeline's order: validate, look the
    /// fingerprint up in the cache, select a path, build headers, then
    /// assemble the flavour-specific request.
    #[verifier::rlimit(100)]
    #[verifier::spinoff_prover]
    pub fn plan_query(&mut self, packet: &[u8], now: u64, token: Option<&Vec<u8>>) -> (r:
        QueryPlan)
        requires
            old(self).wf(),
        ensures
            final(self).wf(),
            Self::same_but_cache(*old(self), *final(self)),
            final(self).cache.spec_max_size() == old(self).cache.spec_max_size(),
            // a malformed query is refused as such, and only then
            (r == QueryPlan::Refuse(DapError::InvalidDnsQuery)) <==> !valid_query(packet@),
            // the cache is preserved, except that the one entry under the
            // query's fingerprint may be dropped (expired) or refreshed
            cache_evolution(
                old(self).cache@,
                final(self).cache@,
                fp_of(parse_msg(packet@).unwrap()),
                now,
            ),
            // a standard client with paths and no auth either answers
            // from the cache or goes upstream
            valid_query(packet@) && old(self).path_manager.paths@.len() > 0 && !old(
                self,
            ).auth_enabled && old(self).doh_type is Standard && !(r is Cached) ==> r is Send,
            // a fresh usable cache entry must be answered from the cache
            valid_query(packet@) && fresh_hit(
                old(self).cache@,
                fp_of(parse_msg(packet@).unwrap()),
                now,
            ) ==> r is Cached,
            // a cache answer is the stored response, restamped and decayed
            match r {
                QueryPlan::Cached(out) => valid_query(packet@) && exists|k: int|
                    0 <= k < old(self).cache@.len() && {
                        let e = #[trigger] old(self).cache@[k];
                        let v = parse_msg(packet@).unwrap();
                        &&& e.fp == fp_of(v)
                        &&& now < e.expires_at
                        &&& out@ == enc_msg(adjust_msg(e.msg, v.id, elapsed_of(e, now) as u32))
                        &&& parse_msg(out@) == Some(
                            adjust_msg(e.msg, v.id, elapsed_of(e, now) as u32),
                        )
                    },
                _ => true,
            },
            // without any path the query fails before any transport work
            valid_query(packet@) && old(self).path_manager.paths@.len() == 0 ==> (r is Cached || r
                == QueryPlan::Refuse(DapError::NoPathAvailable)),
            (r == QueryPlan::Refuse(DapError::NoPathAvailable)) ==> old(
                self,
            ).path_manager.paths@.len() == 0,
            (r == QueryPlan::Refuse(DapError::AuthError)) ==> old(self).auth_enabled && token
                is None,
            (r == QueryPlan::Refuse(DapError::ODoHNoClientConfig)) ==> old(self).doh_type
                is Oblivious && (old(self).odoh_store is None || exists|tt: int|
                0 <= tt < old(self).odoh_store.unwrap()@.len() && !((#[trigger] old(
                    self,
                ).odoh_store.unwrap()@[tt]) matches SlotView::Fetched(Some(_)))),
            (r == QueryPlan::Refuse(DapError::ODoHGetNotAllowed)) ==> old(self).doh_type
                is Oblivious && old(self).doh_method is Get,
            match r {
                QueryPlan::Refuse(e) => e == DapError::InvalidDnsQuery || e
                    == DapError::NoPathAvailable || e == DapError::AuthError || e
                    == DapError::ODoHNoClientConfig || e == DapError::ODoHGetNotAllowed,
                _ => true,
            },
            // an upstream request is assembled exactly
            match r {
                QueryPlan::Send(req) => {
                    let v = parse_msg(packet@).unwrap();
                    let sel = req.ctx.sel;
                    &&& valid_query(packet@)
                    &&& sel.0 < old(self).path_manager.paths@.len()
                    &&& sel.1 < old(self).path_manager.paths@[sel.0 as int]@.len()
                    &&& sel.2 < old(self).path_manager.paths@[sel.0 as int]@[sel.1 as int]@.len()
                    &&& req.ctx.query_id == v.id
                    &&& req.ctx.fingerprint@ == fp_of(v)
                    &&& req.ctx.oblivious == (old(self).doh_type is Oblivious)
                    &&& req.headers.doh_type == old(self).doh_type
                    &&& req.headers.no_cache == (old(self).doh_type is Oblivious)
                    &&& match req.headers.bearer {
                        Some(b) => old(self).auth_enabled && token is Some && b@
                            == bearer_prefix() + token.unwrap()@,
                        None => !old(self).auth_enabled,
                    }
                    &&& {
                        let p = old(self).path_manager.paths@[sel.0 as int]@[sel.1 as int]@[
                            sel.2 as int
                        ]@;
                        match old(self).doh_type {
                            DoHType::Standard => match old(self).doh_method {
                                DoHMethod::Get => req.method is Get && req.body is Empty
                                    && req.url@ == url_of(p) + dns_param_key() + b64url(packet@),
                                DoHMethod::Post => req.method is Post && req.url@ == url_of(p)
                                    && (req.body matches RequestBody::Wire(w) && w@ == packet@),
                            },
                            DoHType::Oblivious => req.method is Post && req.url@ == url_of(p) && (
                            req.body matches RequestBody::ToSeal { plaintext, config }
                                && plaintext@ == odoh_plain(packet@) && old(
                                self,
                            ).odoh_store.unwrap()@[sel.0 as int] == SlotView::Fetched(
                                Some(config@),
                            )),
                        }
                    }
                },
                _ => true,
            },
    {
        let msg = match is_query(packet) {
            Ok(m) => m,
            Err(e) => {
                return QueryPlan::Refuse(e);
            },
        };
        let qid = msg.id;
        let fp = fingerprint_of(&msg);
        let ghost fpv = fp_of(parse_msg(packet@).unwrap());
        let ghost old_cache = self.cache@;
        match self.cache.get(&fp, now) {
            Some(entry) => {
                match build_response(&entry, qid, now) {
                    Ok(out) => {
                        return QueryPlan::Cached(out);
                    },
                    Err(_) => {
                        proof {
                            assert(!fresh_hit(old_cache, fpv, now)) by {
                                if fresh_hit(old_cache, fpv, now) {
                                    let k = choose|k: int|
                                        0 <= k < old_cache.len() && (#[trigger] old_cache[k]).fp
                                            == fpv && now < old_cache[k].expires_at
                                            && elapsed_of(old_cache[k], now) <= u32::MAX && (
                                        forall|j: int|
                                            0 <= j < old_cache[k].msg.records.len() ==> (
                                            #[trigger] old_cache[k].msg.records[j]).ttl
                                                >= elapsed_of(old_cache[k], now));
                                    let j = choose|j: int|
                                        0 <= j < old_cache.len() && old_cache[j] == entry@;
                                    assert(old_cache[k] == entry@);
                                }
                            }
                        }
                    },
                }
            },
            None => {
                proof {
                    assert(!fresh_hit(old_cache, fpv, now));
                }
            },
        }
        // cache miss: select a path
        let sel = match self.path_manager.get_path() {
            Some(sel) => sel,
            None => {
                return QueryPlan::Refuse(DapError::NoPathAvailable);
            },
        };
        let headers = match self.build_headers(token) {
            Ok(h) => h,
            Err(e) => {
                return QueryPlan::Refuse(e);
            },
        };
        let path = self.path_manager.path_at(sel.0, sel.1, sel.2);
        let ctx = QueryContext {
            fingerprint: fp,
            query_id: qid,
            sel,
            oblivious: match self.doh_type {
                DoHType::Oblivious => true,
                DoHType::Standard => false,
            },
        };
        match self.doh_type {
            DoHType::Standard => {
                let base_url = match path.as_url() {
                    Ok(u) => u,
                    Err(_) => {
                        proof {
                            assert(false);
                        }
                        return QueryPlan::Refuse(DapError::NoPathAvailable);
                    },
                };
                match self.doh_method {
                    DoHMethod::Get => {
                        let mut url = base_url;
                        push_dns_param(&mut url);
                        let mut wire: Vec<u8> = Vec::new();
                        crate::bytes::extend_slice(&mut wire, packet);
                        let b64 = b64url_encode(&wire);
                        crate::bytes::extend_bytes(&mut url, &b64);
                        QueryPlan::Send(
                            HttpRequest {
                                url,
                                method: DoHMethod::Get,
                                headers,
                                body: RequestBody::Empty,
                                ctx,
                            },
                        )
                    },
                    DoHMethod::Post => {
                        let mut wire: Vec<u8> = Vec::new();
                        crate::bytes::extend_slice(&mut wire, packet);
                        QueryPlan::Send(
                            HttpRequest {
                                url: base_url,
                                method: DoHMethod::Post,
                                headers,
                                body: RequestBody::Wire(wire),
                                ctx,
                            },
                        )
                    },
                }
            },
            DoHType::Oblivious => {
                if let DoHMethod::Get = self.doh_method {
                    return QueryPlan::Refuse(DapError::ODoHGetNotAllowed);
                }
                let config = match &self.odoh_store {
                    None => {
                        return QueryPlan::Refuse(DapError::ODoHNoClientConfig);
                    },
                    Some(store) => match store.get(sel.0) {
                        Some(Some(cfg)) => cfg,
                        _ => {
                            return QueryPlan::Refuse(DapError::ODoHNoClientConfig);
                        },
                    },
                };
                let url = match path.as_url() {
                    Ok(u) => u,
                    Err(_) => {
                        proof {
                            assert(false);
                        }
                        return QueryPlan::Refuse(DapError::ODoHNoClientConfig);
                    },
                };
                let mut wire: Vec<u8> = Vec::new();
                crate::bytes::extend_slice(&mut wire, packet);
                let plaintext = pad_query(&wire);
                QueryPlan::Send(
                    HttpRequest {
                        url,
                        method: DoHMethod::Post,
                        headers,
                        body: RequestBody::ToSeal { plaintext, config },
                        ctx,
                    },
                )
            },
        }
    }
}


/// An oblivious response that signals stale keying material at the
/// target: HTTP 401, or 200 with an empty body.
pub open spec fn stale_signal(oblivious: bool, status: u16, cl: Option<u64>) -> bool {
    oblivious && (status == 401 || (status == 200 && cl == Some(0u64)))
}

impl DoHClient {
    /// Interpret the upstream response for a planned request: detect
    /// stale oblivious keys, treat any non-200 as a query failure and
    /// mark the path unhealthy, unframe and validate the 200 body, cache
    /// it best-effort, and return the wire response.
    #[verifier::rlimit(60)]
    pub fn handle_upstream(
        &mut self,
        ctx: QueryContext,
        status: u16,
        content_length: Option<u64>,
        body: UpstreamBody,
        now: u64,
    ) -> (r: Result<Vec<u8>, DapError>)
        requires
            old(self).wf(),
            ctx.sel.0 < old(self).path_manager.paths@.len(),
            ctx.sel.1 < old(self).path_manager.paths@[ctx.sel.0 as int]@.len(),
            ctx.sel.2 < old(self).path_manager.paths@[ctx.sel.0 as int]@[ctx.sel.1 as int]@.len(),
            ctx.oblivious == (old(self).doh_type is Oblivious),
            ctx.oblivious <==> !(body is Raw),
            now <= u64::MAX - 0x1_0000_0000,
        ensures
            final(self).wf(),
            final(self).doh_type == old(self).doh_type,
            final(self).doh_method == old(self).doh_method,
            final(self).auth_enabled == old(self).auth_enabled,
            final(self).min_ttl == old(self).min_ttl,
            final(self).cache.spec_max_size() == old(self).cache.spec_max_size(),
            // a missing content length on an oblivious exchange
            ctx.oblivious && content_length is None ==> r == Err::<Vec<u8>, DapError>(
                DapError::ODoHInvalidContentLength,
            ) && *final(self) == *old(self),
            // stale key: forget the target's configuration, ask for a
            // refresh, fail this attempt
            content_length is Some && stale_signal(ctx.oblivious, status, content_length) ==> r
                == Err::<Vec<u8>, DapError>(DapError::DoHQueryError) && final(self).needs_refresh
                && final(self).odoh_store.unwrap()@[ctx.sel.0 as int] is NotFetched
                && final(self).cache@ == old(self).cache@
                && final(self).path_manager == old(self).path_manager,
            !stale_signal(ctx.oblivious, status, content_length) ==> final(self).needs_refresh
                == old(self).needs_refresh && final(self).odoh_store == old(self).odoh_store,
            // any other non-200: fail and mark the path unhealthy
            (ctx.oblivious ==> content_length is Some) && !stale_signal(
                ctx.oblivious,
                status,
                content_length,
            ) && status != 200 ==> r == Err::<Vec<u8>, DapError>(DapError::DoHQueryError)
                && !final(self).path_manager.paths@[ctx.sel.0 as int]@[ctx.sel.1 as int]@[
                ctx.sel.2 as int
            ]@.healthy && final(self).cache@ == old(self).cache@,
            // 200: unframe, validate, cache, return
            (ctx.oblivious ==> content_length is Some) && !stale_signal(
                ctx.oblivious,
                status,
                content_length,
            ) && status == 200 ==> final(self).path_manager == old(self).path_manager && match body {
                UpstreamBody::Raw(b) => if valid_response(b@) {
                    r matches Ok(out) && out@ == b@
                } else {
                    r == Err::<Vec<u8>, DapError>(DapError::InvalidDnsResponse)
                },
                UpstreamBody::Opened(p) => match odoh_unpad(p@) {
                    Some(m) => if valid_response(m) {
                        r matches Ok(out) && out@ == m
                    } else {
                        r == Err::<Vec<u8>, DapError>(DapError::InvalidDnsResponse)
                    },
                    None => r == Err::<Vec<u8>, DapError>(DapError::ODoHInvalidResponse),
                },
                UpstreamBody::OpenFailed => r == Err::<Vec<u8>, DapError>(
                    DapError::ODoHInvalidResponse,
                ),
            },
            // what was returned is a response on the wire, now cached
            match r {
                Ok(out) => {
                    &&& valid_response(out@)
                    &&& status == 200
                    &&& {
                        let m = parse_msg(out@).unwrap();
                        m.records.len() > 0 ==> exists|k: int|
                            0 <= k < final(self).cache@.len()
                                && (#[trigger] final(self).cache@[k]).fp == ctx.fingerprint@
                                && final(self).cache@[k].msg == m
                                && final(self).cache@[k].inserted_at == now && is_expiry(
                                final(self).cache@[k].expires_at,
                                m.records,
                                old(self).min_ttl,
                                now,
                            )
                    }
                },
                Err(_) => final(self).cache@ == old(self).cache@,
            },
    {
        if ctx.oblivious {
            let cl = match content_length {
                Some(c) => c,
                None => {
                    return Err(DapError::ODoHInvalidContentLength);
                },
            };
            if status == 401 || (status == 200 && cl == 0) {
                match &mut self.odoh_store {
                    Some(store) => {
                        store.mark_stale(ctx.sel.0);
                    },
                    None => {
                        proof {
                            assert(false);
                        }
                    },
                }
                self.needs_refresh = true;
                return Err(DapError::DoHQueryError);
            }
        }
        if status != 200 {
            self.path_manager.mark_unhealthy(ctx.sel.0, ctx.sel.1, ctx.sel.2);
            return Err(DapError::DoHQueryError);
        }
        let bytes: Vec<u8> = match body {
            UpstreamBody::Raw(b) => b,
            UpstreamBody::Opened(p) => match unpad_response(&p) {
                Ok(m) => m,
                Err(e) => {
                    return Err(e);
                },
            },
            UpstreamBody::OpenFailed => {
                return Err(DapError::ODoHInvalidResponse);
            },
        };
        let msg = match is_response(bytes.as_slice()) {
            Ok(m) => m,
            Err(e) => {
                return Err(e);
            },
        };
        proof {
            crate::dns::lemma_parse_msg_inv(bytes@);
        }
        let min_ttl_floor = self.min_ttl;
        let put_res = self.cache.put(ctx.fingerprint, msg, now, min_ttl_floor);
        proof {
            let m = parse_msg(bytes@).unwrap();
            assert(m == msg@);
            if m.records.len() > 0 {
                assert(put_res is Ok);
                let k = choose|k: int|
                    0 <= k < self.cache@.len() && (#[trigger] self.cache@[k]).fp
                        == ctx.fingerprint@ && self.cache@[k].msg == msg@ && self.cache@[
                        k
                    ].inserted_at == now && is_expiry(
                        self.cache@[k].expires_at,
                        msg@.records,
                        min_ttl_floor,
                        now,
                    );
                assert(0 <= k < self.cache@.len() && self.cache@[k].fp == ctx.fingerprint@
                    && self.cache@[k].msg == m && self.cache@[k].inserted_at == now && is_expiry(
                    self.cache@[k].expires_at,
                    m.records,
                    old(self).min_ttl,
                    now,
                ));
            }
        }
        match put_res {
            Ok(()) => {},
            Err(_) => {},
        }
        Ok(bytes)
    }
}


// ---------------------------------------------------------------------
// Self-resolution of endpoint addresses
// ---------------------------------------------------------------------

/// One resolved socket address as plain values.
#[derive(Clone, Copy, Debug, PartialEq, Eq, Structural)]
pub struct ResolvedAddr {
    pub ip: Ipv4Quad,
    pub port: u16,
}

/// Addresses resolved for one hostname.
#[derive(Debug)]
pub struct ResolveIpResponse {
    pub hostname: Vec<u8>,
    pub addresses: Vec<ResolvedAddr>,
}

/// Port to dial: the URL's explicit port, else 443 for https and 80
/// otherwise.
pub fn effective_port(explicit: Option<u16>, is_https: bool) -> (r: u16)
    ensures
        r == match explicit {
            Some(p) => p,
            None => if is_https {
                443u16
            } else {
                80u16
            },
        },
{
    match explicit {
        Some(p) => p,
        None => if is_https {
            443
        } else {
            80
        },
    }
}

/// Addresses of a self-resolution response: every A record among the
/// answers, each paired with the chosen port. Fails when the response
/// is erroneous or yields no address.
pub fn extract_resolved(hostname: Vec<u8>, resp: &DnsMessage, port: u16) -> (r: Result<
    ResolveIpResponse,
    DapError,
>)
    requires
        wf_msg(resp@),
    ensures
        match r {
            Ok(res) => {
                &&& rcode_of(resp@.flags) == 0
                &&& res.hostname@ == hostname@
                &&& res.addresses@.len() == a_addrs(
                    resp@.records.take(resp@.ancount as int),
                ).len()
                &&& res.addresses@.len() > 0
                &&& forall|i: int|
                    0 <= i < res.addresses@.len() ==> (#[trigger] res.addresses@[i]).ip
                        == a_addrs(resp@.records.take(resp@.ancount as int))[i] && res.addresses@[
                        i
                    ].port == port
            },
            Err(e) => {
                &&& e == DapError::FailedToResolveIpsForHttpClient
                &&& (rcode_of(resp@.flags) != 0 || a_addrs(
                    resp@.records.take(resp@.ancount as int),
                ).len() == 0)
            },
        },
{
    if resp.response_code() != 0 {
        return Err(DapError::FailedToResolveIpsForHttpClient);
    }
    let quads = answer_a_records(resp);
    if quads.len() == 0 {
        return Err(DapError::FailedToResolveIpsForHttpClient);
    }
    let mut addresses: Vec<ResolvedAddr> = Vec::new();
    let mut i: usize = 0;
    while i < quads.len()
        invariant
            i <= quads@.len(),
            addresses@.len() == i,
            forall|j: int|
                0 <= j < i ==> (#[trigger] addresses@[j]).ip == quads@[j] && addresses@[j].port
                    == port,
        decreases quads@.len() - i,
    {
        addresses.push(ResolvedAddr { ip: quads[i], port });
        i = i + 1;
    }
    Ok(ResolveIpResponse { hostname, addresses })
}

// ---------------------------------------------------------------------
// Laws
// ---------------------------------------------------------------------

/// With only expired entries under a fingerprint, the cache cannot
/// answer: together with [`DoHClient::plan_query`]'s contract (a cached
/// answer implies a fresh hit), the next resolution goes upstream.
pub proof fn lemma_expired_means_upstream(
    c: Seq<crate::cache::EntryView>,
    fpv: crate::cache::FingerprintView,
    now: u64,
)
    requires
        forall|k: int|
            0 <= k < c.len() && (#[trigger] c[k]).fp == fpv ==> now >= c[k].expires_at,
    ensures
        !fresh_hit(c, fpv, now),
{
}


/// First step of self-resolution: the hostname and port of the endpoint
/// URL and a minimal A query (with a trailing-dot name) to resolve the
/// hostname, ready for [`DoHClient::plan_query`].
pub fn prepare_self_resolution(endpoint: &Vec<u8>, id: u16) -> (r: Result<
    (Vec<u8>, u16, Vec<u8>),
    DapError,
>)
    ensures
        (r == Err::<(Vec<u8>, u16, Vec<u8>), DapError>(DapError::FailedToResolveIpsForHttpClient))
            <==> !url_has_domain_host(endpoint@),
        (r == Err::<(Vec<u8>, u16, Vec<u8>), DapError>(DapError::InvalidDnsQuery)) <==> (
        url_has_domain_host(endpoint@) && (url_host_of(endpoint@).push(46).len() > 255
            || crate::dns::dotted_to_wire(url_host_of(endpoint@).push(46), 0) is None)),
        (r is Ok) == (url_has_domain_host(endpoint@) && url_host_of(endpoint@).push(46).len()
            <= 255 && crate::dns::dotted_to_wire(url_host_of(endpoint@).push(46), 0) is Some),
        match r {
            Ok(hpw) => {
                &&& hpw.0@ == url_host_of(endpoint@)
                &&& hpw.1 == match url_port_of(endpoint@) {
                    Some(p) => p,
                    None => if url_scheme_of(endpoint@) == scheme_bytes(Scheme::Https) {
                        443u16
                    } else {
                        80u16
                    },
                }
                &&& valid_query(hpw.2@)
            },
            Err(e) => e == DapError::FailedToResolveIpsForHttpClient || e
                == DapError::InvalidDnsQuery,
        },
{
    let (host, explicit_port) = match parse_url_host_port(endpoint) {
        Some(hp) => hp,
        None => {
            return Err(DapError::FailedToResolveIpsForHttpClient);
        },
    };
    let (scheme_text, _authority, _path) = match parse_url_parts(endpoint) {
        Some(parts) => parts,
        None => {
            // a URL with a domain host always parses
            proof {
                assert(false);
            }
            return Err(DapError::FailedToResolveIpsForHttpClient);
        },
    };
    let is_https = match Scheme::try_from(&scheme_text) {
        Ok(Scheme::Https) => true,
        _ => false,
    };
    let port = effective_port(explicit_port, is_https);
    let mut fqdn = crate::bytes::clone_bytes(&host);
    fqdn.push(46);
    if fqdn.len() > 255 {
        return Err(DapError::InvalidDnsQuery);
    }
    let msg = match crate::dns::build_query_a(&fqdn, id) {
        Ok(m) => m,
        Err(e) => {
            return Err(e);
        },
    };
    proof {
        crate::dns::lemma_parse_enc(msg@);
    }
    let wire = crate::dns::encode(&msg);
    Ok((host, port, wire))
}

} // verus!

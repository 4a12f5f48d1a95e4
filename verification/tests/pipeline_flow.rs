use doh_auth_proxy::cache::Cache;
use doh_auth_proxy::config::{build_proxy_config, ConfigInput, DoHMethod};
use doh_auth_proxy::dns::decode;
use doh_auth_proxy::errors::DapError;
use doh_auth_proxy::odoh::{pad_query, unpad_response};
use doh_auth_proxy::path::{DoHPathManager, DoHRelay, DoHTarget, DoHType, Scheme};
use doh_auth_proxy::pipeline::{
    prepare_self_resolution, DoHClient, QueryPlan, RequestBody, UpstreamBody,
};

fn push16(v: &mut Vec<u8>, x: u16) {
    v.push((x >> 8) as u8);
    v.push((x & 0xFF) as u8);
}

fn push32(v: &mut Vec<u8>, x: u32) {
    v.push((x >> 24) as u8);
    v.push(((x >> 16) & 0xFF) as u8);
    v.push(((x >> 8) & 0xFF) as u8);
    v.push((x & 0xFF) as u8);
}

fn push_name(v: &mut Vec<u8>, name: &str) {
    for label in name.split('.') {
        if label.is_empty() {
            continue;
        }
        v.push(label.len() as u8);
        v.extend_from_slice(label.as_bytes());
    }
    v.push(0);
}

fn wire_query(id: u16, name: &str) -> Vec<u8> {
    let mut v = Vec::new();
    push16(&mut v, id);
    push16(&mut v, 0x0100);
    push16(&mut v, 1);
    push16(&mut v, 0);
    push16(&mut v, 0);
    push16(&mut v, 0);
    push_name(&mut v, name);
    push16(&mut v, 1);
    push16(&mut v, 1);
    v
}

fn wire_response(id: u16, name: &str, ttl: u32, ip: [u8; 4]) -> Vec<u8> {
    let mut v = Vec::new();
    push16(&mut v, id);
    push16(&mut v, 0x8180);
    push16(&mut v, 1);
    push16(&mut v, 1);
    push16(&mut v, 0);
    push16(&mut v, 0);
    push_name(&mut v, name);
    push16(&mut v, 1);
    push16(&mut v, 1);
    v.push(0xC0);
    v.push(0x0C);
    push16(&mut v, 1);
    push16(&mut v, 1);
    push32(&mut v, ttl);
    push16(&mut v, 4);
    v.extend_from_slice(&ip);
    v
}

fn input(targets: &[&str], relays: Option<&[&str]>) -> ConfigInput {
    ConfigInput {
        doh_target_urls: Some(targets.iter().map(|t| t.as_bytes().to_vec()).collect()),
        target_randomization: Some(false),
        use_get_method: None,
        odoh_relay_urls: relays.map(|rs| rs.iter().map(|r| r.as_bytes().to_vec()).collect()),
        odoh_relay_randomization: Some(false),
        mid_relay_urls: None,
        max_mid_relays: None,
        max_cache_size: None,
        min_ttl: None,
        max_connections: None,
        auth_enabled: false,
        default_target_url: b"https://dns.example/dns-query".to_vec(),
    }
}

fn standard_get_client() -> DoHClient {
    let mut inp = input(&["https://dns.example/dns-query"], None);
    inp.use_get_method = Some(true);
    DoHClient::new(&build_proxy_config(inp).unwrap()).unwrap()
}

fn odoh_configs_body(key: &[u8]) -> Vec<u8> {
    let mut contents = Vec::new();
    push16(&mut contents, 0x0020);
    push16(&mut contents, 0x0001);
    push16(&mut contents, 0x0001);
    push16(&mut contents, key.len() as u16);
    contents.extend_from_slice(key);
    let mut entry = Vec::new();
    push16(&mut entry, 1);
    push16(&mut entry, contents.len() as u16);
    entry.extend_from_slice(&contents);
    let mut body = Vec::new();
    push16(&mut body, entry.len() as u16);
    body.extend_from_slice(&entry);
    body
}

#[test]
fn standard_doh_get() {
    let mut client = standard_get_client();
    let q = wire_query(0x1234, "example.com.");
    let plan = client.plan_query(&q, 1000, None);
    let req = match plan {
        QueryPlan::Send(req) => req,
        _ => panic!("expected an upstream request"),
    };
    assert!(matches!(req.method, DoHMethod::Get));
    assert!(matches!(req.body, RequestBody::Empty));
    let expected = format!(
        "https://dns.example/dns-query?dns={}",
        data_encoding::BASE64URL_NOPAD.encode(&q)
    );
    assert_eq!(String::from_utf8(req.url.clone()).unwrap(), expected);
    assert_eq!(req.headers.doh_type.as_str(), "application/dns-message");
    assert!(!req.headers.no_cache);
    assert!(req.headers.bearer.is_none());

    // upstream answers with the same id and question
    let resp = wire_response(0x1234, "example.com.", 60, [93, 184, 216, 34]);
    let out = client
        .handle_upstream(req.ctx, 200, Some(resp.len() as u64), UpstreamBody::Raw(resp.clone()), 1000)
        .unwrap();
    assert_eq!(out, resp);
    let m = decode(&out).unwrap();
    assert_eq!(m.id, 0x1234);
}

#[test]
fn cache_hit_restamps_within_ttl() {
    let mut client = standard_get_client();
    let q1 = wire_query(0x1234, "example.com.");
    let plan = client.plan_query(&q1, 1000, None);
    let req = match plan {
        QueryPlan::Send(req) => req,
        _ => panic!("expected an upstream request"),
    };
    let resp = wire_response(0x1234, "example.com.", 60, [93, 184, 216, 34]);
    client
        .handle_upstream(req.ctx, 200, Some(resp.len() as u64), UpstreamBody::Raw(resp), 1000)
        .unwrap();

    // same question, new id, 10 seconds later: answered from the cache
    let q2 = wire_query(0x5678, "example.com.");
    match client.plan_query(&q2, 1010, None) {
        QueryPlan::Cached(out) => {
            let m = decode(&out).unwrap();
            assert_eq!(m.id, 0x5678);
            assert!(m.records[0].ttl >= 50 && m.records[0].ttl <= 60);
            assert_eq!(m.records[0].ttl, 50);
        },
        _ => panic!("expected a cache answer"),
    }
}

#[test]
fn expired_entry_goes_upstream_again() {
    let mut client = standard_get_client();
    let q1 = wire_query(1, "example.com.");
    let req = match client.plan_query(&q1, 1000, None) {
        QueryPlan::Send(req) => req,
        _ => panic!("expected an upstream request"),
    };
    let resp = wire_response(1, "example.com.", 60, [1, 2, 3, 4]);
    client
        .handle_upstream(req.ctx, 200, Some(resp.len() as u64), UpstreamBody::Raw(resp), 1000)
        .unwrap();
    // expiry is 1000 + max(10, 60); at 1061 the entry is gone
    let q2 = wire_query(2, "example.com.");
    assert!(matches!(client.plan_query(&q2, 1061, None), QueryPlan::Send(_)));
}

#[test]
fn invalid_query_is_refused() {
    let mut client = standard_get_client();
    let garbage = vec![1, 2, 3];
    assert!(matches!(
        client.plan_query(&garbage, 1000, None),
        QueryPlan::Refuse(DapError::InvalidDnsQuery)
    ));
}

#[test]
fn no_path_refuses_without_transport() {
    // an empty target list at construction
    let mut client = DoHClient {
        path_manager: DoHPathManager::new_standard(vec![], true),
        cache: Cache::new(8),
        odoh_store: None,
        doh_type: DoHType::Standard,
        doh_method: DoHMethod::Post,
        auth_enabled: false,
        min_ttl: 10,
        needs_refresh: false,
    };
    let q = wire_query(7, "example.com.");
    assert!(matches!(
        client.plan_query(&q, 1000, None),
        QueryPlan::Refuse(DapError::NoPathAvailable)
    ));
}

#[test]
fn auth_needs_a_token() {
    let mut inp = input(&["https://dns.example/dns-query"], None);
    inp.auth_enabled = true;
    let mut client = DoHClient::new(&build_proxy_config(inp).unwrap()).unwrap();
    let q = wire_query(7, "example.com.");
    assert!(matches!(
        client.plan_query(&q, 1000, None),
        QueryPlan::Refuse(DapError::AuthError)
    ));
    let token = b"opensesame".to_vec();
    match client.plan_query(&q, 1000, Some(&token)) {
        QueryPlan::Send(req) => {
            assert_eq!(req.headers.bearer.unwrap(), b"Bearer opensesame".to_vec());
        },
        _ => panic!("expected an upstream request"),
    }
}

#[test]
fn odoh_post_with_sealed_body() {
    let mut client = DoHClient::new(
        &build_proxy_config(input(
            &["https://dns.example/dns-query"],
            Some(&["https://r1.example/proxy"]),
        ))
        .unwrap(),
    )
    .unwrap();
    assert!(matches!(client.doh_type, DoHType::Oblivious));
    let key = [7u8; 32];
    client
        .odoh_store
        .as_mut()
        .unwrap()
        .apply_fetch(0, Some(&odoh_configs_body(&key)));
    let q = wire_query(0x0A0B, "example.com.");
    let req = match client.plan_query(&q, 1000, None) {
        QueryPlan::Send(req) => req,
        _ => panic!("expected an upstream request"),
    };
    assert!(matches!(req.method, DoHMethod::Post));
    assert_eq!(
        String::from_utf8(req.url.clone()).unwrap(),
        "https://r1.example/proxy?targethost=dns.example&targetpath=%2Fdns-query"
    );
    assert_eq!(req.headers.doh_type.as_str(), "application/oblivious-dns-message");
    assert!(req.headers.no_cache);
    match req.body {
        RequestBody::ToSeal { plaintext, config } => {
            assert_eq!(plaintext, pad_query(&q));
            assert_eq!(plaintext.len() % 128, 0);
            assert_eq!(config.public_key, key.to_vec());
        },
        _ => panic!("expected a body to seal"),
    }
}

#[test]
fn odoh_without_config_is_refused() {
    let mut client = DoHClient::new(
        &build_proxy_config(input(
            &["https://dns.example/dns-query"],
            Some(&["https://r1.example/proxy"]),
        ))
        .unwrap(),
    )
    .unwrap();
    let q = wire_query(1, "example.com.");
    assert!(matches!(
        client.plan_query(&q, 1000, None),
        QueryPlan::Refuse(DapError::ODoHNoClientConfig)
    ));
}

#[test]
fn stale_key_recovery() {
    let mut client = DoHClient::new(
        &build_proxy_config(input(
            &["https://dns.example/dns-query"],
            Some(&["https://r1.example/proxy"]),
        ))
        .unwrap(),
    )
    .unwrap();
    let old_key = [1u8; 32];
    client
        .odoh_store
        .as_mut()
        .unwrap()
        .apply_fetch(0, Some(&odoh_configs_body(&old_key)));
    let q = wire_query(0x0101, "example.com.");
    let req = match client.plan_query(&q, 1000, None) {
        QueryPlan::Send(req) => req,
        _ => panic!("expected an upstream request"),
    };
    // the target rejects the stale key
    let err = client
        .handle_upstream(req.ctx, 401, Some(0), UpstreamBody::OpenFailed, 1000)
        .unwrap_err();
    assert_eq!(err, DapError::DoHQueryError);
    assert!(client.needs_refresh);
    assert!(client.odoh_store.as_ref().unwrap().get(0).is_none());

    // the next well-known fetch returns a new key
    let new_key = [2u8; 32];
    client
        .odoh_store
        .as_mut()
        .unwrap()
        .apply_fetch(0, Some(&odoh_configs_body(&new_key)));
    client.needs_refresh = false;
    match client.plan_query(&q, 1001, None) {
        QueryPlan::Send(req2) => match req2.body {
            RequestBody::ToSeal { config, .. } => {
                assert_eq!(config.public_key, new_key.to_vec());
            },
            _ => panic!("expected a body to seal"),
        },
        _ => panic!("expected an upstream request"),
    }
}

#[test]
fn non_200_fails_and_degrades_path() {
    let mut client = standard_get_client();
    let q = wire_query(3, "example.com.");
    let req = match client.plan_query(&q, 1000, None) {
        QueryPlan::Send(req) => req,
        _ => panic!("expected an upstream request"),
    };
    let sel = req.ctx.sel;
    let err = client
        .handle_upstream(req.ctx, 503, Some(0), UpstreamBody::Raw(vec![]), 1000)
        .unwrap_err();
    assert_eq!(err, DapError::DoHQueryError);
    assert!(!client.path_manager.path_at(sel.0, sel.1, sel.2).is_healthy.get());
}

#[test]
fn oblivious_roundtrip_under_mock_seal() {
    // the mock transport "seals" by masking every byte and "opens" the
    // same way; what matters is that the framed plaintext survives
    let seal = |p: &[u8]| p.iter().map(|b| b ^ 0xAA).collect::<Vec<u8>>();
    let open = seal;

    let mut client = DoHClient::new(
        &build_proxy_config(input(
            &["https://dns.example/dns-query"],
            Some(&["https://r1.example/proxy"]),
        ))
        .unwrap(),
    )
    .unwrap();
    client
        .odoh_store
        .as_mut()
        .unwrap()
        .apply_fetch(0, Some(&odoh_configs_body(&[9u8; 32])));
    let q = wire_query(0x2222, "example.com.");
    let req = match client.plan_query(&q, 1000, None) {
        QueryPlan::Send(req) => req,
        _ => panic!("expected an upstream request"),
    };
    let sealed = match &req.body {
        RequestBody::ToSeal { plaintext, .. } => seal(plaintext),
        _ => panic!("expected a body to seal"),
    };
    // the mock target opens the query, resolves, and seals its response
    let opened_query = open(&sealed);
    assert_eq!(unpad_response(&opened_query).unwrap(), q);
    let resp = wire_response(0x2222, "example.com.", 60, [5, 6, 7, 8]);
    let sealed_resp = seal(&pad_query(&resp));
    // the client opens the sealed response and unframes it
    let out = client
        .handle_upstream(
            req.ctx,
            200,
            Some(sealed_resp.len() as u64),
            UpstreamBody::Opened(open(&sealed_resp)),
            1000,
        )
        .unwrap();
    assert_eq!(out, resp);
}

#[test]
fn odoh_missing_content_length() {
    let mut client = DoHClient::new(
        &build_proxy_config(input(
            &["https://dns.example/dns-query"],
            Some(&["https://r1.example/proxy"]),
        ))
        .unwrap(),
    )
    .unwrap();
    client
        .odoh_store
        .as_mut()
        .unwrap()
        .apply_fetch(0, Some(&odoh_configs_body(&[9u8; 32])));
    let q = wire_query(1, "example.com.");
    let req = match client.plan_query(&q, 1000, None) {
        QueryPlan::Send(req) => req,
        _ => panic!("expected an upstream request"),
    };
    let err = client
        .handle_upstream(req.ctx, 200, None, UpstreamBody::OpenFailed, 1000)
        .unwrap_err();
    assert_eq!(err, DapError::ODoHInvalidContentLength);
}

#[test]
fn upstream_garbage_is_refused() {
    let mut client = standard_get_client();
    let q = wire_query(4, "example.com.");
    let req = match client.plan_query(&q, 1000, None) {
        QueryPlan::Send(req) => req,
        _ => panic!("expected an upstream request"),
    };
    let err = client
        .handle_upstream(req.ctx, 200, Some(3), UpstreamBody::Raw(vec![1, 2, 3]), 1000)
        .unwrap_err();
    assert_eq!(err, DapError::InvalidDnsResponse);
}

#[test]
fn odoh_needs_a_relay_url() {
    // a nexthop relay section with no URL at all
    let mut config = build_proxy_config(input(&["https://dns.example/dns-query"], None)).unwrap();
    config.nexthop_relay_config = Some(doh_auth_proxy::config::NexthopRelayConfig {
        odoh_relay_urls: vec![],
        odoh_relay_randomization: true,
    });
    match DoHClient::new(&config) {
        Err(e) => assert_eq!(e, DapError::ODoHNoRelayUrl),
        Ok(_) => panic!("expected a refusal"),
    }
}

#[test]
fn unusable_target_url_fails_path_building() {
    let mut config = build_proxy_config(input(&["https://dns.example/dns-query"], None)).unwrap();
    config.target_config.doh_target_urls = vec![b"no scheme at all".to_vec()];
    match DoHPathManager::new(&config) {
        Err(e) => assert_eq!(e, DapError::FailedToBuildDohUrl),
        Ok(_) => panic!("expected a refusal"),
    }
}

#[test]
fn failed_seal_opening_is_an_odoh_error() {
    let mut client = DoHClient::new(
        &build_proxy_config(input(
            &["https://dns.example/dns-query"],
            Some(&["https://r1.example/proxy"]),
        ))
        .unwrap(),
    )
    .unwrap();
    client
        .odoh_store
        .as_mut()
        .unwrap()
        .apply_fetch(0, Some(&odoh_configs_body(&[9u8; 32])));
    let q = wire_query(8, "example.com.");
    let req = match client.plan_query(&q, 1000, None) {
        QueryPlan::Send(req) => req,
        _ => panic!("expected an upstream request"),
    };
    let err = client
        .handle_upstream(req.ctx, 200, Some(77), UpstreamBody::OpenFailed, 1000)
        .unwrap_err();
    assert_eq!(err, DapError::ODoHInvalidResponse);
}

#[test]
fn modoh_chains_are_enumerated() {
    let target = DoHTarget {
        authority: b"dns.example".to_vec(),
        path: b"/dns-query".to_vec(),
        scheme: Scheme::Https,
    };
    let nexthop = DoHRelay {
        authority: b"r1.example".to_vec(),
        path: b"/proxy".to_vec(),
        scheme: Scheme::Https,
        can_be_next_hop: true,
    };
    let mid = |a: &str| DoHRelay {
        authority: a.as_bytes().to_vec(),
        path: b"/proxy".to_vec(),
        scheme: Scheme::Https,
        can_be_next_hop: false,
    };
    let m = DoHPathManager::new_oblivious(
        &vec![target],
        false,
        &vec![nexthop],
        false,
        &vec![mid("m1.example"), mid("m2.example")],
        2,
    );
    // chains: bare next hop, two singles, two ordered pairs
    assert_eq!(m.num_targets(), 1);
    assert_eq!(m.num_groups(0), 1);
    assert_eq!(m.group_size(0, 0), 5);
}

#[test]
fn self_resolution_is_prepared_from_the_url() {
    let (host, port, wire) =
        prepare_self_resolution(&b"https://host.example:8053/dns-query".to_vec(), 11).unwrap();
    assert_eq!(host, b"host.example".to_vec());
    assert_eq!(port, 8053);
    let m = decode(&wire).unwrap();
    assert_eq!(m.id, 11);
    assert_eq!(m.qtype, 1);

    let (_, port2, _) =
        prepare_self_resolution(&b"https://host.example/dns-query".to_vec(), 11).unwrap();
    assert_eq!(port2, 443);
    let (_, port3, _) =
        prepare_self_resolution(&b"http://host.example/dns-query".to_vec(), 11).unwrap();
    assert_eq!(port3, 80);
}

use doh_auth_proxy::config::{
    build_proxy_config, ConfigInput, DoHMethod, DEFAULT_CACHE_SIZE, DEFAULT_MIN_TTL,
};
use doh_auth_proxy::counter::{Counter, CounterType};
use doh_auth_proxy::dns::{build_query_a, encode, decode};
use doh_auth_proxy::errors::DapError;
use doh_auth_proxy::frame::{frame_response, parse_frame_length};
use doh_auth_proxy::odoh::{pad_query, select_odoh_config, unpad_response, OdohConfigStore};
use doh_auth_proxy::pipeline::{effective_port, extract_resolved};

fn push16(v: &mut Vec<u8>, x: u16) {
    v.push((x >> 8) as u8);
    v.push((x & 0xFF) as u8);
}

fn base_input() -> ConfigInput {
    ConfigInput {
        doh_target_urls: None,
        target_randomization: None,
        use_get_method: None,
        odoh_relay_urls: None,
        odoh_relay_randomization: None,
        mid_relay_urls: None,
        max_mid_relays: None,
        max_cache_size: None,
        min_ttl: None,
        max_connections: None,
        auth_enabled: false,
        default_target_url: b"https://dns.example/dns-query".to_vec(),
    }
}

fn odoh_configs_body(kem: u16, kdf: u16, aead: u16, key: &[u8]) -> Vec<u8> {
    let mut contents = Vec::new();
    push16(&mut contents, kem);
    push16(&mut contents, kdf);
    push16(&mut contents, aead);
    push16(&mut contents, key.len() as u16);
    contents.extend_from_slice(key);
    let mut entry = Vec::new();
    push16(&mut entry, 1);
    push16(&mut entry, contents.len() as u16);
    entry.extend_from_slice(&contents);
    let mut body = Vec::new();
    push16(&mut body, entry.len() as u16);
    body.extend_from_slice(&entry);
    body
}

#[test]
fn config_defaults() {
    let c = build_proxy_config(base_input()).unwrap();
    assert_eq!(c.max_cache_size, DEFAULT_CACHE_SIZE);
    assert_eq!(c.min_ttl, DEFAULT_MIN_TTL);
    assert!(c.target_config.target_randomization);
    assert!(matches!(c.target_config.doh_method, DoHMethod::Post));
    assert!(c.nexthop_relay_config.is_none());
    assert_eq!(
        c.target_config.doh_target_urls,
        vec![b"https://dns.example/dns-query".to_vec()]
    );
}

#[test]
fn config_get_method() {
    let mut inp = base_input();
    inp.use_get_method = Some(true);
    let c = build_proxy_config(inp).unwrap();
    assert!(matches!(c.target_config.doh_method, DoHMethod::Get));
}

#[test]
fn config_rejects_excess_mid_relays() {
    let mut inp = base_input();
    inp.odoh_relay_urls = Some(vec![b"https://r1.example/proxy".to_vec()]);
    inp.mid_relay_urls = Some(vec![b"https://m1.example/proxy".to_vec()]);
    inp.max_mid_relays = Some(2);
    assert_eq!(build_proxy_config(inp).unwrap_err(), DapError::InvalidConfig);
}

#[test]
fn config_rejects_unparseable_url() {
    let mut inp = base_input();
    inp.doh_target_urls = Some(vec![b"not a url".to_vec()]);
    assert_eq!(build_proxy_config(inp).unwrap_err(), DapError::InvalidConfig);
}

#[test]
fn config_mid_relays_default_bound() {
    let mut inp = base_input();
    inp.odoh_relay_urls = Some(vec![b"https://r1.example/proxy".to_vec()]);
    inp.mid_relay_urls = Some(vec![b"https://m1.example/proxy".to_vec()]);
    let c = build_proxy_config(inp).unwrap();
    assert_eq!(c.subseq_relay_config.unwrap().max_mid_relays, 1);
}

#[test]
fn counter_gate_values() {
    let mut c = Counter::default();
    assert_eq!(c.increment(CounterType::TCP), 0);
    assert_eq!(c.increment(CounterType::TCP), 1);
    assert_eq!(c.increment(CounterType::UDP), 0);
    assert_eq!(c.get_current(CounterType::TCP), 2);
    assert_eq!(c.get_current(CounterType::UDP), 1);
    assert_eq!(c.get_current_total(), 3);
    c.decrement(CounterType::TCP);
    assert_eq!(c.get_current(CounterType::TCP), 1);
    assert_eq!(c.get_current_total(), 2);
}

#[test]
fn counter_decrement_saturates() {
    let mut c = Counter::default();
    c.decrement(CounterType::UDP);
    assert_eq!(c.get_current(CounterType::UDP), 0);
    assert_eq!(c.get_current_total(), 0);
}

#[test]
fn tcp_frame_roundtrip() {
    assert_eq!(parse_frame_length(0, 0), None);
    assert_eq!(parse_frame_length(0, 5), Some(5));
    assert_eq!(parse_frame_length(1, 0), Some(256));
    let body = vec![9u8; 300];
    let framed = frame_response(&body).unwrap();
    assert_eq!(framed.len(), 302);
    assert_eq!(
        parse_frame_length(framed[0], framed[1]),
        Some(300)
    );
    assert_eq!(&framed[2..], &body[..]);
}

#[test]
fn oversized_response_cannot_be_framed() {
    let body = vec![0u8; 70000];
    assert!(frame_response(&body).is_none());
}

#[test]
fn odoh_config_selection() {
    let body = odoh_configs_body(0x0020, 1, 1, &[3u8; 32]);
    let cfg = select_odoh_config(&body).unwrap();
    assert_eq!(cfg.kem_id, 0x0020);
    assert_eq!(cfg.public_key, vec![3u8; 32]);
    // the contents blob spans the whole entry body
    assert_eq!(cfg.config_contents.len(), 8 + 32);

    // an unsupported suite is skipped, leaving nothing
    let bad = odoh_configs_body(0x0010, 1, 1, &[3u8; 32]);
    assert!(select_odoh_config(&bad).is_none());

    // malformed bytes yield nothing
    assert!(select_odoh_config(&vec![0, 9, 1, 2]).is_none());
}

#[test]
fn odoh_store_states() {
    let mut store = OdohConfigStore::new(2);
    assert!(store.get(0).is_none());
    store.apply_fetch(0, None);
    assert!(matches!(store.get(0), Some(None)));
    let body = odoh_configs_body(0x0020, 1, 1, &[4u8; 32]);
    store.apply_fetch(1, Some(&body));
    assert!(matches!(store.get(1), Some(Some(_))));
    store.mark_stale(1);
    assert!(store.get(1).is_none());
}

#[test]
fn padding_is_aligned_and_reversible() {
    let q = vec![0xABu8; 45];
    let padded = pad_query(&q);
    assert_eq!(padded.len() % 128, 0);
    assert_eq!(unpad_response(&padded).unwrap(), q);
    // inconsistent framing is rejected
    let mut broken = padded.clone();
    broken.pop();
    assert_eq!(
        unpad_response(&broken).unwrap_err(),
        DapError::ODoHInvalidResponse
    );
}

#[test]
fn ports_default_by_scheme() {
    assert_eq!(effective_port(Some(8053), true), 8053);
    assert_eq!(effective_port(None, true), 443);
    assert_eq!(effective_port(None, false), 80);
}

#[test]
fn self_resolution_extracts_addresses() {
    // response to an A query with one address
    let q = build_query_a(&b"host.example.".to_vec(), 77).unwrap();
    let mut resp = encode(&q);
    resp[2] = 0x81;
    resp[3] = 0x80;
    resp[7] = 1;
    resp.extend_from_slice(&[0xC0, 0x0C]);
    resp.extend_from_slice(&[0, 1, 0, 1]);
    resp.extend_from_slice(&[0, 0, 0, 60]);
    resp.extend_from_slice(&[0, 4, 198, 51, 100, 7]);
    let m = decode(&resp).unwrap();
    let r = extract_resolved(b"host.example".to_vec(), &m, 443).unwrap();
    assert_eq!(r.hostname, b"host.example".to_vec());
    assert_eq!(r.addresses.len(), 1);
    assert_eq!(r.addresses[0].port, 443);
    assert_eq!(r.addresses[0].ip.a, 198);

    // a response without answers yields no address
    let empty = encode(&decode(&encode(&q)).unwrap());
    let mut as_resp = empty.clone();
    as_resp[2] = 0x81;
    as_resp[3] = 0x80;
    let me = decode(&as_resp).unwrap();
    assert_eq!(
        extract_resolved(b"host.example".to_vec(), &me, 443).unwrap_err(),
        DapError::FailedToResolveIpsForHttpClient
    );
}

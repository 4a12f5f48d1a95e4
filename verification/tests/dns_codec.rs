use doh_auth_proxy::cache::{fingerprint_of, fp_eq};
use doh_auth_proxy::dns::{
    build_query_a, decode, encode, is_query, is_response, min_ttl, answer_a_records,
};
use doh_auth_proxy::errors::DapError;

fn push16(v: &mut Vec<u8>, x: u16) {
    v.push((x >> 8) as u8);
    v.push((x & 0xFF) as u8);
}

fn push32(v: &mut Vec<u8>, x: u32) {
    v.push((x >> 24) as u8);
    v.push(((x >> 16) & 0xFF) as u8);
    v.push(((x >> 8) & 0xFF) as u8);
    v.push((x & 0xFF) as u8);
}

fn push_name(v: &mut Vec<u8>, name: &str) {
    for label in name.split('.') {
        if label.is_empty() {
            continue;
        }
        v.push(label.len() as u8);
        v.extend_from_slice(label.as_bytes());
    }
    v.push(0);
}

fn wire_query(id: u16, name: &str) -> Vec<u8> {
    let mut v = Vec::new();
    push16(&mut v, id);
    push16(&mut v, 0x0100);
    push16(&mut v, 1);
    push16(&mut v, 0);
    push16(&mut v, 0);
    push16(&mut v, 0);
    push_name(&mut v, name);
    push16(&mut v, 1);
    push16(&mut v, 1);
    v
}

fn wire_response(id: u16, name: &str, ttl: u32, ip: [u8; 4]) -> Vec<u8> {
    let mut v = Vec::new();
    push16(&mut v, id);
    push16(&mut v, 0x8180);
    push16(&mut v, 1);
    push16(&mut v, 1);
    push16(&mut v, 0);
    push16(&mut v, 0);
    push_name(&mut v, name);
    push16(&mut v, 1);
    push16(&mut v, 1);
    // answer: name as compression pointer to the question
    v.push(0xC0);
    v.push(0x0C);
    push16(&mut v, 1);
    push16(&mut v, 1);
    push32(&mut v, ttl);
    push16(&mut v, 4);
    v.extend_from_slice(&ip);
    v
}

#[test]
fn query_decodes() {
    let q = wire_query(0x1234, "example.com.");
    let m = is_query(&q).unwrap();
    assert_eq!(m.id(), 0x1234);
    assert_eq!(m.qtype, 1);
    assert_eq!(m.qclass, 1);
    assert_eq!(m.records.len(), 0);
}

#[test]
fn response_is_not_a_query() {
    let r = wire_response(7, "example.com.", 60, [1, 2, 3, 4]);
    assert_eq!(is_query(&r).unwrap_err(), DapError::InvalidDnsQuery);
    assert!(is_response(&r).is_ok());
}

#[test]
fn query_is_not_a_response() {
    let q = wire_query(9, "example.com.");
    assert_eq!(is_response(&q).unwrap_err(), DapError::InvalidDnsResponse);
}

#[test]
fn truncated_message_is_refused() {
    let q = wire_query(1, "example.com.");
    let cut = &q[..q.len() - 3];
    assert_eq!(is_query(cut).unwrap_err(), DapError::InvalidDnsQuery);
}

#[test]
fn two_questions_are_refused() {
    let mut q = wire_query(1, "example.com.");
    q[4] = 0;
    q[5] = 2;
    assert_eq!(is_query(&q).unwrap_err(), DapError::InvalidDnsQuery);
}

#[test]
fn encode_decode_roundtrip() {
    let r = wire_response(0xBEEF, "host.example.", 300, [10, 0, 0, 1]);
    let m = decode(&r).unwrap();
    let again = encode(&m);
    assert_eq!(again, r);
}

#[test]
fn min_ttl_over_sections() {
    let r = wire_response(1, "a.example.", 42, [9, 9, 9, 9]);
    let m = decode(&r).unwrap();
    assert_eq!(min_ttl(&m), Some(42));
    let q = wire_query(1, "a.example.");
    let mq = decode(&q).unwrap();
    assert_eq!(min_ttl(&mq), None);
}

#[test]
fn fingerprint_ignores_case_and_id() {
    let a = wire_query(0x1111, "ExAmPlE.CoM.");
    let b = wire_query(0x2222, "example.com.");
    let fa = fingerprint_of(&is_query(&a).unwrap());
    let fb = fingerprint_of(&is_query(&b).unwrap());
    assert!(fp_eq(&fa, &fb));
}

#[test]
fn fingerprint_differs_for_other_names() {
    let a = wire_query(1, "example.com.");
    let b = wire_query(1, "example.org.");
    let fa = fingerprint_of(&is_query(&a).unwrap());
    let fb = fingerprint_of(&is_query(&b).unwrap());
    assert!(!fp_eq(&fa, &fb));
}

#[test]
fn build_query_a_matches_manual_wire() {
    let fqdn = b"example.com.".to_vec();
    let m = build_query_a(&fqdn, 0x4242).unwrap();
    let bytes = encode(&m);
    let manual = wire_query(0x4242, "example.com.");
    assert_eq!(bytes, manual);
}

#[test]
fn build_query_a_refuses_empty_label() {
    let fqdn = b"example..com.".to_vec();
    assert_eq!(build_query_a(&fqdn, 1).unwrap_err(), DapError::InvalidDnsQuery);
}

#[test]
fn a_records_are_extracted() {
    let r = wire_response(5, "x.example.", 60, [192, 0, 2, 33]);
    let m = decode(&r).unwrap();
    let addrs = answer_a_records(&m);
    assert_eq!(addrs.len(), 1);
    assert_eq!(addrs[0].a, 192);
    assert_eq!(addrs[0].b, 0);
    assert_eq!(addrs[0].c, 2);
    assert_eq!(addrs[0].d, 33);
}

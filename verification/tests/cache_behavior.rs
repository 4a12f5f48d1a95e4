use doh_auth_proxy::cache::{build_response, fingerprint_of, Cache};
use doh_auth_proxy::dns::{decode, is_query};

fn push16(v: &mut Vec<u8>, x: u16) {
    v.push((x >> 8) as u8);
    v.push((x & 0xFF) as u8);
}

fn push32(v: &mut Vec<u8>, x: u32) {
    v.push((x >> 24) as u8);
    v.push(((x >> 16) & 0xFF) as u8);
    v.push(((x >> 8) & 0xFF) as u8);
    v.push((x & 0xFF) as u8);
}

fn push_name(v: &mut Vec<u8>, name: &str) {
    for label in name.split('.') {
        if label.is_empty() {
            continue;
        }
        v.push(label.len() as u8);
        v.extend_from_slice(label.as_bytes());
    }
    v.push(0);
}

fn wire_query(id: u16, name: &str) -> Vec<u8> {
    let mut v = Vec::new();
    push16(&mut v, id);
    push16(&mut v, 0x0100);
    push16(&mut v, 1);
    push16(&mut v, 0);
    push16(&mut v, 0);
    push16(&mut v, 0);
    push_name(&mut v, name);
    push16(&mut v, 1);
    push16(&mut v, 1);
    v
}

fn wire_response(id: u16, name: &str, ttl: u32, ip: [u8; 4]) -> Vec<u8> {
    let mut v = Vec::new();
    push16(&mut v, id);
    push16(&mut v, 0x8180);
    push16(&mut v, 1);
    push16(&mut v, 1);
    push16(&mut v, 0);
    push16(&mut v, 0);
    push_name(&mut v, name);
    push16(&mut v, 1);
    push16(&mut v, 1);
    v.push(0xC0);
    v.push(0x0C);
    push16(&mut v, 1);
    push16(&mut v, 1);
    push32(&mut v, ttl);
    push16(&mut v, 4);
    v.extend_from_slice(&ip);
    v
}

fn fp_for(name: &str) -> doh_auth_proxy::cache::Fingerprint {
    let q = wire_query(1, name);
    fingerprint_of(&is_query(&q).unwrap())
}

#[test]
fn hit_restamps_and_decays() {
    let mut cache = Cache::new(8);
    let resp = wire_response(0x1111, "example.com.", 60, [1, 2, 3, 4]);
    let msg = decode(&resp).unwrap();
    let fp = fp_for("example.com.");
    cache.put(fp_for("example.com."), msg, 1000, 10).unwrap();
    let entry = cache.get(&fp, 1010).expect("fresh entry");
    let out = build_response(&entry, 0x5678, 1010).unwrap();
    let m = decode(&out).unwrap();
    assert_eq!(m.id, 0x5678);
    assert_eq!(m.records[0].ttl, 50);
}

#[test]
fn expired_entry_is_removed() {
    let mut cache = Cache::new(8);
    let resp = wire_response(1, "example.com.", 60, [1, 2, 3, 4]);
    let msg = decode(&resp).unwrap();
    let fp = fp_for("example.com.");
    cache.put(fp_for("example.com."), msg, 1000, 10).unwrap();
    // expiry is 1000 + max(10, 60) = 1060
    assert!(cache.get(&fp, 1059).is_some());
    assert!(cache.get(&fp, 1060).is_none());
    assert_eq!(cache.len(), 0);
}

#[test]
fn ttl_floor_applies() {
    let mut cache = Cache::new(8);
    let resp = wire_response(1, "short.example.", 2, [1, 2, 3, 4]);
    let msg = decode(&resp).unwrap();
    let fp = fp_for("short.example.");
    cache.put(fp_for("short.example."), msg, 1000, 30).unwrap();
    // floor 30 beats the 2-second record TTL
    assert!(cache.get(&fp, 1029).is_some());
    assert!(cache.get(&fp, 1030).is_none());
}

#[test]
fn response_without_records_is_not_cached() {
    let mut cache = Cache::new(8);
    let q = wire_query(1, "nxdomain.example.");
    let mut as_resp = q.clone();
    as_resp[2] = 0x81;
    as_resp[3] = 0x80;
    let msg = decode(&as_resp).unwrap();
    assert!(cache.put(fp_for("nxdomain.example."), msg, 1000, 10).is_err());
    assert_eq!(cache.len(), 0);
}

#[test]
fn oldest_entry_is_evicted_on_overflow() {
    let mut cache = Cache::new(2);
    for (i, name) in ["a.example.", "b.example.", "c.example."].iter().enumerate() {
        let resp = wire_response(1, name, 60, [1, 2, 3, 4]);
        let msg = decode(&resp).unwrap();
        cache.put(fp_for(name), msg, 1000 + i as u64, 10).unwrap();
    }
    assert_eq!(cache.len(), 2);
    assert!(cache.get(&fp_for("a.example."), 1010).is_none());
    assert!(cache.get(&fp_for("b.example."), 1010).is_some());
    assert!(cache.get(&fp_for("c.example."), 1010).is_some());
}

#[test]
fn one_entry_per_fingerprint() {
    let mut cache = Cache::new(8);
    for ttl in [60u32, 90, 120] {
        let resp = wire_response(1, "same.example.", ttl, [1, 2, 3, 4]);
        let msg = decode(&resp).unwrap();
        cache.put(fp_for("same.example."), msg, 1000, 10).unwrap();
    }
    assert_eq!(cache.len(), 1);
    let entry = cache.get(&fp_for("same.example."), 1000).unwrap();
    assert_eq!(entry.msg.records[0].ttl, 120);
}

#[test]
fn stale_ttl_entry_reports_failure() {
    let mut cache = Cache::new(8);
    let resp = wire_response(1, "floor.example.", 5, [1, 2, 3, 4]);
    let msg = decode(&resp).unwrap();
    let fp = fp_for("floor.example.");
    // floor 100 keeps the entry alive past its record TTL
    cache.put(fp_for("floor.example."), msg, 1000, 100).unwrap();
    let entry = cache.get(&fp, 1050).unwrap();
    // a TTL would go negative: the entry counts as expired
    assert!(build_response(&entry, 2, 1050).is_err());
}

#[test]
fn lookup_refreshes_recency() {
    let mut cache = Cache::new(2);
    for name in ["a.example.", "b.example."] {
        let resp = wire_response(1, name, 60, [1, 2, 3, 4]);
        let msg = decode(&resp).unwrap();
        cache.put(fp_for(name), msg, 1000, 10).unwrap();
    }
    // touching a.example makes b.example the least recently used
    assert!(cache.get(&fp_for("a.example."), 1001).is_some());
    let resp = wire_response(1, "c.example.", 60, [1, 2, 3, 4]);
    cache.put(fp_for("c.example."), decode(&resp).unwrap(), 1002, 10).unwrap();
    assert!(cache.get(&fp_for("a.example."), 1003).is_some());
    assert!(cache.get(&fp_for("b.example."), 1003).is_none());
    assert!(cache.get(&fp_for("c.example."), 1003).is_some());
}

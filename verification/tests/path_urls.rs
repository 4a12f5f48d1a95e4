use doh_auth_proxy::path::{
    DoHPath, DoHPathManager, DoHRelay, DoHTarget, DoHType, IsHealthy, Scheme,
};

fn target(authority: &str, path: &str) -> DoHTarget {
    DoHTarget {
        authority: authority.as_bytes().to_vec(),
        path: path.as_bytes().to_vec(),
        scheme: Scheme::Https,
    }
}

fn relay(authority: &str, path: &str, next_hop: bool) -> DoHRelay {
    DoHRelay {
        authority: authority.as_bytes().to_vec(),
        path: path.as_bytes().to_vec(),
        scheme: Scheme::Https,
        can_be_next_hop: next_hop,
    }
}

#[test]
fn build_url_works() {
    let target = target("dns.google", "/dns-query");
    let relay1 = relay("relay1.dns.google", "/proxy", true);
    let relay2 = relay("relay2.dns.google", "/proxy", false);
    let relay3 = relay("relay3.dns.google", "/proxy", false);
    let path = DoHPath {
        target,
        relays: vec![relay1, relay2, relay3],
        is_healthy: IsHealthy::new(),
        doh_type: DoHType::Oblivious,
    };
    let url = path.as_url().unwrap();
    let text = String::from_utf8(url).unwrap();
    let decoded = urlencoding::decode(&text).unwrap();

    assert_eq!(decoded, "https://relay1.dns.google/proxy?targethost=dns.google&targetpath=/dns-query&relayhost[1]=relay2.dns.google&relaypath[1]=/proxy&relayhost[2]=relay3.dns.google&relaypath[2]=/proxy");
}

#[test]
fn standard_url() {
    let path = DoHPath {
        target: target("dns.example", "/dns-query"),
        relays: vec![],
        is_healthy: IsHealthy::new(),
        doh_type: DoHType::Standard,
    };
    let url = path.as_url().unwrap();
    assert_eq!(String::from_utf8(url).unwrap(), "https://dns.example/dns-query");
}

#[test]
fn odoh_single_relay_url() {
    let path = DoHPath {
        target: target("dns.example", "/dns-query"),
        relays: vec![relay("r1.example", "/proxy", true)],
        is_healthy: IsHealthy::new(),
        doh_type: DoHType::Oblivious,
    };
    let url = path.as_url().unwrap();
    assert_eq!(
        String::from_utf8(url).unwrap(),
        "https://r1.example/proxy?targethost=dns.example&targetpath=%2Fdns-query"
    );
}

#[test]
fn modoh_chain_url() {
    let path = DoHPath {
        target: target("dns.example", "/dns-query"),
        relays: vec![
            relay("r1.example", "/proxy", true),
            relay("r2.example", "/proxy", false),
            relay("r3.example", "/proxy", false),
        ],
        is_healthy: IsHealthy::new(),
        doh_type: DoHType::Oblivious,
    };
    let url = path.as_url().unwrap();
    let text = String::from_utf8(url).unwrap();
    let decoded = urlencoding::decode(&text).unwrap();
    assert_eq!(decoded, "https://r1.example/proxy?targethost=dns.example&targetpath=/dns-query&relayhost[1]=r2.example&relaypath[1]=/proxy&relayhost[2]=r3.example&relaypath[2]=/proxy");
}

#[test]
fn url_is_stable() {
    let make = || DoHPath {
        target: target("dns.example", "/dns-query"),
        relays: vec![
            relay("r1.example", "/proxy", true),
            relay("r2.example", "/proxy", false),
        ],
        is_healthy: IsHealthy::new(),
        doh_type: DoHType::Oblivious,
    };
    assert_eq!(make().as_url().unwrap(), make().as_url().unwrap());
}

#[test]
fn standard_path_with_relay_is_refused() {
    let path = DoHPath {
        target: target("dns.example", "/dns-query"),
        relays: vec![relay("r1.example", "/proxy", true)],
        is_healthy: IsHealthy::new(),
        doh_type: DoHType::Standard,
    };
    assert!(path.as_url().is_err());
}

#[test]
fn oblivious_path_needs_next_hop() {
    let path = DoHPath {
        target: target("dns.example", "/dns-query"),
        relays: vec![relay("mid.example", "/proxy", false)],
        is_healthy: IsHealthy::new(),
        doh_type: DoHType::Oblivious,
    };
    assert!(path.as_url().is_err());
}

#[test]
fn scheme_text() {
    assert_eq!(Scheme::Http.as_str(), "http");
    assert_eq!(Scheme::Https.as_str(), "https");
    assert!(Scheme::try_from(&b"http".to_vec()).is_ok());
    assert!(Scheme::try_from(&b"https".to_vec()).is_ok());
    assert!(Scheme::try_from(&b"ftp".to_vec()).is_err());
}

#[test]
fn loop_paths_are_discarded() {
    // the single next hop shares its authority with the target
    let targets = vec![target("shared.example", "/dns-query")];
    let nexthops = vec![relay("shared.example", "/proxy", true)];
    let m = DoHPathManager::new_oblivious(&targets, true, &nexthops, true, &vec![], 0);
    assert!(m.get_path().is_none());
}

#[test]
fn mid_relay_repeating_an_authority_is_filtered() {
    let targets = vec![target("dns.example", "/dns-query")];
    let nexthops = vec![relay("r1.example", "/proxy", true)];
    // the only intermediate relay repeats the next hop's authority
    let mids = vec![relay("r1.example", "/proxy2", false)];
    let m = DoHPathManager::new_oblivious(&targets, false, &nexthops, false, &mids, 1);
    let sel = m.get_path().unwrap();
    // only the bare next-hop chain survives the loop filter
    let p = m.path_at(sel.0, sel.1, sel.2);
    assert_eq!(p.relays.len(), 1);
}

#[test]
fn selection_prefers_healthy_paths() {
    let targets = vec![target("dns.example", "/dns-query")];
    let mut m = DoHPathManager::new_standard(targets, false);
    let sel = m.get_path().unwrap();
    m.mark_unhealthy(sel.0, sel.1, sel.2);
    // the only path is degraded but still selectable
    let again = m.get_path().unwrap();
    assert!(!m.path_at(again.0, again.1, again.2).is_healthy.get());
}

#[test]
fn selection_frequencies_converge() {
    let targets = vec![
        target("a.example", "/q"),
        target("b.example", "/q"),
        target("c.example", "/q"),
        target("d.example", "/q"),
    ];
    let m = DoHPathManager::new_standard(targets, true);
    let mut counts = [0usize; 4];
    let draws = 40000;
    for _ in 0..draws {
        let sel = m.get_path().unwrap();
        counts[sel.0] += 1;
    }
    let expected = draws / 4;
    let tolerance = expected / 20;
    for c in counts {
        assert!(c + tolerance >= expected && c <= expected + tolerance);
    }
}

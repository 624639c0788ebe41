use egress_proxy::mapping::{parse_forward_mapping, ProxyType};

#[test]
fn three_fields_mean_no_proxy() {
    let m = parse_forward_mapping("127.0.0.1:9000,example.com:443,example.com").unwrap();
    assert_eq!(m.local_addr, b"127.0.0.1:9000".to_vec());
    assert_eq!(m.remote_addr, b"example.com:443".to_vec());
    assert_eq!(m.sni_host, b"example.com".to_vec());
    assert!(m.proxy_addrs.is_empty());
    assert!(matches!(m.proxy_type, ProxyType::Direct));
}

#[test]
fn too_few_fields_fail() {
    assert!(parse_forward_mapping("bad").is_none());
    assert!(parse_forward_mapping("127.0.0.1:9000,example.com:443").is_none());
}

#[test]
fn too_many_fields_fail() {
    assert!(parse_forward_mapping("a:1,b,c,d:1,http,extra").is_none());
}

#[test]
fn four_fields_default_to_http_proxy() {
    let m = parse_forward_mapping(
        "127.0.0.1:9000,example.com:443,example.com,1.2.3.4:8080|5.6.7.8:1080",
    )
    .unwrap();
    assert!(matches!(m.proxy_type, ProxyType::Http));
    assert_eq!(m.proxy_addrs, vec![b"1.2.3.4:8080".to_vec(), b"5.6.7.8:1080".to_vec()]);
}

#[test]
fn fifth_field_names_the_kind_case_insensitively() {
    let m = parse_forward_mapping("127.0.0.1:9000,r:443,sni,1.2.3.4:8080,SOCKS5").unwrap();
    assert!(matches!(m.proxy_type, ProxyType::Socks5));
    let m2 = parse_forward_mapping("127.0.0.1:9000,r:443,sni,1.2.3.4:8080,Http").unwrap();
    assert!(matches!(m2.proxy_type, ProxyType::Http));
}

#[test]
fn unknown_kind_fails() {
    assert!(parse_forward_mapping("127.0.0.1:9000,r:443,sni,1.2.3.4:8080,ftp").is_none());
}

#[test]
fn proxy_entries_without_delimiter_are_dropped_individually() {
    let m =
        parse_forward_mapping("127.0.0.1:9000,r:443,sni,1.2.3.4:8080|nodelim|5.6.7.8:1080").unwrap();
    assert_eq!(m.proxy_addrs, vec![b"1.2.3.4:8080".to_vec(), b"5.6.7.8:1080".to_vec()]);
}

#[test]
fn empty_surviving_proxy_list_fails_the_mapping() {
    assert!(parse_forward_mapping("127.0.0.1:9000,r:443,sni,nodelim").is_none());
    assert!(parse_forward_mapping("127.0.0.1:9000,r:443,sni,").is_none());
}

#[test]
fn malformed_local_address_fails() {
    assert!(parse_forward_mapping("no-port,r:443,sni").is_none());
    assert!(parse_forward_mapping("a:b:c,r:443,sni").is_none());
    assert!(parse_forward_mapping(":9000,r:443,sni").is_none());
    assert!(parse_forward_mapping("1.2.3.4:99999,r:443,sni").is_none());
    assert!(parse_forward_mapping("1.2.3.4:12x,r:443,sni").is_none());
}

#[test]
fn local_address_must_be_a_real_address() {
    assert!(parse_forward_mapping("a:1,b,c").is_none());
    assert!(parse_forward_mapping("example.com:443,r:443,sni").is_none());
    assert!(parse_forward_mapping("256.1.1.1:80,r:443,sni").is_none());
    assert!(parse_forward_mapping("01.2.3.4:80,r:443,sni").is_none());
    assert!(parse_forward_mapping("1.2.3:80,r:443,sni").is_none());
    assert!(parse_forward_mapping("[zzz]:9000,r:443,sni").is_none());
}

#[test]
fn bracketed_v6_local_address_is_accepted() {
    let m = parse_forward_mapping("[::1]:9000,r:443,sni").unwrap();
    assert_eq!(m.local_addr, b"[::1]:9000".to_vec());
}

#[test]
fn pick_proxy_returns_a_configured_entry() {
    let m = parse_forward_mapping("127.0.0.1:9000,r:443,sni,1.2.3.4:8080|5.6.7.8:1080").unwrap();
    for _ in 0..16 {
        let p = m.pick_proxy().unwrap();
        assert!(m.proxy_addrs.contains(p));
    }
}

#[test]
fn pick_proxy_without_list_is_none() {
    let m = parse_forward_mapping("127.0.0.1:9000,r:443,sni").unwrap();
    assert!(m.pick_proxy().is_none());
}

#[test]
fn port_boundary_is_enforced() {
    assert!(parse_forward_mapping("1.2.3.4:65535,r:443,sni").is_some());
    assert!(parse_forward_mapping("1.2.3.4:65536,r:443,sni").is_none());
}

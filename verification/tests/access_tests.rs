use egress_proxy::access::{
    is_allowed_ip, parse_allowed_ips, parse_subnets, AccessPolicy, IpAddress, SubnetV4, SubnetV6,
};

fn v4(a: u8, b: u8, c: u8, d: u8) -> u32 {
    u32::from_be_bytes([a, b, c, d])
}

#[test]
fn subnet_v4_contains_inside_and_outside() {
    let s = SubnetV4 { base: v4(192, 168, 1, 0), prefix_len: 24 };
    assert!(s.contains(v4(192, 168, 1, 7)));
    assert!(s.contains(v4(192, 168, 1, 255)));
    assert!(!s.contains(v4(192, 168, 2, 1)));
    assert!(!s.contains(v4(10, 0, 0, 1)));
}

#[test]
fn subnet_v4_prefix_zero_contains_everything() {
    let s = SubnetV4 { base: 0, prefix_len: 0 };
    assert!(s.contains(v4(1, 2, 3, 4)));
    assert!(s.contains(u32::MAX));
}

#[test]
fn subnet_v6_contains_inside_and_outside() {
    let base: u128 = 0x2001_0db8_0000_0000_0000_0000_0000_0000;
    let s = SubnetV6 { base, prefix_len: 32 };
    assert!(s.contains(base | 0x1234));
    assert!(!s.contains(0x2001_0db9_0000_0000_0000_0000_0000_0000));
}

#[test]
fn allow_inside_subnet_and_reject_outside() {
    let policy = AccessPolicy {
        ipv6_subnets: vec![SubnetV6 {
            base: 0x2001_0db8_0000_0000_0000_0000_0000_0000,
            prefix_len: 32,
        }],
        ipv4_subnets: vec![SubnetV4 { base: v4(10, 0, 0, 0), prefix_len: 8 }],
        allowed_ips: None,
    };
    assert!(policy.allow(&IpAddress::V4(v4(10, 1, 2, 3))));
    assert!(!policy.allow(&IpAddress::V4(v4(11, 1, 2, 3))));
    assert!(policy.allow(&IpAddress::V6(0x2001_0db8_0000_0000_0000_0000_0000_0001)));
    assert!(!policy.allow(&IpAddress::V6(0x2002_0db8_0000_0000_0000_0000_0000_0001)));
}

#[test]
fn allow_list_admits_address_outside_subnets() {
    let odd = IpAddress::V4(v4(203, 0, 113, 9));
    let policy = AccessPolicy {
        ipv6_subnets: vec![],
        ipv4_subnets: vec![SubnetV4 { base: v4(10, 0, 0, 0), prefix_len: 8 }],
        allowed_ips: Some(vec![odd]),
    };
    assert!(policy.allow(&odd));
    assert!(!policy.allow(&IpAddress::V4(v4(203, 0, 113, 10))));
}

#[test]
fn family_without_subnets_is_refused() {
    let policy = AccessPolicy {
        ipv6_subnets: vec![],
        ipv4_subnets: vec![SubnetV4 { base: 0, prefix_len: 0 }],
        allowed_ips: None,
    };
    assert!(policy.allow(&IpAddress::V4(v4(8, 8, 8, 8))));
    assert!(!policy.allow(&IpAddress::V6(1)));
}

#[test]
fn free_function_matches_policy_method() {
    let v6s = vec![];
    let v4s = vec![SubnetV4 { base: v4(172, 16, 0, 0), prefix_len: 12 }];
    let allowed = Some(vec![IpAddress::V6(42)]);
    assert!(is_allowed_ip(&IpAddress::V4(v4(172, 20, 0, 1)), &v6s, &v4s, &allowed));
    assert!(is_allowed_ip(&IpAddress::V6(42), &v6s, &v4s, &allowed));
    assert!(!is_allowed_ip(&IpAddress::V6(43), &v6s, &v4s, &allowed));
}

#[test]
fn parse_subnets_reads_v4_cidr() {
    let (v4s, v6s) = parse_subnets("192.168.0.0/24");
    assert_eq!(v4s.len(), 1);
    assert_eq!(v4s[0].base, v4(192, 168, 0, 0));
    assert_eq!(v4s[0].prefix_len, 24);
    assert_eq!(v6s.len(), 0);
}

#[test]
fn parse_subnets_reads_v6_cidr_list() {
    let (v4s, v6s) = parse_subnets("2001:db8::/32,2001:db9::/64");
    assert_eq!(v4s.len(), 0);
    assert_eq!(v6s.len(), 2);
    assert_eq!(v6s[0].base, 0x2001_0db8_0000_0000_0000_0000_0000_0000);
    assert_eq!(v6s[0].prefix_len, 32);
    assert_eq!(v6s[1].prefix_len, 64);
}

#[test]
fn parse_subnets_drops_entries_of_the_other_family() {
    let (v4s, v6s) = parse_subnets("10.0.0.0/8,2001:db8::/32,junk");
    assert_eq!(v4s.len(), 1);
    assert_eq!(v6s.len(), 1);
}

#[test]
fn parse_allowed_ips_reads_both_families() {
    let ips = parse_allowed_ips("1.2.3.4,2001:db8::1");
    assert_eq!(ips.len(), 2);
    assert_eq!(ips[0], IpAddress::V4(v4(1, 2, 3, 4)));
    assert_eq!(ips[1], IpAddress::V6(0x2001_0db8_0000_0000_0000_0000_0000_0001));
}

#[test]
fn parse_allowed_ips_drops_subnets_and_junk() {
    let ips = parse_allowed_ips("1.2.3.0/24,nonsense,5.6.7.8");
    assert_eq!(ips, vec![IpAddress::V4(v4(5, 6, 7, 8))]);
}

#[test]
fn parse_allowed_ips_keeps_only_bare_address_text() {
    let ips = parse_allowed_ips("1.2.3.4/32,10.42,2001:db8::1/128,9.8.7.6,2001:db8::1");
    assert_eq!(
        ips,
        vec![
            IpAddress::V4(v4(9, 8, 7, 6)),
            IpAddress::V6(0x2001_0db8_0000_0000_0000_0000_0000_0001),
        ]
    );
}

use egress_proxy::allocator::{combine_address, get_rand_ipv6, get_rand_ipv6_socket_addr};
use egress_proxy::pool::AddressPool;

const BASE: u128 = 0x2001_0db8_1234_5678_0000_0000_0000_0000;

#[test]
fn combine_keeps_network_bits_and_takes_host_bits() {
    let rand_bits: u128 = 0xffff_ffff_ffff_ffff_aaaa_bbbb_cccc_dddd;
    let r = combine_address(BASE, 64, rand_bits);
    assert_eq!(r >> 64, BASE >> 64);
    assert_eq!(r & 0xffff_ffff_ffff_ffff, 0xaaaa_bbbb_cccc_dddd);
}

#[test]
fn combine_with_full_prefix_returns_base() {
    assert_eq!(combine_address(BASE, 128, u128::MAX), BASE);
}

#[test]
fn combine_with_zero_prefix_returns_random_bits() {
    assert_eq!(combine_address(BASE, 0, 77), 77);
}

#[test]
fn random_addresses_share_network_bits_for_all_short_prefixes() {
    for prefix in [1u8, 8, 32, 64, 96, 127] {
        let r = get_rand_ipv6(BASE, prefix);
        let sh = 128 - prefix as u32;
        assert_eq!(r >> sh, BASE >> sh, "prefix {}", prefix);
    }
}

#[test]
fn random_address_with_prefix_128_is_exactly_base() {
    for _ in 0..8 {
        assert_eq!(get_rand_ipv6(BASE, 128), BASE);
    }
}

#[test]
fn random_socket_addr_shares_network_bits() {
    let (addr, _port) = get_rand_ipv6_socket_addr(BASE, 48);
    assert_eq!(addr >> 80, BASE >> 80);
}

#[test]
fn pool_keeps_at_most_capacity_after_each_insertion() {
    let mut pool = AddressPool::new(3);
    for a in 1u128..=20 {
        pool.insert_address(a);
        assert!(pool.len() <= 3);
    }
    assert_eq!(pool.contents(), vec![18, 19, 20]);
}

#[test]
fn pool_evicts_oldest_first_in_insertion_order() {
    let mut pool = AddressPool::new(2);
    assert_eq!(pool.insert_address(10), Vec::<u128>::new());
    assert_eq!(pool.insert_address(11), Vec::<u128>::new());
    assert_eq!(pool.insert_address(12), vec![10]);
    assert_eq!(pool.insert_address(13), vec![11]);
    assert_eq!(pool.contents(), vec![12, 13]);
}

#[test]
fn pool_eviction_pass_can_run_after_skipped_passes() {
    let mut pool = AddressPool::new(2);
    pool.push_address(1);
    pool.push_address(2);
    pool.push_address(3);
    pool.push_address(4);
    assert_eq!(pool.len(), 4);
    let evicted = pool.evict_excess();
    assert_eq!(evicted, vec![1, 2]);
    assert_eq!(pool.contents(), vec![3, 4]);
}

#[test]
fn pool_capacity_is_kept() {
    let pool = AddressPool::new(1000);
    assert_eq!(pool.capacity(), 1000);
    assert_eq!(pool.len(), 0);
}

#[test]
fn pool_with_zero_capacity_evicts_everything() {
    let mut pool = AddressPool::new(0);
    assert_eq!(pool.insert_address(7), vec![7]);
    assert_eq!(pool.len(), 0);
}

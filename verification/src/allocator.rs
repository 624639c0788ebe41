//! Outbound address allocation: every flow gets a fresh address whose network
//! bits equal the configured base and whose host bits are random (the
//! per-flow-random policy; no per-hostname cache is kept).  A prefix length of
//! 128 leaves no host bits, so the base address itself is returned.
use vstd::prelude::*;

verus! {

/// Whether `a` and `b` agree on the leading `prefix_len` bits.
pub open spec fn same_network(a: u128, b: u128, prefix_len: u8) -> bool {
    prefix_len == 0 || (prefix_len <= 128 && (a >> ((128 - prefix_len) as u128)) == (b >> ((128
        - prefix_len) as u128)))
}

/// Whether `a` and `b` agree on the trailing `128 - prefix_len` host bits.
pub open spec fn same_host(a: u128, b: u128, prefix_len: u8) -> bool {
    prefix_len == 128 || (prefix_len <= 128 && (a << (prefix_len as u128)) == (b << (
    prefix_len as u128)))
}

/// Relies on rand::random::<u128>: a fresh random value; nothing is assumed
/// of which value comes back.  The call aborts only if the operating
/// system's randomness source is unavailable when its generator first
/// initialises.
#[verifier::external_body]
fn random_u128() -> u128 {
    rand::random::<u128>()
}

/// Relies on rand::random::<u16>: a fresh random port value; nothing is
/// assumed of which value comes back.  The call aborts only if the
/// operating system's randomness source is unavailable when its generator
/// first initialises.
#[verifier::external_body]
fn random_u16() -> u16 {
    rand::random::<u16>()
}

/// Overlays random host bits onto the base network: the leading `prefix_len`
/// bits come from `base`, the rest from `rand_bits`.  With no host bits left
/// (`prefix_len == 128`) the base is returned unchanged.
pub fn combine_address(base: u128, prefix_len: u8, rand_bits: u128) -> (r: u128)
    requires
        prefix_len <= 128,
    ensures
        same_network(base, r, prefix_len),
        same_host(rand_bits, r, prefix_len),
        prefix_len == 128 ==> r == base,
        prefix_len == 0 ==> r == rand_bits,
{
    if prefix_len == 128 {
        base
    } else if prefix_len == 0 {
        rand_bits
    } else {
        let p: u128 = prefix_len as u128;
        let sh: u128 = (128 - prefix_len) as u128;
        let net: u128 = (base >> sh) << sh;
        let host: u128 = (rand_bits << p) >> p;
        let r: u128 = net | host;
        proof {
            assert((((base >> sh) << sh) | ((rand_bits << p) >> p)) >> sh == base >> sh)
                by (bit_vector)
                requires
                    1 <= p && p <= 127 && sh == 128 - p,
            ;
            assert((((base >> sh) << sh) | ((rand_bits << p) >> p)) << p == rand_bits << p)
                by (bit_vector)
                requires
                    1 <= p && p <= 127 && sh == 128 - p,
            ;
        }
        r
    }
}

/// Draws a random outbound address inside the configured network.
pub fn get_rand_ipv6(ipv6: u128, prefix_len: u8) -> (r: u128)
    requires
        prefix_len <= 128,
    ensures
        same_network(ipv6, r, prefix_len),
        prefix_len == 128 ==> r == ipv6,
{
    let rand_bits: u128 = random_u128();
    combine_address(ipv6, prefix_len, rand_bits)
}

/// Draws a random outbound address inside the configured network together
/// with a random port.
pub fn get_rand_ipv6_socket_addr(ipv6: u128, prefix_len: u8) -> (r: (u128, u16))
    requires
        prefix_len <= 128,
    ensures
        same_network(ipv6, r.0, prefix_len),
        prefix_len == 128 ==> r.0 == ipv6,
{
    let addr: u128 = get_rand_ipv6(ipv6, prefix_len);
    let port: u16 = random_u16();
    (addr, port)
}

} // verus!

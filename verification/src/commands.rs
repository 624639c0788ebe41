//! The words exchanged with the outside collaborators of the tunnel relay:
//! the shell-level network-configurator commands that add, remove and probe
//! a provisioned address, and the CONNECT handshake sent to an upstream HTTP
//! proxy, with the check on its reply.  Building them here keeps every byte
//! of those commands pinned by a contract; performing them is the caller's
//! business.
use vstd::prelude::*;

use crate::http_head::crlfcrlf;
use crate::text::bytes_contain;
use crate::text::bytes_of;
use crate::text::contains_sub;
use crate::text::decimal;
use crate::text::format_decimal;
use crate::text::push_all;
use crate::text::str_to_bytes;

verus! {

/// `ip addr add <addr>/<prefix> dev <interface>`.
pub open spec fn spec_add_address_command(
    addr: Seq<u8>,
    prefix_len: u8,
    interface: Seq<u8>,
) -> Seq<u8> {
    bytes_of("ip addr add "@) + addr + seq![47u8] + decimal(prefix_len as nat) + bytes_of(" dev "@)
        + interface
}

/// Builds the command that provisions an address on the interface.
pub fn add_address_command(addr: &[u8], prefix_len: u8, interface: &[u8]) -> (r: Vec<u8>)
    ensures
        r@ == spec_add_address_command(addr@, prefix_len, interface@),
{
    proof {
        reveal_strlit("ip addr add ");
        reveal_strlit(" dev ");
    }
    let mut out: Vec<u8> = str_to_bytes("ip addr add ");
    push_all(&mut out, addr);
    out.push(47);
    let digits: Vec<u8> = format_decimal(prefix_len as u64);
    push_all(&mut out, digits.as_slice());
    let dev: Vec<u8> = str_to_bytes(" dev ");
    push_all(&mut out, dev.as_slice());
    push_all(&mut out, interface);
    proof {
        assert(out@ =~= spec_add_address_command(addr@, prefix_len, interface@));
    }
    out
}

/// `ip addr del <addr>/<prefix> dev <interface>`.
pub open spec fn spec_del_address_command(
    addr: Seq<u8>,
    prefix_len: u8,
    interface: Seq<u8>,
) -> Seq<u8> {
    bytes_of("ip addr del "@) + addr + seq![47u8] + decimal(prefix_len as nat) + bytes_of(" dev "@)
        + interface
}

/// Builds the command that removes an evicted address from the interface.
pub fn del_address_command(addr: &[u8], prefix_len: u8, interface: &[u8]) -> (r: Vec<u8>)
    ensures
        r@ == spec_del_address_command(addr@, prefix_len, interface@),
{
    proof {
        reveal_strlit("ip addr del ");
        reveal_strlit(" dev ");
    }
    let mut out: Vec<u8> = str_to_bytes("ip addr del ");
    push_all(&mut out, addr);
    out.push(47);
    let digits: Vec<u8> = format_decimal(prefix_len as u64);
    push_all(&mut out, digits.as_slice());
    let dev: Vec<u8> = str_to_bytes(" dev ");
    push_all(&mut out, dev.as_slice());
    push_all(&mut out, interface);
    proof {
        assert(out@ =~= spec_del_address_command(addr@, prefix_len, interface@));
    }
    out
}

/// `traceroute -m 10 -s <addr> <gateway>`: the bounded-hop route-priming
/// probe fired from a freshly provisioned source address.
pub open spec fn spec_probe_route_command(addr: Seq<u8>, gateway: Seq<u8>) -> Seq<u8> {
    bytes_of("traceroute -m 10 -s "@) + addr + seq![32u8] + gateway
}

/// Builds the route-priming probe command.
pub fn probe_route_command(addr: &[u8], gateway: &[u8]) -> (r: Vec<u8>)
    ensures
        r@ == spec_probe_route_command(addr@, gateway@),
{
    proof {
        reveal_strlit("traceroute -m 10 -s ");
    }
    let mut out: Vec<u8> = str_to_bytes("traceroute -m 10 -s ");
    push_all(&mut out, addr);
    out.push(32);
    push_all(&mut out, gateway);
    proof {
        assert(out@ =~= spec_probe_route_command(addr@, gateway@));
    }
    out
}

/// The CONNECT handshake sent to an upstream HTTP proxy:
/// `CONNECT <target> HTTP/1.1` with a Host header and the blank line.
pub open spec fn spec_connect_request(target: Seq<u8>) -> Seq<u8> {
    bytes_of("CONNECT "@) + target + bytes_of(" HTTP/1.1\r\nHost: "@) + target + bytes_of(
        "\r\n\r\n"@,
    )
}

/// Builds the CONNECT handshake for an upstream HTTP proxy.
pub fn build_connect_request(target: &[u8]) -> (r: Vec<u8>)
    ensures
        r@ == spec_connect_request(target@),
{
    proof {
        reveal_strlit("CONNECT ");
        reveal_strlit(" HTTP/1.1\r\nHost: ");
        reveal_strlit("\r\n\r\n");
    }
    let mut out: Vec<u8> = str_to_bytes("CONNECT ");
    push_all(&mut out, target);
    let mid: Vec<u8> = str_to_bytes(" HTTP/1.1\r\nHost: ");
    push_all(&mut out, mid.as_slice());
    push_all(&mut out, target);
    let end: Vec<u8> = str_to_bytes("\r\n\r\n");
    push_all(&mut out, end.as_slice());
    proof {
        assert(out@ =~= spec_connect_request(target@));
    }
    out
}

/// Whether the proxy's reply to the CONNECT handshake reports success: the
/// reply bytes contain `200`.
pub fn proxy_reply_established(reply: &[u8]) -> (r: bool)
    ensures
        r == contains_sub(reply@, bytes_of("200"@)),
{
    proof {
        reveal_strlit("200");
    }
    let tok: Vec<u8> = str_to_bytes("200");
    bytes_contain(reply, tok.as_slice())
}

/// Whether the buffered bytes already hold a complete request head, i.e. the
/// blank-line terminator has arrived.
pub fn has_header_terminator(buf: &[u8]) -> (r: bool)
    ensures
        r == contains_sub(buf@, crlfcrlf()),
{
    let term: [u8; 4] = [13, 10, 13, 10];
    proof {
        assert(term@ =~= crlfcrlf());
    }
    bytes_contain(buf, term.as_slice())
}

} // verus!

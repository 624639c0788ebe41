//! Inbound access control: an immutable policy of IPv4/IPv6 subnets plus an
//! explicit allow-list, consulted once per accepted connection.  An address is
//! admitted exactly when it is named in the allow-list or its network bits
//! match one of the subnets of its own family; everything else — including an
//! address of a family with no configured subnets — is refused.
use vstd::prelude::*;

use crate::text::bytes_contain;
use crate::text::contains_sub;
use crate::text::is_valid_v4_host;
use crate::text::split_bytes_on;
use crate::text::split_on;
use crate::text::valid_v4_host;
use vstd::string::StringSliceAdditionalSpecFns;

verus! {

/// An IP address as plain bits: 32 for IPv4, 128 for IPv6.
#[derive(Clone, Copy, PartialEq, Eq, Structural, Debug)]
pub enum IpAddress {
    V4(u32),
    V6(u128),
}

/// An IPv4 subnet: a base address and the number of leading network bits.
#[derive(Clone, Copy, Debug)]
pub struct SubnetV4 {
    pub base: u32,
    pub prefix_len: u8,
}

/// An IPv6 subnet: a base address and the number of leading network bits.
#[derive(Clone, Copy, Debug)]
pub struct SubnetV6 {
    pub base: u128,
    pub prefix_len: u8,
}

impl SubnetV4 {
    pub open spec fn wf(self) -> bool {
        self.prefix_len <= 32
    }

    /// Whether `ip` and the base agree on the leading `prefix_len` bits.
    pub open spec fn spec_contains(self, ip: u32) -> bool {
        self.prefix_len == 0 || (ip >> ((32 - self.prefix_len) as u32)) == (self.base >> ((32
            - self.prefix_len) as u32))
    }

    pub fn contains(&self, ip: u32) -> (r: bool)
        requires
            self.wf(),
        ensures
            r == self.spec_contains(ip),
    {
        if self.prefix_len == 0 {
            true
        } else {
            let sh: u32 = (32 - self.prefix_len) as u32;
            (ip >> sh) == (self.base >> sh)
        }
    }
}

impl SubnetV6 {
    pub open spec fn wf(self) -> bool {
        self.prefix_len <= 128
    }

    /// Whether `ip` and the base agree on the leading `prefix_len` bits.
    pub open spec fn spec_contains(self, ip: u128) -> bool {
        self.prefix_len == 0 || (ip >> ((128 - self.prefix_len) as u128)) == (self.base >> ((128
            - self.prefix_len) as u128))
    }

    pub fn contains(&self, ip: u128) -> (r: bool)
        requires
            self.wf(),
        ensures
            r == self.spec_contains(ip),
    {
        if self.prefix_len == 0 {
            true
        } else {
            let sh: u128 = (128 - self.prefix_len) as u128;
            (ip >> sh) == (self.base >> sh)
        }
    }
}

/// Whether `ip` lies in one of the subnets of its own address family.
pub open spec fn in_family_subnets(
    ip: IpAddress,
    v6: Seq<SubnetV6>,
    v4: Seq<SubnetV4>,
) -> bool {
    match ip {
        IpAddress::V4(a) => exists|k: int| 0 <= k < v4.len() && (#[trigger] v4[k]).spec_contains(a),
        IpAddress::V6(a) => exists|k: int| 0 <= k < v6.len() && (#[trigger] v6[k]).spec_contains(a),
    }
}

/// Whether the optional allow-list names `ip`.
pub open spec fn in_allowed_list(ip: IpAddress, allowed: Option<Seq<IpAddress>>) -> bool {
    match allowed {
        Option::Some(l) => l.contains(ip),
        Option::None => false,
    }
}

/// The admission rule: the allow-list first, then the subnets of the
/// address's own family.
pub open spec fn spec_is_allowed(
    ip: IpAddress,
    v6: Seq<SubnetV6>,
    v4: Seq<SubnetV4>,
    allowed: Option<Seq<IpAddress>>,
) -> bool {
    in_allowed_list(ip, allowed) || in_family_subnets(ip, v6, v4)
}

/// Decides whether a connection from `ip` is admitted: true exactly for
/// addresses in the allow-list or inside a configured subnet of their family.
pub fn is_allowed_ip(
    ip: &IpAddress,
    ipv6_subnets: &Vec<SubnetV6>,
    ipv4_subnets: &Vec<SubnetV4>,
    allowed_ips: &Option<Vec<IpAddress>>,
) -> (r: bool)
    requires
        forall|k: int| 0 <= k < ipv6_subnets@.len() ==> (#[trigger] ipv6_subnets@[k]).wf(),
        forall|k: int| 0 <= k < ipv4_subnets@.len() ==> (#[trigger] ipv4_subnets@[k]).wf(),
    ensures
        r == spec_is_allowed(
            *ip,
            ipv6_subnets@,
            ipv4_subnets@,
            match allowed_ips {
                Option::Some(l) => Option::Some(l@),
                Option::None => Option::None,
            },
        ),
{
    if let Option::Some(list) = allowed_ips {
        let mut i: usize = 0;
        while i < list.len()
            invariant
                i <= list@.len(),
                *allowed_ips == Option::Some(*list),
                forall|k: int| 0 <= k < i ==> list@[k] != *ip,
            decreases list@.len() - i,
        {
            if list[i] == *ip {
                proof {
                    assert(list@[i as int] == *ip);
                    assert(list@.contains(*ip));
                    assert(in_allowed_list(*ip, Option::Some(list@)));
                }
                return true;
            }
            i = i + 1;
        }
    }
    match *ip {
        IpAddress::V4(a) => {
            let mut i: usize = 0;
            while i < ipv4_subnets.len()
                invariant
                    i <= ipv4_subnets@.len(),
                    *ip == IpAddress::V4(a),
                    forall|k: int|
                        0 <= k < ipv4_subnets@.len() ==> (#[trigger] ipv4_subnets@[k]).wf(),
                    forall|k: int| 0 <= k < i ==> !(#[trigger] ipv4_subnets@[k]).spec_contains(a),
                decreases ipv4_subnets@.len() - i,
            {
                if ipv4_subnets[i].contains(a) {
                    proof {
                        assert(exists|k: int|
                            0 <= k < ipv4_subnets@.len() && (
                            #[trigger] ipv4_subnets@[k]).spec_contains(a)) by {
                            assert((ipv4_subnets@[i as int]).spec_contains(a));
                        }
                        assert(*ip == IpAddress::V4(a));
                        assert(in_family_subnets(*ip, ipv6_subnets@, ipv4_subnets@));
                    }
                    return true;
                }
                i = i + 1;
            }
            false
        },
        IpAddress::V6(a) => {
            let mut i: usize = 0;
            while i < ipv6_subnets.len()
                invariant
                    i <= ipv6_subnets@.len(),
                    *ip == IpAddress::V6(a),
                    forall|k: int|
                        0 <= k < ipv6_subnets@.len() ==> (#[trigger] ipv6_subnets@[k]).wf(),
                    forall|k: int| 0 <= k < i ==> !(#[trigger] ipv6_subnets@[k]).spec_contains(a),
                decreases ipv6_subnets@.len() - i,
            {
                if ipv6_subnets[i].contains(a) {
                    proof {
                        assert(exists|k: int|
                            0 <= k < ipv6_subnets@.len() && (
                            #[trigger] ipv6_subnets@[k]).spec_contains(a)) by {
                            assert((ipv6_subnets@[i as int]).spec_contains(a));
                        }
                        assert(*ip == IpAddress::V6(a));
                        assert(in_family_subnets(*ip, ipv6_subnets@, ipv4_subnets@));
                    }
                    return true;
                }
                i = i + 1;
            }
            false
        },
    }
}

/// The whole inbound policy, immutable after startup.
#[derive(Clone, Debug)]
pub struct AccessPolicy {
    pub ipv6_subnets: Vec<SubnetV6>,
    pub ipv4_subnets: Vec<SubnetV4>,
    pub allowed_ips: Option<Vec<IpAddress>>,
}

impl AccessPolicy {
    pub open spec fn wf(self) -> bool {
        (forall|k: int| 0 <= k < self.ipv6_subnets@.len() ==> (#[trigger] self.ipv6_subnets@[k]).wf())
            && (forall|k: int|
            0 <= k < self.ipv4_subnets@.len() ==> (#[trigger] self.ipv4_subnets@[k]).wf())
    }

    pub open spec fn spec_allowed_view(self) -> Option<Seq<IpAddress>> {
        match self.allowed_ips {
            Option::Some(l) => Option::Some(l@),
            Option::None => Option::None,
        }
    }

    /// Whether the policy admits `ip`.
    pub open spec fn spec_allow(self, ip: IpAddress) -> bool {
        spec_is_allowed(ip, self.ipv6_subnets@, self.ipv4_subnets@, self.spec_allowed_view())
    }

    /// Admits or refuses a source address; pure, with no failure mode.
    pub fn allow(&self, ip: &IpAddress) -> (r: bool)
        requires
            self.wf(),
        ensures
            r == self.spec_allow(*ip),
    {
        is_allowed_ip(ip, &self.ipv6_subnets, &self.ipv4_subnets, &self.allowed_ips)
    }
}

/// What `cidr::Ipv4Cidr::from_str` yields on the UTF-8 reading of the given
/// bytes: the network base address and prefix length, if they parse.
pub uninterp spec fn v4_cidr_of(b: Seq<u8>) -> Option<(u32, u8)>;

/// What `cidr::Ipv6Cidr::from_str` yields on the UTF-8 reading of the given
/// bytes: the network base address and prefix length, if they parse.
pub uninterp spec fn v6_cidr_of(b: Seq<u8>) -> Option<(u128, u8)>;

/// What `cidr::IpCidr::from_str` yields on the UTF-8 reading of the given
/// bytes: the family (true for IPv4), base address bits and prefix length.
pub uninterp spec fn ip_cidr_of(b: Seq<u8>) -> Option<(bool, u128, u8)>;

/// Relies on cidr::Ipv4Cidr::from_str (via core::str::from_utf8): parsing an
/// IPv4 CIDR; its network length never exceeds 32.  Non-UTF-8 input fails.
#[verifier::external_body]
fn parse_v4_cidr_bytes(b: &[u8]) -> (r: Option<(u32, u8)>)
    ensures
        r == v4_cidr_of(b@),
        r matches Option::Some(t) ==> t.1 <= 32,
{
    match core::str::from_utf8(b) {
        Ok(s) => match s.parse::<cidr::Ipv4Cidr>() {
            Ok(c) => Some((u32::from(c.first_address()), c.network_length())),
            Err(_) => None,
        },
        Err(_) => None,
    }
}

/// Relies on cidr::Ipv6Cidr::from_str (via core::str::from_utf8): parsing an
/// IPv6 CIDR; its network length never exceeds 128.  Non-UTF-8 input fails.
#[verifier::external_body]
pub(crate) fn parse_v6_cidr_bytes(b: &[u8]) -> (r: Option<(u128, u8)>)
    ensures
        r == v6_cidr_of(b@),
        r matches Option::Some(t) ==> t.1 <= 128,
{
    match core::str::from_utf8(b) {
        Ok(s) => match s.parse::<cidr::Ipv6Cidr>() {
            Ok(c) => Some((u128::from(c.first_address()), c.network_length())),
            Err(_) => None,
        },
        Err(_) => None,
    }
}

/// Relies on cidr::IpCidr::from_str (via core::str::from_utf8): parsing either
/// family; an IPv4 result fits in 32 bits with length at most 32, an IPv6
/// result has length at most 128.  A bare address parses with full length.
#[verifier::external_body]
fn parse_ip_cidr_bytes(b: &[u8]) -> (r: Option<(bool, u128, u8)>)
    ensures
        r == ip_cidr_of(b@),
        r matches Option::Some(t) ==> (t.0 ==> t.2 <= 32 && t.1 <= 0xffff_ffffu128),
        r matches Option::Some(t) ==> (!t.0 ==> t.2 <= 128),
{
    match core::str::from_utf8(b) {
        Ok(s) => match s.parse::<cidr::IpCidr>() {
            Ok(cidr::IpCidr::V4(c)) => Some(
                (true, u32::from(c.first_address()) as u128, c.network_length()),
            ),
            Ok(cidr::IpCidr::V6(c)) => Some((false, u128::from(c.first_address()), c.network_length())),
            Err(_) => None,
        },
        Err(_) => None,
    }
}

/// The IPv4 subnets among the comma-separated parts, in order.
pub open spec fn spec_parse_subnets_v4(parts: Seq<Seq<u8>>) -> Seq<SubnetV4>
    decreases parts.len(),
{
    if parts.len() == 0 {
        Seq::empty()
    } else {
        let rest = spec_parse_subnets_v4(parts.drop_first());
        match v4_cidr_of(parts.first()) {
            Option::Some(t) => seq![SubnetV4 { base: t.0, prefix_len: t.1 }] + rest,
            Option::None => rest,
        }
    }
}

/// The IPv6 subnets among the comma-separated parts, in order.
pub open spec fn spec_parse_subnets_v6(parts: Seq<Seq<u8>>) -> Seq<SubnetV6>
    decreases parts.len(),
{
    if parts.len() == 0 {
        Seq::empty()
    } else {
        let rest = spec_parse_subnets_v6(parts.drop_first());
        match v6_cidr_of(parts.first()) {
            Option::Some(t) => seq![SubnetV6 { base: t.0, prefix_len: t.1 }] + rest,
            Option::None => rest,
        }
    }
}

/// Parses a comma-separated subnet list; an entry that does not parse in a
/// family is dropped from that family's result, so the caller keeps the
/// component matching the list's intended family.
pub fn parse_subnets(s: &str) -> (r: (Vec<SubnetV4>, Vec<SubnetV6>))
    ensures
        r.0@ == spec_parse_subnets_v4(split_on(s.spec_bytes(), 44)),
        r.1@ == spec_parse_subnets_v6(split_on(s.spec_bytes(), 44)),
        forall|k: int| 0 <= k < r.0@.len() ==> (#[trigger] r.0@[k]).wf(),
        forall|k: int| 0 <= k < r.1@.len() ==> (#[trigger] r.1@[k]).wf(),
{
    let parts: Vec<Vec<u8>> = split_bytes_on(s.as_bytes(), 44);
    let ghost pview = Seq::new(parts@.len(), |k: int| parts@[k]@);
    let mut v4: Vec<SubnetV4> = Vec::new();
    let mut v6: Vec<SubnetV6> = Vec::new();
    let mut i: usize = 0;
    proof {
        assert(pview =~= split_on(s.spec_bytes(), 44));
        assert(pview.skip(0) =~= pview);
        assert(v4@ + spec_parse_subnets_v4(pview) =~= spec_parse_subnets_v4(pview));
        assert(v6@ + spec_parse_subnets_v6(pview) =~= spec_parse_subnets_v6(pview));
    }
    while i < parts.len()
        invariant
            i <= parts@.len(),
            pview.len() == parts@.len(),
            forall|k: int| 0 <= k < parts@.len() ==> parts@[k]@ == pview[k],
            spec_parse_subnets_v4(pview) =~= v4@ + spec_parse_subnets_v4(pview.skip(i as int)),
            spec_parse_subnets_v6(pview) =~= v6@ + spec_parse_subnets_v6(pview.skip(i as int)),
            forall|k: int| 0 <= k < v4@.len() ==> (#[trigger] v4@[k]).wf(),
            forall|k: int| 0 <= k < v6@.len() ==> (#[trigger] v6@[k]).wf(),
        decreases parts@.len() - i,
    {
        let ghost suffix = pview.skip(i as int);
        proof {
            assert(suffix.first() == pview[i as int]);
            assert(suffix.drop_first() =~= pview.skip(i as int + 1));
        }
        match parse_v4_cidr_bytes(parts[i].as_slice()) {
            Option::Some(t) => {
                v4.push(SubnetV4 { base: t.0, prefix_len: t.1 });
            },
            Option::None => {},
        }
        match parse_v6_cidr_bytes(parts[i].as_slice()) {
            Option::Some(t) => {
                v6.push(SubnetV6 { base: t.0, prefix_len: t.1 });
            },
            Option::None => {},
        }
        i = i + 1;
    }
    proof {
        assert(pview.skip(i as int) =~= Seq::empty());
        assert(v4@ =~= spec_parse_subnets_v4(pview));
        assert(v6@ =~= spec_parse_subnets_v6(pview));
    }
    (v4, v6)
}

/// The explicit addresses among the comma-separated parts: entries written
/// as a bare address of one family — a dotted-quad IPv4 host, or IPv6 text
/// without CIDR notation — that the address parser reads at full length.
/// Anything else, a proper subnet or a shortened form included, is dropped.
pub open spec fn spec_parse_allowed(parts: Seq<Seq<u8>>) -> Seq<IpAddress>
    decreases parts.len(),
{
    if parts.len() == 0 {
        Seq::empty()
    } else {
        let rest = spec_parse_allowed(parts.drop_first());
        match ip_cidr_of(parts.first()) {
            Option::Some(t) => if t.0 && t.2 == 32 && valid_v4_host(parts.first()) {
                seq![IpAddress::V4(t.1 as u32)] + rest
            } else if !t.0 && t.2 == 128 && !contains_sub(parts.first(), seq![47u8]) {
                seq![IpAddress::V6(t.1)] + rest
            } else {
                rest
            },
            Option::None => rest,
        }
    }
}

/// Parses the comma-separated explicit allow-list; entries that are not
/// plain address text of one family (a proper subnet, a shortened IPv4
/// form) are dropped.
pub fn parse_allowed_ips(s: &str) -> (r: Vec<IpAddress>)
    ensures
        r@ == spec_parse_allowed(split_on(s.spec_bytes(), 44)),
{
    let parts: Vec<Vec<u8>> = split_bytes_on(s.as_bytes(), 44);
    let ghost pview = Seq::new(parts@.len(), |k: int| parts@[k]@);
    let mut out: Vec<IpAddress> = Vec::new();
    let mut i: usize = 0;
    proof {
        assert(pview =~= split_on(s.spec_bytes(), 44));
        assert(pview.skip(0) =~= pview);
        assert(out@ + spec_parse_allowed(pview) =~= spec_parse_allowed(pview));
    }
    while i < parts.len()
        invariant
            i <= parts@.len(),
            pview.len() == parts@.len(),
            forall|k: int| 0 <= k < parts@.len() ==> parts@[k]@ == pview[k],
            spec_parse_allowed(pview) =~= out@ + spec_parse_allowed(pview.skip(i as int)),
        decreases parts@.len() - i,
    {
        let ghost suffix = pview.skip(i as int);
        proof {
            assert(suffix.first() == pview[i as int]);
            assert(suffix.drop_first() =~= pview.skip(i as int + 1));
        }
        let slash: [u8; 1] = [47];
        proof {
            assert(slash@ =~= seq![47u8]);
        }
        match parse_ip_cidr_bytes(parts[i].as_slice()) {
            Option::Some((is_v4, bits, len)) => {
                if is_v4 && len == 32 && is_valid_v4_host(parts[i].as_slice()) {
                    out.push(IpAddress::V4(bits as u32));
                } else if !is_v4 && len == 128 && !bytes_contain(
                    parts[i].as_slice(),
                    slash.as_slice(),
                ) {
                    out.push(IpAddress::V6(bits));
                }
            },
            Option::None => {},
        }
        i = i + 1;
    }
    proof {
        assert(pview.skip(i as int) =~= Seq::empty());
        assert(out@ =~= spec_parse_allowed(pview));
    }
    out
}

} // verus!

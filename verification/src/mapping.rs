//! The declarative forward mapping: one relay instance per mapping, parsed
//! once at startup from a comma-separated configuration string
//! `localAddr,remoteAddr,sniHost[,proxy1|proxy2[,kind]]` and never mutated.
//! Three fields mean no upstream proxy; four mean a proxy list whose kind
//! defaults to HTTP; five name the kind (`http` or `socks5`, any case).
//! Proxy entries without a `:` are dropped one by one; if none survive, the
//! whole mapping is rejected.
use vstd::prelude::*;

use crate::text::bytes_equal;
use crate::text::bytes_of;
use crate::text::contains_sub;
use crate::text::find_in_bytes;
use crate::text::find_sub;
use crate::text::lower_bytes;
use crate::text::lowercase_bytes;
use crate::text::bytes_contain;
use crate::text::split_bytes_on;
use crate::text::split_on;
use crate::text::lemma_find_sub_bounds;
use crate::text::is_valid_port;
use crate::text::is_valid_v4_host;
use crate::text::valid_port;
use crate::text::valid_v4_host;
use crate::access::parse_v6_cidr_bytes;
use crate::access::v6_cidr_of;
use vstd::string::StringSliceAdditionalSpecFns;

verus! {

/// How the native engine reaches the origin: directly or through one of the
/// mapping's upstream proxies.
#[derive(Clone, Copy, PartialEq, Eq, Structural, Debug)]
pub enum ProxyType {
    Direct,
    Http,
    Socks5,
}

/// One forward mapping, immutable after parsing.
#[derive(Clone, Debug)]
pub struct ForwardMapping {
    pub local_addr: Vec<u8>,
    pub remote_addr: Vec<u8>,
    pub sni_host: Vec<u8>,
    pub proxy_addrs: Vec<Vec<u8>>,
    pub proxy_type: ProxyType,
}

/// The mathematical shape of a parsed mapping.
pub ghost struct MappingModel {
    pub local_addr: Seq<u8>,
    pub remote_addr: Seq<u8>,
    pub sni_host: Seq<u8>,
    pub proxy_addrs: Seq<Seq<u8>>,
    pub proxy_type: ProxyType,
}

impl View for ForwardMapping {
    type V = MappingModel;

    open spec fn view(&self) -> MappingModel {
        MappingModel {
            local_addr: self.local_addr@,
            remote_addr: self.remote_addr@,
            sni_host: self.sni_host@,
            proxy_addrs: Seq::new(self.proxy_addrs@.len(), |i: int| self.proxy_addrs@[i]@),
            proxy_type: self.proxy_type,
        }
    }
}

/// Whether `s` is socket-address text: a dotted-quad IPv4 host, or a
/// bracketed IPv6 address as the address parser reads it, followed by a
/// valid port.
pub open spec fn is_socket_addr_text(s: Seq<u8>) -> bool {
    if s.len() > 0 && s[0] == 91 {
        match find_sub(s, seq![93u8]) {
            Option::Some(j) => 1 <= j && j + 1 < s.len() && s[j + 1] == 58 && (v6_cidr_of(
                s.subrange(1, j),
            ) matches Option::Some(t) && t.1 == 128) && valid_port(s.skip(j + 2)),
            Option::None => false,
        }
    } else {
        match find_sub(s, seq![58u8]) {
            Option::Some(i) => i >= 1 && !contains_sub(s.skip(i + 1), seq![58u8]) && valid_v4_host(
                s.take(i),
            ) && valid_port(s.skip(i + 1)),
            Option::None => false,
        }
    }
}

/// Checks a socket-address field.
pub fn is_socket_addr_like(v: &[u8]) -> (r: bool)
    ensures
        r == is_socket_addr_text(v@),
{
    let n: usize = v.len();
    if n > 0 && v[0] == 91 {
        let close: [u8; 1] = [93];
        proof {
            assert(close@ =~= seq![93u8]);
        }
        match find_in_bytes(v, close.as_slice()) {
            Option::Some(j) => {
                proof {
                    lemma_find_sub_bounds(v@, seq![93u8], 0);
                }
                if j >= 1 && j + 1 < n && v[j + 1] == 58 {
                    let inner: &[u8] = vstd::slice::slice_subrange(v, 1, j);
                    proof {
                        assert(inner@ =~= v@.subrange(1, j as int));
                    }
                    match parse_v6_cidr_bytes(inner) {
                        Option::Some(t) => {
                            if t.1 == 128 {
                                let port: &[u8] = vstd::slice::slice_subrange(v, j + 2, n);
                                proof {
                                    assert(port@ =~= v@.skip(j + 2));
                                }
                                is_valid_port(port)
                            } else {
                                false
                            }
                        },
                        Option::None => false,
                    }
                } else {
                    false
                }
            },
            Option::None => false,
        }
    } else {
        let colon: [u8; 1] = [58];
        proof {
            assert(colon@ =~= seq![58u8]);
        }
        match find_in_bytes(v, colon.as_slice()) {
            Option::Some(i) => {
                proof {
                    lemma_find_sub_bounds(v@, seq![58u8], 0);
                }
                if i >= 1 {
                    let rest: &[u8] = vstd::slice::slice_subrange(v, i + 1, n);
                    let host: &[u8] = vstd::slice::slice_subrange(v, 0, i);
                    proof {
                        assert(rest@ =~= v@.skip(i + 1));
                        assert(host@ =~= v@.take(i as int));
                    }
                    if bytes_contain(rest, colon.as_slice()) {
                        false
                    } else if !is_valid_v4_host(host) {
                        false
                    } else {
                        is_valid_port(rest)
                    }
                } else {
                    false
                }
            },
            Option::None => false,
        }
    }
}

/// The proxy entries that carry a `:` delimiter, in order; the rest are
/// dropped one by one.
pub open spec fn kept_proxies(parts: Seq<Seq<u8>>) -> Seq<Seq<u8>>
    decreases parts.len(),
{
    if parts.len() == 0 {
        Seq::empty()
    } else {
        let rest = kept_proxies(parts.drop_first());
        if contains_sub(parts.first(), seq![58u8]) {
            seq![parts.first()] + rest
        } else {
            rest
        }
    }
}

/// The proxy kind a five-field mapping names, if the token is recognised.
pub open spec fn spec_kind_token(t: Seq<u8>) -> Option<ProxyType> {
    if lower_bytes(t) == bytes_of("http"@) {
        Option::Some(ProxyType::Http)
    } else if lower_bytes(t) == bytes_of("socks5"@) {
        Option::Some(ProxyType::Socks5)
    } else {
        Option::None
    }
}

/// What parsing a mapping string yields: the three address fields, the
/// surviving proxy list and the proxy kind, or nothing when the field count
/// is off, the listen address is malformed, a proxy list has no usable entry,
/// or a named kind is not recognised.
pub open spec fn spec_parse_mapping(b: Seq<u8>) -> Option<MappingModel> {
    let parts = split_on(b, 44);
    if parts.len() < 3 || parts.len() > 5 {
        Option::None
    } else if !is_socket_addr_text(parts[0]) {
        Option::None
    } else {
        let proxies = if parts.len() >= 4 {
            kept_proxies(split_on(parts[3], 124))
        } else {
            Seq::empty()
        };
        if parts.len() >= 4 && proxies.len() == 0 {
            Option::None
        } else if parts.len() == 5 && spec_kind_token(parts[4]) is None {
            Option::None
        } else {
            Option::Some(
                MappingModel {
                    local_addr: parts[0],
                    remote_addr: parts[1],
                    sni_host: parts[2],
                    proxy_addrs: proxies,
                    proxy_type: if parts.len() == 5 {
                        spec_kind_token(parts[4]).unwrap()
                    } else if proxies.len() > 0 {
                        ProxyType::Http
                    } else {
                        ProxyType::Direct
                    },
                },
            )
        }
    }
}

/// Parses one forward-mapping configuration string.
pub fn parse_forward_mapping(s: &str) -> (r: Option<ForwardMapping>)
    ensures
        match r {
            Option::Some(m) => spec_parse_mapping(s.spec_bytes()) == Option::Some(m@),
            Option::None => spec_parse_mapping(s.spec_bytes()) is None,
        },
{
    let mut parts: Vec<Vec<u8>> = split_bytes_on(s.as_bytes(), 44);
    let ghost pview = split_on(s.spec_bytes(), 44);
    proof {
        assert(pview.len() == parts@.len());
        assert(forall|k: int| 0 <= k < parts@.len() ==> parts@[k]@ == pview[k]);
    }
    let nparts: usize = parts.len();
    if nparts < 3 || nparts > 5 {
        return Option::None;
    }
    if !is_socket_addr_like(parts[0].as_slice()) {
        return Option::None;
    }
    let mut proxies: Vec<Vec<u8>> = Vec::new();
    let ghost spec_proxies: Seq<Seq<u8>> = if pview.len() >= 4 {
        kept_proxies(split_on(pview[3], 124))
    } else {
        Seq::empty()
    };
    if nparts >= 4 {
        let entries: Vec<Vec<u8>> = split_bytes_on(parts[3].as_slice(), 124);
        let ghost eview = split_on(pview[3], 124);
        proof {
            assert(eview.len() == entries@.len());
            assert(forall|k: int| 0 <= k < entries@.len() ==> entries@[k]@ == eview[k]);
            assert(eview.skip(0) =~= eview);
            assert(proxies@ =~= Seq::<Vec<u8>>::empty());
            assert(Seq::new(proxies@.len(), |q: int| proxies@[q]@) + kept_proxies(eview)
                =~= kept_proxies(eview));
        }
        let colon: [u8; 1] = [58];
        proof {
            assert(colon@ =~= seq![58u8]);
        }
        let mut i: usize = 0;
        while i < entries.len()
            invariant
                i <= entries@.len(),
                eview.len() == entries@.len(),
                forall|k: int| 0 <= k < entries@.len() ==> entries@[k]@ == eview[k],
                colon@ =~= seq![58u8],
                kept_proxies(eview) =~= Seq::new(proxies@.len(), |q: int| proxies@[q]@)
                    + kept_proxies(eview.skip(i as int)),
            decreases entries@.len() - i,
        {
            let ghost suffix = eview.skip(i as int);
            proof {
                assert(suffix.first() == eview[i as int]);
                assert(suffix.drop_first() =~= eview.skip(i as int + 1));
            }
            let ghost before = Seq::new(proxies@.len(), |q: int| proxies@[q]@);
            if bytes_contain(entries[i].as_slice(), colon.as_slice()) {
                let e: Vec<u8> = vstd::slice::slice_to_vec(entries[i].as_slice());
                proxies.push(e);
                proof {
                    assert(Seq::new(proxies@.len(), |q: int| proxies@[q]@) =~= before + seq![
                        eview[i as int],
                    ]);
                }
            }
            i = i + 1;
        }
        proof {
            assert(eview.skip(i as int) =~= Seq::empty());
            assert(Seq::new(proxies@.len(), |q: int| proxies@[q]@) =~= kept_proxies(eview));
        }
        if proxies.len() == 0 {
            return Option::None;
        }
    }
    let kind: ProxyType = if nparts == 5 {
        let lower: Vec<u8> = lowercase_bytes(parts[4].as_slice());
        proof {
            reveal_strlit("http");
            reveal_strlit("socks5");
        }
        let http_tok: Vec<u8> = crate::text::str_to_bytes("http");
        let socks_tok: Vec<u8> = crate::text::str_to_bytes("socks5");
        if bytes_equal(lower.as_slice(), http_tok.as_slice()) {
            ProxyType::Http
        } else if bytes_equal(lower.as_slice(), socks_tok.as_slice()) {
            ProxyType::Socks5
        } else {
            return Option::None;
        }
    } else if proxies.len() > 0 {
        ProxyType::Http
    } else {
        ProxyType::Direct
    };
    let local_addr: Vec<u8> = parts.remove(0);
    let remote_addr: Vec<u8> = parts.remove(0);
    let sni_host: Vec<u8> = parts.remove(0);
    let m = ForwardMapping { local_addr, remote_addr, sni_host, proxy_addrs: proxies, proxy_type: kind };
    proof {
        assert(m@.proxy_addrs =~= spec_proxies);
        assert(spec_parse_mapping(s.spec_bytes()) == Option::Some(m@));
    }
    Option::Some(m)
}

/// Relies on rand::thread_rng and rand::Rng::gen_range: a uniformly random
/// index below `n`; the range is never empty, so the call panics only if
/// the operating system's randomness source is unavailable when the
/// generator first initialises.
#[verifier::external_body]
fn random_below(n: usize) -> (r: usize)
    requires
        n >= 1,
    ensures
        r < n,
{
    let mut rng = rand::thread_rng();
    rand::Rng::gen_range(&mut rng, 0..n)
}

impl ForwardMapping {
    /// Chooses one upstream proxy uniformly at random, if any is configured.
    pub fn pick_proxy(&self) -> (r: Option<&Vec<u8>>)
        ensures
            r is None <==> self.proxy_addrs@.len() == 0,
            r matches Option::Some(p) ==> exists|i: int|
                0 <= i < self.proxy_addrs@.len() && p@ == (#[trigger] self.proxy_addrs@[i])@,
    {
        if self.proxy_addrs.len() == 0 {
            Option::None
        } else {
            let i: usize = random_below(self.proxy_addrs.len());
            proof {
                assert(self.proxy_addrs@[i as int]@ == (self.proxy_addrs@[i as int])@);
            }
            Option::Some(&self.proxy_addrs[i])
        }
    }
}

} // verus!

//! The outgoing header policy of the forward relay: every parsed request
//! header is forwarded except those whose (lower-cased) name starts with one
//! of the hop-by-hop / forwarding-marker prefixes, and a Referer value has
//! its `https://host` origin replaced by a fixed placeholder host while the
//! path and query are preserved.
use vstd::prelude::*;

use crate::http_head::HeaderModel;
use crate::http_head::header_views;
use crate::http_head::HeaderField;
use crate::text::bytes_of;
use crate::text::bytes_start_with;
use crate::text::eq_at;
use crate::text::find_in_bytes_from;
use crate::text::find_sub_from;
use crate::text::match_at;
use crate::text::push_all;
use crate::text::starts_with;
use crate::text::str_to_bytes;

verus! {

/// Whether a header of this (lower-cased) name is withheld from the native
/// engine.
pub open spec fn header_denied(name: Seq<u8>) -> bool {
    starts_with(name, bytes_of("x-forwarded"@)) || starts_with(name, bytes_of("connection"@))
        || starts_with(name, bytes_of("x-gt"@))
}

/// Checks the deny-list of header-name prefixes.
pub fn is_header_denied(name: &[u8]) -> (r: bool)
    ensures
        r == header_denied(name@),
{
    proof {
        reveal_strlit("x-forwarded");
        reveal_strlit("connection");
        reveal_strlit("x-gt");
    }
    let p1: Vec<u8> = str_to_bytes("x-forwarded");
    let p2: Vec<u8> = str_to_bytes("connection");
    let p3: Vec<u8> = str_to_bytes("x-gt");
    bytes_start_with(name, p1.as_slice()) || bytes_start_with(name, p2.as_slice())
        || bytes_start_with(name, p3.as_slice())
}

/// Whether an `https://host` origin (with a nonempty host) starts at `i`.
pub open spec fn origin_match_at(v: Seq<u8>, i: int) -> bool {
    match_at(v, bytes_of("https://"@), i) && i + 8 < v.len() && v[i + 8] != 47
}

/// The least index at or after `i` where an origin starts, if any.
pub open spec fn find_origin_from(v: Seq<u8>, i: int) -> Option<int>
    decreases v.len() - i + 1,
{
    if i < 0 || i + 9 > v.len() {
        Option::None
    } else if origin_match_at(v, i) {
        Option::Some(i)
    } else {
        find_origin_from(v, i + 1)
    }
}

/// The Referer value with its first `https://host` origin replaced by the
/// fixed placeholder origin; a value without one is returned unchanged.
pub open spec fn spec_rewrite_referer(v: Seq<u8>) -> Seq<u8> {
    match find_origin_from(v, 0) {
        Option::None => v,
        Option::Some(i) => {
            let j = match find_sub_from(v, seq![47u8], i + 8) {
                Option::Some(j) => j,
                Option::None => v.len() as int,
            };
            if 0 <= i && i + 8 <= j <= v.len() {
                v.take(i) + bytes_of("https://test.com"@) + v.skip(j)
            } else {
                v
            }
        },
    }
}

/// Finds the least origin occurrence at or after `from`.
fn find_origin(v: &[u8], from: usize) -> (r: Option<usize>)
    ensures
        match r {
            Option::Some(i) => find_origin_from(v@, from as int) == Option::Some(i as int)
                && i + 9 <= v@.len(),
            Option::None => find_origin_from(v@, from as int) is None,
        },
    decreases v@.len() - from,
{
    proof {
        reveal_strlit("https://");
    }
    let pfx: Vec<u8> = str_to_bytes("https://");
    proof {
        assert(pfx@ =~= bytes_of("https://"@));
        assert(pfx@.len() == 8);
    }
    if v.len() < 9 || from > v.len() - 9 {
        Option::None
    } else if eq_at(v, pfx.as_slice(), from) && v[from + 8] != 47 {
        Option::Some(from)
    } else {
        find_origin(v, from + 1)
    }
}

/// Rewrites a Referer value: the first `https://host` origin becomes the
/// placeholder origin; everything from the path onwards is kept.
pub fn rewrite_referer(v: &[u8]) -> (r: Vec<u8>)
    ensures
        r@ == spec_rewrite_referer(v@),
{
    let n: usize = v.len();
    match find_origin(v, 0) {
        Option::None => vstd::slice::slice_to_vec(v),
        Option::Some(i) => {
            let slash: [u8; 1] = [47];
            proof {
                assert(slash@ =~= seq![47u8]);
            }
            let j: usize = match find_in_bytes_from(v, slash.as_slice(), i + 8) {
                Option::Some(j) => {
                    proof {
                        crate::text::lemma_find_sub_bounds(v@, seq![47u8], i + 8);
                    }
                    j
                },
                Option::None => n,
            };
            let mut out: Vec<u8> = vstd::slice::slice_to_vec(
                vstd::slice::slice_subrange(v, 0, i),
            );
            proof {
                assert(out@ =~= v@.take(i as int));
                reveal_strlit("https://test.com");
            }
            let placeholder: Vec<u8> = str_to_bytes("https://test.com");
            push_all(&mut out, placeholder.as_slice());
            let tail: &[u8] = vstd::slice::slice_subrange(v, j, n);
            proof {
                assert(tail@ =~= v@.skip(j as int));
            }
            push_all(&mut out, tail);
            out
        },
    }
}

/// The outgoing wire line of one header: `name: value`, with a Referer value
/// rewritten first.
pub open spec fn spec_outgoing_line(h: HeaderModel) -> Seq<u8> {
    h.name + bytes_of(": "@) + (if starts_with(h.name, bytes_of("referer"@)) {
        spec_rewrite_referer(h.value)
    } else {
        h.value
    })
}

/// The header lines handed to the native engine: every header in request
/// order, minus the denied ones, each as `name: value`.
pub open spec fn spec_outgoing_lines(hs: Seq<HeaderModel>) -> Seq<Seq<u8>>
    decreases hs.len(),
{
    if hs.len() == 0 {
        Seq::empty()
    } else {
        let rest = spec_outgoing_lines(hs.drop_first());
        if header_denied(hs.first().name) {
            rest
        } else {
            seq![spec_outgoing_line(hs.first())] + rest
        }
    }
}

/// Builds the header lines for the native engine.
pub fn build_header_lines(headers: &Vec<HeaderField>) -> (r: Vec<Vec<u8>>)
    ensures
        r@.len() == spec_outgoing_lines(header_views(headers@)).len(),
        forall|k: int|
            0 <= k < r@.len() ==> r@[k]@ == #[trigger] spec_outgoing_lines(
                header_views(headers@),
            )[k],
{
    let ghost hmodels = header_views(headers@);
    proof {
        reveal_strlit("referer");
        reveal_strlit(": ");
    }
    let referer_tok: Vec<u8> = str_to_bytes("referer");
    let colon_sp: Vec<u8> = str_to_bytes(": ");
    let mut out: Vec<Vec<u8>> = Vec::new();
    let mut i: usize = 0;
    proof {
        assert(hmodels.skip(0) =~= hmodels);
        assert(Seq::new(out@.len(), |q: int| out@[q]@) + spec_outgoing_lines(hmodels)
            =~= spec_outgoing_lines(hmodels));
    }
    while i < headers.len()
        invariant
            i <= headers@.len(),
            hmodels.len() == headers@.len(),
            forall|k: int| 0 <= k < headers@.len() ==> headers@[k]@ == hmodels[k],
            referer_tok@ == bytes_of("referer"@),
            colon_sp@ == bytes_of(": "@),
            spec_outgoing_lines(hmodels) =~= Seq::new(out@.len(), |q: int| out@[q]@)
                + spec_outgoing_lines(hmodels.skip(i as int)),
        decreases headers@.len() - i,
    {
        let ghost suffix = hmodels.skip(i as int);
        proof {
            assert(suffix.first() == hmodels[i as int]);
            assert(suffix.drop_first() =~= hmodels.skip(i as int + 1));
        }
        let ghost before = Seq::new(out@.len(), |q: int| out@[q]@);
        if !is_header_denied(headers[i].name.as_slice()) {
            let mut line: Vec<u8> = vstd::slice::slice_to_vec(headers[i].name.as_slice());
            push_all(&mut line, colon_sp.as_slice());
            if bytes_start_with(headers[i].name.as_slice(), referer_tok.as_slice()) {
                let rew: Vec<u8> = rewrite_referer(headers[i].value.as_slice());
                push_all(&mut line, rew.as_slice());
            } else {
                push_all(&mut line, headers[i].value.as_slice());
            }
            proof {
                assert(line@ =~= spec_outgoing_line(hmodels[i as int]));
            }
            out.push(line);
            proof {
                assert(Seq::new(out@.len(), |q: int| out@[q]@) =~= before + seq![
                    spec_outgoing_line(hmodels[i as int]),
                ]);
            }
        }
        i = i + 1;
    }
    proof {
        assert(hmodels.skip(i as int) =~= Seq::empty());
        assert(Seq::new(out@.len(), |q: int| out@[q]@) =~= spec_outgoing_lines(hmodels));
    }
    out
}

} // verus!

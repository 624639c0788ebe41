//! The strict HTTP/1.1 request-head parser used by the forward relay: from
//! the raw bytes read off a connection it extracts the method, the target
//! path, the headers (names lower-cased) and the body — the bytes already
//! buffered past the header terminator — and builds the target URL: the path
//! itself when it is already absolute, else `https://` + Host header + path.
//! Incomplete or malformed input is rejected with a typed parse failure.
use vstd::prelude::*;

use crate::text::bytes_contain;
use crate::text::bytes_of;
use crate::text::bytes_start_with;
use crate::text::contains_sub;
use crate::text::find_in_bytes;
use crate::text::find_sub;
use crate::text::lemma_find_sub_bounds;
use crate::text::lower_bytes;
use crate::text::lowercase_bytes;
use crate::text::push_all;
use crate::text::starts_with;
use crate::text::str_to_bytes;

verus! {

/// The CRLF line terminator.
pub open spec fn crlf() -> Seq<u8> {
    seq![13u8, 10u8]
}

/// The blank-line sequence that ends a request head.
pub open spec fn crlfcrlf() -> Seq<u8> {
    seq![13u8, 10u8, 13u8, 10u8]
}

/// One parsed header: the lower-cased name and the value with leading
/// whitespace removed.
#[derive(Clone, Debug)]
pub struct HeaderField {
    pub name: Vec<u8>,
    pub value: Vec<u8>,
}

/// The mathematical shape of a parsed header.
#[verifier::ext_equal]
pub ghost struct HeaderModel {
    pub name: Seq<u8>,
    pub value: Seq<u8>,
}

impl View for HeaderField {
    type V = HeaderModel;

    open spec fn view(&self) -> HeaderModel {
        HeaderModel { name: self.name@, value: self.value@ }
    }
}

/// Why a request head was rejected.
#[derive(Clone, Copy, PartialEq, Eq, Structural, Debug)]
pub enum ParseError {
    /// No blank line yet: more bytes are needed.
    Incomplete,
    /// The request line is not `METHOD SP PATH SP HTTP/…`.
    BadRequestLine,
    /// A header line has no name before its colon, or none at all.
    BadHeader,
}

/// A parsed request head plus the buffered body bytes.
#[derive(Clone, Debug)]
pub struct RequestHead {
    pub method: Vec<u8>,
    pub path: Vec<u8>,
    pub headers: Vec<HeaderField>,
    pub body: Vec<u8>,
    pub target_url: Vec<u8>,
}

/// The mathematical shape of a parsed request.
#[verifier::ext_equal]
pub ghost struct RequestModel {
    pub method: Seq<u8>,
    pub path: Seq<u8>,
    pub headers: Seq<HeaderModel>,
    pub body: Seq<u8>,
    pub target_url: Seq<u8>,
}

impl View for RequestHead {
    type V = RequestModel;

    open spec fn view(&self) -> RequestModel {
        RequestModel {
            method: self.method@,
            path: self.path@,
            headers: Seq::new(self.headers@.len(), |i: int| self.headers@[i]@),
            body: self.body@,
            target_url: self.target_url@,
        }
    }
}

/// The models of a header vector, elementwise.
pub open spec fn header_views(headers: Seq<HeaderField>) -> Seq<HeaderModel> {
    Seq::new(headers.len(), |i: int| headers[i]@)
}

/// The CRLF-terminated lines of `s`; a trailing fragment without CRLF is one
/// line of its own, and the empty string has no lines.
pub open spec fn crlf_lines(s: Seq<u8>) -> Seq<Seq<u8>>
    decreases s.len(),
{
    if s.len() == 0 {
        Seq::empty()
    } else {
        match find_sub(s, crlf()) {
            Option::Some(i) => if 0 <= i && i + 2 <= s.len() {
                seq![s.take(i)] + crlf_lines(s.skip(i + 2))
            } else {
                seq![s]
            },
            Option::None => seq![s],
        }
    }
}

/// Splits `v` into its CRLF-terminated lines.
pub fn split_crlf_lines(v: &[u8]) -> (r: Vec<Vec<u8>>)
    ensures
        r@.len() == crlf_lines(v@).len(),
        forall|k: int| 0 <= k < r@.len() ==> r@[k]@ == #[trigger] crlf_lines(v@)[k],
    decreases v@.len(),
{
    let n: usize = v.len();
    if n == 0 {
        Vec::new()
    } else {
        let pat: [u8; 2] = [13, 10];
        proof {
            assert(pat@ =~= crlf());
        }
        match find_in_bytes(v, pat.as_slice()) {
            Option::None => {
                let mut r: Vec<Vec<u8>> = Vec::new();
                r.push(vstd::slice::slice_to_vec(v));
                r
            },
            Option::Some(i) => {
                proof {
                    lemma_find_sub_bounds(v@, crlf(), 0);
                }
                let head: Vec<u8> = vstd::slice::slice_to_vec(
                    vstd::slice::slice_subrange(v, 0, i),
                );
                let rest: &[u8] = vstd::slice::slice_subrange(v, i + 2, n);
                let mut r: Vec<Vec<u8>> = split_crlf_lines(rest);
                let ghost tail_view = r@;
                r.insert(0, head);
                proof {
                    assert(v@.subrange(0, i as int) =~= v@.take(i as int));
                    assert(rest@ =~= v@.skip(i + 2));
                    assert(r@ =~= seq![head] + tail_view);
                    assert(crlf_lines(v@) =~= seq![v@.take(i as int)] + crlf_lines(
                        v@.skip(i + 2),
                    ));
                    assert forall|k: int| 0 <= k < r@.len() implies r@[k]@ == #[trigger] crlf_lines(
                        v@,
                    )[k] by {
                        if k == 0 {
                            assert(r@[0] == head);
                        } else {
                            assert(r@[k] == tail_view[k - 1]);
                            assert(tail_view[k - 1]@ == crlf_lines(rest@)[k - 1]);
                        }
                    }
                }
                r
            },
        }
    }
}

/// What the request line yields: the method and path between the two single
/// spaces, provided both are nonempty and the trailer is an `HTTP/` version
/// with no further space.
pub open spec fn spec_request_line(l: Seq<u8>) -> Option<(Seq<u8>, Seq<u8>)> {
    match find_sub(l, seq![32u8]) {
        Option::Some(i) => if 0 <= i && i + 1 <= l.len() {
            let rest = l.skip(i + 1);
            match find_sub(rest, seq![32u8]) {
                Option::Some(j) => if 0 <= j && j + 1 <= rest.len() {
                    let version = rest.skip(j + 1);
                    if i >= 1 && j >= 1 && starts_with(version, bytes_of("HTTP/"@))
                        && !contains_sub(version, seq![32u8]) {
                        Option::Some((l.take(i), rest.take(j)))
                    } else {
                        Option::None
                    }
                } else {
                    Option::None
                },
                Option::None => Option::None,
            }
        } else {
            Option::None
        },
        Option::None => Option::None,
    }
}

/// Parses the request line.
pub fn parse_request_line(l: &[u8]) -> (r: Option<(Vec<u8>, Vec<u8>)>)
    ensures
        match r {
            Option::Some(t) => spec_request_line(l@) == Option::Some((t.0@, t.1@)),
            Option::None => spec_request_line(l@) is None,
        },
{
    let n: usize = l.len();
    let sp: [u8; 1] = [32];
    proof {
        assert(sp@ =~= seq![32u8]);
    }
    match find_in_bytes(l, sp.as_slice()) {
        Option::None => Option::None,
        Option::Some(i) => {
            proof {
                lemma_find_sub_bounds(l@, seq![32u8], 0);
            }
            let rest: &[u8] = vstd::slice::slice_subrange(l, i + 1, n);
            proof {
                assert(rest@ =~= l@.skip(i + 1));
            }
            match find_in_bytes(rest, sp.as_slice()) {
                Option::None => Option::None,
                Option::Some(j) => {
                    proof {
                        lemma_find_sub_bounds(rest@, seq![32u8], 0);
                    }
                    let version: &[u8] = vstd::slice::slice_subrange(rest, j + 1, rest.len());
                    proof {
                        assert(version@ =~= rest@.skip(j + 1));
                        reveal_strlit("HTTP/");
                    }
                    let http_pfx: Vec<u8> = str_to_bytes("HTTP/");
                    if i >= 1 && j >= 1 && bytes_start_with(version, http_pfx.as_slice())
                        && !bytes_contain(version, sp.as_slice()) {
                        let method: Vec<u8> = vstd::slice::slice_to_vec(
                            vstd::slice::slice_subrange(l, 0, i),
                        );
                        let path: Vec<u8> = vstd::slice::slice_to_vec(
                            vstd::slice::slice_subrange(rest, 0, j),
                        );
                        proof {
                            assert(l@.subrange(0, i as int) =~= l@.take(i as int));
                            assert(rest@.subrange(0, j as int) =~= rest@.take(j as int));
                        }
                        Option::Some((method, path))
                    } else {
                        Option::None
                    }
                },
            }
        },
    }
}

/// `s` without its leading spaces and tabs.
pub open spec fn trim_leading_ws(s: Seq<u8>) -> Seq<u8>
    decreases s.len(),
{
    if s.len() > 0 && (s[0] == 32 || s[0] == 9) {
        trim_leading_ws(s.drop_first())
    } else {
        s
    }
}

/// Removes leading spaces and tabs.
pub fn trim_ws(v: &[u8]) -> (r: Vec<u8>)
    ensures
        r@ == trim_leading_ws(v@),
    decreases v@.len(),
{
    if v.len() > 0 && (v[0] == 32 || v[0] == 9) {
        let rest: &[u8] = vstd::slice::slice_subrange(v, 1, v.len());
        proof {
            assert(rest@ =~= v@.drop_first());
        }
        trim_ws(rest)
    } else {
        vstd::slice::slice_to_vec(v)
    }
}

/// What one header line yields: the lower-cased name before the first colon
/// — nonempty, with no space or tab — and the trimmed value after it.
pub open spec fn spec_header_line(l: Seq<u8>) -> Option<HeaderModel> {
    match find_sub(l, seq![58u8]) {
        Option::Some(i) => if 0 <= i && i + 1 <= l.len() && i >= 1 && !contains_sub(
            l.take(i),
            seq![32u8],
        ) && !contains_sub(l.take(i), seq![9u8]) {
            Option::Some(
                HeaderModel { name: lower_bytes(l.take(i)), value: trim_leading_ws(l.skip(i + 1)) },
            )
        } else {
            Option::None
        },
        Option::None => Option::None,
    }
}

/// Parses one header line.
pub fn parse_header_line(l: &[u8]) -> (r: Option<HeaderField>)
    ensures
        match r {
            Option::Some(h) => spec_header_line(l@) == Option::Some(h@),
            Option::None => spec_header_line(l@) is None,
        },
{
    let n: usize = l.len();
    let colon: [u8; 1] = [58];
    let sp: [u8; 1] = [32];
    let tab: [u8; 1] = [9];
    proof {
        assert(colon@ =~= seq![58u8]);
        assert(sp@ =~= seq![32u8]);
        assert(tab@ =~= seq![9u8]);
    }
    match find_in_bytes(l, colon.as_slice()) {
        Option::None => Option::None,
        Option::Some(i) => {
            proof {
                lemma_find_sub_bounds(l@, seq![58u8], 0);
            }
            if i < 1 {
                return Option::None;
            }
            let raw_name: &[u8] = vstd::slice::slice_subrange(l, 0, i);
            proof {
                assert(raw_name@ =~= l@.take(i as int));
            }
            if bytes_contain(raw_name, sp.as_slice()) || bytes_contain(raw_name, tab.as_slice()) {
                return Option::None;
            }
            let raw_value: &[u8] = vstd::slice::slice_subrange(l, i + 1, n);
            proof {
                assert(raw_value@ =~= l@.skip(i + 1));
            }
            let name: Vec<u8> = lowercase_bytes(raw_name);
            let value: Vec<u8> = trim_ws(raw_value);
            Option::Some(HeaderField { name, value })
        },
    }
}

/// What a list of header lines yields: all of them parsed, in order, or
/// nothing as soon as one is malformed.
pub open spec fn spec_headers(lines: Seq<Seq<u8>>) -> Option<Seq<HeaderModel>>
    decreases lines.len(),
{
    if lines.len() == 0 {
        Option::Some(Seq::empty())
    } else {
        match spec_header_line(lines.first()) {
            Option::Some(h) => match spec_headers(lines.drop_first()) {
                Option::Some(rest) => Option::Some(seq![h] + rest),
                Option::None => Option::None,
            },
            Option::None => Option::None,
        }
    }
}

/// The value of the last `host` header, or empty when there is none; the
/// last one wins, as a map keyed by name would have kept it.
pub open spec fn spec_host(hs: Seq<HeaderModel>) -> Seq<u8>
    decreases hs.len(),
{
    if hs.len() == 0 {
        Seq::empty()
    } else if hs.last().name == bytes_of("host"@) {
        hs.last().value
    } else {
        spec_host(hs.drop_last())
    }
}

/// The target URL: an already-absolute path verbatim, else
/// `https://` + host + path.
pub open spec fn spec_target_url(path: Seq<u8>, host: Seq<u8>) -> Seq<u8> {
    if starts_with(path, bytes_of("http://"@)) || starts_with(path, bytes_of("https://"@)) {
        path
    } else {
        bytes_of("https://"@) + host + path
    }
}

/// What parsing a whole buffered request yields.
pub open spec fn spec_parse_request(b: Seq<u8>) -> Result<RequestModel, ParseError> {
    match find_sub(b, crlfcrlf()) {
        Option::None => Result::Err(ParseError::Incomplete),
        Option::Some(t) => if !(0 <= t && t + 4 <= b.len()) {
            Result::Err(ParseError::Incomplete)
        } else {
            let lines = crlf_lines(b.take(t + 2));
            if lines.len() == 0 {
                Result::Err(ParseError::BadRequestLine)
            } else {
                match spec_request_line(lines.first()) {
                    Option::None => Result::Err(ParseError::BadRequestLine),
                    Option::Some(mp) => match spec_headers(lines.drop_first()) {
                        Option::None => Result::Err(ParseError::BadHeader),
                        Option::Some(hs) => Result::Ok(
                            RequestModel {
                                method: mp.0,
                                path: mp.1,
                                headers: hs,
                                body: b.skip(t + 4),
                                target_url: spec_target_url(mp.1, spec_host(hs)),
                            },
                        ),
                    },
                }
            }
        },
    }
}

/// Finds the value of the last `host` header.
fn find_host(headers: &Vec<HeaderField>) -> (r: Vec<u8>)
    ensures
        r@ == spec_host(Seq::new(headers@.len(), |i: int| headers@[i]@)),
{
    let ghost hmodels = Seq::new(headers@.len(), |i: int| headers@[i]@);
    proof {
        reveal_strlit("host");
    }
    let host_tok: Vec<u8> = str_to_bytes("host");
    let mut j: usize = headers.len();
    proof {
        assert(hmodels.take(j as int) =~= hmodels);
    }
    while j > 0
        invariant
            j <= headers@.len(),
            hmodels.len() == headers@.len(),
            forall|k: int| 0 <= k < headers@.len() ==> headers@[k]@ == hmodels[k],
            host_tok@ == bytes_of("host"@),
            spec_host(hmodels) == spec_host(hmodels.take(j as int)),
        decreases j,
    {
        proof {
            assert(hmodels.take(j as int).last() == hmodels[j - 1]);
            assert(hmodels.take(j as int).drop_last() =~= hmodels.take(j as int - 1));
        }
        if crate::text::bytes_equal(headers[j - 1].name.as_slice(), host_tok.as_slice()) {
            proof {
                assert(hmodels.take(j as int).last().name == bytes_of("host"@));
                assert(spec_host(hmodels) == hmodels[j - 1].value);
                assert(Seq::new(headers@.len(), |i: int| headers@[i]@) =~= hmodels);
            }
            return vstd::slice::slice_to_vec(headers[j - 1].value.as_slice());
        }
        j = j - 1;
    }
    proof {
        assert(hmodels.take(0) =~= Seq::<HeaderModel>::empty());
    }
    Vec::new()
}

/// Parses the buffered bytes of one request: the head up to the blank line,
/// then the already-buffered body.  Returns exactly what the specification
/// `spec_parse_request` yields.
pub fn parse_http_request(buffer: &[u8]) -> (r: Result<RequestHead, ParseError>)
    ensures
        match r {
            Result::Ok(h) => spec_parse_request(buffer@) == Result::<RequestModel, ParseError>::Ok(h@),
            Result::Err(e) => spec_parse_request(buffer@) == Result::<RequestModel, ParseError>::Err(e),
        },
{
    let n: usize = buffer.len();
    let term: [u8; 4] = [13, 10, 13, 10];
    proof {
        assert(term@ =~= crlfcrlf());
    }
    let t: usize = match find_in_bytes(buffer, term.as_slice()) {
        Option::None => {
            return Result::Err(ParseError::Incomplete);
        },
        Option::Some(t) => t,
    };
    proof {
        lemma_find_sub_bounds(buffer@, crlfcrlf(), 0);
    }
    let head: &[u8] = vstd::slice::slice_subrange(buffer, 0, t + 2);
    proof {
        assert(head@ =~= buffer@.take(t + 2));
    }
    let lines: Vec<Vec<u8>> = split_crlf_lines(head);
    let ghost lview = crlf_lines(buffer@.take(t + 2));
    if lines.len() == 0 {
        return Result::Err(ParseError::BadRequestLine);
    }
    let mp: (Vec<u8>, Vec<u8>) = match parse_request_line(lines[0].as_slice()) {
        Option::None => {
            return Result::Err(ParseError::BadRequestLine);
        },
        Option::Some(mp) => mp,
    };
    let mut headers: Vec<HeaderField> = Vec::new();
    let ghost hlines = lview.skip(1);
    proof {
        assert(hlines.skip(0) =~= hlines);
        assert(spec_headers(hlines) == match spec_headers(hlines.skip(0)) {
            Option::Some(rest) => Option::Some(
                Seq::new(headers@.len(), |q: int| headers@[q]@) + rest,
            ),
            Option::None => Option::None::<Seq<HeaderModel>>,
        });
    }
    let mut i: usize = 1;
    while i < lines.len()
        invariant
            1 <= i <= lines@.len(),
            find_sub(buffer@, crlfcrlf()) == Option::Some(t as int),
            t + 4 <= buffer@.len(),
            lview =~= crlf_lines(buffer@.take(t + 2)),
            lview.len() >= 1,
            spec_request_line(lview[0]) == Option::Some((mp.0@, mp.1@)),
            lview.len() == lines@.len(),
            forall|k: int| 0 <= k < lines@.len() ==> lines@[k]@ == lview[k],
            hlines =~= lview.skip(1),
            spec_headers(hlines) == match spec_headers(hlines.skip(i - 1)) {
                Option::Some(rest) => Option::Some(
                    Seq::new(headers@.len(), |q: int| headers@[q]@) + rest,
                ),
                Option::None => Option::None::<Seq<HeaderModel>>,
            },
        decreases lines@.len() - i,
    {
        let ghost suffix = hlines.skip(i - 1);
        proof {
            assert(suffix.first() == hlines[i - 1]);
            assert(hlines[i - 1] == lview[i as int]);
            assert(suffix.drop_first() =~= hlines.skip(i as int));
        }
        let ghost before = Seq::new(headers@.len(), |q: int| headers@[q]@);
        match parse_header_line(lines[i].as_slice()) {
            Option::Some(h) => {
                let ghost hm = h@;
                headers.push(h);
                proof {
                    assert(Seq::new(headers@.len(), |q: int| headers@[q]@) =~= before + seq![hm]);
                }
            },
            Option::None => {
                proof {
                    assert(spec_headers(suffix) is None);
                }
                return Result::Err(ParseError::BadHeader);
            },
        }
        i = i + 1;
    }
    proof {
        assert(hlines.skip(i - 1) =~= Seq::<Seq<u8>>::empty());
        assert(spec_headers(hlines) == Option::Some(Seq::new(headers@.len(), |q: int| headers@[q]@)));
    }
    let host: Vec<u8> = find_host(&headers);
    proof {
        reveal_strlit("http://");
        reveal_strlit("https://");
    }
    let http_pfx: Vec<u8> = str_to_bytes("http://");
    let https_pfx: Vec<u8> = str_to_bytes("https://");
    let target_url: Vec<u8> = if bytes_start_with(mp.1.as_slice(), http_pfx.as_slice())
        || bytes_start_with(mp.1.as_slice(), https_pfx.as_slice()) {
        mp.1.clone()
    } else {
        let mut u: Vec<u8> = str_to_bytes("https://");
        push_all(&mut u, host.as_slice());
        push_all(&mut u, mp.1.as_slice());
        u
    };
    let body: Vec<u8> = vstd::slice::slice_to_vec(vstd::slice::slice_subrange(buffer, t + 4, n));
    proof {
        assert(body@ =~= buffer@.skip(t + 4));
    }
    let h = RequestHead { method: mp.0, path: mp.1, headers, body, target_url };
    proof {
        assert(h@.target_url =~= spec_target_url(h@.path, spec_host(h@.headers)));
        assert(spec_parse_request(buffer@) == Result::<RequestModel, ParseError>::Ok(h@));
    }
    Result::Ok(h)
}

} // verus!

//! Response assembly for the forward relay: a status line derived from the
//! native engine's numeric code through a small code-to-text table, the
//! relayed headers minus the protocol status line, `Date` and
//! `content-encoding` (the engine already decoded the body), a
//! `Content-Length` recomputed from the body actually relayed, then the body.
use vstd::prelude::*;

use crate::http_head::crlf;
use crate::text::bytes_of;
use crate::text::bytes_start_with;
use crate::text::decimal;
use crate::text::format_decimal;
use crate::text::lower_bytes;
use crate::text::lowercase_bytes;
use crate::text::push_all;
use crate::text::starts_with;
use crate::text::str_to_bytes;

verus! {

/// The status text the table assigns to a code.
pub open spec fn spec_status_text(code: u32) -> Seq<char> {
    if code == 200 {
        "OK"@
    } else if code == 400 {
        "Bad Request"@
    } else if code == 401 {
        "Unauthorized"@
    } else if code == 403 {
        "Forbidden"@
    } else if code == 404 {
        "Not Found"@
    } else if code == 500 {
        "Internal Server Error"@
    } else {
        "Unknown Status"@
    }
}

/// The status text for a response code; codes outside the table render as
/// "Unknown Status".
pub fn get_status_text(code: u32) -> (r: &'static str)
    ensures
        r@ == spec_status_text(code),
        vstd::string::is_ascii(r),
{
    proof {
        reveal_strlit("OK");
        reveal_strlit("Bad Request");
        reveal_strlit("Unauthorized");
        reveal_strlit("Forbidden");
        reveal_strlit("Not Found");
        reveal_strlit("Internal Server Error");
        reveal_strlit("Unknown Status");
    }
    match code {
        200 => "OK",
        400 => "Bad Request",
        401 => "Unauthorized",
        403 => "Forbidden",
        404 => "Not Found",
        500 => "Internal Server Error",
        _ => "Unknown Status",
    }
}

/// The status line: `HTTP/1.1 <code> <text>\r\n`.
pub open spec fn spec_status_line(code: u32) -> Seq<u8> {
    bytes_of("HTTP/1.1 "@) + decimal(code as nat) + seq![32u8] + bytes_of(spec_status_text(code))
        + crlf()
}

/// Whether a relayed header line is withheld from the client: the protocol
/// status line, `Date`, `content-encoding`, and any upstream content length,
/// which is recomputed instead.
pub open spec fn resp_header_dropped(line: Seq<u8>) -> bool {
    starts_with(line, bytes_of("HTTP/1"@)) || starts_with(line, bytes_of("HTTP/2"@))
        || starts_with(line, bytes_of("Date"@)) || starts_with(line, bytes_of("content-encoding"@))
        || starts_with(lower_bytes(line), bytes_of("content-length:"@))
}

/// Checks whether a relayed header line is withheld.
pub fn is_resp_header_dropped(line: &[u8]) -> (r: bool)
    ensures
        r == resp_header_dropped(line@),
{
    proof {
        reveal_strlit("HTTP/1");
        reveal_strlit("HTTP/2");
        reveal_strlit("Date");
        reveal_strlit("content-encoding");
        reveal_strlit("content-length:");
    }
    let p1: Vec<u8> = str_to_bytes("HTTP/1");
    let p2: Vec<u8> = str_to_bytes("HTTP/2");
    let p3: Vec<u8> = str_to_bytes("Date");
    let p4: Vec<u8> = str_to_bytes("content-encoding");
    let p5: Vec<u8> = str_to_bytes("content-length:");
    if bytes_start_with(line, p1.as_slice()) || bytes_start_with(line, p2.as_slice())
        || bytes_start_with(line, p3.as_slice()) || bytes_start_with(line, p4.as_slice()) {
        return true;
    }
    let lower: Vec<u8> = lowercase_bytes(line);
    bytes_start_with(lower.as_slice(), p5.as_slice())
}

/// The bytes of the surviving header lines, each followed by CRLF.
pub open spec fn spec_header_section(lines: Seq<Seq<u8>>) -> Seq<u8>
    decreases lines.len(),
{
    if lines.len() == 0 {
        Seq::empty()
    } else {
        let rest = spec_header_section(lines.drop_first());
        if resp_header_dropped(lines.first()) {
            rest
        } else {
            lines.first() + crlf() + rest
        }
    }
}

/// The models of a line vector, elementwise.
pub open spec fn line_views(lines: Seq<Vec<u8>>) -> Seq<Seq<u8>> {
    Seq::new(lines.len(), |i: int| lines[i]@)
}

/// The whole response: status line, surviving headers, the recomputed
/// `Content-Length`, a blank line, then the body.
pub open spec fn spec_assemble_response(code: u32, lines: Seq<Seq<u8>>, body: Seq<u8>) -> Seq<u8> {
    spec_status_line(code) + spec_header_section(lines) + bytes_of("Content-Length: "@) + decimal(
        body.len(),
    ) + crlf() + crlf() + body
}

/// Assembles the response sent back to the client.
pub fn assemble_response(code: u32, headers: &Vec<Vec<u8>>, body: &Vec<u8>) -> (r: Vec<u8>)
    ensures
        r@ == spec_assemble_response(code, line_views(headers@), body@),
{
    let ghost lviews = line_views(headers@);
    proof {
        reveal_strlit("HTTP/1.1 ");
        reveal_strlit("Content-Length: ");
    }
    let mut out: Vec<u8> = str_to_bytes("HTTP/1.1 ");
    let code_digits: Vec<u8> = format_decimal(code as u64);
    push_all(&mut out, code_digits.as_slice());
    out.push(32);
    let text: &'static str = get_status_text(code);
    let text_bytes: Vec<u8> = str_to_bytes(text);
    push_all(&mut out, text_bytes.as_slice());
    let crlf_pair: [u8; 2] = [13, 10];
    proof {
        assert(crlf_pair@ =~= crlf());
    }
    push_all(&mut out, crlf_pair.as_slice());
    proof {
        assert(out@ =~= spec_status_line(code));
    }
    let mut hsec: Vec<u8> = Vec::new();
    let mut i: usize = 0;
    proof {
        assert(lviews.skip(0) =~= lviews);
        assert(hsec@ + spec_header_section(lviews) =~= spec_header_section(lviews));
    }
    while i < headers.len()
        invariant
            i <= headers@.len(),
            lviews.len() == headers@.len(),
            forall|k: int| 0 <= k < headers@.len() ==> headers@[k]@ == lviews[k],
            crlf_pair@ =~= crlf(),
            spec_header_section(lviews) =~= hsec@ + spec_header_section(lviews.skip(i as int)),
        decreases headers@.len() - i,
    {
        let ghost suffix = lviews.skip(i as int);
        proof {
            assert(suffix.first() == lviews[i as int]);
            assert(suffix.drop_first() =~= lviews.skip(i as int + 1));
        }
        if !is_resp_header_dropped(headers[i].as_slice()) {
            push_all(&mut hsec, headers[i].as_slice());
            push_all(&mut hsec, crlf_pair.as_slice());
        }
        i = i + 1;
    }
    proof {
        assert(lviews.skip(i as int) =~= Seq::empty());
        assert(hsec@ =~= spec_header_section(lviews));
    }
    push_all(&mut out, hsec.as_slice());
    let clen_label: Vec<u8> = str_to_bytes("Content-Length: ");
    push_all(&mut out, clen_label.as_slice());
    let len_digits: Vec<u8> = format_decimal(body.len() as u64);
    push_all(&mut out, len_digits.as_slice());
    push_all(&mut out, crlf_pair.as_slice());
    push_all(&mut out, crlf_pair.as_slice());
    push_all(&mut out, body.as_slice());
    proof {
        assert(out@ =~= spec_assemble_response(code, lviews, body@));
    }
    out
}

} // verus!

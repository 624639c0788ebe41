//! The guarded model of one native-engine request: the exact sequence of
//! configuration calls a request needs, the outcome of each status code, and
//! a ledger of the native resources held — client handle, header list, and
//! the two accumulator buffers — whose release plan frees every acquired
//! resource exactly once, whichever step failed.  The caller performs the
//! foreign calls and feeds their codes back; the decisions live here.
use vstd::prelude::*;

use crate::mapping::ProxyType;
use crate::text::bytes_equal;
use crate::text::bytes_of;
use crate::text::lower_bytes;
use crate::text::lowercase_bytes;
use crate::text::str_to_bytes;

verus! {

/// One step of the native call sequence, in order of execution.
#[derive(Clone, Copy, PartialEq, Eq, Structural, Debug)]
pub enum EngineStep {
    SetUrl,
    SetProxy,
    SetProxyKind,
    SetMethod,
    SetBody,
    SetBodySize,
    Impersonate,
    SetHeaderList,
    SetWriteCallback,
    SetWriteData,
    SetHeaderCallback,
    SetHeaderData,
    Perform,
    ReadResponseCode,
}

/// A typed native failure: the step that failed and the code it returned.
#[derive(Clone, Copy, PartialEq, Eq, Structural, Debug)]
pub struct EngineError {
    pub step: EngineStep,
    pub code: i64,
}

/// Whether `m` is the GET method, compared ASCII-case-insensitively.
pub open spec fn spec_is_get(m: Seq<u8>) -> bool {
    lower_bytes(m) == bytes_of("get"@)
}

/// Decides whether a method needs no explicit method option (GET is the
/// native engine's default).
pub fn is_get_method(m: &[u8]) -> (r: bool)
    ensures
        r == spec_is_get(m@),
{
    proof {
        reveal_strlit("get");
    }
    let tok: Vec<u8> = str_to_bytes("get");
    let lower: Vec<u8> = lowercase_bytes(m);
    bytes_equal(lower.as_slice(), tok.as_slice())
}

/// The configuration and execution steps one request performs, in order:
/// the URL always; the proxy address, and its kind unless direct, when a
/// proxy is configured; the method unless it is GET; the body and its size
/// when nonempty; the impersonation profile; the header list when any header
/// survived the policy; both callback pairs; the blocking perform; and the
/// response-code read.
pub open spec fn spec_setup_steps(
    has_proxy: bool,
    kind: ProxyType,
    is_get: bool,
    has_body: bool,
    has_headers: bool,
) -> Seq<EngineStep> {
    seq![EngineStep::SetUrl] + (if has_proxy {
        seq![EngineStep::SetProxy] + (if kind is Direct {
            Seq::empty()
        } else {
            seq![EngineStep::SetProxyKind]
        })
    } else {
        Seq::empty()
    }) + (if !is_get {
        seq![EngineStep::SetMethod]
    } else {
        Seq::empty()
    }) + (if has_body {
        seq![EngineStep::SetBody, EngineStep::SetBodySize]
    } else {
        Seq::empty()
    }) + seq![EngineStep::Impersonate] + (if has_headers {
        seq![EngineStep::SetHeaderList]
    } else {
        Seq::empty()
    }) + seq![
        EngineStep::SetWriteCallback,
        EngineStep::SetWriteData,
        EngineStep::SetHeaderCallback,
        EngineStep::SetHeaderData,
        EngineStep::Perform,
        EngineStep::ReadResponseCode,
    ]
}

/// Lays out the native call sequence for one request.
#[verifier::rlimit(60)]
pub fn setup_steps(
    has_proxy: bool,
    kind: ProxyType,
    is_get: bool,
    has_body: bool,
    has_headers: bool,
) -> (r: Vec<EngineStep>)
    ensures
        r@ == spec_setup_steps(has_proxy, kind, is_get, has_body, has_headers),
{
    let mut r: Vec<EngineStep> = Vec::new();
    r.push(EngineStep::SetUrl);
    if has_proxy {
        r.push(EngineStep::SetProxy);
        match kind {
            ProxyType::Direct => {},
            ProxyType::Http => {
                r.push(EngineStep::SetProxyKind);
            },
            ProxyType::Socks5 => {
                r.push(EngineStep::SetProxyKind);
            },
        }
    }
    if !is_get {
        r.push(EngineStep::SetMethod);
    }
    if has_body {
        r.push(EngineStep::SetBody);
        r.push(EngineStep::SetBodySize);
    }
    r.push(EngineStep::Impersonate);
    if has_headers {
        r.push(EngineStep::SetHeaderList);
    }
    r.push(EngineStep::SetWriteCallback);
    r.push(EngineStep::SetWriteData);
    r.push(EngineStep::SetHeaderCallback);
    r.push(EngineStep::SetHeaderData);
    r.push(EngineStep::Perform);
    r.push(EngineStep::ReadResponseCode);
    proof {
        assert(r@ =~= spec_setup_steps(has_proxy, kind, is_get, has_body, has_headers));
    }
    r
}

/// Turns a native status code into the step's outcome: zero is success, any
/// other code stops the sequence with a typed failure naming the step.
pub fn check_step(step: EngineStep, code: i64) -> (r: Result<(), EngineError>)
    ensures
        r is Ok <==> code == 0,
        r matches Result::Err(e) ==> e == (EngineError { step, code }),
{
    if code == 0 {
        Result::Ok(())
    } else {
        Result::Err(EngineError { step, code })
    }
}

/// The status code relayed to the client for a native response code:
/// values outside the unsigned 32-bit range render as 0, which the status
/// table names "Unknown Status".
pub fn client_status_code(code: i64) -> (r: u32)
    ensures
        0 <= code <= 0xffff_ffffi64 ==> r == code,
        !(0 <= code <= 0xffff_ffffi64) ==> r == 0,
{
    if 0 <= code && code <= 0xffff_ffffi64 {
        code as u32
    } else {
        0
    }
}

/// The name the native library gives a status code.
pub open spec fn spec_code_name(code: i64) -> Seq<char> {
    if code == 0 {
        "CURLE_OK"@
    } else if code == 1 {
        "CURLE_UNSUPPORTED_PROTOCOL"@
    } else if code == 2 {
        "CURLE_FAILED_INIT"@
    } else {
        "Unknown CURLcode"@
    }
}

/// Names a native status code for diagnostics.
pub fn code_name(code: i64) -> (r: &'static str)
    ensures
        r@ == spec_code_name(code),
{
    match code {
        0 => "CURLE_OK",
        1 => "CURLE_UNSUPPORTED_PROTOCOL",
        2 => "CURLE_FAILED_INIT",
        _ => "Unknown CURLcode",
    }
}

/// The transient result of one native request: the header lines and body
/// bytes collected by the callbacks, owned by the process once the
/// accumulators are drained and before the native handle is destroyed.
#[derive(Clone, Debug)]
pub struct CurlResponse {
    pub headers: Vec<Vec<u8>>,
    pub body: Vec<u8>,
}

impl CurlResponse {
    /// The exact bytes relayed back to the client for this native response.
    pub fn to_client_bytes(&self, code: u32) -> (r: Vec<u8>)
        ensures
            r@ == crate::response::spec_assemble_response(
                code,
                crate::response::line_views(self.headers@),
                self.body@,
            ),
    {
        crate::response::assemble_response(code, &self.headers, &self.body)
    }
}

/// One kind of native resource a request session can hold.
#[derive(Clone, Copy, PartialEq, Eq, Structural, Debug)]
pub enum NativeResource {
    /// The body accumulator buffer.
    BodyBuffer,
    /// The header accumulator buffer.
    HeaderBuffer,
    /// The client handle.
    Handle,
    /// The request header list.
    HeaderList,
}

/// The ledger of native resources one request session holds.  Each resource
/// is acquired at most once and the release plan frees exactly what is held,
/// so every exit path — normal or failing at any step — releases each
/// acquired resource exactly once.
#[derive(Clone, Copy, Debug)]
pub struct ResourceLedger {
    pub body_buffer: bool,
    pub header_buffer: bool,
    pub handle: bool,
    pub header_list: bool,
}

impl ResourceLedger {
    /// The release plan the held resources call for: header list first, then
    /// the two buffers, then the handle.
    pub open spec fn held_seq(self) -> Seq<NativeResource> {
        (if self.header_list {
            seq![NativeResource::HeaderList]
        } else {
            Seq::empty()
        }) + (if self.body_buffer {
            seq![NativeResource::BodyBuffer]
        } else {
            Seq::empty()
        }) + (if self.header_buffer {
            seq![NativeResource::HeaderBuffer]
        } else {
            Seq::empty()
        }) + (if self.handle {
            seq![NativeResource::Handle]
        } else {
            Seq::empty()
        })
    }

    /// A fresh session holds nothing.
    pub fn new() -> (r: Self)
        ensures
            !r.body_buffer && !r.header_buffer && !r.handle && !r.header_list,
    {
        ResourceLedger { body_buffer: false, header_buffer: false, handle: false, header_list: false }
    }

    /// Records the body accumulator as acquired.
    pub fn acquire_body_buffer(&mut self)
        requires
            !old(self).body_buffer,
        ensures
            *final(self) == (ResourceLedger { body_buffer: true, ..*old(self) }),
    {
        self.body_buffer = true;
    }

    /// Records the header accumulator as acquired.
    pub fn acquire_header_buffer(&mut self)
        requires
            !old(self).header_buffer,
        ensures
            *final(self) == (ResourceLedger { header_buffer: true, ..*old(self) }),
    {
        self.header_buffer = true;
    }

    /// Records the client handle as acquired.
    pub fn acquire_handle(&mut self)
        requires
            !old(self).handle,
        ensures
            *final(self) == (ResourceLedger { handle: true, ..*old(self) }),
    {
        self.handle = true;
    }

    /// Records the header list as acquired.
    pub fn acquire_header_list(&mut self)
        requires
            !old(self).header_list,
        ensures
            *final(self) == (ResourceLedger { header_list: true, ..*old(self) }),
    {
        self.header_list = true;
    }

    /// Hands out the release plan — each held resource exactly once, in the
    /// fixed order — and marks everything released; the caller performs the
    /// matching native free for each entry.
    pub fn release_all(&mut self) -> (plan: Vec<NativeResource>)
        ensures
            plan@ == old(self).held_seq(),
            !final(self).body_buffer && !final(self).header_buffer && !final(self).handle
                && !final(self).header_list,
            final(self).held_seq() == Seq::<NativeResource>::empty(),
    {
        let mut plan: Vec<NativeResource> = Vec::new();
        if self.header_list {
            plan.push(NativeResource::HeaderList);
        }
        if self.body_buffer {
            plan.push(NativeResource::BodyBuffer);
        }
        if self.header_buffer {
            plan.push(NativeResource::HeaderBuffer);
        }
        if self.handle {
            plan.push(NativeResource::Handle);
        }
        self.header_list = false;
        self.body_buffer = false;
        self.header_buffer = false;
        self.handle = false;
        proof {
            assert(plan@ =~= old(self).held_seq());
            assert(self.held_seq() =~= Seq::<NativeResource>::empty());
        }
        plan
    }
}

/// Whichever step a failure is injected at — that is, whatever subset of
/// resources the session holds by then — the release plan names each held
/// resource exactly once and no other: in particular exactly one handle
/// cleanup when the handle was acquired, and no accumulator buffer survives.
#[verifier::rlimit(60)]
pub proof fn lemma_release_exactly_once(l: ResourceLedger)
    ensures
        forall|i: int, j: int|
            0 <= i < j < l.held_seq().len() ==> l.held_seq()[i] != l.held_seq()[j],
        l.handle <==> l.held_seq().contains(NativeResource::Handle),
        l.body_buffer <==> l.held_seq().contains(NativeResource::BodyBuffer),
        l.header_buffer <==> l.held_seq().contains(NativeResource::HeaderBuffer),
        l.header_list <==> l.held_seq().contains(NativeResource::HeaderList),
{
    let s = l.held_seq();
    assert forall|i: int, j: int| 0 <= i < j < s.len() implies s[i] != s[j] by {
        assert(s[i] != s[j]);
    }
    if l.handle {
        assert(s[s.len() - 1] == NativeResource::Handle);
        assert(s.contains(NativeResource::Handle));
    }
    if l.header_list {
        assert(s[0] == NativeResource::HeaderList);
        assert(s.contains(NativeResource::HeaderList));
    }
    if l.body_buffer {
        let i = if l.header_list {
            1int
        } else {
            0int
        };
        assert(s[i] == NativeResource::BodyBuffer);
        assert(s.contains(NativeResource::BodyBuffer));
    }
    if l.header_buffer {
        let i = (if l.header_list {
            1int
        } else {
            0int
        }) + (if l.body_buffer {
            1int
        } else {
            0int
        });
        assert(s[i] == NativeResource::HeaderBuffer);
        assert(s.contains(NativeResource::HeaderBuffer));
    }
}

} // verus!

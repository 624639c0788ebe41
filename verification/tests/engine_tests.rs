use egress_proxy::engine::{
    check_step, client_status_code, code_name, is_get_method, setup_steps, CurlResponse,
    EngineStep, NativeResource, ResourceLedger,
};
use egress_proxy::mapping::ProxyType;
use egress_proxy::text::trim_crlf_end;

#[test]
fn plain_get_without_proxy_or_body() {
    let steps = setup_steps(false, ProxyType::Direct, true, false, true);
    assert_eq!(
        steps,
        vec![
            EngineStep::SetUrl,
            EngineStep::Impersonate,
            EngineStep::SetHeaderList,
            EngineStep::SetWriteCallback,
            EngineStep::SetWriteData,
            EngineStep::SetHeaderCallback,
            EngineStep::SetHeaderData,
            EngineStep::Perform,
            EngineStep::ReadResponseCode,
        ]
    );
}

#[test]
fn post_through_proxy_with_body() {
    let steps = setup_steps(true, ProxyType::Socks5, false, true, false);
    assert_eq!(
        steps,
        vec![
            EngineStep::SetUrl,
            EngineStep::SetProxy,
            EngineStep::SetProxyKind,
            EngineStep::SetMethod,
            EngineStep::SetBody,
            EngineStep::SetBodySize,
            EngineStep::Impersonate,
            EngineStep::SetWriteCallback,
            EngineStep::SetWriteData,
            EngineStep::SetHeaderCallback,
            EngineStep::SetHeaderData,
            EngineStep::Perform,
            EngineStep::ReadResponseCode,
        ]
    );
}

#[test]
fn get_method_detection_is_case_insensitive() {
    assert!(is_get_method(b"GET"));
    assert!(is_get_method(b"get"));
    assert!(is_get_method(b"GeT"));
    assert!(!is_get_method(b"POST"));
}

#[test]
fn check_step_separates_success_from_typed_failure() {
    assert!(check_step(EngineStep::SetUrl, 0).is_ok());
    let e = check_step(EngineStep::Perform, 28).unwrap_err();
    assert_eq!(e.step, EngineStep::Perform);
    assert_eq!(e.code, 28);
}

#[test]
fn code_names_follow_the_native_table() {
    assert_eq!(code_name(0), "CURLE_OK");
    assert_eq!(code_name(1), "CURLE_UNSUPPORTED_PROTOCOL");
    assert_eq!(code_name(2), "CURLE_FAILED_INIT");
    assert_eq!(code_name(60), "Unknown CURLcode");
}

fn assert_exact_cleanup(ledger: &mut ResourceLedger) {
    let handle_held = ledger.handle;
    let body_held = ledger.body_buffer;
    let hdr_held = ledger.header_buffer;
    let list_held = ledger.header_list;
    let plan = ledger.release_all();
    let handle_count = plan.iter().filter(|r| matches!(r, NativeResource::Handle)).count();
    let body_count = plan.iter().filter(|r| matches!(r, NativeResource::BodyBuffer)).count();
    let hdr_count = plan.iter().filter(|r| matches!(r, NativeResource::HeaderBuffer)).count();
    let list_count = plan.iter().filter(|r| matches!(r, NativeResource::HeaderList)).count();
    assert_eq!(handle_count, if handle_held { 1 } else { 0 });
    assert_eq!(body_count, if body_held { 1 } else { 0 });
    assert_eq!(hdr_count, if hdr_held { 1 } else { 0 });
    assert_eq!(list_count, if list_held { 1 } else { 0 });
    assert!(!ledger.handle && !ledger.body_buffer && !ledger.header_buffer && !ledger.header_list);
    assert!(ledger.release_all().is_empty());
}

#[test]
fn failure_after_body_buffer_only_releases_it_alone() {
    let mut l = ResourceLedger::new();
    l.acquire_body_buffer();
    assert_exact_cleanup(&mut l);
}

#[test]
fn failure_after_both_buffers_releases_both_once() {
    let mut l = ResourceLedger::new();
    l.acquire_body_buffer();
    l.acquire_header_buffer();
    assert_exact_cleanup(&mut l);
}

#[test]
fn failure_at_any_option_step_releases_handle_exactly_once() {
    let mut l = ResourceLedger::new();
    l.acquire_body_buffer();
    l.acquire_header_buffer();
    l.acquire_handle();
    assert_exact_cleanup(&mut l);
}

#[test]
fn failure_after_header_list_releases_all_four_once() {
    let mut l = ResourceLedger::new();
    l.acquire_body_buffer();
    l.acquire_header_buffer();
    l.acquire_handle();
    l.acquire_header_list();
    assert_exact_cleanup(&mut l);
}

#[test]
fn release_plan_frees_header_list_before_handle() {
    let mut l = ResourceLedger::new();
    l.acquire_handle();
    l.acquire_header_list();
    let plan = l.release_all();
    assert_eq!(plan, vec![NativeResource::HeaderList, NativeResource::Handle]);
}

#[test]
fn native_response_renders_to_client_bytes() {
    let resp = CurlResponse {
        headers: vec![b"HTTP/2 200".to_vec(), b"Server: s".to_vec()],
        body: b"xy".to_vec(),
    };
    assert_eq!(
        resp.to_client_bytes(200),
        b"HTTP/1.1 200 OK\r\nServer: s\r\nContent-Length: 2\r\n\r\nxy".to_vec()
    );
}

#[test]
fn wire_header_lines_lose_their_crlf() {
    assert_eq!(trim_crlf_end(b"Server: s\r\n"), b"Server: s".to_vec());
    assert_eq!(trim_crlf_end(b"\r\n"), Vec::<u8>::new());
    assert_eq!(trim_crlf_end(b"plain"), b"plain".to_vec());
}

#[test]
fn client_status_codes_outside_range_render_unknown() {
    assert_eq!(client_status_code(200), 200);
    assert_eq!(client_status_code(0), 0);
    assert_eq!(client_status_code(u32::MAX as i64), u32::MAX);
    assert_eq!(client_status_code(-7), 0);
    assert_eq!(client_status_code(u32::MAX as i64 + 1), 0);
}

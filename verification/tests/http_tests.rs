use egress_proxy::commands::{
    add_address_command, build_connect_request, del_address_command, has_header_terminator,
    probe_route_command, proxy_reply_established,
};
use egress_proxy::headers::{build_header_lines, is_header_denied, rewrite_referer};
use egress_proxy::http_head::{parse_http_request, ParseError};
use egress_proxy::response::{assemble_response, get_status_text};

#[test]
fn parses_a_full_request_with_body() {
    let raw = b"POST /api HTTP/1.1\r\nHost: example.com\r\nX-Thing: 1\r\n\r\nhello".to_vec();
    let h = parse_http_request(&raw).unwrap();
    assert_eq!(h.method, b"POST".to_vec());
    assert_eq!(h.path, b"/api".to_vec());
    assert_eq!(h.body, b"hello".to_vec());
    assert_eq!(h.target_url, b"https://example.com/api".to_vec());
    assert_eq!(h.headers.len(), 2);
    assert_eq!(h.headers[0].name, b"host".to_vec());
    assert_eq!(h.headers[0].value, b"example.com".to_vec());
    assert_eq!(h.headers[1].name, b"x-thing".to_vec());
}

#[test]
fn absolute_url_path_is_used_verbatim() {
    let raw = b"GET http://origin.test/x HTTP/1.1\r\nHost: h\r\n\r\n".to_vec();
    let h = parse_http_request(&raw).unwrap();
    assert_eq!(h.target_url, b"http://origin.test/x".to_vec());
}

#[test]
fn last_host_header_wins() {
    let raw = b"GET /p HTTP/1.1\r\nHost: a\r\nHost: b\r\n\r\n".to_vec();
    let h = parse_http_request(&raw).unwrap();
    assert_eq!(h.target_url, b"https://b/p".to_vec());
}

#[test]
fn missing_terminator_is_incomplete() {
    let raw = b"GET / HTTP/1.1\r\nHost: h\r\n".to_vec();
    assert_eq!(parse_http_request(&raw).unwrap_err(), ParseError::Incomplete);
}

#[test]
fn bad_request_line_is_rejected() {
    let raw = b"NONSENSE\r\n\r\n".to_vec();
    assert_eq!(parse_http_request(&raw).unwrap_err(), ParseError::BadRequestLine);
    let raw2 = b"GET /p FTP/1.1\r\n\r\n".to_vec();
    assert_eq!(parse_http_request(&raw2).unwrap_err(), ParseError::BadRequestLine);
}

#[test]
fn bad_header_line_is_rejected() {
    let raw = b"GET /p HTTP/1.1\r\nno colon here\r\n\r\n".to_vec();
    assert_eq!(parse_http_request(&raw).unwrap_err(), ParseError::BadHeader);
}

#[test]
fn header_values_are_trimmed_and_names_lowercased() {
    let raw = b"GET /p HTTP/1.1\r\nX-ONE:\t  spaced value \r\n\r\n".to_vec();
    let h = parse_http_request(&raw).unwrap();
    assert_eq!(h.headers[0].name, b"x-one".to_vec());
    assert_eq!(h.headers[0].value, b"spaced value ".to_vec());
}

#[test]
fn empty_body_when_nothing_follows_terminator() {
    let raw = b"GET /p HTTP/1.1\r\nHost: h\r\n\r\n".to_vec();
    let h = parse_http_request(&raw).unwrap();
    assert!(h.body.is_empty());
}

#[test]
fn deny_list_matches_prefixes() {
    assert!(is_header_denied(b"x-forwarded-for"));
    assert!(is_header_denied(b"connection"));
    assert!(is_header_denied(b"x-gt-trace"));
    assert!(!is_header_denied(b"host"));
    assert!(!is_header_denied(b"referer"));
}

#[test]
fn referer_origin_is_replaced_and_path_kept() {
    assert_eq!(
        rewrite_referer(b"https://shop.example.com/cart?step=2"),
        b"https://test.com/cart?step=2".to_vec()
    );
    assert_eq!(rewrite_referer(b"https://bare.example.org"), b"https://test.com".to_vec());
}

#[test]
fn referer_without_https_origin_is_unchanged() {
    assert_eq!(rewrite_referer(b"http://plain.example/x"), b"http://plain.example/x".to_vec());
    assert_eq!(rewrite_referer(b"no url at all"), b"no url at all".to_vec());
}

#[test]
fn outgoing_lines_filter_and_rewrite() {
    let raw = b"GET /p HTTP/1.1\r\nHost: h\r\nConnection: keep-alive\r\nX-Forwarded-For: 1.1.1.1\r\nReferer: https://a.example/p\r\n\r\n".to_vec();
    let h = parse_http_request(&raw).unwrap();
    let lines = build_header_lines(&h.headers);
    assert_eq!(lines, vec![b"host: h".to_vec(), b"referer: https://test.com/p".to_vec()]);
}

#[test]
fn status_texts_follow_the_table() {
    assert_eq!(get_status_text(200), "OK");
    assert_eq!(get_status_text(404), "Not Found");
    assert_eq!(get_status_text(500), "Internal Server Error");
    assert_eq!(get_status_text(599), "Unknown Status");
}

#[test]
fn response_assembly_recomputes_content_length_and_strips_headers() {
    let headers = vec![
        b"HTTP/1.1 200 OK".to_vec(),
        b"Date: yesterday".to_vec(),
        b"content-encoding: gzip".to_vec(),
        b"Content-Length: 999".to_vec(),
        b"Server: demo".to_vec(),
    ];
    let body = b"abcde".to_vec();
    let out = assemble_response(200, &headers, &body);
    assert_eq!(
        out,
        b"HTTP/1.1 200 OK\r\nServer: demo\r\nContent-Length: 5\r\n\r\nabcde".to_vec()
    );
}

#[test]
fn response_assembly_renders_unknown_codes() {
    let out = assemble_response(777, &vec![], &Vec::new());
    assert_eq!(out, b"HTTP/1.1 777 Unknown Status\r\nContent-Length: 0\r\n\r\n".to_vec());
}

#[test]
fn network_commands_are_exact() {
    assert_eq!(
        add_address_command(b"2001:db8::5", 64, b"eth0"),
        b"ip addr add 2001:db8::5/64 dev eth0".to_vec()
    );
    assert_eq!(
        del_address_command(b"2001:db8::5", 64, b"eth0"),
        b"ip addr del 2001:db8::5/64 dev eth0".to_vec()
    );
    assert_eq!(
        probe_route_command(b"2001:db8::5", b"fe80::1"),
        b"traceroute -m 10 -s 2001:db8::5 fe80::1".to_vec()
    );
}

#[test]
fn connect_request_and_reply_check() {
    assert_eq!(
        build_connect_request(b"origin.test:443"),
        b"CONNECT origin.test:443 HTTP/1.1\r\nHost: origin.test:443\r\n\r\n".to_vec()
    );
    assert!(proxy_reply_established(b"HTTP/1.1 200 Connection established\r\n\r\n"));
    assert!(!proxy_reply_established(b"HTTP/1.1 403 Forbidden\r\n\r\n"));
}

#[test]
fn header_terminator_detection() {
    assert!(has_header_terminator(b"GET / HTTP/1.1\r\n\r\n"));
    assert!(!has_header_terminator(b"GET / HTTP/1.1\r\n"));
}

#[test]
fn referer_rewrite_works_mid_string() {
    assert_eq!(
        rewrite_referer(b"see https://a.b/c end"),
        b"see https://test.com/c end".to_vec()
    );
}

#[test]
fn referer_with_empty_host_is_unchanged() {
    assert_eq!(rewrite_referer(b"https:///path"), b"https:///path".to_vec());
}

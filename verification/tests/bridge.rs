use spooky_edge::bridge::{build_h2_request, is_hop_header, BridgeError};
use spooky_edge::response::{build_h3_response_headers, build_simple_response_headers};

fn hdr(name: &str, value: &str) -> (Vec<u8>, Vec<u8>) {
    (name.as_bytes().to_vec(), value.as_bytes().to_vec())
}

#[test]
fn bridge_builds_the_expected_request() {
    let headers = vec![
        hdr(":method", "GET"),
        hdr(":path", "/x"),
        hdr("accept", "*/*"),
        hdr("content-length", "999"),
        hdr("connection", "keep-alive"),
    ];
    let req = build_h2_request("10.0.0.1:8080", "GET", "/x", &headers, b"hi").unwrap();
    assert_eq!(req.method, b"GET".to_vec());
    assert_eq!(req.uri, b"http://10.0.0.1:8080/x".to_vec());
    assert_eq!(req.body, b"hi".to_vec());
    // pseudo-headers, the stale content length and the hop header are gone;
    // a host and a fresh content length appear
    assert_eq!(
        req.headers,
        vec![
            hdr("accept", "*/*"),
            hdr("host", "10.0.0.1:8080"),
            hdr("content-length", "2"),
        ]
    );
}

#[test]
fn bridge_keeps_a_client_host_and_empty_path_becomes_root() {
    let headers = vec![hdr("Host", "example.net")];
    let req = build_h2_request("10.0.0.1:8080", "GET", "", &headers, b"").unwrap();
    assert_eq!(req.uri, b"http://10.0.0.1:8080/".to_vec());
    // the client named a host, so none is added; the body is empty, so no
    // content length is added either
    assert_eq!(req.headers, vec![hdr("Host", "example.net")]);
}

#[test]
fn bridge_rejects_bad_method() {
    let r = build_h2_request("10.0.0.1:8080", "GE T", "/", &[], b"");
    assert!(matches!(r, Err(BridgeError::InvalidMethod)));
}

#[test]
fn bridge_rejects_bad_uri() {
    let r = build_h2_request("10.0.0.1 :8080", "GET", "/", &[], b"");
    assert!(matches!(r, Err(BridgeError::InvalidUri)));
}

#[test]
fn bridge_rejects_bad_header_name() {
    let headers = vec![(b"bad name".to_vec(), b"v".to_vec())];
    let r = build_h2_request("10.0.0.1:8080", "GET", "/", &headers, b"");
    assert!(matches!(r, Err(BridgeError::InvalidHeader)));
}

#[test]
fn bridge_rejects_bad_header_value() {
    let headers = vec![(b"x-name".to_vec(), vec![0u8, 10u8])];
    let r = build_h2_request("10.0.0.1:8080", "GET", "/", &headers, b"");
    assert!(matches!(r, Err(BridgeError::InvalidHeader)));
}

#[test]
fn bridge_is_idempotent() {
    let headers = vec![hdr("x-a", "1"), hdr(":path", "/y")];
    let r1 = build_h2_request("b:1", "POST", "/y", &headers, b"abc").unwrap();
    let r2 = build_h2_request("b:1", "POST", "/y", &headers, b"abc").unwrap();
    assert_eq!(r1.method, r2.method);
    assert_eq!(r1.uri, r2.uri);
    assert_eq!(r1.headers, r2.headers);
    assert_eq!(r1.body, r2.body);
}

#[test]
fn hop_headers_are_recognised() {
    assert!(is_hop_header("connection"));
    assert!(is_hop_header("keep-alive"));
    assert!(is_hop_header("proxy-connection"));
    assert!(is_hop_header("transfer-encoding"));
    assert!(is_hop_header("upgrade"));
    assert!(!is_hop_header("host"));
    assert!(!is_hop_header("content-length"));
}

#[test]
fn hop_headers_never_reach_the_egress_request() {
    let headers = vec![
        hdr("Connection", "close"),
        hdr("Keep-Alive", "timeout=5"),
        hdr("proxy-connection", "keep"),
        hdr("Transfer-Encoding", "chunked"),
        hdr("upgrade", "h2c"),
        hdr("x-ok", "1"),
    ];
    let req = build_h2_request("b:1", "GET", "/", &headers, b"").unwrap();
    for (name, _) in &req.headers {
        let lower: Vec<u8> = name.iter().map(|b| b.to_ascii_lowercase()).collect();
        assert!(!is_hop_header(std::str::from_utf8(&lower).unwrap()));
        assert!(!name.starts_with(b":"));
    }
}

#[test]
fn response_headers_strip_hops_and_renumber_length() {
    let headers = vec![
        hdr("content-type", "text/plain"),
        hdr("connection", "close"),
        hdr("content-length", "999"),
        hdr("x-id", "7"),
    ];
    let out = build_h3_response_headers(200, &headers, 2);
    assert_eq!(
        out,
        vec![
            hdr(":status", "200"),
            hdr("content-type", "text/plain"),
            hdr("x-id", "7"),
            hdr("content-length", "2"),
        ]
    );
}

#[test]
fn simple_response_headers_shape() {
    let out = build_simple_response_headers(503, 17);
    assert_eq!(
        out,
        vec![
            hdr(":status", "503"),
            hdr("content-type", "text/plain"),
            hdr("content-length", "17"),
        ]
    );
}

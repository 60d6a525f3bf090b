use websocket_rs::error::WsError;
use websocket_rs::handshake::{
    build_request, build_response, bytes_eq, check_server_response, contains_bytes,
    extract_client_key, extract_server_key, find_header_end, header_lookup,
    server_handshake_response, HandshakeBuffer, HeaderLookup,
};
use websocket_rs::keys::{generate_key, process_key};

#[test]
fn websocket_it_should_processed_key() {
    let client_key = "dGhlIHNhbXBsZSBub25jZQ==";
    let expected = "s3pPLMBiTxaQ9kYGzzhZRbK+xOo=";

    let result = process_key(client_key);
    assert_eq!(result, expected);
}

#[test]
fn websocket_server_it_should_processed_key() {
    let client_key = "dGhlIHNhbXBsZSBub25jZQ==";
    let expected = "s3pPLMBiTxaQ9kYGzzhZRbK+xOo=";

    let result = process_key(client_key);
    assert_eq!(result, expected);
}

#[test]
fn generated_keys_are_base64_of_sixteen_bytes() {
    let key = generate_key();
    // 16 bytes make 24 characters of padded Base64.
    assert_eq!(key.len(), 24);
    assert!(key.ends_with('=') || key.chars().all(|c| c != ' '));
}

#[test]
fn header_values_are_found_and_trimmed() {
    let head = b"HTTP/1.1 101 Switching Protocols\r\nUpgrade: websocket\r\nSec-WebSocket-Accept:   abc+def=  \r\nConnection: Upgrade";
    match header_lookup(head, b"Sec-WebSocket-Accept") {
        HeaderLookup::Found(v) => assert_eq!(v, b"abc+def=".to_vec()),
        other => panic!("expected the accept value, got {:?}", other_name(&other)),
    }
}

fn other_name(r: &HeaderLookup) -> &'static str {
    match r {
        HeaderLookup::Found(_) => "found",
        HeaderLookup::Malformed(_) => "malformed",
        HeaderLookup::Missing => "missing",
    }
}

#[test]
fn header_values_may_hold_colons() {
    let head = b"Host: 127.0.0.1:8000\r\nUpgrade: websocket";
    match header_lookup(head, b"Host") {
        HeaderLookup::Found(v) => assert_eq!(v, b"127.0.0.1:8000".to_vec()),
        other => panic!("expected the host value, got {:?}", other_name(&other)),
    }
}

#[test]
fn a_missing_accept_header_fails_without_panicking() {
    let head = b"HTTP/1.1 101 Switching Protocols\r\nUpgrade: websocket\r\nConnection: Upgrade";
    assert_eq!(
        extract_server_key(head),
        Err(WsError::MissingSecWebSocketAcceptHeader)
    );
    assert_eq!(
        check_server_response(head, "dGhlIHNhbXBsZSBub25jZQ=="),
        Err(WsError::MissingSecWebSocketAcceptHeader)
    );
}

#[test]
fn a_wrong_accept_value_fails_with_a_key_mismatch() {
    let head = b"HTTP/1.1 101 Switching Protocols\r\nSec-WebSocket-Accept: bogus\r\n";
    assert_eq!(
        check_server_response(head, "dGhlIHNhbXBsZSBub25jZQ=="),
        Err(WsError::InvalidHandshakeKey)
    );
}

#[test]
fn the_right_accept_value_passes() {
    let key = "dGhlIHNhbXBsZSBub25jZQ==";
    let head = b"HTTP/1.1 101 Switching Protocols\r\nSec-WebSocket-Accept: s3pPLMBiTxaQ9kYGzzhZRbK+xOo=\r\n";
    assert_eq!(check_server_response(head, key), Ok(()));
}

#[test]
fn a_colonless_header_line_is_malformed() {
    let head = b"GET / HTTP/1.1\r\nSec-WebSocket-Key value-without-colon\r\n";
    match extract_client_key(head) {
        Err(WsError::Header(line)) => {
            assert_eq!(line, "Sec-WebSocket-Key value-without-colon");
        }
        other => panic!("expected a malformed-header error, got {:?}", other),
    }
}

#[test]
fn the_client_key_is_extracted() {
    let head = b"GET / HTTP/1.1\r\nHost: example\r\nSec-WebSocket-Key: dGhlIHNhbXBsZSBub25jZQ==\r\nUpgrade: websocket";
    assert_eq!(
        extract_client_key(head),
        Ok(b"dGhlIHNhbXBsZSBub25jZQ==".to_vec())
    );
    let empty = b"GET / HTTP/1.1\r\nHost: example";
    assert_eq!(
        extract_client_key(empty),
        Err(WsError::MissingSecWebSocketKeyHeader)
    );
}

#[test]
fn the_request_carries_every_required_header() {
    let text = build_request("/chat", "example.net:9000", "dGhlIHNhbXBsZSBub25jZQ==");
    assert_eq!(
        text,
        "GET /chat HTTP/1.1\r\nHost: example.net:9000\r\nUpgrade: websocket\r\nConnection: Upgrade\r\nSec-WebSocket-Version: 13\r\nSec-WebSocket-Key: dGhlIHNhbXBsZSBub25jZQ==\r\n\r\n"
    );
}

#[test]
fn the_response_carries_the_derived_token() {
    let text = build_response("dGhlIHNhbXBsZSBub25jZQ==");
    assert_eq!(
        text,
        "HTTP/1.1 101 Switching Protocols\r\nUpgrade: websocket\r\nConnection: Upgrade\r\nSec-WebSocket-Accept: s3pPLMBiTxaQ9kYGzzhZRbK+xOo=\r\n\r\n"
    );
}

#[test]
fn request_and_response_validate_against_each_other() {
    let nonce = generate_key();
    let request = build_request("/", "127.0.0.1:8000", &nonce);
    let key = extract_client_key(request.as_bytes()).unwrap();
    let response = build_response(std::str::from_utf8(&key).unwrap());
    let head_end = find_header_end(response.as_bytes()).unwrap();
    let head = &response.as_bytes()[..head_end];
    assert_eq!(check_server_response(head, &nonce), Ok(()));
}

#[test]
fn bytes_after_the_terminator_are_preserved() {
    let mut buffer = HandshakeBuffer::new();
    buffer.push_chunk(b"HTTP/1.1 101 Switching Protocols\r\nUpgr");
    assert!(buffer.try_split().is_none());
    buffer.push_chunk(b"ade: websocket\r\n\r\n\x81\x05Hello");
    let (head, rest) = buffer.try_split().unwrap();
    assert_eq!(
        head,
        b"HTTP/1.1 101 Switching Protocols\r\nUpgrade: websocket".to_vec()
    );
    assert_eq!(rest, b"\x81\x05Hello".to_vec());
}

#[test]
fn the_terminator_is_not_found_before_it_arrives() {
    assert!(find_header_end(b"GET / HTTP/1.1\r\nHost: x\r\n\r").is_none());
    assert_eq!(find_header_end(b"a\r\n\r\nb"), Some(1));
}

#[test]
fn byte_helpers_compare_and_search() {
    assert!(bytes_eq(b"abc", b"abc"));
    assert!(!bytes_eq(b"abc", b"abd"));
    assert!(!bytes_eq(b"abc", b"ab"));
    assert!(contains_bytes(b"Sec-WebSocket-Key: x", b"WebSocket"));
    assert!(!contains_bytes(b"Sec-WebSocket-Key: x", b"Accept"));
}

#[test]
fn the_server_side_handshake_builds_the_full_response() {
    let head = b"GET / HTTP/1.1\r\nHost: example\r\nSec-WebSocket-Key: dGhlIHNhbXBsZSBub25jZQ==\r\nUpgrade: websocket";
    let response = server_handshake_response(head).unwrap();
    assert_eq!(
        response,
        "HTTP/1.1 101 Switching Protocols\r\nUpgrade: websocket\r\nConnection: Upgrade\r\nSec-WebSocket-Accept: s3pPLMBiTxaQ9kYGzzhZRbK+xOo=\r\n\r\n"
    );
    let bare = b"GET / HTTP/1.1\r\nHost: example";
    assert_eq!(
        server_handshake_response(bare),
        Err(WsError::MissingSecWebSocketKeyHeader)
    );
}

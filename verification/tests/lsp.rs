use zedit::lsp::protocol::{path_to_uri, uri_to_path, DiagnosticSeverity};
use zedit::lsp::transport::{find_header_end, frame_message, parse_content_length, FrameError, LspTransport};

#[test]
fn test_path_to_uri() {
    assert_eq!(path_to_uri("/home/user/test.rs"), "file:///home/user/test.rs");
}

#[test]
fn test_uri_to_path() {
    assert_eq!(uri_to_path("file:///home/user/test.rs"), Some("/home/user/test.rs".to_string()));
    assert_eq!(uri_to_path("https://example.com"), None);
}

#[test]
fn test_find_header_end() {
    let data = b"Content-Length: 10\r\n\r\n{\"test\":1}";
    assert_eq!(find_header_end(data), Some(18));
}

#[test]
fn test_find_header_end_not_found() {
    let data = b"Content-Length: 10\r\n";
    assert_eq!(find_header_end(data), None);
}

#[test]
fn test_parse_content_length() {
    let header = b"Content-Length: 42";
    assert_eq!(parse_content_length(header), Some(42));
}

#[test]
fn test_parse_content_length_case_insensitive() {
    let header = b"content-length: 100";
    assert_eq!(parse_content_length(header), Some(100));
}

#[test]
fn test_parse_content_length_missing() {
    let header = b"Content-Type: application/json";
    assert_eq!(parse_content_length(header), None);
}

// ---------------------------------------------------------------------------

#[test]
fn test_try_parse_complete_message() {
    let mut transport = LspTransport::from_parts(-1, -1, -1);
    let body = r#"{"jsonrpc":"2.0","method":"test"}"#;
    transport.receive(&frame_message(body));
    assert!(transport.message_fits());
    let result = transport.try_parse_message().unwrap();
    assert_eq!(result.as_deref(), Some(body));
    assert_eq!(transport.try_parse_message(), Ok(None));
}

#[test]
fn test_try_parse_incomplete_message() {
    let mut transport = LspTransport::from_parts(-1, -1, -1);
    transport.receive(b"Content-Length: 100\r\n\r\n{\"partial");
    let result = transport.try_parse_message().unwrap();
    assert!(result.is_none());
}

#[test]
fn content_length_on_later_line() {
    let header = b"Content-Type: x\r\n  CONTENT-LENGTH:  7 ";
    assert_eq!(parse_content_length(header), Some(7));
    assert_eq!(parse_content_length(b"Content-Length: x7"), None);
}

#[test]
fn malformed_header_is_dropped() {
    let mut t = LspTransport::from_parts(3, 4, 5);
    t.receive(b"Bogus: 1\r\n\r\nContent-Length: 2\r\n\r\nhi");
    assert_eq!(t.try_parse_message(), Err(FrameError::MalformedHeader));
    assert_eq!(t.try_parse_message(), Ok(Some("hi".to_string())));
    assert_eq!(t.stdout_fd(), 5);
    assert!(!t.is_dead());
    t.mark_dead();
    assert!(t.is_dead());
}

#[test]
fn frame_counts_bytes() {
    assert_eq!(frame_message("é"), b"Content-Length: 2\r\n\r\n\xc3\xa9".to_vec());
}

#[test]
fn severity_codes() {
    assert_eq!(DiagnosticSeverity::Error.code(), 1);
    assert_eq!(DiagnosticSeverity::Hint.code(), 4);
}

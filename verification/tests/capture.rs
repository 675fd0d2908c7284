//! Redirect-capture behaviour on whole connections.

use spotifalc::http::ConnectionOutcome;
use spotifalc::http::RedirectCapture;

fn expect_captured(out: ConnectionOutcome) -> (String, String) {
    match out {
        ConnectionOutcome::Captured { target, response } => (target, response),
        ConnectionOutcome::Rejected { .. } => panic!("expected a capture"),
    }
}

fn expect_rejected(out: ConnectionOutcome) -> String {
    match out {
        ConnectionOutcome::Captured { .. } => panic!("expected a rejection"),
        ConnectionOutcome::Rejected { response } => response,
    }
}

#[test]
fn well_formed_request_captures_exact_target() {
    let mut cap = RedirectCapture::begin();
    assert!(cap.is_listening());
    let request = b"GET /callback?code=abc123&state=xyz HTTP/1.1\r\nHost: localhost\r\n\r\n";
    let (target, response) = expect_captured(cap.on_connection(request));
    assert_eq!(target, "/callback?code=abc123&state=xyz");
    assert!(response.starts_with("HTTP/1.1 200 OK\r\n\r\n"));
    assert!(!cap.is_listening());
}

#[test]
fn zero_padded_buffer_still_captures() {
    // The listener reads into a fixed, zero-initialized buffer; trailing
    // NUL bytes are part of what the parser sees.
    let mut buffer = [0u8; 1000];
    let request = b"GET /callback?code=ok HTTP/1.1\r\n\r\n";
    buffer[..request.len()].copy_from_slice(request);
    let mut cap = RedirectCapture::begin();
    let (target, _) = expect_captured(cap.on_connection(&buffer));
    assert_eq!(target, "/callback?code=ok");
    assert!(!cap.is_listening());
}

#[test]
fn malformed_request_answers_400_and_keeps_listening() {
    let mut cap = RedirectCapture::begin();
    let response = expect_rejected(cap.on_connection(b"GET"));
    assert_eq!(
        response,
        "HTTP/1.1 400 Bad Request\r\n\r\n400 - Bad Request - Malformed request"
    );
    assert!(cap.is_listening());
    // The real redirect still goes through afterwards.
    let (target, _) = expect_captured(cap.on_connection(b"GET /callback?code=later HTTP/1.1"));
    assert_eq!(target, "/callback?code=later");
    assert!(!cap.is_listening());
}

#[test]
fn empty_request_keeps_listening() {
    let mut cap = RedirectCapture::begin();
    expect_rejected(cap.on_connection(b""));
    assert!(cap.is_listening());
    expect_rejected(cap.on_connection(b"   \r\n  "));
    assert!(cap.is_listening());
}

#[test]
fn invalid_utf8_answers_400_and_keeps_listening() {
    let mut cap = RedirectCapture::begin();
    let response = expect_rejected(cap.on_connection(&[0xff, 0xfe, 0x41]));
    assert_eq!(
        response,
        "HTTP/1.1 400 Bad Request\r\n\r\n400 - Bad Request - Invalid UTF-8 sequence"
    );
    assert!(cap.is_listening());
}

#[test]
fn single_token_request_is_malformed() {
    let mut cap = RedirectCapture::begin();
    expect_rejected(cap.on_connection(b"OPTIONS\r\n"));
    assert!(cap.is_listening());
}

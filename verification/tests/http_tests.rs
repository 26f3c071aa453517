use saba_core::build_request;
use saba_core::Error;
use saba_core::Header;
use saba_core::HttpClient;
use saba_core::HttpResponse;

#[test]
fn test_response_with_header_and_body() {
    let raw = "HTTP/1.1 200 OK\r\nContent-Type: text/html\r\n\r\n<html></html>".to_string();
    let resp = HttpResponse::new(raw).unwrap();
    assert_eq!(resp.version(), "HTTP/1.1".to_string());
    assert_eq!(resp.status_code(), 200);
    assert_eq!(resp.reason(), "OK".to_string());
    let headers = resp.headers();
    assert_eq!(headers.len(), 1);
    assert_eq!(headers[0].name(), "Content-Type".to_string());
    assert_eq!(headers[0].value(), "text/html".to_string());
    assert_eq!(resp.body(), "<html></html>".to_string());
}

#[test]
fn test_response_empty() {
    let e = HttpResponse::new("".to_string()).unwrap_err();
    assert!(matches!(e, Error::EmptyResponse));
}

#[test]
fn test_response_invalid_status_code() {
    let e = HttpResponse::new("HTTP/1.1 ABC OK\r\n\r\n".to_string()).unwrap_err();
    assert!(matches!(e, Error::InvalidStatusCode));
}

#[test]
fn test_response_skips_header_line_without_colon() {
    let raw = "HTTP/1.1 200 OK\r\nBadHeader\r\nContent-Type: text/html\r\n\r\nbody".to_string();
    let resp = HttpResponse::new(raw).unwrap();
    let headers = resp.headers();
    assert_eq!(headers.len(), 1);
    assert_eq!(headers[0].name(), "Content-Type".to_string());
    assert_eq!(headers[0].value(), "text/html".to_string());
    assert_eq!(resp.body(), "body".to_string());
}

#[test]
fn test_response_line_feed_only() {
    let raw = "HTTP/1.1 200 OK\nContent-Type: text/html\n\n<html></html>".to_string();
    let resp = HttpResponse::new(raw).unwrap();
    assert_eq!(resp.version(), "HTTP/1.1".to_string());
    assert_eq!(resp.status_code(), 200);
    assert_eq!(resp.reason(), "OK".to_string());
    let headers = resp.headers();
    assert_eq!(headers.len(), 1);
    assert_eq!(headers[0].name(), "Content-Type".to_string());
    assert_eq!(headers[0].value(), "text/html".to_string());
    assert_eq!(resp.body(), "<html></html>".to_string());
}

#[test]
fn test_response_malformed_status_line() {
    let e = HttpResponse::new("HTTP/1.1\r\n\r\n".to_string()).unwrap_err();
    assert!(matches!(e, Error::MalformedStatusLine));
}

#[test]
fn test_response_status_code_too_low() {
    let e = HttpResponse::new("HTTP/1.1 99 Low\r\n\r\n".to_string()).unwrap_err();
    assert!(matches!(e, Error::InvalidStatusCode));
}

#[test]
fn test_response_status_code_too_high() {
    let e = HttpResponse::new("HTTP/1.1 1000 Big\r\n\r\n".to_string()).unwrap_err();
    assert!(matches!(e, Error::InvalidStatusCode));
}

#[test]
fn test_response_without_reason() {
    let resp = HttpResponse::new("HTTP/1.1 301\r\n\r\n".to_string()).unwrap();
    assert_eq!(resp.status_code(), 301);
    assert_eq!(resp.reason(), "".to_string());
}

#[test]
fn test_response_reason_keeps_spaces() {
    let resp = HttpResponse::new("HTTP/1.1 404 Not Found\r\n\r\n".to_string()).unwrap();
    assert_eq!(resp.status_code(), 404);
    assert_eq!(resp.reason(), "Not Found".to_string());
}

#[test]
fn test_response_duplicate_headers_kept_in_order() {
    let raw = "HTTP/1.1 200 OK\r\nSet-Cookie: a=1\r\nSet-Cookie: b=2\r\n\r\n".to_string();
    let resp = HttpResponse::new(raw).unwrap();
    let headers = resp.headers();
    assert_eq!(headers.len(), 2);
    assert_eq!(headers[0].name(), "Set-Cookie".to_string());
    assert_eq!(headers[0].value(), "a=1".to_string());
    assert_eq!(headers[1].name(), "Set-Cookie".to_string());
    assert_eq!(headers[1].value(), "b=2".to_string());
}

#[test]
fn test_response_header_value_trimmed() {
    let raw = "HTTP/1.1 200 OK\r\nX-Padded: \t a b \t\r\n\r\n".to_string();
    let resp = HttpResponse::new(raw).unwrap();
    let headers = resp.headers();
    assert_eq!(headers.len(), 1);
    assert_eq!(headers[0].name(), "X-Padded".to_string());
    assert_eq!(headers[0].value(), "a b".to_string());
}

#[test]
fn test_response_body_kept_verbatim() {
    let raw = "HTTP/1.1 200 OK\r\n\r\nline one\r\nline two\n".to_string();
    let resp = HttpResponse::new(raw).unwrap();
    assert_eq!(resp.body(), "line one\r\nline two\n".to_string());
}

#[test]
fn test_response_without_separator_has_empty_body() {
    let raw = "HTTP/1.1 200 OK\r\nA: b".to_string();
    let resp = HttpResponse::new(raw).unwrap();
    let headers = resp.headers();
    assert_eq!(headers.len(), 1);
    assert_eq!(headers[0].name(), "A".to_string());
    assert_eq!(headers[0].value(), "b".to_string());
    assert_eq!(resp.body(), "".to_string());
}

#[test]
fn test_header_new() {
    let h = Header::new("Content-Length".to_string(), "42".to_string());
    assert_eq!(h.name(), "Content-Length".to_string());
    assert_eq!(h.value(), "42".to_string());
}

#[test]
fn test_build_request_with_empty_path() {
    let req = build_request("example.com", "");
    assert_eq!(
        req,
        "GET / HTTP/1.1\r\nHost: example.com\r\nAccept: text/html\r\nConnection: close\r\n\r\n"
            .to_string()
    );
}

#[test]
fn test_build_request_with_path() {
    let req = build_request("example.com", "index.html");
    assert!(req.starts_with("GET /index.html HTTP/1.1\r\n"));
    assert!(req.ends_with("\r\nHost: example.com\r\nAccept: text/html\r\nConnection: close\r\n\r\n"));
}

#[test]
fn test_client_new() {
    let client = HttpClient::new();
    let copy = client.clone();
    assert_eq!(format!("{:?}", client), format!("{:?}", copy));
}

#[test]
fn test_error_messages() {
    assert_eq!(
        Error::UnsupportedScheme.message(),
        "Only HTTP schema is supported.".to_string()
    );
    assert_eq!(Error::MissingHost.message(), "No host is given.".to_string());
    assert_eq!(Error::InvalidPort.message(), "The port is not a number.".to_string());
    assert_eq!(
        Error::Network("connect failed".to_string()).message(),
        "connect failed".to_string()
    );
    assert_eq!(Error::EmptyResponse.message(), "The response is empty.".to_string());
    assert_eq!(
        Error::MalformedStatusLine.message(),
        "The status line is malformed.".to_string()
    );
    assert_eq!(
        Error::InvalidStatusCode.message(),
        "The status code is not a number in range.".to_string()
    );
}

use saba_core::Error;
use saba_core::Url;

#[test]
fn test_is_http() {
    let mut url = Url::new("http://example.com:8080".to_string());
    assert_eq!(url.is_http(), true);
}

#[test]
fn test_is_not_http() {
    let mut url = Url::new("https://example.com:8080".to_string());
    assert_eq!(url.is_http(), false);
}

#[test]
fn test_extract_host() {
    let mut url = Url::new("http://example.com".to_string());
    assert_eq!(url.extract_host(), "example.com".to_string());
}

#[test]
fn test_extract_host_with_port() {
    let mut url = Url::new("http://example.com:8080".to_string());
    assert_eq!(url.extract_host(), "example.com".to_string());
}

#[test]
fn test_extract_host_with_path() {
    let mut url = Url::new("http://example.com/path".to_string());
    assert_eq!(url.extract_host(), "example.com".to_string());
}

#[test]
fn test_extract_port() {
    let mut url = Url::new("http://example.com:8080".to_string());
    assert_eq!(url.extract_port(), "8080".to_string());
}

#[test]
fn test_extract_port_with_path() {
    let mut url = Url::new("http://example.com:8080/path".to_string());
    assert_eq!(url.extract_port(), "8080".to_string());
}

#[test]
fn test_extract_port_without_port() {
    let mut url = Url::new("http://example.com".to_string());
    assert_eq!(url.extract_port(), "80".to_string());
}

#[test]
fn test_extract_path_without_path() {
    let mut url = Url::new("http://example.com".to_string());
    assert_eq!(url.extract_path(), "".to_string());
}

#[test]
fn test_extract_path_with_searchpart() {
    let mut url = Url::new("http://example.com/path/hoge?hoge=hoge".to_string());
    assert_eq!(url.extract_path(), "path/hoge".to_string());
}

#[test]
fn test_extract_path_with_port() {
    let mut url = Url::new("http://example.com:8080/path/hoge".to_string());
    assert_eq!(url.extract_path(), "path/hoge".to_string());
}

#[test]
fn test_extract_searchpart() {
    let mut url = Url::new("http://example.com/path/hoge?hoge=hoge".to_string());
    assert_eq!(url.extract_searchpart(), "hoge=hoge".to_string());
}

#[test]
fn test_extract_searchpart_without_searchpart() {
    let mut url = Url::new("http://example.com/path/hoge".to_string());
    assert_eq!(url.extract_searchpart(), "".to_string());
}

#[test]
fn test_extract_searchpart_without_path() {
    let mut url = Url::new("http://example.com:8080".to_string());
    assert_eq!(url.extract_searchpart(), "".to_string());
}

#[test]
fn test_parse() {
    let mut url = Url::new("http://example.com:8080/path/hoge?hoge=hoge".to_string());
    let parsed = url.parse().unwrap();
    assert_eq!(parsed.get_host(), "example.com".to_string());
    assert_eq!(parsed.get_port(), "8080".to_string());
    assert_eq!(parsed.get_path(), "path/hoge".to_string());
    assert_eq!(parsed.get_searchpart(), "hoge=hoge".to_string());
}

#[test]
fn test_parse_with_https() {
    let mut url = Url::new("https://example.com:8080/path/hoge?hoge=hoge".to_string());
    let e = url.parse().unwrap_err();
    assert!(matches!(e, Error::UnsupportedScheme));
    assert_eq!(e.message(), "Only HTTP schema is supported.".to_string());
}

#[test]
fn test_parse_unsupported_scheme_bare() {
    let mut url = Url::new("https://example.com".to_string());
    let e = url.parse().unwrap_err();
    assert!(matches!(e, Error::UnsupportedScheme));
}

#[test]
fn test_parse_default_port_and_empty_parts() {
    let mut url = Url::new("http://example.com".to_string());
    let parsed = url.parse().unwrap();
    assert_eq!(parsed.get_host(), "example.com".to_string());
    assert_eq!(parsed.get_port(), "80".to_string());
    assert_eq!(parsed.get_path(), "".to_string());
    assert_eq!(parsed.get_searchpart(), "".to_string());
}

#[test]
fn test_parse_without_searchpart() {
    let mut url = Url::new("http://example.com/path/hoge".to_string());
    let parsed = url.parse().unwrap();
    assert_eq!(parsed.get_searchpart(), "".to_string());
}

#[test]
fn test_parse_is_idempotent() {
    let mut url = Url::new("http://example.com:8080/path/hoge?hoge=hoge".to_string());
    let first = url.parse().unwrap();
    let second = url.parse().unwrap();
    assert_eq!(first.get_host(), second.get_host());
    assert_eq!(first.get_port(), second.get_port());
    assert_eq!(first.get_path(), second.get_path());
    assert_eq!(first.get_searchpart(), second.get_searchpart());
}

#[test]
fn test_parse_missing_host() {
    let mut url = Url::new("http://".to_string());
    assert!(matches!(url.parse().unwrap_err(), Error::MissingHost));
}

#[test]
fn test_parse_missing_host_with_port() {
    let mut url = Url::new("http://:8080/path".to_string());
    assert!(matches!(url.parse().unwrap_err(), Error::MissingHost));
}

#[test]
fn test_parse_invalid_port() {
    let mut url = Url::new("http://example.com:abc/path".to_string());
    assert!(matches!(url.parse().unwrap_err(), Error::InvalidPort));
}

#[test]
fn test_parse_empty_port_text() {
    let mut url = Url::new("http://example.com:".to_string());
    assert!(matches!(url.parse().unwrap_err(), Error::InvalidPort));
}

#[test]
fn test_parse_leaves_fields_untouched_on_error() {
    let mut url = Url::new("https://example.com:8080/path".to_string());
    assert!(url.parse().is_err());
    assert_eq!(url.get_host(), "".to_string());
    assert_eq!(url.get_port(), "".to_string());
    assert_eq!(url.get_path(), "".to_string());
    assert_eq!(url.get_searchpart(), "".to_string());
}

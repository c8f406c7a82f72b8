use rustic::parse_headers::{parse_headers, HttpType, ParseError, RequestType};
use rustic::parse_path::parse_path;
use rustic::parse_url::parse_url_param;
use rustic::string_map::StringMap;

#[test]
pub fn test_parse_headers() {
    let headers = vec![
        "GET /test HTTP/1.1".to_string(),
        "Host: localhost:8002".to_string(),
        "User-Agent: curl/8.2.1".to_string(),
        "Accept: */*".to_string(),
    ];

    let (request_type, http_type, headers_map, url) = parse_headers(headers).unwrap();

    assert_eq!(request_type, RequestType::GET);
    assert_eq!(http_type, HttpType::OnePointOne);
    assert_eq!(headers_map.get("Host"), Some(&"localhost:8002".to_string()));
    assert_eq!(
        headers_map.get("User-Agent"),
        Some(&"curl/8.2.1".to_string())
    );
    assert_eq!(url, Some("/test".to_string()));
}

#[test]
fn test_parse_headers_empty_block() {
    assert_eq!(parse_headers(vec![]), Err(ParseError::NoHeaders));
}

#[test]
fn test_parse_headers_blank_request_line() {
    let headers = vec!["   ".to_string()];
    assert_eq!(parse_headers(headers), Err(ParseError::InvalidRequestLine));
}

#[test]
fn test_parse_headers_missing_version() {
    let headers = vec!["GET /test".to_string()];
    assert_eq!(parse_headers(headers), Err(ParseError::InvalidVersion));
}

#[test]
fn test_parse_headers_unrecognized_method() {
    let headers = vec!["FOO /x HTTP/1.1".to_string()];
    let (request_type, http_type, _, url) = parse_headers(headers).unwrap();
    assert_eq!(request_type, RequestType::Unrecognized("FOO".to_string()));
    assert_eq!(http_type, HttpType::OnePointOne);
    assert_eq!(url, Some("/x".to_string()));
}

#[test]
fn test_parse_headers_unsupported_version() {
    let headers = vec!["GET /x HTTP/1.0".to_string()];
    let (_, http_type, _, _) = parse_headers(headers).unwrap();
    assert_eq!(http_type, HttpType::NotSupported("HTTP/1.0".to_string()));
}

#[test]
fn test_parse_headers_duplicate_name_keeps_last() {
    let headers = vec![
        "GET / HTTP/1.1".to_string(),
        "X-Tag: first".to_string(),
        "X-Tag: second".to_string(),
    ];
    let (_, _, headers_map, _) = parse_headers(headers).unwrap();
    assert_eq!(headers_map.get("X-Tag"), Some(&"second".to_string()));
    assert_eq!(headers_map.len(), 1);
}

#[test]
fn test_parse_headers_line_without_separator_dropped() {
    let headers = vec![
        "GET / HTTP/1.1".to_string(),
        "not a header line".to_string(),
        "Host: h".to_string(),
    ];
    let (_, _, headers_map, _) = parse_headers(headers).unwrap();
    assert_eq!(headers_map.len(), 1);
    assert_eq!(headers_map.get("Host"), Some(&"h".to_string()));
}

#[test]
fn test_parse_path_simple() {
    assert_eq!(
        parse_path("https://example.com/path/to/resource/"),
        Some("path/to/resource")
    );
}

#[test]
fn test_parse_path_no_path() {
    assert_eq!(parse_path("https://example.com"), None);
}

#[test]
fn test_parse_path_no_scheme() {
    assert_eq!(
        parse_path("example.com/path/to/resource"),
        Some("path/to/resource")
    );
}

#[test]
fn test_parse_path_root_only() {
    assert_eq!(parse_path("https://example.com/"), None);
    assert_eq!(parse_path("/"), None);
}

#[test]
fn test_parse_path_bare_target() {
    assert_eq!(parse_path("/test"), Some("test"));
}

#[test]
fn test_single_param() {
    let url = "http://example.com/?key=value";
    let result1 = parse_url_param(url);
    let mut expected = StringMap::new();
    expected.insert("key".to_string(), "value".to_string());
    assert_eq!(result1, expected);
}

#[test]
fn test_multiple_param() {
    let url = "http://example.com/?key1=value1&key2=value2&key3=value3";
    let result = parse_url_param(url);
    let mut expected = StringMap::new();
    expected.insert("key1".to_string(), "value1".to_string());
    expected.insert("key2".to_string(), "value2".to_string());
    expected.insert("key3".to_string(), "value3".to_string());
    assert_eq!(result, expected);
}

#[test]
fn test_no_param() {
    let url = "http://example.com/";
    let result = parse_url_param(url);
    let expected = StringMap::new();
    assert_eq!(result, expected);
}

#[test]
fn test_param_duplicate_key_keeps_last() {
    let result = parse_url_param("http://x/?k=1&k=2");
    assert_eq!(result.get("k"), Some(&"2".to_string()));
    assert_eq!(result.len(), 1);
}

#[test]
fn test_param_segment_without_eq_dropped() {
    let result = parse_url_param("http://x/?flag&k=v");
    assert_eq!(result.len(), 1);
    assert_eq!(result.get("k"), Some(&"v".to_string()));
}

#[test]
fn test_param_no_percent_decoding() {
    let result = parse_url_param("http://x/?k=a%20b");
    assert_eq!(result.get("k"), Some(&"a%20b".to_string()));
}

use rustic::http11_response::{
    get_current_utc_date, hashmap_to_json, render_response, write_header, write_status_header,
    Response,
};
use rustic::string_map::StringMap;

#[test]
fn test_write_status_header() {
    let status_line = write_status_header(200, "OK");
    assert_eq!(status_line, "HTTP/1.1 200 OK \r\n");
}

#[test]
fn test_write_header() {
    let mut headers = StringMap::new();
    headers.insert("Content-Type".to_string(), "text/plain".to_string());

    let header_string = write_header(&mut headers, None);
    assert!(header_string.contains("Content-Type: text/plain\r\n"));
    assert!(header_string.contains("Content-Length: 0\r\n"));
}

#[test]
fn test_hashmap_to_json() {
    let mut map = StringMap::new();
    map.insert("key1".to_string(), "value1".to_string());
    map.insert("key2".to_string(), "value2".to_string());

    let json_data = hashmap_to_json(&map);

    assert!(
        json_data == "{\"key1\": \"value1\", \"key2\": \"value2\"}"
            || json_data == "{\"key2\": \"value2\", \"key1\": \"value1\"}"
    );
}

#[test]
fn test_write_header_sets_date_and_content_length() {
    let mut headers = StringMap::new();
    let header_string = write_header(&mut headers, Some("Hello"));
    assert!(header_string.contains("Content-Length: 5\r\n"));
    assert!(header_string.contains("Date: "));
    assert!(header_string.ends_with("\r\n\r\n"));
    assert_eq!(headers.get("Content-Length"), Some(&"5".to_string()));
    assert!(headers.get("Date").is_some());
}

#[test]
fn test_write_header_overwrites_caller_values() {
    let mut headers = StringMap::new();
    headers.insert("Date".to_string(), "yesterday".to_string());
    headers.insert("Content-Length".to_string(), "999".to_string());
    let header_string = write_header(&mut headers, Some("Hi!"));
    assert!(header_string.contains("Content-Length: 3\r\n"));
    assert!(!header_string.contains("yesterday"));
    assert!(!header_string.contains("999"));
}

#[test]
fn test_current_date_is_http_date_shaped() {
    let date = get_current_utc_date();
    assert_eq!(date.len(), 29);
    assert!(date.ends_with(" GMT"));
    assert_eq!(&date[3..5], ", ");
}

#[test]
fn test_render_response_wire_format() {
    let response = Response {
        status_code: 200,
        reason: "OK".to_string(),
        response_body: Some("Hi!".to_string()),
        headers: StringMap::new(),
    };
    let wire = render_response(response);
    assert!(wire.starts_with("HTTP/1.1 200 OK \r\n"));
    assert!(wire.contains("Content-Length: 3\r\n"));
    assert!(wire.ends_with("Hi!"));
}

#[test]
fn test_render_response_without_body() {
    let response = Response {
        status_code: 404,
        reason: "Not Found".to_string(),
        response_body: None,
        headers: StringMap::new(),
    };
    let wire = render_response(response);
    assert!(wire.starts_with("HTTP/1.1 404 Not Found \r\n"));
    assert!(wire.contains("Content-Length: 0\r\n"));
    assert!(wire.ends_with("\r\n\r\n"));
}

#[test]
fn test_hashmap_to_json_empty() {
    let map = StringMap::new();
    assert_eq!(hashmap_to_json(&map), "{}");
}

#[test]
fn test_string_map_insert_overwrites() {
    let mut map = StringMap::new();
    map.insert("k".to_string(), "a".to_string());
    map.insert("k".to_string(), "b".to_string());
    assert_eq!(map.len(), 1);
    assert_eq!(map.get("k"), Some(&"b".to_string()));
    assert_eq!(map.get("missing"), None);
}

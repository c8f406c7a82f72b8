use rustic::app::{App, Request};
use rustic::connection::content_length_of;
use rustic::http11_response::{render_response, Response};
use rustic::numbers::{parse_usize, usize_to_string};
use rustic::parse_headers::{parse_headers, RequestType};
use rustic::parse_path::parse_path;
use rustic::parse_url::parse_url_param;
use rustic::string_map::StringMap;

type Handler = fn(Request) -> Option<Response>;

fn hello_world(_: Request) -> Option<Response> {
    let mut headers = StringMap::new();
    headers.insert("Content-Type".to_string(), "text/plain".to_string());
    Some(Response {
        status_code: 200,
        reason: "Ok".to_string(),
        response_body: Some("Hi!".to_string()),
        headers,
    })
}

fn teapot(_: Request) -> Option<Response> {
    Some(Response {
        status_code: 418,
        reason: "Teapot".to_string(),
        response_body: None,
        headers: StringMap::new(),
    })
}

fn empty_request() -> Request {
    Request {
        headers: StringMap::new(),
        body: String::new(),
        url_params: StringMap::new(),
    }
}

#[test]
fn test_route_table_first_match() {
    let mut app: App<Handler> = App::new();
    app.add_endpoint("test", RequestType::POST, hello_world);

    let hit = app.match_endpoint("test", RequestType::POST).unwrap();
    assert_eq!(hit.path, "test");
    assert_eq!(hit.request, RequestType::POST);
    let response = (hit.mapper)(empty_request()).unwrap();
    assert_eq!(response.status_code, 200);

    assert!(app.match_endpoint("test", RequestType::GET).is_err());
    assert!(app.match_endpoint("other", RequestType::POST).is_err());
}

#[test]
fn test_route_table_duplicate_is_shadowed() {
    let mut app: App<Handler> = App::new();
    app.add_endpoint("test", RequestType::POST, hello_world);
    app.add_endpoint("test", RequestType::POST, teapot);

    let hit = app.match_endpoint("test", RequestType::POST).unwrap();
    let response = (hit.mapper)(empty_request()).unwrap();
    assert_eq!(response.status_code, 200);
}

#[test]
fn test_pipeline_registered_route() {
    let mut app: App<Handler> = App::new();
    app.add_endpoint("test", RequestType::POST, hello_world);

    let lines = vec!["POST /test HTTP/1.1".to_string(), "Host: h".to_string()];
    let body_len = content_length_of(&lines);
    assert_eq!(body_len, 0);

    let (request_type, _, headers_map, url) = parse_headers(lines).unwrap();
    let url = url.unwrap();
    let url_params = parse_url_param(&url);
    let path = parse_path(&url).unwrap();

    let endpoint = app.match_endpoint(path, request_type).unwrap();
    let request = Request {
        headers: headers_map,
        body: String::new(),
        url_params,
    };
    let response = (endpoint.mapper)(request).unwrap();
    let wire = render_response(response);
    assert!(wire.starts_with("HTTP/1.1 200"));
    assert!(wire.ends_with("Hi!"));
}

#[test]
fn test_pipeline_unregistered_route_writes_nothing() {
    let mut app: App<Handler> = App::new();
    app.add_endpoint("test", RequestType::POST, hello_world);

    let lines = vec!["POST /missing HTTP/1.1".to_string(), "Host: h".to_string()];
    let (request_type, _, _, url) = parse_headers(lines).unwrap();
    let url = url.unwrap();
    let path = parse_path(&url).unwrap();

    // the miss is reported, no response is built and nothing is written
    assert!(app.match_endpoint(path, request_type).is_err());
}

#[test]
fn test_content_length_scan() {
    let lines = vec![
        "POST / HTTP/1.1".to_string(),
        "Content-Length: 42".to_string(),
    ];
    assert_eq!(content_length_of(&lines), 42);
}

#[test]
fn test_content_length_case_insensitive() {
    let lines = vec!["content-length: 7".to_string()];
    assert_eq!(content_length_of(&lines), 7);
    let lines = vec!["CONTENT-LENGTH:  19 ".to_string()];
    assert_eq!(content_length_of(&lines), 19);
}

#[test]
fn test_content_length_missing_or_bad_is_zero() {
    assert_eq!(content_length_of(&vec!["Host: h".to_string()]), 0);
    assert_eq!(
        content_length_of(&vec!["Content-Length: nope".to_string()]),
        0
    );
    assert_eq!(content_length_of(&vec![]), 0);
}

#[test]
fn test_content_length_last_wins() {
    let lines = vec![
        "Content-Length: 5".to_string(),
        "Content-Length: 9".to_string(),
    ];
    assert_eq!(content_length_of(&lines), 9);
}

#[test]
fn test_usize_to_string_exact() {
    assert_eq!(usize_to_string(0), "0");
    assert_eq!(usize_to_string(7), "7");
    assert_eq!(usize_to_string(200), "200");
    assert_eq!(usize_to_string(65535), "65535");
}

#[test]
fn test_parse_usize_exact() {
    assert_eq!(parse_usize("42"), Some(42));
    assert_eq!(parse_usize("+42"), Some(42));
    assert_eq!(parse_usize("0"), Some(0));
    assert_eq!(parse_usize(""), None);
    assert_eq!(parse_usize("+"), None);
    assert_eq!(parse_usize("4 2"), None);
    assert_eq!(parse_usize("-1"), None);
    assert_eq!(parse_usize("99999999999999999999999999"), None);
}

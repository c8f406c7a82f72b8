//! A minimal HTTP/1.1 server substrate: header parsing, URL decomposition,
//! route matching and response encoding, each with a verified contract.
//!
//! The connection plumbing (sockets, threads) lives outside this crate; the
//! library works on plain header lines and strings and hands back structured
//! requests and encoded responses.

pub mod app;
pub mod connection;
pub mod http11_response;
pub mod numbers;
pub mod parse_headers;
pub mod parse_path;
pub mod parse_url;
pub mod string_map;
pub mod text;

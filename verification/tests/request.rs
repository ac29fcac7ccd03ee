use aoko::no_std::functions::ext::Utf8Ext;
use aoko::no_std::pipelines::tap::Tap;
use spwf::http::request::{HttpMethod, Request};
use spwf::http::response::HttpVersion;
use spwf::http::strmap::StrMap;
use std::collections::HashMap;

fn as_hash_map(m: &StrMap) -> HashMap<&str, &str> {
    let mut out = HashMap::new();
    for i in 0..m.len() {
        out.insert(m.key(i), m.value(i));
    }
    out
}

fn with_path(path: &str) -> Request {
    Request::new().tap_mut(|r| r.path = path.into())
}

#[test]
fn test_parse_req() {
    let expected = Request::new().tap_mut(|r| r.path = "/test".into());
    let req = b"GET /test HTTP/1.1".as_slice().into();
    assert_eq!(expected, req);
}

#[test]
fn test_parse_params() {
    let expected = vec!["", "a", "b"];
    let req: Request = b"GET /a/b HTTP/1.1".as_slice().into();
    assert_eq!(expected, req.parse_params())
}

#[test]
fn test_parse_queries() {
    let expected = HashMap::from([("a", "b"), ("aa", "bb")]);
    let req = Request::new().tap_mut(|r| r.path = "get?a=b?aa=bb".into());
    assert_eq!(expected, as_hash_map(&req.parse_queries()));
}

#[test]
fn new_request_is_a_get_of_nothing() {
    let req = Request::new();
    assert_eq!(req.method, HttpMethod::Get);
    assert_eq!(req.path, "");
    assert_eq!(req.version, HttpVersion::V1_1);
}

#[test]
fn parsed_request_has_all_three_fields() {
    let req = Request::from(b"GET /test HTTP/1.1".as_slice());
    assert_eq!(req.method, HttpMethod::Get);
    assert_eq!(req.path, "/test");
    assert_eq!(req.version, HttpVersion::V1_1);
}

#[test]
fn method_is_read_from_the_first_word() {
    assert_eq!(Request::from(b"GET / HTTP/1.1".as_slice()).method, HttpMethod::Get);
    assert_eq!(Request::from(b"POST /form HTTP/1.1".as_slice()).method, HttpMethod::Post);
    assert_eq!(Request::from(b"PUT /x HTTP/1.1".as_slice()).method, HttpMethod::Invalid);
    assert_eq!(Request::from(b"GETS /x HTTP/1.1".as_slice()).method, HttpMethod::Invalid);
    assert_eq!(Request::from(b"get /x HTTP/1.1".as_slice()).method, HttpMethod::Invalid);
    assert_eq!(Request::from(b"  \t GET\r\n/x".as_slice()).method, HttpMethod::Get);
}

#[test]
fn missing_words_degrade() {
    let empty = Request::from(b"".as_slice());
    assert_eq!(empty.method, HttpMethod::Invalid);
    assert_eq!(empty.path, "");
    assert_eq!(empty.version, HttpVersion::Invalid);

    let blank = Request::parse(" \r\n\t ");
    assert_eq!(blank.method, HttpMethod::Invalid);
    assert_eq!(blank.path, "");
    assert_eq!(blank.version, HttpVersion::Invalid);

    let short = Request::parse("POST /only");
    assert_eq!(short.method, HttpMethod::Post);
    assert_eq!(short.path, "/only");
    assert_eq!(short.version, HttpVersion::Invalid);
}

#[test]
fn version_must_be_exact() {
    assert_eq!(Request::parse("GET / HTTP/1.0").version, HttpVersion::Invalid);
    assert_eq!(Request::parse("GET / http/1.1").version, HttpVersion::Invalid);
    assert_eq!(Request::parse("GET / HTTP/1.1\r\nHost: x\r\n\r\n").version, HttpVersion::V1_1);
    assert_eq!(HttpVersion::from("HTTP/1.1"), HttpVersion::V1_1);
    assert_eq!(HttpVersion::from(""), HttpVersion::Invalid);
}

#[test]
fn method_from_text() {
    assert_eq!(HttpMethod::from("GET"), HttpMethod::Get);
    assert_eq!(HttpMethod::from("POST"), HttpMethod::Post);
    assert_eq!(HttpMethod::from("Post"), HttpMethod::Invalid);
    assert_eq!(HttpMethod::from(""), HttpMethod::Invalid);
    assert_eq!(HttpMethod::from("DELETE"), HttpMethod::Invalid);
}

#[test]
fn method_and_version_are_written_back() {
    assert_eq!(HttpMethod::Get.to_string(), "GET");
    assert_eq!(HttpMethod::Post.to_string(), "POST");
    assert_eq!(HttpMethod::Invalid.to_string(), "INVALID");
    assert_eq!(HttpMethod::Get.as_str(), "GET");
    assert_eq!(HttpVersion::V1_1.to_string(), "HTTP/1.1");
    assert_eq!(HttpVersion::Invalid.to_string(), "Invalid http version");
}

#[test]
fn trailing_zero_bytes_stay_in_the_last_word() {
    let mut buf = [0u8; 32];
    buf[..18].copy_from_slice(b"GET /test HTTP/1.1");
    let req = Request::from(buf.as_slice());
    assert_eq!(req.method, HttpMethod::Get);
    assert_eq!(req.path, "/test");
    assert_eq!(req.version, HttpVersion::Invalid);
}

#[test]
fn bytes_that_are_not_utf8_are_replaced() {
    let req = Request::from(b"GET /a\xFFb HTTP/1.1".as_slice());
    assert_eq!(req.method, HttpMethod::Get);
    assert_eq!(req.path, "/a\u{FFFD}b");
    assert_eq!(req.version, HttpVersion::V1_1);
    assert_eq!(req.path, b"GET /a\xFFb".to_str_lossy().split_whitespace().nth(1).unwrap());
}

#[test]
fn unicode_white_space_parts_words() {
    let req = Request::parse("GET\u{00A0}/nbsp\u{3000}HTTP/1.1");
    assert_eq!(req.method, HttpMethod::Get);
    assert_eq!(req.path, "/nbsp");
    assert_eq!(req.version, HttpVersion::V1_1);
}

#[test]
fn path_segments_of_empty_and_blank_paths() {
    assert_eq!(Vec::<&str>::new(), with_path("").parse_params());
    assert_eq!(Vec::<&str>::new(), with_path("  \t ").parse_params());
}

#[test]
fn path_segments_keep_empty_pieces_and_white_space() {
    assert_eq!(vec!["", "a", "b"], with_path("/a/b").parse_params());
    assert_eq!(vec!["", ""], with_path("/").parse_params());
    assert_eq!(vec!["a", "", "b", ""], with_path("a//b/").parse_params());
    assert_eq!(vec![" ", "a "], with_path(" /a ").parse_params());
    assert_eq!(vec!["plain"], with_path("plain").parse_params());
}

#[test]
fn queries_without_value_or_key() {
    let q = with_path("/p?flag").parse_queries();
    assert_eq!(q.len(), 1);
    assert_eq!(q.get("flag"), Some(""));

    let q = with_path("/p?=v").parse_queries();
    assert_eq!(q.get(""), Some("v"));

    let q = with_path("/p?").parse_queries();
    assert_eq!(q.len(), 1);
    assert_eq!(q.get(""), Some(""));

    let q = with_path("/p?k=v=w").parse_queries();
    assert_eq!(q.get("k"), Some("v"));
}

#[test]
fn queries_of_paths_without_any() {
    assert_eq!(with_path("").parse_queries().len(), 0);
    assert_eq!(with_path("/a/b").parse_queries().len(), 0);
    assert_eq!(with_path("a=b").parse_queries().len(), 0);
}

#[test]
fn queries_merge_over_segments_and_the_last_value_counts() {
    let q = with_path("/a?x=1/b?y=2?x=3").parse_queries();
    assert_eq!(HashMap::from([("x", "3"), ("y", "2")]), as_hash_map(&q));
    assert_eq!(q.len(), 2);
    assert_eq!(q.key(0), "x");
    assert_eq!(q.value(0), "3");
    assert_eq!(q.key(1), "y");
    assert_eq!(q.value(1), "2");
}

#[test]
fn requests_compare_by_their_fields() {
    let a = Request::parse("GET /x HTTP/1.1");
    let b = Request::parse("GET   /x\tHTTP/1.1 extra");
    let c = Request::parse("GET /y HTTP/1.1");
    assert_eq!(a, b);
    assert_ne!(a, c);
    assert_eq!(a.clone(), a);
}

use aoko::no_std::functions::ext::Utf8Ext;
use aoko::no_std::functions::fun::s;
use aoko::no_std::pipelines::tap::Tap;
use spwf::http::response::{ContentType, HttpStatus, HttpVersion, Response};
use spwf::http::strmap::StrMap;

fn two_headers(content_type: String, content_length: String) -> StrMap {
    let mut h = StrMap::new();
    h.insert("Content-Type".into(), content_type);
    h.insert("Content-Length".into(), content_length);
    h
}

#[test]
fn test_status_to_string() {
    let expected = s("500 Internal Server Error");
    let res = HttpStatus::InternalServerError;
    assert_eq!(expected, res.to_string());
}

#[test]
fn test_all() {
    let expected =
        "HTTP/1.1 200 OK\r\nContent-Type: text/html; charset=utf-8\r\nContent-Length: 3\r\n\r\nHi!"
            .as_bytes();
    let content = "Hi!";
    let content_length = content.len().to_string();
    let version = HttpVersion::V1_1;
    let status = HttpStatus::Okay;
    let res = Response::new();

    let byt = res
        .tap_mut(|r| {
            r.status = status;
            r.version = version;
            r.body = content.as_bytes();
            r.headers = two_headers(ContentType::Html.to_string(), content_length);
        })
        .as_bytes();

    assert_eq!(expected.to_str(), byt.to_str());
}

#[test]
fn round_trip_keeps_status_line_and_body() {
    let mut res = Response::new();
    res.status = HttpStatus::Okay;
    res.headers = two_headers("text/html; charset=utf-8".into(), "3".into());
    res.body = b"Hi!";
    let bytes = res.as_bytes();
    let text = String::from_utf8(bytes.clone()).unwrap();
    assert_eq!(text.split("\r\n").next(), Some("HTTP/1.1 200 OK"));
    assert_eq!(&bytes[bytes.len() - 3..], b"Hi!");
    assert_eq!(text.matches("\r\n\r\n").count(), 1);
}

#[test]
fn new_response_is_an_empty_ok() {
    let res = Response::new();
    assert_eq!(res.version, HttpVersion::V1_1);
    assert_eq!(res.status, HttpStatus::Okay);
    assert_eq!(res.headers.len(), 0);
    assert!(res.body.is_empty());
    assert_eq!(res.as_bytes(), b"HTTP/1.1 200 OK\r\n\r\n\r\n");
}

#[test]
fn one_header_and_a_body_that_is_not_text() {
    let mut res = Response::new();
    res.status = HttpStatus::BadRequest;
    res.version = HttpVersion::Invalid;
    res.headers.insert("X".into(), "y".into());
    let body = [0u8, 159, 146, 150, 255];
    res.body = &body;
    let mut expected = b"Invalid http version 400 Bad Request\r\nX: y\r\n\r\n".to_vec();
    expected.extend_from_slice(&body);
    assert_eq!(res.as_bytes(), expected);
}

#[test]
fn headers_go_out_in_the_order_of_their_keys() {
    let mut res = Response::new();
    res.headers.insert("B".into(), "1".into());
    res.headers.insert("A".into(), "2".into());
    res.headers.insert("B".into(), "3".into());
    assert_eq!(res.as_bytes(), b"HTTP/1.1 200 OK\r\nB: 3\r\nA: 2\r\n\r\n");
}

#[test]
fn header_text_goes_out_as_utf8() {
    let mut res = Response::new();
    res.headers.insert("Name".into(), "caf\u{e9}".into());
    assert_eq!(res.as_bytes(), "HTTP/1.1 200 OK\r\nName: caf\u{e9}\r\n\r\n".as_bytes());
}

#[test]
fn every_status_has_its_text() {
    assert_eq!(HttpStatus::Okay.to_string(), "200 OK");
    assert_eq!(HttpStatus::NotFound.to_string(), "404 Not Found");
    assert_eq!(HttpStatus::BadRequest.to_string(), "400 Bad Request");
    assert_eq!(HttpStatus::InternalServerError.to_string(), "500 Internal Server Error");
    assert_eq!(HttpStatus::NotFound.as_str(), "404 Not Found");
}

#[test]
fn every_content_type_has_its_text() {
    assert_eq!(ContentType::Html.to_string(), "text/html; charset=utf-8");
    assert_eq!(ContentType::PlainText.to_string(), "text/plain; charset=utf-8");
    assert_eq!(ContentType::Css.to_string(), "text/css; charset=utf-8");
    assert_eq!(ContentType::AvifImage.to_string(), "image/avif");
    assert_eq!(ContentType::AvifImage.as_str(), "image/avif");
}

#[test]
fn content_type_from_media_type() {
    assert_eq!(ContentType::from("text/plain"), ContentType::PlainText);
    assert_eq!(ContentType::from("text/html"), ContentType::Html);
    assert_eq!(ContentType::from("text/css"), ContentType::Css);
    assert_eq!(ContentType::from("image/avif"), ContentType::AvifImage);
    assert_eq!(ContentType::from("image/png"), ContentType::PlainText);
    assert_eq!(ContentType::from(""), ContentType::PlainText);
    assert_eq!(ContentType::from("text/html; charset=utf-8"), ContentType::PlainText);
}

#[test]
fn mapping_keeps_one_value_for_each_key() {
    let mut m = StrMap::new();
    assert_eq!(m.len(), 0);
    assert_eq!(m.get("a"), None);
    m.insert("a".into(), "1".into());
    m.insert("b".into(), "2".into());
    m.insert("a".into(), "3".into());
    assert_eq!(m.len(), 2);
    assert_eq!(m.get("a"), Some("3"));
    assert_eq!(m.get("b"), Some("2"));
    assert_eq!(m.get("c"), None);
    assert_eq!((m.key(0), m.value(0)), ("a", "3"));
    assert_eq!((m.key(1), m.value(1)), ("b", "2"));
}

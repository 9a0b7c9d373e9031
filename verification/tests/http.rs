use minihttp::http::{HttpVersion, Method, Response};
use minihttp::request::Request;
use minihttp::string_map::StringMap;

fn headers_of(m: &StringMap) -> Vec<(String, String)> {
    (0..m.len()).map(|i| {
        let (k, v) = m.entry(i);
        (k.clone(), v.clone())
    }).collect()
}

#[test]
fn response_new_sets_length() {
    let r = Response::new(200, b"hello");
    assert_eq!(r.status_code, 200);
    assert_eq!(r.version, HttpVersion::V1_1);
    assert_eq!(r.reason_phrase, "OK");
    assert_eq!(r.body, b"hello".to_vec());
    assert_eq!(headers_of(&r.headers), vec![("Content-Length".to_string(), "5".to_string())]);
}

#[test]
fn response_bytes_exact() {
    let mut r = Response::new(200, b"hi");
    r.headers.insert("Content-Type".to_string(), "text/html".to_string());
    let bytes = r.to_u8_vec();
    assert_eq!(
        bytes,
        b"HTTP/1.1 200 OK\r\nContent-Length: 2\r\nContent-Type: text/html\r\n\r\nhi".to_vec()
    );
    assert!(r.body.is_empty());
}

#[test]
fn not_found_bytes() {
    let mut r = Response::not_found();
    assert_eq!(r.status_code, 404);
    assert_eq!(r.reason_phrase, "Not Found");
    assert!(r.headers.is_empty());
    assert_eq!(r.to_u8_vec(), b"HTTP/1.1 404 Not Found\r\n\r\n".to_vec());
}

#[test]
fn status_line_uses_standard_phrase() {
    let mut r = Response::new(505, b"");
    r.reason_phrase = "whatever".to_string();
    r.version = HttpVersion::V2;
    let bytes = r.to_u8_vec();
    assert!(bytes.starts_with(b"HTTP/2 505 HTTP Version Not Supported\r\n"));
    assert!(bytes.ends_with(b"\r\n\r\n"));
}

#[test]
fn reason_phrases() {
    assert_eq!(Response::default_reason_phrase(101), "Switching Protocols");
    assert_eq!(Response::default_reason_phrase(413), "Content Too Large");
    assert_eq!(Response::default_reason_phrase(299), "Custom Protcol");
    assert_eq!(Response::default_reason_phrase(0), "Custom Protcol");
}

#[test]
fn version_bytes() {
    assert_eq!(Response::version_to_bytes(&HttpVersion::V1), b"HTTP/1".to_vec());
    assert_eq!(Response::version_to_bytes(&HttpVersion::V1_1), b"HTTP/1.1".to_vec());
    assert_eq!(Response::version_to_bytes(&HttpVersion::V2), b"HTTP/2".to_vec());
    assert_eq!(Response::version_to_bytes(&HttpVersion::V3), b"HTTP/3".to_vec());
}

#[test]
fn response_body_moves_out() {
    let body = vec![7u8; 1234];
    let mut r = Response::new(201, &body);
    let bytes = r.to_u8_vec();
    assert!(bytes.starts_with(b"HTTP/1.1 201 Created\r\nContent-Length: 1234\r\n\r\n"));
    assert!(bytes.ends_with(&body));
    assert!(r.body.is_empty());
}

#[test]
fn request_parse_basic() {
    let raw = b"GET /products/?id=5 HTTP/1.1\r\nHost: 127.0.0.1:8000\r\nConnection: keep-alive\r\n\r\n";
    let r = Request::parse(raw);
    assert_eq!(r.method, Method::GET);
    assert_eq!(r.url, "/products");
    assert_eq!(r.version, HttpVersion::V1_1);
    assert!(r.queries.is_empty());
    assert_eq!(
        headers_of(&r.headers),
        vec![
            ("Host".to_string(), "127.0.0.1".to_string()),
            ("Connection".to_string(), "keep-alive".to_string()),
        ]
    );
    assert!(r.body.is_empty());
}

#[test]
fn request_parse_body_and_methods() {
    let raw = b"POST / HTTP/2\r\nA: 1\r\nA: 2\r\n\r\npayload";
    let r = Request::parse(raw);
    assert_eq!(r.method, Method::POST);
    assert_eq!(r.url, "/");
    assert_eq!(r.version, HttpVersion::V2);
    assert_eq!(headers_of(&r.headers), vec![("A".to_string(), "2".to_string())]);
    assert_eq!(r.body, b"payload".to_vec());
    for (m, e) in [("PUT", Method::PUT), ("DELETE", Method::DELETE), ("OPTION", Method::OPTION)] {
        let raw = format!("{} /x HTTP/3\r\n", m);
        let r = Request::parse(raw.as_bytes());
        assert_eq!(r.method, e);
        assert_eq!(r.version, HttpVersion::V3);
        assert_eq!(r.url, "/x");
    }
}

#[test]
fn request_body_after_last_line_break() {
    // The body is what follows the last CR LF; lines after the empty one
    // are read as header lines from the last header line on.
    let raw = b"GET /a HTTP/1\r\nK: v\r\n\r\nx:y\r\nrest";
    let r = Request::parse(raw);
    assert_eq!(r.version, HttpVersion::V1);
    assert_eq!(r.body, b"rest".to_vec());
    assert_eq!(
        headers_of(&r.headers),
        vec![
            ("K".to_string(), "v".to_string()),
            ("\r\nx".to_string(), "y".to_string()),
        ]
    );
}

#[test]
fn request_try_parse_refusals() {
    assert!(Request::try_parse(b"GET / HTTP/1.1").is_none());
    assert!(Request::try_parse(b"").is_none());
    assert!(Request::try_parse(b"FETCH / HTTP/1.1\r\n").is_none());
    assert!(Request::try_parse(b"GET / HTTP/9\r\n").is_none());
    assert!(Request::try_parse(b"GET /\r\n").is_none());
    assert!(Request::try_parse(b"GET / HTTP/1.1\r\nNoColon\r\n\r\n").is_none());
    assert!(Request::try_parse(b"GET / HTTP/1.1\r\nK: v\r\n\r\n").is_some());
}

#[test]
fn request_default() {
    let r = Request::default();
    assert_eq!(r.method, Method::GET);
    assert_eq!(r.url, "/");
    assert_eq!(r.version, HttpVersion::V1_1);
    assert!(r.headers.is_empty() && r.queries.is_empty() && r.body.is_empty());
}

#[test]
fn request_is_file() {
    let mut r = Request::default();
    for (u, f) in [("/a.css", true), ("/b.ico", true), ("/c.png", true), ("/d.svg", true),
                   ("/e.js", true), ("/f.html", true), ("/g.htm", false), ("/", false), ("js", false)] {
        r.url = u.to_string();
        assert_eq!(r.is_file(), f, "{}", u);
    }
}

#[test]
fn query_parsing() {
    let q = Request::parse_query("/a?x=1&y&x=3&z=a=b");
    assert_eq!(
        headers_of(&q),
        vec![
            ("x".to_string(), "3".to_string()),
            ("y".to_string(), "".to_string()),
            ("z".to_string(), "a".to_string()),
        ]
    );
    assert!(Request::parse_query("/a").is_empty());
    assert_eq!(headers_of(&Request::parse_query("?")), vec![("".to_string(), "".to_string())]);
}

#[test]
fn header_and_request_lines() {
    let (k, v) = Request::parse_header_line(b"Host:  a:b");
    assert_eq!(k, "Host");
    assert_eq!(v, " a");
    let (m, u, ver) = Request::parse_request_line(b"GET /x?y HTTP/1.1 extra");
    assert_eq!(m, Method::GET);
    assert_eq!(u, "/x?y");
    assert_eq!(ver, HttpVersion::V1_1);
    assert_eq!(Request::parse_method(b"GET"), Ok(Method::GET));
    assert_eq!(Request::parse_method(b"get"), Err(()));
    assert_eq!(Request::parse_version(b"HTTP/1.1"), Ok(HttpVersion::V1_1));
    assert_eq!(Request::parse_version(b"HTTP/1.0"), Err(()));
}

#[test]
fn lossy_target_decoding() {
    let r = Request::parse(b"GET /caf\xc3\xa9/ HTTP/1.1\r\n");
    assert_eq!(r.url, "/caf\u{e9}");
    let r = Request::parse(b"GET /\xff HTTP/1.1\r\n");
    assert_eq!(r.url, "/\u{fffd}");
}

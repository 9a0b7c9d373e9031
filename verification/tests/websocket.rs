use minihttp::http::{HttpVersion, Method, Response};
use minihttp::request::Request;
use minihttp::routing::{route, safe_location, shop_route, file_location, html_response, Action, ShopAction};
use minihttp::string_map::StringMap;
use minihttp::url_pattern::UrlPattern;
use minihttp::websocket::{generate_response_ws_sec, initiate_websocket_handshake};

fn headers_of(m: &StringMap) -> Vec<(String, String)> {
    (0..m.len()).map(|i| {
        let (k, v) = m.entry(i);
        (k.clone(), v.clone())
    }).collect()
}

fn ws_request(version: &str, connection: &str, upgrade: &str, key: Option<&str>) -> Request {
    let mut raw = format!("GET /ws {}\r\nConnection: {}\r\nUpgrade: {}\r\n", version, connection, upgrade);
    if let Some(k) = key {
        raw.push_str(&format!("Sec-WebSocket-Key: {}\r\n", k));
    }
    raw.push_str("\r\n");
    Request::parse(raw.as_bytes())
}

#[test]
fn accept_key_rfc_example() {
    let key = "dGhlIHNhbXBsZSBub25jZQ==".to_string();
    assert_eq!(generate_response_ws_sec(&key), "s3pPLMBiTxaQ9kYGzzhZRbK+xOo=");
}

#[test]
fn handshake_accepted() {
    let req = ws_request("HTTP/1.1", "Upgrade", "websocket", Some("dGhlIHNhbXBsZSBub25jZQ=="));
    let res = initiate_websocket_handshake(&req).unwrap();
    assert_eq!(res.status_code, 101);
    assert_eq!(res.reason_phrase, "Switching Protocols");
    assert!(res.body.is_empty());
    assert_eq!(
        headers_of(&res.headers),
        vec![
            ("Content-Length".to_string(), "0".to_string()),
            ("Upgrade".to_string(), "websocket".to_string()),
            ("Connection".to_string(), "Upgrade".to_string()),
            ("Sec-WebSocket-Accept".to_string(), "s3pPLMBiTxaQ9kYGzzhZRbK+xOo=".to_string()),
        ]
    );
}

#[test]
fn handshake_refused() {
    let k = Some("dGhlIHNhbXBsZSBub25jZQ==");
    assert!(initiate_websocket_handshake(&ws_request("HTTP/2", "Upgrade", "websocket", k)).is_err());
    assert!(initiate_websocket_handshake(&ws_request("HTTP/1.1", "keep-alive", "websocket", k)).is_err());
    assert!(initiate_websocket_handshake(&ws_request("HTTP/1.1", "Upgrade", "h2c", k)).is_err());
    assert!(initiate_websocket_handshake(&ws_request("HTTP/1.1", "Upgrade", "websocket", None)).is_err());
}

fn req(method: Method, url: &str) -> Request {
    let mut r = Request::default();
    r.method = method;
    r.url = url.to_string();
    r
}

#[test]
fn routing_decisions() {
    match route(&req(Method::GET, "/")) {
        Action::ServeIndex(loc) => assert_eq!(loc, "public/index.html"),
        _ => panic!("index expected"),
    }
    match route(&req(Method::GET, "/style.css")) {
        Action::ServeFile(loc) => assert_eq!(loc, "public/style.css"),
        _ => panic!("file expected"),
    }
    match route(&req(Method::GET, "/../secret.css")) {
        Action::Respond(r) => assert_eq!(r.status_code, 404),
        _ => panic!("404 expected"),
    }
    match route(&req(Method::POST, "/")) {
        Action::Respond(mut r) => {
            assert_eq!(r.status_code, 200);
            assert_eq!(
                r.to_u8_vec(),
                b"HTTP/1.1 200 OK\r\nContent-Length: 13\r\nContent-Type: text/html\r\n\r\nData Recived!".to_vec()
            );
        }
        _ => panic!("post response expected"),
    }
    match route(&req(Method::GET, "/ws")) {
        Action::Respond(r) => {
            assert_eq!(r.status_code, 505);
            assert_eq!(r.body, b"Unsupported Version (1.1 required)".to_vec());
        }
        _ => panic!("505 expected"),
    }
    let ws = ws_request("HTTP/1.1", "Upgrade", "websocket", Some("x"));
    match route(&ws) {
        Action::Respond(r) => assert_eq!(r.status_code, 101),
        _ => panic!("101 expected"),
    }
    match route(&req(Method::PUT, "/")) {
        Action::Respond(r) => assert_eq!(r.status_code, 404),
        _ => panic!("404 expected"),
    }
}

#[test]
fn html_response_headers() {
    let r = html_response(200, b"<p>");
    assert_eq!(
        headers_of(&r.headers),
        vec![
            ("Content-Length".to_string(), "3".to_string()),
            ("Content-Type".to_string(), "text/html".to_string()),
        ]
    );
    assert_eq!(r.version, HttpVersion::V1_1);
}

#[test]
fn locations() {
    assert_eq!(file_location("static", "/a.png"), "static/a.png");
    assert_eq!(safe_location("static", "/a.png"), Some("static/a.png".to_string()));
    assert_eq!(safe_location("static", "/a/../b"), None);
    assert_eq!(safe_location("public", "/a.b.c"), Some("public/a.b.c".to_string()));
}

#[test]
fn shop_routing() {
    let patterns = vec![
        UrlPattern::new("/items/<sku:str>".to_string(), "items"),
        UrlPattern::new("/product/<id:num>".to_string(), "product-id"),
        UrlPattern::new("/product/".to_string(), "product"),
        UrlPattern::new("/".to_string(), "index"),
    ];
    assert!(matches!(shop_route(&patterns, "/items/abc"), ShopAction::View(0)));
    assert!(matches!(shop_route(&patterns, "/product/12"), ShopAction::View(1)));
    assert!(matches!(shop_route(&patterns, "/product"), ShopAction::View(2)));
    assert!(matches!(shop_route(&patterns, "/"), ShopAction::View(3)));
    match shop_route(&patterns, "/product/x") {
        ShopAction::File(loc) => assert_eq!(loc, "static/product/x"),
        _ => panic!("file expected"),
    }
    assert!(matches!(shop_route(&patterns, "/x/../y"), ShopAction::NotFound));
    let _ = Response::not_found();
}

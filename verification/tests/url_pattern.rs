use http_body::Full;
use hyper::body::Bytes;
use hyper::{Body, StatusCode};
use minihttp::url_pattern::{parse_url_pattern, PathType, PatternError, UrlPattern};

fn index(_req: hyper::Request<Body>) -> hyper::Response<Full<Bytes>> {
    hyper::Response::builder()
        .status(StatusCode::OK)
        .body(Full::new("This Works".into()))
        .unwrap()
}

fn get_view() -> fn(hyper::Request<Body>) -> hyper::Response<Full<Bytes>> {
    index
}

#[test]
fn urlpattern_root_path() {
    let url_pattern = UrlPattern::new("/".to_string(), get_view());
    let path_expr: Vec<PathType> = vec![];
    assert_eq!(url_pattern.path_expr().len(), path_expr.len());
}

#[test]
fn urlpattern_static_path() {
    let url_pattern = UrlPattern::new("/products/items/categories".to_string(), get_view());
    let path_expr: Vec<PathType> = vec![
        PathType::Static("products".to_string()),
        PathType::Static("items".to_string()),
        PathType::Static("categories".to_string()),
    ];
    assert_eq!(url_pattern.path_expr().len(), path_expr.len());
    assert_eq!(path_expr[0], url_pattern.path_expr()[0]);
    assert_eq!(path_expr[1], url_pattern.path_expr()[1]);
    assert_eq!(path_expr[2], url_pattern.path_expr()[2]);
}

#[test]
fn urlpattern_dynamic_path() {
    let url_pattern = UrlPattern::new("/products/<id:num>/<sku:str>".to_string(), get_view());
    let path_expr: Vec<PathType> = vec![
        PathType::Static("products".to_string()),
        PathType::Number("id".to_string()),
        PathType::Str("sku".to_string()),
    ];
    assert_eq!(url_pattern.path_expr().len(), path_expr.len());
    assert_eq!(path_expr[0], url_pattern.path_expr()[0]);
    assert_eq!(path_expr[1], url_pattern.path_expr()[1]);
    assert_eq!(path_expr[2], url_pattern.path_expr()[2]);
}

#[test]
fn urlpattern_incorrect_path1_refused() {
    assert_eq!(parse_url_pattern("/products/<id>").unwrap_err(), PatternError::InvalidVariable);
}

#[test]
fn urlpattern_incorrect_path2_refused() {
    assert_eq!(parse_url_pattern("/products/<:id>").unwrap_err(), PatternError::InvalidVariable);
}

#[test]
fn urlpattern_incorrect_path3_refused() {
    assert_eq!(parse_url_pattern("/products/<:>").unwrap_err(), PatternError::InvalidVariable);
}

#[test]
fn urlpattern_incorrect_path4_refused() {
    assert_eq!(parse_url_pattern("/products/<>").unwrap_err(), PatternError::InvalidVariable);
}

#[test]
fn urlpattern_unknown_type_refused() {
    let err = parse_url_pattern("/products/<id:int>").unwrap_err();
    assert_eq!(err, PatternError::InvalidType);
    assert_eq!(err.message(), "invalid type for req param");
    assert_eq!(PatternError::InvalidVariable.message(), "invalid dynamic path variable");
}

#[test]
fn urlpattern_first_bad_segment_decides() {
    assert_eq!(parse_url_pattern("/<a>/<b:x>").unwrap_err(), PatternError::InvalidVariable);
    assert_eq!(parse_url_pattern("/<b:x>/<a>").unwrap_err(), PatternError::InvalidType);
}

#[test]
fn urlpattern_is_valid() {
    let _url_pattern = UrlPattern::new("/products/<id:num>".to_string(), get_view());
    assert!(_url_pattern.is_valid_path("/products/5".to_string()));
    assert!(_url_pattern.is_valid_path("/products/0".to_string()));
    assert!(_url_pattern.is_valid_path("/products/1000000000000000000".to_string()));
    let _url_pattern = UrlPattern::new("/products/<sku:str>".to_string(), get_view());
    assert!(_url_pattern.is_valid_path("/products/hello".to_string()));
    assert!(_url_pattern.is_valid_path("/products/abc".to_string()));
    assert!(_url_pattern.is_valid_path("/products/900a".to_string()));
}

#[test]
fn urlpattern_number_limits() {
    let p = UrlPattern::new("/products/<id:num>".to_string(), ());
    assert!(p.is_valid_path("/products/18446744073709551615".to_string()));
    assert!(!p.is_valid_path("/products/18446744073709551616".to_string()));
    assert!(p.is_valid_path("/products/+7".to_string()));
    assert!(!p.is_valid_path("/products/-7".to_string()));
    assert!(!p.is_valid_path("/products/+".to_string()));
    assert!(!p.is_valid_path("/products/900a".to_string()));
    assert!(!p.is_valid_path("/products".to_string()));
    assert!(!p.is_valid_path("/products/5/6".to_string()));
}

#[test]
fn urlpattern_static_mismatch() {
    let p = UrlPattern::new("/products/items".to_string(), ());
    assert!(p.is_valid_path("/products/items".to_string()));
    assert!(!p.is_valid_path("/products/item".to_string()));
    assert!(!p.is_valid_path("/items/products".to_string()));
}

#[test]
fn urlpattern_trailing_and_doubled_slashes() {
    let p = UrlPattern::new("/product/".to_string(), ());
    assert!(p.is_valid_path("/product".to_string()));
    assert!(p.is_valid_path("/product/".to_string()));
    assert!(p.is_valid_path("//product//".to_string()));
    let root = UrlPattern::new("/".to_string(), ());
    assert!(root.is_valid_path("/".to_string()));
    assert!(root.is_valid_path("".to_string()));
    assert!(!root.is_valid_path("/x".to_string()));
}

#[test]
fn urlpattern_literal_accepts_own_text() {
    let text = "/a/b/c";
    let p = UrlPattern::new(text.to_string(), ());
    assert!(p.is_valid_path(text.to_string()));
}

#[test]
fn urlpattern_scan_quirks() {
    // Characters before `<` are dropped; a second `<` resumes the name.
    let v = parse_url_pattern("/x<a:num>").unwrap();
    assert_eq!(v, vec![PathType::Number("a".to_string())]);
    let v = parse_url_pattern("/<a:nu<b>").unwrap_err();
    assert_eq!(v, PatternError::InvalidType);
    let v = parse_url_pattern("/<ab:str>tail").unwrap();
    assert_eq!(v, vec![PathType::Str("ab".to_string())]);
    let v = parse_url_pattern("/a>b").unwrap();
    assert_eq!(v, vec![PathType::Static("a>b".to_string())]);
}

#[test]
fn urlpattern_keeps_view() {
    let p = UrlPattern::new("/x".to_string(), 42u32);
    assert_eq!(p.view, 42);
}

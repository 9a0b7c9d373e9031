use minihttp::string_map::StringMap;
use minihttp::text::{decimal_string, parses_u64, split_bytes, split_str, text_ends_with};

#[test]
fn map_read_after_write() {
    let mut m = StringMap::new();
    assert_eq!(m.insert("a".to_string(), "1".to_string()), None);
    assert_eq!(m.insert("b".to_string(), "2".to_string()), None);
    assert_eq!(m.get("a"), Some(&"1".to_string()));
    assert_eq!(m.insert("a".to_string(), "3".to_string()), Some("1".to_string()));
    assert_eq!(m.get("a"), Some(&"3".to_string()));
    assert_eq!(m.get("b"), Some(&"2".to_string()));
    assert_eq!(m.get("c"), None);
    assert!(m.contains_key("b"));
    assert!(!m.contains_key("B"));
    assert_eq!(m.len(), 2);
    let (k, v) = m.entry(0);
    assert_eq!((k.as_str(), v.as_str()), ("a", "3"));
}

#[test]
fn decimal_round_trip() {
    for n in [0u64, 7, 10, 99, 100, 12345, u64::MAX] {
        let s = decimal_string(n);
        assert_eq!(s, n.to_string());
        assert!(parses_u64(&s));
    }
    assert!(!parses_u64(""));
    assert!(!parses_u64(" 1"));
}

#[test]
fn splitting() {
    assert_eq!(split_str("/a//b/", '/'), vec!["", "a", "", "b", ""]);
    assert_eq!(split_str("", '/'), vec![""]);
    assert_eq!(split_bytes(b"a b", b' '), vec![b"a".to_vec(), b"b".to_vec()]);
    assert!(text_ends_with("index.html", ".html"));
    assert!(!text_ends_with("x", ".html"));
}

use ephpm_middleware_modules::credential::{
    ct_eq, percent_decode, query_value, raw_query_value, unescape,
};

#[test]
fn equality_looks_at_every_byte() {
    let key = b"0123456789abcdef".to_vec();
    assert!(ct_eq(&key, &key));
    for i in 0..key.len() {
        let mut other = key.clone();
        other[i] ^= 1;
        assert!(!ct_eq(&key, &other), "byte {i}");
    }
}

#[test]
fn escapes_are_resolved() {
    assert_eq!(percent_decode("a%20b"), "a b");
    assert_eq!(percent_decode("a+b"), "a b");
    assert_eq!(percent_decode("%41%62%7A"), "Abz");
    assert_eq!(percent_decode("%c3%a4"), "ä");
    assert_eq!(percent_decode("%C3%A4"), "ä");
    assert_eq!(unescape("%2B%25"), b"+%".to_vec());
}

#[test]
fn invalid_escapes_pass_through() {
    assert_eq!(percent_decode("100%"), "100%");
    assert_eq!(percent_decode("%4"), "%4");
    assert_eq!(percent_decode("%zz"), "%zz");
    assert_eq!(percent_decode("%4g%41"), "%4gA");
    assert_eq!(percent_decode("%%41"), "%A");
}

#[test]
fn bytes_that_are_no_text_are_replaced() {
    assert_eq!(percent_decode("a%FFb"), "a\u{fffd}b");
    assert_eq!(unescape("a%FFb"), vec![b'a', 0xFF, b'b']);
}

#[test]
fn escaping_every_byte_is_undone() {
    let bytes: Vec<u8> = (0..=255).collect();
    let escaped: String = bytes.iter().map(|b| format!("%{b:02X}")).collect();
    assert_eq!(unescape(&escaped), bytes);
}

#[test]
fn the_first_parameter_of_a_name_counts() {
    assert_eq!(query_value("a=1&b=2&a=3", "a").as_deref(), Some("1"));
    assert_eq!(query_value("a=1&b=2", "c"), None);
    assert_eq!(query_value("flag&b=2", "flag").as_deref(), Some(""));
    assert_eq!(query_value("a=x=y", "a").as_deref(), Some("x=y"));
    assert_eq!(query_value("", "").as_deref(), Some(""));
    assert_eq!(raw_query_value("a=%20", "a"), Some("%20"));
    // Names are compared as they stand.
    assert_eq!(query_value("%61=1", "a"), None);
}

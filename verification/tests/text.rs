use cargo_sandbox::text::{
    decimal_string, rsplit_once, signed_decimal_string, split_once, str_equal, strip_prefix, strip_suffix, utf8_to_string,
};

#[test]
fn utf8_decoding() {
    assert_eq!(utf8_to_string("héllo".as_bytes()).as_deref(), Some("héllo"));
    assert_eq!(utf8_to_string(b"\xff"), None);
    assert_eq!(utf8_to_string(b"\xed\xa0\x80"), None);
}

#[test]
fn decimals() {
    assert_eq!(decimal_string(0), "0");
    assert_eq!(decimal_string(1234567890), "1234567890");
    assert_eq!(decimal_string(u64::MAX), u64::MAX.to_string());
    assert_eq!(signed_decimal_string(-42), "-42");
    assert_eq!(signed_decimal_string(i64::MIN), i64::MIN.to_string());
}

#[test]
fn splitting_like_str() {
    let cases = [("a, b, c", ", "), ("abc", "x"), ("é=ü=", "="), ("", "="), ("aaa", "aa")];
    for (s, p) in cases {
        assert_eq!(
            split_once(s, p),
            s.split_once(p).map(|(a, b)| (a.to_string(), b.to_string()))
        );
        assert_eq!(
            rsplit_once(s, p),
            s.rsplit_once(p).map(|(a, b)| (a.to_string(), b.to_string()))
        );
        assert_eq!(strip_prefix(s, p), s.strip_prefix(p).map(|a| a.to_string()));
        assert_eq!(strip_suffix(s, p), s.strip_suffix(p).map(|a| a.to_string()));
    }
    assert!(str_equal("ab", "ab"));
    assert!(!str_equal("ab", "abc"));
}

use appz_wsl_mcp::text::{chars_of, decimal_string, parse_unsigned_chars, replace_chars, trim_str};

fn replace(s: &str, p: &str, r: &str) -> String {
    replace_chars(&chars_of(s), &chars_of(p), &chars_of(r)).into_iter().collect()
}

#[test]
fn decimal_text() {
    assert_eq!(decimal_string(0), "0");
    assert_eq!(decimal_string(1234), "1234");
    assert_eq!(decimal_string(u64::MAX), "18446744073709551615");
}

#[test]
fn unsigned_parse() {
    assert_eq!(parse_unsigned_chars(&chars_of("42"), u64::MAX), Some(42));
    assert_eq!(parse_unsigned_chars(&chars_of("+7"), u64::MAX), Some(7));
    assert_eq!(parse_unsigned_chars(&chars_of(""), u64::MAX), None);
    assert_eq!(parse_unsigned_chars(&chars_of("+"), u64::MAX), None);
    assert_eq!(parse_unsigned_chars(&chars_of("-1"), u64::MAX), None);
    assert_eq!(parse_unsigned_chars(&chars_of("1a"), u64::MAX), None);
    assert_eq!(parse_unsigned_chars(&chars_of("4294967296"), 4294967295), None);
    assert_eq!(parse_unsigned_chars(&chars_of("4294967295"), 4294967295), Some(4294967295));
}

#[test]
fn replacement_matches_std() {
    for (s, p, r) in [("aaa", "a", "b"), ("abab", "ab", "x"), ("aaaa", "aa", "a"), ("abc", "", "-"), ("", "", "x"), ("", "a", "b")] {
        assert_eq!(replace(s, p, r), s.replace(p, r), "{s} {p} {r}");
    }
}

#[test]
fn trim_matches_std() {
    for s in ["  a b  ", "\u{3000}x\u{a0}", "", "   ", "\t\r\nq\n"] {
        assert_eq!(trim_str(s), s.trim());
    }
}

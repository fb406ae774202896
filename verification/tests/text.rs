use why::text::{
    decimal_string, find_char, lines_of, parse_u32, parse_u64, split_at_char, split_words, str_contains, str_trim,
    str_trim_prefix, str_trim_suffix, trimmed_lines,
};

fn strings(v: &[&str]) -> Vec<String> {
    v.iter().map(|x| x.to_string()).collect()
}

#[test]
fn trims() {
    assert_eq!(str_trim("  \t a b \r\n"), "a b");
    assert_eq!(str_trim_suffix("x.exe.exe", ".exe"), "x");
    assert_eq!(str_trim_prefix("vvv1.2", "v"), "1.2");
    assert_eq!(str_trim_prefix("abc", ""), "abc");
}

#[test]
fn numbers() {
    assert_eq!(parse_u64("+42"), Some(42));
    assert_eq!(parse_u64("18446744073709551615"), Some(u64::MAX));
    assert_eq!(parse_u64("18446744073709551616"), None);
    assert_eq!(parse_u64(""), None);
    assert_eq!(parse_u64("+"), None);
    assert_eq!(parse_u64("1a"), None);
    assert_eq!(parse_u32("4294967296"), None);
    assert_eq!(parse_u32("22"), Some(22));
}

#[test]
fn printed_numbers_read_back() {
    for n in [0u64, 7, 10, 5432, 27017, u64::MAX] {
        let text = decimal_string(n);
        assert_eq!(text, n.to_string());
        assert_eq!(parse_u64(&text), Some(n));
    }
}

#[test]
fn splitting() {
    assert_eq!(split_at_char("a;b;;c", ';'), strings(&["a", "b", "", "c"]));
    assert_eq!(split_at_char("", ';'), strings(&[""]));
    assert_eq!(split_words("  ls -la\t /tmp  "), strings(&["ls", "-la", "/tmp"]));
    assert!(split_words("   ").is_empty());
    assert_eq!(find_char("ab=cd=", '='), Some(2));
    assert_eq!(find_char("abc", '='), None);
}

#[test]
fn lines_like_str_lines() {
    assert_eq!(lines_of("a\r\nb\n\nc\n"), strings(&["a", "b", "", "c"]));
    assert!(lines_of("").is_empty());
    assert_eq!(trimmed_lines(" a \n\n  b\n"), strings(&["a", "b"]));
}

#[test]
fn containment() {
    assert!(str_contains("c:\\scoop\\apps\\x", "scoop\\apps"));
    assert!(str_contains("abc", ""));
    assert!(!str_contains("ab", "abc"));
}

#[test]
fn whitespace_as_std_decides_it() {
    let mut code: u32 = 0;
    while code < 0x11_0000 {
        if let Some(c) = char::from_u32(code) {
            let text = format!("a{}b", c);
            let expected = if c.is_whitespace() { 2 } else { 1 };
            assert_eq!(split_words(&text).len(), expected, "code point {:x}", code);
        }
        code += if code < 0x4000 { 1 } else { 97 };
    }
}

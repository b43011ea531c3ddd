use codegraph::text::{
    chars_of, find_first, lines_of, push_decimal, push_signed_decimal, str_le, trim_str,
};

fn decimal(n: u64) -> String {
    let mut v = Vec::new();
    push_decimal(&mut v, n);
    v.into_iter().collect()
}

fn signed(n: i64) -> String {
    let mut v = Vec::new();
    push_signed_decimal(&mut v, n);
    v.into_iter().collect()
}

#[test]
fn lines_follow_str_lines() {
    for text in ["", "a", "a\n", "a\r\nb", "a\rb\n", "\n\nx\r", "x\r\n\r\n", "é\nü"] {
        let expected: Vec<String> = text.lines().map(str::to_owned).collect();
        assert_eq!(lines_of(text), expected, "text {text:?}");
    }
}

#[test]
fn trim_matches_str_trim() {
    for text in ["", "  ", " a b ", "\u{3000}x\u{85}", "\t\n y\r\n", "x"] {
        assert_eq!(trim_str(text), text.trim(), "text {text:?}");
    }
}

#[test]
fn decimal_formatting_matches_display() {
    for n in [0u64, 7, 10, 99, 100, 1234567890, u64::MAX] {
        assert_eq!(decimal(n), n.to_string());
    }
    for n in [0i64, -1, 42, -1700000000, i64::MIN, i64::MAX] {
        assert_eq!(signed(n), n.to_string());
    }
}

#[test]
fn display_name_ordering() {
    assert!(str_le("Svc.A()", "Svc.B()"));
    assert!(!str_le("Svc.B()", "Svc.A()"));
    assert!(str_le("ab", "abc"));
    assert!(!str_le("abc", "ab"));
    assert!(str_le("", ""));
}

#[test]
fn find_first_gives_the_first_occurrence() {
    let hay = chars_of("<a>x</a><a>y</a>");
    assert_eq!(find_first(&hay, &chars_of("<a>")), Some(0));
    assert_eq!(find_first(&hay, &chars_of("</a>")), Some(4));
    assert_eq!(find_first(&hay, &chars_of("<b>")), None);
    assert_eq!(find_first(&hay, &chars_of("")), Some(0));
}

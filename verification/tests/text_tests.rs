use service_pilot::order::text_le_exec;
use service_pilot::text::{chars_of, concat_str, parse_u16_chars, same_text, split_by_chars, string_of, trim_str};

fn parse(s: &str) -> Option<u16> {
    let v: Vec<char> = s.chars().collect();
    parse_u16_chars(&v)
}

#[test]
fn trim_removes_unicode_whitespace_at_both_ends() {
    assert_eq!(trim_str("  redis \t\n"), "redis");
    assert_eq!(trim_str("\u{3000}a b\u{a0}"), "a b");
    assert_eq!(trim_str("   "), "");
    assert_eq!(trim_str(""), "");
    assert_eq!(trim_str("x"), "x");
}

#[test]
fn trim_matches_std_trim() {
    for s in ["", " ", "a", " a", "a ", " a b ", "\u{85}x\u{2028}", "\u{200b}y", "\r\n z \r\n"] {
        assert_eq!(trim_str(s), s.trim());
    }
}

#[test]
fn parse_u16_accepts_what_std_accepts() {
    for s in ["0", "80", "+80", "0080", "65535", "65536", "", "+", "-1", "8o", " 80", "99999999999", "+-1"] {
        assert_eq!(parse(s), s.parse::<u16>().ok(), "input {s:?}");
    }
}

#[test]
fn split_keeps_empty_pieces() {
    let v: Vec<char> = "a,,b,".chars().collect();
    let parts = split_by_chars(&v, &[',']);
    let parts: Vec<String> = parts.iter().map(|p| string_of(p)).collect();
    assert_eq!(parts, vec!["a", "", "b", ""]);
}

#[test]
fn chars_round_trip_and_concat() {
    let v = chars_of("héllo");
    assert_eq!(v, vec!['h', 'é', 'l', 'l', 'o']);
    assert_eq!(string_of(&v), "héllo");
    assert_eq!(concat_str("brew:", "redis"), "brew:redis");
    assert!(same_text("abc", "abc"));
    assert!(!same_text("abc", "abd"));
}

#[test]
fn text_order_is_string_order() {
    let words = ["", "a", "b", "ab", "ba", "Z", "é", "docker", "brew", "custom", "custom2"];
    for a in words {
        for b in words {
            assert_eq!(text_le_exec(a, b), a <= b, "{a:?} <= {b:?}");
        }
    }
}

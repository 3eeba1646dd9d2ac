use betterstack_report::percentage::Percentage;
use betterstack_report::text::{bytes_le, contains_bytes, decimal_text, replace_all};

#[test]
fn bytes_order_is_lexicographic() {
    assert!(bytes_le(b"abc", b"abd"));
    assert!(!bytes_le(b"abd", b"abc"));
    assert!(bytes_le(b"ab", b"abc"));
    assert!(!bytes_le(b"abc", b"ab"));
    assert!(bytes_le(b"", b""));
    assert!(bytes_le(b"Zeta", b"alpha"));
    assert!(bytes_le("é".as_bytes(), "ê".as_bytes()));
}

#[test]
fn substring_search_matches_str_contains() {
    let cases = [("premium us 02 api", "us 02"), ("api", "api"), ("api", ""), ("ap", "api"), ("aaab", "aab"), ("web", "api")];
    for (hay, needle) in cases {
        assert_eq!(contains_bytes(hay.as_bytes(), needle.as_bytes()), hay.contains(needle), "{hay} / {needle}");
    }
}

#[test]
fn decimal_text_writes_numbers() {
    assert_eq!(decimal_text(0), "0");
    assert_eq!(decimal_text(7), "7");
    assert_eq!(decimal_text(10), "10");
    assert_eq!(decimal_text(4096), "4096");
    assert_eq!(decimal_text(u64::MAX), u64::MAX.to_string());
}

#[test]
fn replace_all_matches_str_replace() {
    let cases = [
        ("uptime.betterstack.com", "uptime.betterstack.com", "betteruptime.com"),
        ("example.com", "uptime.betterstack.com", "betteruptime.com"),
        ("aaaa", "aa", "b"),
        ("abc", "", "x"),
        ("", "", "x"),
        ("héllo wörld", "ö", "oe"),
        ("ababab", "aba", "X"),
    ];
    for (s, p, w) in cases {
        assert_eq!(replace_all(s, p, w), s.replace(p, w), "{s} / {p} / {w}");
    }
}

#[test]
fn percentage_order_key_follows_numeric_order() {
    let values = [-5.0f64, -0.5, -0.0, 0.0, 1e-300, 42.25, 99.999, 100.0, 250.0, f64::INFINITY];
    for a in values {
        for b in values {
            let pa = Percentage { bits: a.to_bits() };
            let pb = Percentage { bits: b.to_bits() };
            assert_eq!(pa.order_key() < pb.order_key(), a < b, "{a} < {b}");
            assert_eq!(pa.order_key() == pb.order_key(), a == b, "{a} == {b}");
        }
    }
}

#[test]
fn percentage_tests_against_hundred() {
    assert!(Percentage { bits: 100.0f64.to_bits() }.full());
    assert!(!Percentage { bits: 99.99f64.to_bits() }.full());
    assert!(Percentage { bits: 99.99f64.to_bits() }.less_than_hundred());
    assert!(!Percentage { bits: 100.0f64.to_bits() }.less_than_hundred());
    assert!(!Percentage { bits: f64::NAN.to_bits() }.less_than_hundred());
    assert!(Percentage { bits: f64::NAN.to_bits() }.nan());
    assert!(!Percentage { bits: f64::INFINITY.to_bits() }.nan());
    assert_eq!(Percentage::zero().bits, 0.0f64.to_bits());
}

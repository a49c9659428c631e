use lnrentd::text::{
    at_most, cat3, chars_of, contains, decimal_text, ends_with_ignoring_case, find_char,
    is_ascii_alphanumeric, is_whitespace, lower_char, matches_like, parse_i64, same_ignoring_case,
    starts_with_ignoring_case, strip_prefix, trim,
};
use rusqlite::Connection;

#[test]
fn characters_are_classed_as_std_classes_them() {
    for n in 0..=0x10ffffu32 {
        if let Some(c) = char::from_u32(n) {
            assert_eq!(is_whitespace(c), c.is_whitespace(), "{n:x}");
            assert_eq!(is_ascii_alphanumeric(c), c.is_ascii_alphanumeric(), "{n:x}");
            assert_eq!(lower_char(c), c.to_ascii_lowercase(), "{n:x}");
        }
    }
}

#[test]
fn numbers_are_read_as_std_reads_them() {
    for s in [
        "0", "-0", "+7", "007", "-12", "9223372036854775807", "9223372036854775808",
        "-9223372036854775808", "-9223372036854775809", "", "+", "-", " 1", "1 ", "1_0", "0x1",
        "99999999999999999999999999", "٣",
    ] {
        assert_eq!(parse_i64(s), s.parse::<i64>().ok(), "{s:?}");
    }
}

#[test]
fn numbers_are_written_as_std_writes_them() {
    for n in [0i128, 7, -7, 10, 1_000_000, i64::MIN as i128, u64::MAX as i128, i128::MAX] {
        assert_eq!(decimal_text(n), n.to_string());
    }
}

#[test]
fn texts_are_compared_and_trimmed_as_std_does() {
    let texts = ["", "a", "A", "b", "aa", "ä", "z", "\u{10000}", "\u{ffff}", " x\t", "\u{2003}y\u{3000}"];
    for a in texts {
        assert_eq!(trim(a), a.trim());
        for b in texts {
            assert_eq!(at_most(a, b), a <= b, "{a:?} {b:?}");
            assert_eq!(same_ignoring_case(a, b), a.eq_ignore_ascii_case(b));
            assert_eq!(contains(a, b), a.contains(b), "{a:?} {b:?}");
            assert_eq!(strip_prefix(a, b), a.strip_prefix(b), "{a:?} {b:?}");
        }
    }
    assert!(starts_with_ignoring_case("LNURL1x", "lnurl"));
    assert!(!starts_with_ignoring_case("lnur", "lnurl"));
    assert!(ends_with_ignoring_case("x.LocalHost", ".localhost"));
    assert_eq!(cat3("a", "", "bc"), "abc");
    assert_eq!(find_char(&chars_of("a:b:c"), ':'), 1);
    assert_eq!(find_char(&chars_of("abc"), ':'), 3);
}

#[test]
fn patterns_match_as_in_the_database() {
    let conn = Connection::open_in_memory().unwrap();
    let patterns = ["", "%", "_", "a%", "%a", "a_c", "ord:ab:%", "%%", "a%b%c", "A", "_%_", "ä%"];
    let texts = ["", "a", "A", "abc", "aXbYc", "ord:ab:1", "ORD:AB:2", "ord:abc:1", "ac", "äb", "Äb", "%"];
    for p in patterns {
        for s in texts {
            let want: bool = conn.query_row("SELECT ?1 LIKE ?2", [s, p], |r| r.get(0)).unwrap();
            assert_eq!(matches_like(p, s), want, "{s:?} LIKE {p:?}");
        }
    }
}

use millie::text::alphanumeric;
use millie::text::decimal_string;
use millie::text::lines_of;
use millie::text::lowered;
use millie::text::read_unsigned;
use millie::text::signed_decimal_string;
use millie::text::str_replace_all;
use millie::text::str_trim;
use millie::text::white;
use millie::text::width_of;
use millie::canonical::is_before;
use millie::canonical::sort_members;
use millie::json::parse;
use millie::json::Json;

#[test]
fn characters_are_classed_as_the_standard_library_classes_them() {
    for n in 0..=0x10ffffu32 {
        if let Some(c) = char::from_u32(n) {
            assert_eq!(white(c), c.is_whitespace(), "{n:x}");
            assert_eq!(width_of(c), c.len_utf8(), "{n:x}");
            assert_eq!(alphanumeric(c), c.is_ascii_alphanumeric(), "{n:x}");
        }
    }
}

#[test]
fn texts_are_taken_apart_as_the_standard_library_does() {
    let lines = |s: &str| -> Vec<String> {
        let cs: Vec<char> = s.chars().collect();
        lines_of(&cs).into_iter().map(|l| l.into_iter().collect()).collect()
    };
    for s in ["", "a", "a\n", "\n\na", "a\r\nb\r", "a\rb\n\r\n"] {
        assert_eq!(lines(s), s.lines().map(str::to_string).collect::<Vec<_>>(), "{s:?}");
    }
    for s in ["", " \u{2003}a b\u{85}\n", "\u{feff}a"] {
        assert_eq!(str_trim(s), s.trim());
    }
    assert_eq!(lowered("AbÇ1").into_iter().collect::<String>(), "AbÇ1".to_ascii_lowercase());
    assert_eq!(str_replace_all("aaaa", "aa", "b"), "aaaa".replace("aa", "b"));
}

#[test]
fn numbers_are_written_and_read() {
    for n in [0u128, 9, 10, 123456789012345678901234567890, u128::MAX] {
        assert_eq!(decimal_string(n), n.to_string());
    }
    for n in [0, -1, i64::MIN, i64::MAX] {
        assert_eq!(signed_decimal_string(n), n.to_string());
    }
    for s in ["", "0", "+7", "+", "-0", "18446744073709551615", "18446744073709551616", "1 "] {
        let cs: Vec<char> = s.chars().collect();
        assert_eq!(read_unsigned(&cs, u64::MAX), s.parse::<u64>().ok(), "{s:?}");
    }
}

#[test]
fn members_are_sorted_by_their_bytes() {
    for (a, b) in [("a", "b"), ("a", "ab"), ("\u{ffff}", "\u{10000}"), ("", "a"), ("z", "é")] {
        assert_eq!(is_before(a, b), a < b);
        assert_eq!(is_before(b, a), b < a);
    }
    let value = parse(r#"{"b":[{"d":1,"c":2}],"a":null}"#).unwrap();
    assert_eq!(sort_members(&value).to_text(), r#"{"a":null,"b":[{"c":2,"d":1}]}"#);
}

#[test]
fn texts_are_quoted_with_their_escapes() {
    assert_eq!(
        Json::text("a\"\\/\u{8}\u{c}\n\r\t\u{0}\u{1f}\u{7f}é\u{2028}").to_text(),
        "\"a\\\"\\\\/\\b\\f\\n\\r\\t\\u0000\\u001f\u{7f}é\u{2028}\""
    );
}

#[test]
fn values_are_written_as_they_were_read() {
    for text in [
        "null",
        "-0.5e+10",
        "18446744073709551615",
        r#""a\"\\\n\u001f/é""#,
        r#"{"b":[],"a":{"x":[true,false]}}"#,
    ] {
        let value: serde_json::Value = serde_json::from_str(text).unwrap();
        assert_eq!(parse(text).unwrap().to_text().len(), serde_json::to_string(&value).unwrap().len());
    }
    assert_eq!(parse(r#""a\"\\\n\u001f/é""#).unwrap().as_str(), Some("a\"\\\n\u{1f}/é"));
    assert!(parse("{'a':1}").is_none());
    assert!(parse("").is_none());
}

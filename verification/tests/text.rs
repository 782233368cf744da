use alx::like::is_like;
use alx::order::{order_of, text_precedes};
use alx::review::parse_number;
use alx::text::{
    blank, control, decimal_of, equal_ignoring_case, first_eight_bytes, has, has_eight_bytes,
    hex_of, joined, lines_of, split_at_each, trimmed, whitespace, words_of,
};

#[test]
fn characters_are_classed_as_in_the_standard_library() {
    for value in 0..=0x10ffffu32 {
        if let Some(c) = char::from_u32(value) {
            assert_eq!(whitespace(c), c.is_whitespace(), "{value:x}");
            assert_eq!(control(c), c.is_control(), "{value:x}");
        }
    }
}

#[test]
fn texts_are_cut_as_in_the_standard_library() {
    let samples = [
        "",
        " ",
        "\n",
        "\r\n",
        "a",
        " a b ",
        "a\nb\r\nc",
        "a\r",
        "a\n\n",
        "\u{2003}x\u{a0}\u{3000}",
        "one two\tthree\u{b}four\u{85}five",
        "a;b;;c;",
        "é\r\r\nü",
    ];
    for sample in samples {
        assert_eq!(trimmed(sample), sample.trim());
        assert_eq!(blank(sample), sample.trim().is_empty());
        assert_eq!(lines_of(sample), sample.lines().collect::<Vec<_>>());
        assert_eq!(split_at_each(sample, ';'), sample.split(';').collect::<Vec<_>>());
        assert_eq!(words_of(sample, false), sample.split_whitespace().collect::<Vec<_>>());
        assert_eq!(
            words_of(sample, true),
            sample.split_ascii_whitespace().collect::<Vec<_>>()
        );
        for pattern in samples {
            assert_eq!(has(sample, pattern), sample.contains(pattern));
            assert_eq!(
                equal_ignoring_case(sample, pattern),
                sample.eq_ignore_ascii_case(pattern)
            );
            assert_eq!(text_precedes(sample, pattern), sample <= pattern);
        }
    }
    assert!(equal_ignoring_case("aZ", "Az"));
    assert!(!equal_ignoring_case("é", "É"));
}

#[test]
fn numbers_are_written_and_read_as_in_the_standard_library() {
    for value in [0u128, 9, 10, 65535, u128::MAX] {
        assert_eq!(decimal_of(value), value.to_string());
    }
    assert_eq!(hex_of(&[0, 15, 16, 255]), "000f10ff");
    for sample in [
        "", "0", "200", "+200", "+", "-1", "65535", "65536", "00000000001", "999999x", "6553x",
        "12a", "٣", "++1", "99999",
    ] {
        let expected = sample.parse::<u16>().map_err(|error| error.to_string());
        assert_eq!(
            parse_number(sample).map_err(|error| error.message()),
            expected,
            "{sample}"
        );
    }
}

#[test]
fn patterns_match_as_like_does() {
    assert!(is_like("%a_c%", "xxABCyy"));
    assert!(is_like("%", ""));
    assert!(!is_like("_", ""));
    assert!(is_like("_", "é"));
    assert!(!is_like("É", "é"));
    assert!(is_like("a%b%c", "a--b--c"));
    assert!(!is_like("a%b%c", "a--c--b"));
    assert!(is_like("%x\0y%", "x"));
    assert!(!is_like("%y%", "x\0y"));
    assert!(is_like("\u{ffff}", "\u{fffd}"));
}

#[test]
fn texts_are_joined_and_cut_at_bytes() {
    assert_eq!(joined(&vec!["a".to_owned(), "b".to_owned()], ", "), "a, b");
    assert_eq!(joined(&vec![], ", "), "");
    assert!(has_eight_bytes("12345678"));
    assert!(!has_eight_bytes("1234567"));
    assert!(!has_eight_bytes("1234567é"));
    assert_eq!(first_eight_bytes("123456é9"), "123456é");
}

#[test]
fn keys_are_ordered_by_their_columns() {
    let key = |a: &str, b: &str| vec![a.to_owned(), b.to_owned()];
    let keys = vec![key("b", "1"), key("a", "2"), key("a", "1"), key("B", "1")];
    assert_eq!(order_of(&keys, false), vec![3, 2, 1, 0]);
    assert_eq!(order_of(&keys, true), vec![0, 2, 1, 3]);
}

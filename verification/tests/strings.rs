use midijitter::strings::{
    decimal_text, is_blank, join_texts, parse_u32, signed_decimal_text, wide_decimal_text,
};

#[test]
fn decimal_rendering_matches_to_string() {
    for value in [0_u64, 7, 10, 240, 1_000_000, u64::MAX] {
        assert_eq!(decimal_text(value), value.to_string());
    }
}

#[test]
fn blank_means_only_white_space() {
    assert!(is_blank(""));
    assert!(is_blank(" \t\r\n\u{a0}\u{3000}"));
    assert!(!is_blank(" x "));
}

#[test]
fn joining_puts_the_separator_between_parts() {
    let parts = vec!["a".to_owned(), "b".to_owned(), "c".to_owned()];
    assert_eq!(join_texts(&parts, ", "), "a, b, c");
    assert_eq!(join_texts(&Vec::new(), ", "), "");
}

#[test]
fn wide_and_signed_rendering_match_to_string() {
    for value in [0_u128, 9, 10, u64::MAX as u128 + 1, u128::MAX] {
        assert_eq!(wide_decimal_text(value), value.to_string());
    }
    for value in [0_i128, 37, -1, -250, i128::MAX, i128::MIN] {
        assert_eq!(signed_decimal_text(value), value.to_string());
    }
}

#[test]
fn unsigned_parsing_matches_str_parse() {
    for text in ["0", "42", "+7", "007", "4294967295", "4294967296", "", "+", "-1", "12a", " 1", "99999999999999999999"] {
        assert_eq!(parse_u32(text), text.parse::<u32>().ok(), "parsing {text:?}");
    }
}

use suno_core::text::{
    chars_of, contains_char, contains_text, ends_with, is_whitespace, join, position, replace, same,
    split, string_of, to_decimal, trim,
};

#[test]
fn white_space_is_that_of_unicode() {
    for u in 0..=0x10ffff_u32 {
        if let Some(c) = char::from_u32(u) {
            assert_eq!(is_whitespace(c), c.is_whitespace(), "{:x}", u);
        }
    }
}

const SAMPLES: [&str; 10] = [
    "", " ", "a", " a ", "\u{3000}é\u{85}", "aXbXXc", "XX", "aaa", "日本 語", "\t\nx;y;\r ",
];

#[test]
fn texts_are_handled_as_std_does() {
    for s in SAMPLES {
        assert_eq!(trim(s), s.trim());
        assert_eq!(string_of(&chars_of(s)), s);
        assert_eq!(contains_char(s, 'X'), s.contains('X'));
        for p in ["X", "aa", "日", "XX", "xyz"] {
            assert_eq!(replace(s, p, "-"), s.replace(p, "-"));
            assert_eq!(replace(s, p, "XaX"), s.replace(p, "XaX"));
            assert_eq!(contains_text(s, p), s.contains(p));
            assert_eq!(ends_with(s, p), s.ends_with(p));
            assert_eq!(same(s, p), s == p);
        }
        assert!(contains_text(s, ""));
        assert!(ends_with(s, ""));
        assert!(same(s, s));
        let parts: Vec<String> = split(&chars_of(s), 'X').iter().map(|p| string_of(p)).collect();
        let expected: Vec<String> = s.split('X').map(String::from).collect();
        assert_eq!(parts, expected);
        assert_eq!(join(&parts, "X"), s);
        assert_eq!(
            position(&chars_of(s), 'X'),
            s.chars().position(|c| c == 'X').unwrap_or(s.chars().count())
        );
    }
}

#[test]
fn numerals() {
    for n in [0, 7, 9, 10, 99, 100, 1234567890, u64::MAX as u128, u128::MAX] {
        assert_eq!(to_decimal(n), n.to_string());
    }
}

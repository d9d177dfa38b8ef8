use wca_overview::text::{
    append_decimal, append_padded2, chars_of, is_ascii_digit, is_whitespace, str_eq, trim,
};

#[test]
fn trim_removes_whitespace_around() {
    assert_eq!(trim("  Jane Doe \n"), "Jane Doe");
    assert_eq!(trim("Jane"), "Jane");
    assert_eq!(trim(""), "");
    assert_eq!(trim(" \t\r\n"), "");
    assert_eq!(trim("\u{2003}Zoë\u{feff}"), "Zoë\u{feff}");
}

#[test]
fn trim_agrees_with_the_standard_library() {
    for text in ["", " ", "a", " a", "a ", " a b ", "\u{85}x\u{1680}", "\u{200b}x", "\u{2028}\u{2029}y\u{202f}\u{205f}", "\u{b}\u{c}z\u{1c}"] {
        assert_eq!(trim(text), text.trim(), "{:?}", text);
    }
}

#[test]
fn whitespace_agrees_with_the_standard_library() {
    for code in 0u32..0x3100 {
        if let Some(c) = char::from_u32(code) {
            assert_eq!(is_whitespace(c), c.is_whitespace(), "{:x}", code);
        }
    }
    assert!(!is_whitespace('\u{feff}'));
    assert!(!is_whitespace(char::MAX));
}

#[test]
fn digits() {
    for c in '0'..='9' {
        assert!(is_ascii_digit(c));
    }
    for c in ['/', ':', 'a', ' ', '٣', '³'] {
        assert!(!is_ascii_digit(c));
    }
}

#[test]
fn characters_and_equality() {
    assert_eq!(chars_of("aé3"), vec!['a', 'é', '3']);
    assert_eq!(chars_of(""), Vec::<char>::new());
    assert!(str_eq("333bf", "333bf"));
    assert!(!str_eq("333bf", "333b"));
    assert!(!str_eq("333bf", "333fm"));
    assert!(str_eq("", ""));
}

#[test]
fn decimal_notation() {
    let mut out = String::from("n=");
    append_decimal(&mut out, 0);
    append_decimal(&mut out, 7);
    append_decimal(&mut out, 10);
    append_decimal(&mut out, u64::MAX);
    assert_eq!(out, "n=071018446744073709551615");
}

#[test]
fn padded_notation() {
    let mut out = String::new();
    append_padded2(&mut out, 0);
    out.push(' ');
    append_padded2(&mut out, 9);
    out.push(' ');
    append_padded2(&mut out, 10);
    out.push(' ');
    append_padded2(&mut out, 123);
    assert_eq!(out, "00 09 10 123");
    assert_eq!(out, format!("{:0>2} {:0>2} {:0>2} {:0>2}", 0, 9, 10, 123));
}

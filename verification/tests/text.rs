use cpulimiter::text::{
    chars_of, find_char, is_whitespace, parse_u32, parse_u64, push_decimal, rfind_char, scan_word,
};

#[test]
fn separators() {
    for c in [' ', '\t', '\n', '\r', '\x0b', '\x0c', '\u{85}', '\u{a0}', '\u{1680}', '\u{2000}',
        '\u{2003}', '\u{200a}', '\u{2028}', '\u{2029}', '\u{202f}', '\u{205f}', '\u{3000}']
    {
        assert!(is_whitespace(c));
    }
    for c in ['a', '0', '(', ')', '\0', '\x08', '\x0e', '\x1f', '!', '\u{84}', '\u{86}', '\u{200b}',
        '\u{180e}', '\u{2060}', '\u{feff}', '\u{3001}']
    {
        assert!(!is_whitespace(c));
    }
}

#[test]
fn separators_are_the_whitespace_of_the_standard_library() {
    let mut code: u32 = 0;
    while code <= 0x10ffff {
        if let Some(c) = char::from_u32(code) {
            assert_eq!(is_whitespace(c), c.is_whitespace());
        }
        code += 1;
    }
}

#[test]
fn word_ends_at_the_next_separator() {
    assert_eq!(scan_word(&chars_of("ab cd"), 0), 2);
    assert_eq!(scan_word(&chars_of("ab cd"), 1), 2);
    assert_eq!(scan_word(&chars_of("ab cd"), 2), 2);
    assert_eq!(scan_word(&chars_of("ab cd"), 3), 5);
    assert_eq!(scan_word(&chars_of("ab cd"), 5), 5);
    assert_eq!(scan_word(&chars_of("ab cd"), 9), 9);
    assert_eq!(scan_word(&chars_of(""), 0), 0);
}

#[test]
fn positions_count_characters() {
    assert_eq!(scan_word(&chars_of("\u{e9}\u{e9} x"), 0), 2);
    assert_eq!(find_char(&chars_of("\u{e9}(\u{e9})"), ')', 0), 3);
    assert_eq!(rfind_char(&chars_of("\u{e9}(\u{e9})"), '('), Some(1));
}

#[test]
fn first_and_last_of_a_character() {
    assert_eq!(find_char(&chars_of("a(b(c"), '(', 0), 1);
    assert_eq!(find_char(&chars_of("a(b(c"), '(', 2), 3);
    assert_eq!(find_char(&chars_of("a(b(c"), '(', 4), 5);
    assert_eq!(find_char(&chars_of("abc"), '(', 0), 3);
    assert_eq!(find_char(&chars_of("abc"), '(', 7), 7);
    assert_eq!(rfind_char(&chars_of("a)b)c"), ')'), Some(3));
    assert_eq!(rfind_char(&chars_of(")"), ')'), Some(0));
    assert_eq!(rfind_char(&chars_of("abc"), ')'), None);
    assert_eq!(rfind_char(&chars_of(""), ')'), None);
}

#[test]
fn numerals_of_64_bits() {
    assert_eq!(parse_u64("0"), Some(0));
    assert_eq!(parse_u64("25"), Some(25));
    assert_eq!(parse_u64("+25"), Some(25));
    assert_eq!(parse_u64("00012"), Some(12));
    assert_eq!(parse_u64("18446744073709551615"), Some(u64::MAX));
    assert_eq!(parse_u64("18446744073709551616"), None);
    assert_eq!(parse_u64("99999999999999999999999"), None);
    assert_eq!(parse_u64("000000000000000000000000007"), Some(7));
}

#[test]
fn what_is_no_numeral() {
    for s in ["", "+", "-", "-5", "++5", "5+", " 5", "5 ", "1_000", "0x10", "1.5", "\u{663}"] {
        assert_eq!(parse_u64(s), None);
        assert_eq!(parse_u32(s), None);
    }
}

#[test]
fn numerals_of_32_bits() {
    assert_eq!(parse_u32("127912"), Some(127912));
    assert_eq!(parse_u32("+1"), Some(1));
    assert_eq!(parse_u32("4294967295"), Some(u32::MAX));
    assert_eq!(parse_u32("4294967296"), None);
    assert_eq!(parse_u32("18446744073709551616"), None);
}

#[test]
fn numerals_agree_with_the_standard_library() {
    for s in ["0", "+0", "007", "42", "+42", "-42", "4294967295", "4294967296", "", "+", "a", "1a"] {
        assert_eq!(parse_u32(s), s.parse::<u32>().ok());
        assert_eq!(parse_u64(s), s.parse::<u64>().ok());
    }
}

#[test]
fn characters_of_a_text() {
    assert_eq!(chars_of(""), Vec::<char>::new());
    assert_eq!(chars_of("a b"), vec!['a', ' ', 'b']);
    assert_eq!(chars_of("\u{e9}\u{2603}x"), vec!['\u{e9}', '\u{2603}', 'x']);
}

#[test]
fn numeral_is_written_behind_the_text() {
    let mut out = String::from("/proc/");
    push_decimal(&mut out, 4562);
    assert_eq!(out, "/proc/4562");
    push_decimal(&mut out, 0);
    assert_eq!(out, "/proc/45620");
    assert_eq!(parse_u32("45620"), Some(45620));
}

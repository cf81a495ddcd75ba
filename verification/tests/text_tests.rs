use lib::text::{
    chars_of, file_text_of, is_ascii_alnum_char, is_ascii_ws_char, is_digit_char,
    is_whitespace_char, lines_of, lower_char, parse_u8_chars, split_ws_chars, trim_chars,
};

fn all_chars() -> impl Iterator<Item = char> {
    (0u32..=0x10FFFF).filter_map(char::from_u32)
}

#[test]
fn character_classes_agree_with_std() {
    for c in all_chars() {
        assert_eq!(is_whitespace_char(c), c.is_whitespace(), "{:?}", c);
        assert_eq!(is_ascii_ws_char(c), c.is_ascii_whitespace(), "{:?}", c);
        assert_eq!(is_ascii_alnum_char(c), c.is_ascii_alphanumeric(), "{:?}", c);
        assert_eq!(is_digit_char(c), c.is_ascii_digit(), "{:?}", c);
        assert_eq!(lower_char(c), c.to_ascii_lowercase(), "{:?}", c);
    }
}

#[test]
fn trimming_and_splitting_agree_with_std() {
    for s in ["", "  ", " a b ", "\u{3000}x\u{85}", "\ta\u{a0}\u{2028}b c\n", "é  ü"] {
        let t: String = trim_chars(&chars_of(s)).into_iter().collect();
        assert_eq!(t, s.trim());
        let words: Vec<String> = split_ws_chars(&chars_of(s))
            .into_iter()
            .map(|w| w.into_iter().collect::<String>())
            .filter(|w| !w.is_empty())
            .collect();
        assert_eq!(words, s.split_whitespace().collect::<Vec<_>>());
    }
}

#[test]
fn lines_agree_with_std() {
    for s in ["", "a", "a\n", "a\r\nb", "a\n\nb\r\n", "\r\n", "x\ry\n"] {
        let ls: Vec<String> = lines_of(&chars_of(s))
            .into_iter()
            .map(|l| l.into_iter().collect::<String>())
            .collect();
        assert_eq!(ls, s.lines().collect::<Vec<_>>(), "{:?}", s);
    }
    let ls = vec![chars_of("a"), chars_of("b")];
    assert_eq!(file_text_of(&ls).into_iter().collect::<String>(), "a\nb\n");
    assert!(file_text_of(&Vec::new()).is_empty());
}

#[test]
fn u8_parsing_agrees_with_std() {
    for s in ["", "0", "7", "007", "+9", "255", "256", "-1", "1a", "+", "00000000000255", "99999999999999999999"] {
        assert_eq!(parse_u8_chars(&chars_of(s)), s.parse::<u8>().ok(), "{:?}", s);
    }
}

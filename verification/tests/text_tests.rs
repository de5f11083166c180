use watch_rs::text::{
    chars_of, is_ascii_alphabetic, is_ascii_alphanumeric, is_control, is_whitespace,
    join_with_spaces, len_utf8, lines_of, same_text, string_of,
};

#[test]
fn lines_agree_with_str_lines() {
    let samples = [
        "", "a", "a\n", "a\nb", "a\r\nb\r\n", "\n", "\n\n", "a\rb", "a\r", "a\r\r\n", "\r\n",
        "x\n\ny", "ü\nß\r\n",
    ];
    for s in samples {
        let expected: Vec<Vec<char>> = s.lines().map(|l| l.chars().collect()).collect();
        assert_eq!(lines_of(s), expected, "{s:?}");
    }
}

#[test]
fn character_classes_agree_with_std() {
    let mut c = 0u32;
    while c <= 0x3100 {
        if let Some(ch) = char::from_u32(c) {
            assert_eq!(is_control(ch), ch.is_control(), "{c:#x}");
            assert_eq!(is_whitespace(ch), ch.is_whitespace(), "{c:#x}");
            assert_eq!(is_ascii_alphabetic(ch), ch.is_ascii_alphabetic(), "{c:#x}");
            assert_eq!(is_ascii_alphanumeric(ch), ch.is_ascii_alphanumeric(), "{c:#x}");
            assert_eq!(len_utf8(ch), ch.len_utf8(), "{c:#x}");
        }
        c += 1;
    }
    for ch in ['\u{10000}', '\u{10FFFF}', '\u{FFFF}', '\u{E000}'] {
        assert_eq!(len_utf8(ch), ch.len_utf8());
        assert_eq!(is_whitespace(ch), ch.is_whitespace());
    }
}

#[test]
fn strings_and_characters() {
    assert_eq!(chars_of("añb"), vec!['a', 'ñ', 'b']);
    assert_eq!(string_of(&vec!['x', 'ÿ']), "xÿ");
    assert!(same_text("abc", "abc"));
    assert!(!same_text("abc", "abd"));
    assert!(!same_text("abc", "ab"));
    assert_eq!(join_with_spaces(&vec!["a".to_string(), "b c".to_string()]), "a b c");
    assert_eq!(join_with_spaces(&vec![]), "");
}

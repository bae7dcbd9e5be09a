use stow::text::{char_is_whitespace, chars_of, insert_char, lines, remove_range, string_from_chars, trim};

#[test]
fn trim_removes_unicode_white_space_at_both_ends() {
    assert_eq!(trim("  a b \n"), "a b");
    assert_eq!(trim("\u{a0}\u{2003}x\u{3000}"), "x");
    assert_eq!(trim(" \t\r\n"), "");
    assert_eq!(trim(""), "");
    assert_eq!(trim("\u{200b}x"), "\u{200b}x");
}

#[test]
fn whitespace_matches_std() {
    for u in 0u32..0x3100 {
        if let Some(c) = char::from_u32(u) {
            assert_eq!(char_is_whitespace(c), c.is_whitespace(), "{u:#x}");
        }
    }
}

#[test]
fn lines_match_std_lines() {
    for s in ["", "a", "a\n", "a\r\nb", "a\rb\n", "\n\n", "x\r", "one\ntwo\r\n\nthree"] {
        let expected: Vec<String> = s.lines().map(|l| l.to_string()).collect();
        assert_eq!(lines(s), expected, "{s:?}");
    }
}

#[test]
fn char_helpers_edit_by_character() {
    assert_eq!(chars_of("héllo"), vec!['h', 'é', 'l', 'l', 'o']);
    assert_eq!(string_from_chars(&['a', 'ß']), "aß");
    assert_eq!(insert_char("añb", 2, 'x'), "añxb");
    assert_eq!(insert_char("ab", 2, '!'), "ab!");
    assert_eq!(remove_range("añbc", 1, 3), "ac");
}

use ion_parser::text::{
    after_prefix, equal, find, find_space, slice, starts_with, trim, trim_start,
};

#[test]
fn trim_drops_white_space_at_both_ends() {
    assert_eq!(trim("  echo one  "), "echo one");
    assert_eq!(trim("\t\n echo\r\n"), "echo");
    assert_eq!(trim("echo"), "echo");
    assert_eq!(trim(""), "");
    assert_eq!(trim("   "), "");
    assert_eq!(trim(" a b "), "a b");
}

#[test]
fn trim_start_keeps_the_end() {
    assert_eq!(trim_start("  echo one  "), "echo one  ");
    assert_eq!(trim_start("echo "), "echo ");
    assert_eq!(trim_start("   "), "");
    assert_eq!(trim_start(""), "");
}

#[test]
fn trim_agrees_with_the_standard_library_on_every_character() {
    let mut code: u32 = 0;
    while code <= 0x10ffff {
        if let Some(c) = char::from_u32(code) {
            let text = format!("{}{}x{}y{}{}", c, c, c, c, c);
            assert_eq!(trim(&text), text.trim(), "U+{:04X}", code);
            assert_eq!(trim_start(&text), text.trim_start(), "U+{:04X}", code);
            assert_eq!(
                find_space(&text),
                text.find(char::is_whitespace),
                "U+{:04X}",
                code
            );
        }
        code += if code < 0x3100 { 1 } else { 97 };
    }
}

#[test]
fn trim_handles_wide_white_space() {
    assert_eq!(trim("\u{2003}echo\u{00a0}"), "echo");
    assert_eq!(trim("\u{3000}\u{1680} é \u{205f}"), "é");
    assert_eq!(trim("é"), "é");
    assert_eq!(trim("\u{200b}a"), "\u{200b}a");
}

#[test]
fn find_space_gives_the_first_white_space() {
    assert_eq!(find_space("x in 1 2 3"), Some(1));
    assert_eq!(find_space("abc"), None);
    assert_eq!(find_space(""), None);
    assert_eq!(find_space("é\tb"), Some(2));
    assert_eq!(find_space("ab\u{2003}c"), Some(2));
}

#[test]
fn find_gives_the_first_occurrence() {
    assert_eq!(find("a -- b -- c", "--"), Some(2));
    assert_eq!(find("a - b", "--"), None);
    assert_eq!(find("abc", ""), Some(0));
    assert_eq!(find("", ""), Some(0));
    assert_eq!(find("", "a"), None);
    assert_eq!(find("ab", "abc"), None);
    assert_eq!(find("aab", "ab"), Some(1));
    assert_eq!(find("héllo", "llo"), Some(3));
}

#[test]
fn find_agrees_with_the_standard_library() {
    let texts = ["", "a", "ab", "aab", "abab", "a--b", "--", "-a-", "é--é", "xx--"];
    let patterns = ["", "a", "b", "ab", "--", "-", "é", "b--"];
    for text in texts.iter() {
        for pattern in patterns.iter() {
            assert_eq!(find(text, pattern), text.find(pattern), "{:?} in {:?}", pattern, text);
            assert_eq!(
                starts_with(text, pattern),
                text.starts_with(pattern),
                "{:?} before {:?}",
                pattern,
                text
            );
            assert_eq!(equal(text, pattern), text == pattern);
        }
    }
}

#[test]
fn prefixes_are_told_and_taken_off() {
    assert!(starts_with("let x = 1", "let "));
    assert!(!starts_with("le", "let "));
    assert!(!starts_with("set x", "let "));
    assert!(starts_with("anything", ""));
    assert_eq!(after_prefix("let x = 1", "let "), "x = 1");
    assert_eq!(after_prefix("else", "else"), "");
}

#[test]
fn slices_are_taken_between_boundaries() {
    assert_eq!(slice("echo one", 5, 8), "one");
    assert_eq!(slice("echo one", 0, 0), "");
    assert_eq!(slice("é;b", 0, 2), "é");
    assert_eq!(slice("é;b", 3, 4), "b");
}

#[test]
fn equal_compares_text() {
    assert!(equal("else", "else"));
    assert!(!equal("else", "els"));
    assert!(!equal("else", "elsf"));
    assert!(equal("", ""));
}

use rustfuzz::text::{
    chars_of, contains, decimal, ends_with, find, index_from, is_blank_str, is_space, last_field_of,
    matches_at, push_chars, slice_of, split_chars, starts_with, trim, trim_chars,
    trim_end_char_of,
};

fn chars(s: &str) -> Vec<char> {
    s.chars().collect()
}

#[test]
fn contains_finds_a_part() {
    assert!(contains("token123 found", "token123"));
    assert!(!contains("no match", "token123"));
    assert!(contains("abc", ""));
    assert!(contains("", ""));
    assert!(!contains("", "a"));
    assert!(contains("aab", "ab"));
}

#[test]
fn find_gives_the_first_position() {
    assert_eq!(find(&chars("abcabc"), &chars("bc")), Some(1));
    assert_eq!(find(&chars("abcabc"), &chars("")), Some(0));
    assert_eq!(find(&chars("abc"), &chars("abcd")), None);
    assert_eq!(find(&chars("abc"), &chars("c")), Some(2));
    assert!(matches_at(&chars("abc"), 1, &chars("bc")));
    assert!(!matches_at(&chars("abc"), 2, &chars("bc")));
    assert!(!matches_at(&chars("abc"), 9, &chars("")));
    assert!(matches_at(&chars("abc"), 3, &chars("")));
}

#[test]
fn prefixes_and_suffixes() {
    assert!(starts_with("mailto:a@b", "mailto:"));
    assert!(!starts_with("mail", "mailto:"));
    assert!(starts_with("text/html; charset=utf-8", "text/html"));
    assert!(!starts_with("Text/html", "text/html"));
    assert!(ends_with("a/b.png", ".png"));
    assert!(!ends_with("png", ".png"));
    assert!(ends_with("x", ""));
}

#[test]
fn trim_drops_outer_whitespace() {
    assert_eq!(trim("  a b \t\n"), "a b");
    assert_eq!(trim("\u{3000}\u{a0}x\u{2028}"), "x");
    assert_eq!(trim("   "), "");
    assert_eq!(trim(""), "");
    assert_eq!(trim_chars(&chars(" x ")), chars("x"));
    for s in ["", " ", "a", " a", "a ", "\u{85}a\u{1680}", "\u{200b}a", "\u{feff}a "] {
        assert_eq!(trim(s), s.trim());
    }
}

#[test]
fn whitespace_is_what_std_calls_whitespace() {
    let mut n: u32 = 0;
    while n <= 0x3100 {
        if let Some(c) = char::from_u32(n) {
            assert_eq!(is_space(c), c.is_whitespace());
        }
        n += 1;
    }
    assert!(!is_space('\u{feff}'));
    assert!(!is_space('\u{10ffff}'));
}

#[test]
fn blank_strings() {
    assert!(is_blank_str(""));
    assert!(is_blank_str(" \t\r\n"));
    assert!(!is_blank_str(" a "));
}

#[test]
fn splitting_on_a_separator() {
    let pieces = |s: &str| -> Vec<String> {
        split_chars(&chars(s), ',').into_iter().map(|p| p.into_iter().collect()).collect()
    };
    for s in ["", "a", "a,b", ",", "a,", ",a", "a,,b", ",,"] {
        let expected: Vec<String> = s.split(',').map(|p| p.to_string()).collect();
        assert_eq!(pieces(s), expected);
    }
    assert_eq!(index_from(&chars("a:b:c"), 0, ':'), 1);
    assert_eq!(index_from(&chars("a:b:c"), 2, ':'), 3);
    assert_eq!(index_from(&chars("a:b:c"), 4, ':'), 5);
}

#[test]
fn the_last_field() {
    for s in ["", "a", "a/b", "a/", "/", "http://h/admin"] {
        let expected: Vec<char> = s.split('/').last().unwrap_or("").chars().collect();
        assert_eq!(last_field_of(&chars(s), '/'), expected);
    }
}

#[test]
fn trailing_characters_are_dropped() {
    for s in ["", "/", "a", "a/", "a//", "/a/b///", "///"] {
        assert_eq!(trim_end_char_of(&chars(s), '/'), chars(s.trim_end_matches('/')));
    }
}

#[test]
fn characters_and_slices() {
    assert_eq!(chars_of("h\u{e9}llo"), chars("h\u{e9}llo"));
    assert_eq!(chars_of(""), Vec::<char>::new());
    assert_eq!(slice_of(&chars("abcdef"), 2, 4), chars("cd"));
    assert_eq!(slice_of(&chars("abc"), 3, 3), chars(""));
    let mut v = chars("ab");
    push_chars(&mut v, "cd");
    assert_eq!(v, chars("abcd"));
}

#[test]
fn numbers_in_decimal() {
    for n in [0u16, 7, 10, 99, 100, 404, 9999, 10000, 65535] {
        let digits: String = decimal(n).into_iter().collect();
        assert_eq!(digits, n.to_string());
    }
}

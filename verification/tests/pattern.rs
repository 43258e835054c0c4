use rustfuzz::pattern::{any_word_occurs, are_plain_words, is_plain_word, join_alternatives};

#[test]
fn alternatives_are_joined_by_bars() {
    assert_eq!(join_alternatives(&vec!["a", "b c", "d"]), "a|b c|d");
    assert_eq!(join_alternatives(&vec!["only"]), "only");
    assert_eq!(join_alternatives(&Vec::new()), "");
}

#[test]
fn plain_words_hold_letters_digits_and_spaces() {
    assert!(is_plain_word("sql error 42"));
    assert!(is_plain_word(""));
    assert!(!is_plain_word("a|b"));
    assert!(!is_plain_word("a.b"));
    assert!(!is_plain_word("caf\u{e9}"));
    assert!(are_plain_words(&vec!["a", "b c"]));
    assert!(!are_plain_words(&vec!["a", "b+"]));
}

#[test]
fn any_word_occurs_agrees_for_plain_and_other_words() {
    assert!(any_word_occurs(&vec!["fatal", "exception"], "a fatal thing"));
    assert!(!any_word_occurs(&vec!["fatal", "exception"], "FATAL"));
    assert!(!any_word_occurs(&Vec::new(), "anything"));
    assert!(any_word_occurs(&vec!["a.c"], "xa.cx"));
    assert!(!any_word_occurs(&vec!["a.c"], "xabcx"));
    assert!(any_word_occurs(&vec!["x", "(y"], "a(yb"));
    assert!(any_word_occurs(&vec![""], ""));
    let long = "a".repeat(600);
    assert!(any_word_occurs(&vec![long.as_str()], &"a".repeat(700)));
    assert!(!any_word_occurs(&vec![long.as_str()], &"a".repeat(599)));
}

use rustfuzz::targets::{
    add_discovered, assemble_words, build_targets, mutate_wordlist, mutations_of, parse_openapi, reversed,
    special_chars, wordlist_lines,
};

fn strings(words: &[&str]) -> Vec<String> {
    words.iter().map(|w| w.to_string()).collect()
}

#[test]
fn the_five_mutations_of_a_word() {
    assert_eq!(
        mutations_of("admin", ';'),
        strings(&["ADMIN", "nimda", "admin;", "%admin%", "admin1"])
    );
    assert_eq!(mutations_of("", '&'), strings(&["", "", "&", "%%", "1"]));
    assert_eq!(
        mutations_of("stra\u{df}e", '<'),
        strings(&["STRASSE", "e\u{df}arts", "stra\u{df}e<", "%stra\u{df}e%", "stra\u{df}e1"])
    );
}

#[test]
fn reversed_turns_the_order_round() {
    assert_eq!(reversed(&vec!['a', 'b', 'c']), vec!['c', 'b', 'a']);
    assert_eq!(reversed(&Vec::new()), Vec::<char>::new());
}

#[test]
fn every_word_gets_five_mutations_with_a_special_character() {
    let words = strings(&["admin", "login", "x"]);
    let out = mutate_wordlist(&words);
    assert_eq!(out.len(), 15);
    for (k, word) in words.iter().enumerate() {
        let third = &out[5 * k + 2];
        let special = third.chars().last().unwrap();
        assert!(special_chars().contains(&special));
        assert_eq!(out[5 * k..5 * k + 5].to_vec(), mutations_of(word, special));
    }
    assert!(mutate_wordlist(&Vec::new()).is_empty());
}

#[test]
fn the_special_characters() {
    assert_eq!(special_chars(), vec!['\'', '"', '<', '>', ';', '|', '&']);
}

#[test]
fn words_are_followed_by_mutations_and_payloads() {
    let plain = assemble_words(strings(&["a", "b"]), false, strings(&["p"]));
    assert_eq!(plain, strings(&["a", "b", "p"]));
    let mutated = assemble_words(strings(&["a"]), true, strings(&["p", "q"]));
    assert_eq!(mutated.len(), 1 + 5 + 2);
    assert_eq!(mutated[0], "a");
    assert_eq!(mutated[1], "A");
    assert_eq!(mutated[2], "a");
    assert_eq!(mutated[4], "%a%");
    assert_eq!(mutated[5], "a1");
    assert_eq!(mutated[6..].to_vec(), strings(&["p", "q"]));
}

#[test]
fn targets_join_the_base_and_each_word() {
    assert_eq!(
        build_targets("http://example.test", &strings(&["admin", "login"]), Vec::new()),
        strings(&["http://example.test/admin", "http://example.test/login"])
    );
    assert_eq!(
        build_targets("http://example.test///", &strings(&["a"]), Vec::new()),
        strings(&["http://example.test/a"])
    );
}

#[test]
fn blank_words_give_no_target() {
    assert_eq!(
        build_targets("http://h", &strings(&["", "a", "  ", "\t", " b "]), Vec::new()),
        strings(&["http://h/a", "http://h/ b "])
    );
}

#[test]
fn discovered_urls_follow_the_words() {
    assert_eq!(
        build_targets("http://h/", &strings(&["a"]), strings(&["http://h/found", "http://h/x"])),
        strings(&["http://h/a", "http://h/found", "http://h/x"])
    );
    assert_eq!(build_targets("", &Vec::new(), strings(&["u"])), strings(&["u"]));
    assert_eq!(build_targets("", &strings(&["w"]), Vec::new()), strings(&["/w"]));
}

#[test]
fn the_api_description_is_a_stub() {
    let expected = strings(&["https://example.com/api/v1/users", "https://example.com/api/v1/login"]);
    assert_eq!(parse_openapi("http://example.test/openapi.json"), expected);
    assert_eq!(parse_openapi(""), expected);
}

#[test]
fn discovered_urls_are_added_once() {
    assert_eq!(
        add_discovered(strings(&["a", "b"]), strings(&["b", "c", "c", "a", "d"])),
        strings(&["a", "b", "c", "d"])
    );
    assert_eq!(add_discovered(Vec::new(), strings(&["x", "x"])), strings(&["x"]));
    assert_eq!(add_discovered(strings(&["a", "a"]), Vec::new()), strings(&["a", "a"]));
}

#[test]
fn a_word_list_is_read_line_by_line() {
    assert_eq!(wordlist_lines("admin\nlogin\n"), strings(&["admin", "login"]));
    assert_eq!(wordlist_lines("admin\r\nlogin"), strings(&["admin", "login"]));
    assert_eq!(wordlist_lines(""), Vec::<String>::new());
    assert_eq!(wordlist_lines("\n"), strings(&[""]));
    assert_eq!(wordlist_lines("a\n\nb"), strings(&["a", "", "b"]));
    assert_eq!(wordlist_lines("a\r"), strings(&["a\r"]));
    assert_eq!(wordlist_lines("a\r\r\n"), strings(&["a\r"]));
    for text in ["", "x", "x\n", "\r\n", "a\nb\r\nc\n\n", "\r", "a\rb\n"] {
        let expected: Vec<String> = text.lines().map(|l| l.to_string()).collect();
        assert_eq!(wordlist_lines(text), expected);
    }
}

use rustfuzz::classify::{
    classify, has_error_signature, is_reflected, word_of, FailurePolicy, FuzzResult, Outcome,
};

#[test]
fn reflection_is_an_exact_search() {
    assert!(is_reflected("token123 found", "token123"));
    assert!(!is_reflected("no match", "token123"));
    assert!(!is_reflected("TOKEN123 found", "token123"));
    assert!(is_reflected("caf\u{e9} ol\u{e9}", "\u{e9} o"));
    assert!(is_reflected("anything", ""));
}

#[test]
fn error_signatures_are_found_in_any_case() {
    assert!(has_error_signature("Fatal error occurred"));
    assert!(!has_error_signature("all good"));
    assert!(has_error_signature("unhandledException"));
    assert!(has_error_signature("<h1>Internal Server Error</h1>"));
    assert!(has_error_signature("ACCESS DENIED"));
    assert!(has_error_signature("python Traceback (most recent call last)"));
    assert!(has_error_signature("a stack trace follows"));
    assert!(has_error_signature("Syntax Error near"));
    assert!(has_error_signature("SQL error 1064"));
    assert!(has_error_signature("method not allowed"));
    assert!(!has_error_signature("internal server"));
    assert!(!has_error_signature(""));
}

#[test]
fn the_probed_word_is_the_last_segment() {
    assert_eq!(word_of("http://example.test/admin"), "admin");
    assert_eq!(word_of("http://example.test/a/b"), "b");
    assert_eq!(word_of("http://example.test/"), "");
    assert_eq!(word_of("plain"), "plain");
}

#[test]
fn a_matching_response_is_retained() {
    let outcome = Outcome::Response { status: 200, body: "welcome admin, fatal".to_string() };
    let v = classify("http://example.test/admin", &outcome, &vec![200, 403], FailurePolicy::Discard);
    assert!(v.logged);
    assert_eq!(
        v.record,
        Some(FuzzResult {
            url: "http://example.test/admin".to_string(),
            word: "admin".to_string(),
            status: 200,
            reflected: true,
            error: Some("Possible error detected".to_string()),
        })
    );
}

#[test]
fn a_response_outside_the_matcher_is_dropped_whatever_its_body() {
    let outcome = Outcome::Response { status: 404, body: "login fatal exception".to_string() };
    let v = classify("http://example.test/login", &outcome, &vec![200, 403], FailurePolicy::Collect);
    assert_eq!(v.record, None);
    assert!(!v.logged);
}

#[test]
fn a_clean_body_carries_no_annotation() {
    let outcome = Outcome::Response { status: 403, body: "nothing here".to_string() };
    let v = classify("http://example.test/x", &outcome, &vec![200, 403], FailurePolicy::Discard);
    let r = v.record.unwrap();
    assert_eq!(r.status, 403);
    assert!(!r.reflected);
    assert_eq!(r.error, None);
}

#[test]
fn failures_follow_the_policy() {
    let outcome = Outcome::Failure { reason: "connection refused".to_string() };
    let matcher = vec![200];
    let discard = classify("http://h/a", &outcome, &matcher, FailurePolicy::Discard);
    assert_eq!(discard.record, None);
    assert!(!discard.logged);
    let log = classify("http://h/a", &outcome, &matcher, FailurePolicy::Log);
    assert_eq!(log.record, None);
    assert!(log.logged);
    let collect = classify("http://h/a", &outcome, &matcher, FailurePolicy::Collect);
    assert!(collect.logged);
    assert_eq!(
        collect.record,
        Some(FuzzResult {
            url: "http://h/a".to_string(),
            word: "a".to_string(),
            status: 0,
            reflected: false,
            error: Some("connection refused".to_string()),
        })
    );
    assert_eq!(FailurePolicy::default(), FailurePolicy::Discard);
}

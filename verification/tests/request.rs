use rustfuzz::request::{cookie_header, crawl_headers, request_headers};

fn pairs(items: &[(&str, &str)]) -> Vec<(String, String)> {
    items.iter().map(|(k, v)| (k.to_string(), v.to_string())).collect()
}

#[test]
fn cookies_are_joined_in_order() {
    assert_eq!(cookie_header(&pairs(&[])), None);
    assert_eq!(cookie_header(&pairs(&[("sid", "1")])), Some("sid=1".to_string()));
    assert_eq!(
        cookie_header(&pairs(&[("sid", "1"), ("lang", "en"), ("sid", "2")])),
        Some("sid=1; lang=en; sid=2".to_string())
    );
    assert_eq!(cookie_header(&pairs(&[("", "")])), Some("=".to_string()));
}

#[test]
fn headers_then_cookie_then_bearer() {
    let out = request_headers(
        &pairs(&[("X-A", "1"), ("Authorization", "Basic abc"), ("X-A", "2")]),
        &pairs(&[("sid", "1"), ("t", "x")]),
        Some("tok"),
    );
    assert_eq!(
        out,
        pairs(&[
            ("X-A", "1"),
            ("Authorization", "Basic abc"),
            ("X-A", "2"),
            ("Cookie", "sid=1; t=x"),
            ("Authorization", "Bearer tok"),
        ])
    );
}

#[test]
fn no_cookie_and_no_token_add_nothing() {
    assert_eq!(request_headers(&pairs(&[("A", "b")]), &pairs(&[]), None), pairs(&[("A", "b")]));
    assert_eq!(request_headers(&pairs(&[]), &pairs(&[]), None), pairs(&[]));
    assert_eq!(
        request_headers(&pairs(&[]), &pairs(&[]), Some("")),
        pairs(&[("Authorization", "Bearer ")])
    );
}

#[test]
fn the_crawler_sends_the_cookie_first() {
    assert_eq!(
        crawl_headers(&pairs(&[("sid", "1")]), &pairs(&[("X-A", "1"), ("X-B", "2")])),
        pairs(&[("Cookie", "sid=1"), ("X-A", "1"), ("X-B", "2")])
    );
    assert_eq!(crawl_headers(&pairs(&[]), &pairs(&[("X-A", "1")])), pairs(&[("X-A", "1")]));
}

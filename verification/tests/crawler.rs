use rustfuzz::crawler::{
    crawl, extract_links, is_likely_endpoint, is_listed, navigable, same_text, static_asset,
    Crawler, Location, Page,
};
use std::cell::RefCell;
use std::collections::HashMap;

fn html(body: &str) -> Page {
    Page { content_type: "text/html; charset=utf-8".to_string(), body: body.to_string() }
}

fn site(pages: &[(&str, Page)]) -> HashMap<String, Page> {
    pages.iter().map(|(u, p)| (u.to_string(), p.clone())).collect()
}

fn strings(items: &[&str]) -> Vec<String> {
    items.iter().map(|s| s.to_string()).collect()
}

fn location(url: &str, scheme: &str, host: Option<&str>, path: &str) -> Location {
    Location {
        url: url.to_string(),
        scheme: scheme.to_string(),
        host: host.map(|h| h.to_string()),
        path: path.to_string(),
    }
}

#[test]
fn links_are_taken_from_href_attributes() {
    assert_eq!(
        extract_links("<a href=\"/a\">x</a> <a href='b.html'>y</a><link href = \"c\">"),
        strings(&["/a", "b.html", "c"])
    );
    assert_eq!(extract_links("<a HREF=\"/upper\">"), strings(&["/upper"]));
    assert_eq!(extract_links("<a href=\"/mixed'>"), strings(&["/mixed"]));
    assert_eq!(extract_links("<a href=\"\">"), Vec::<String>::new());
    assert_eq!(extract_links("<a href=/bare>"), Vec::<String>::new());
    assert_eq!(extract_links("<a href=\"a>b\">"), Vec::<String>::new());
    assert_eq!(extract_links("no links"), Vec::<String>::new());
    assert_eq!(extract_links("href\n=\n\"/nl\""), strings(&["/nl"]));
}

#[test]
fn references_that_lead_nowhere() {
    assert!(navigable("/a"));
    assert!(navigable("http://example.test/"));
    assert!(navigable(""));
    assert!(navigable("a#b"));
    assert!(!navigable("#top"));
    assert!(!navigable("mailto:a@b.c"));
    assert!(!navigable("javascript:void(0)"));
    assert!(!navigable("tel:+123"));
    assert!(!navigable("data:text/plain,x"));
    assert!(navigable("MAILTO:a@b.c"));
}

#[test]
fn static_assets_by_their_ending() {
    for ext in [
        ".jpg", ".jpeg", ".png", ".gif", ".svg", ".ico", ".css", ".js", ".woff", ".woff2", ".ttf",
        ".eot", ".pdf", ".zip",
    ] {
        assert!(static_asset(&format!("http://example.test/file{}", ext)));
    }
    assert!(static_asset("/img/logo.png"));
    assert!(!static_asset("http://example.test/file.html"));
    assert!(!static_asset("http://example.test/file.PNG"));
    assert!(!static_asset("http://example.test/"));
    assert!(!static_asset("/"));
}

#[test]
fn a_static_asset_is_known_by_its_path_whatever_follows() {
    let pages = site(&[(
        "http://example.test/",
        html(
            "<a href='/logo.png?v=2'>1</a>\
             <a href='/app.js#main'>2</a>\
             <a href='/doc.pdf?download=1#p2'>3</a>\
             <a href='/a?f=x.png'>4</a>\
             <a href='/b#x.css'>5</a>\
             <a href='/page?v=2'>6</a>\
             <a href='/png'>7</a>\
             <a href='/dir.zip/inside'>8</a>",
        ),
    )]);
    let found = crawl("http://example.test/", 4, 1000, |u: &str| pages.get(u).cloned());
    assert_eq!(
        found,
        strings(&[
            "http://example.test/page?v=2",
            "http://example.test/png",
            "http://example.test/dir.zip/inside",
        ])
    );
}

#[test]
fn helpers_on_lists_and_options() {
    let urls = strings(&["a", "b"]);
    assert!(is_listed(&urls, &"b".to_string()));
    assert!(!is_listed(&urls, &"c".to_string()));
    assert!(same_text(&None, &None));
    assert!(same_text(&Some("x".to_string()), &Some("x".to_string())));
    assert!(!same_text(&Some("x".to_string()), &Some("y".to_string())));
    assert!(!same_text(&Some("x".to_string()), &None));
}

#[test]
fn an_unparseable_seed_gives_nothing() {
    assert!(Crawler::new("not a url", 4, 10).is_none());
    assert!(Crawler::new("", 4, 10).is_none());
    let calls = RefCell::new(0);
    let found = crawl("::nope::", 4, 10, |_u: &str| {
        *calls.borrow_mut() += 1;
        None
    });
    assert!(found.is_empty());
    assert_eq!(*calls.borrow(), 0);
}

#[test]
fn a_crawl_stays_on_the_seeds_domain_and_scheme() {
    let pages = site(&[(
        "http://example.test/",
        html(
            "<a href=\"/in\">1</a>\
             <a href=\"http://other.test/out\">2</a>\
             <a href=\"https://example.test/secure\">3</a>\
             <a href=\"http://sub.example.test/sub\">4</a>\
             <a href=\"http://127.0.0.1/ip\">5</a>\
             <a href=\"rel/page\">6</a>\
             <a href=\"mailto:x@example.test\">7</a>\
             <a href=\"#frag\">8</a>\
             <a href=\"/logo.png\">9</a>\
             <a href=\"/style.css\">10</a>",
        ),
    )]);
    let asked = RefCell::new(Vec::new());
    let found = crawl("http://example.test", 4, 1000, |u: &str| {
        asked.borrow_mut().push(u.to_string());
        pages.get(u).cloned()
    });
    assert_eq!(found, strings(&["http://example.test/in", "http://example.test/rel/page"]));
    assert_eq!(
        *asked.borrow(),
        strings(&["http://example.test/", "http://example.test/in", "http://example.test/rel/page"])
    );
}

#[test]
fn a_url_linked_twice_is_found_once() {
    let pages = site(&[
        ("http://example.test/", html("<a href=\"/a\">1</a><a href=\"/a\">2</a><a href='/a'>3</a>")),
        ("http://example.test/a", html("<a href=\"/a\">self</a><a href=\"/\">home</a>")),
    ]);
    let found = crawl("http://example.test/", 4, 1000, |u: &str| pages.get(u).cloned());
    assert_eq!(found, strings(&["http://example.test/a"]));
}

#[test]
fn the_seed_is_visited_and_not_found() {
    let pages = site(&[("http://example.test/", html("<a href=\"/\">home</a><a href=\"\">same</a>"))]);
    let found = crawl("http://example.test/", 4, 1000, |u: &str| pages.get(u).cloned());
    assert!(found.is_empty());
}

#[test]
fn pages_that_are_no_html_are_passed_over() {
    let pages = site(&[
        ("http://example.test/", html("<a href=\"/data\">d</a><a href=\"/gone\">g</a><a href=\"/page\">p</a>")),
        (
            "http://example.test/data",
            Page {
                content_type: "application/json".to_string(),
                body: "<a href=\"/hidden\">h</a>".to_string(),
            },
        ),
        ("http://example.test/page", html("<a href=\"/deep\">d</a>")),
    ]);
    let found = crawl("http://example.test/", 4, 1000, |u: &str| pages.get(u).cloned());
    assert_eq!(
        found,
        strings(&[
            "http://example.test/data",
            "http://example.test/gone",
            "http://example.test/page",
            "http://example.test/deep",
        ])
    );
}

#[test]
fn no_more_urls_are_found_than_the_page_budget_allows() {
    let mut body = String::new();
    for i in 0..10 {
        body.push_str(&format!("<a href=\"/p{}\">x</a>", i));
    }
    let pages = site(&[("http://example.test/", html(&body))]);
    for budget in 0..12usize {
        let asked = RefCell::new(0usize);
        let found = crawl("http://example.test/", 4, budget, |u: &str| {
            *asked.borrow_mut() += 1;
            pages.get(u).cloned()
        });
        assert_eq!(found.len(), budget.min(10));
        for (i, u) in found.iter().enumerate() {
            assert_eq!(u, &format!("http://example.test/p{}", i));
        }
        if budget == 0 {
            assert_eq!(*asked.borrow(), 0);
        }
        if budget > 0 && budget <= 10 {
            assert_eq!(*asked.borrow(), 1);
        }
    }
}

#[test]
fn links_are_read_down_to_the_depth_budget() {
    let pages = site(&[
        ("http://example.test/", html("<a href=\"/1\">x</a>")),
        ("http://example.test/1", html("<a href=\"/2\">x</a>")),
        ("http://example.test/2", html("<a href=\"/3\">x</a>")),
        ("http://example.test/3", html("<a href=\"/4\">x</a>")),
    ]);
    for depth in 0..5usize {
        let found = crawl("http://example.test/", depth, 1000, |u: &str| pages.get(u).cloned());
        let expected: Vec<String> =
            (1..=(depth + 1).min(4)).map(|i| format!("http://example.test/{}", i)).collect();
        assert_eq!(found, expected);
    }
}

#[test]
fn the_frontier_is_walked_breadth_first() {
    let pages = site(&[
        ("http://example.test/", html("<a href=\"/a\">x</a><a href=\"/b\">x</a>")),
        ("http://example.test/a", html("<a href=\"/a1\">x</a><a href=\"/a2\">x</a>")),
        ("http://example.test/b", html("<a href=\"/b1\">x</a>")),
    ]);
    let mut c = Crawler::new("http://example.test/", 4, 1000).unwrap();
    let mut order = Vec::new();
    while let Some(url) = c.next_page() {
        order.push(url.clone());
        c.absorb(pages.get(&url));
    }
    assert!(!c.is_halted());
    assert_eq!(
        order,
        strings(&[
            "http://example.test/",
            "http://example.test/a",
            "http://example.test/b",
            "http://example.test/a1",
            "http://example.test/a2",
            "http://example.test/b1",
        ])
    );
    let depths: Vec<usize> = c.discoveries().iter().map(|d| d.depth).collect();
    assert_eq!(depths, vec![1, 1, 2, 2, 2]);
    for d in c.discoveries() {
        assert_eq!(d.location.scheme, "http");
        assert_eq!(d.location.host, Some("example.test".to_string()));
        assert!(d.location.path.starts_with('/'));
    }
    assert_eq!(c.into_found().len(), 5);
}

#[test]
fn a_budget_halts_the_whole_crawl() {
    let pages = site(&[
        ("http://example.test/", html("<a href=\"/a\">x</a><a href=\"/b\">x</a>")),
        ("http://example.test/a", html("<a href=\"/c\">x</a>")),
    ]);
    let mut c = Crawler::new("http://example.test/", 0, 1000).unwrap();
    assert_eq!(c.next_page(), Some("http://example.test/".to_string()));
    c.absorb(pages.get("http://example.test/"));
    assert_eq!(c.next_page(), None);
    assert!(c.is_halted());
    assert_eq!(c.next_page(), None);
    assert_eq!(c.into_found(), strings(&["http://example.test/a", "http://example.test/b"]));
}

#[test]
fn a_location_is_judged_by_scope_history_and_ending() {
    let mut c = Crawler::new("http://example.test/", 4, 2).unwrap();
    let host = Some("example.test");
    c.accept(location("http://example.test/early", "http", host, "/early"));
    assert!(c.discoveries().is_empty());
    assert_eq!(c.next_page(), Some("http://example.test/".to_string()));
    c.accept(location("https://example.test/s", "https", host, "/s"));
    c.accept(location("http://other.test/o", "http", Some("other.test"), "/o"));
    c.accept(location("http://10.0.0.1/ip", "http", Some("10.0.0.1"), "/ip"));
    c.accept(location("http:nohost", "http", None, "nohost"));
    c.accept(location("http://example.test/", "http", host, "/"));
    c.accept(location("http://example.test/a.zip", "http", host, "/a.zip"));
    c.accept(location("http://example.test/b.png?v=2", "http", host, "/b.png"));
    c.accept(location("http://example.test/c?f=x.png", "http", host, "/c"));
    assert!(c.discoveries().is_empty());
    c.accept(location("http://example.test/a", "http", host, "/a"));
    c.accept(location("http://example.test/a", "http", host, "/a"));
    assert_eq!(c.discoveries().len(), 1);
    assert_eq!(c.discoveries()[0].depth, 1);
    c.accept(location("http://example.test/b", "http", host, "/b"));
    c.accept(location("http://example.test/c", "http", host, "/c"));
    assert_eq!(c.into_found(), strings(&["http://example.test/a", "http://example.test/b"]));
}

#[test]
fn references_resolve_against_the_page() {
    let mut c = Crawler::new("http://example.test/dir/index.html", 4, 100).unwrap();
    assert_eq!(c.next_page(), Some("http://example.test/dir/index.html".to_string()));
    c.absorb_links(&strings(&["sibling", "../up", "/root", "?q=1", "//example.test/net", "http://[bad"]));
    assert_eq!(
        c.into_found(),
        strings(&[
            "http://example.test/dir/sibling",
            "http://example.test/up",
            "http://example.test/root",
            "http://example.test/dir/index.html?q=1",
            "http://example.test/net",
        ])
    );
}

#[test]
fn a_seed_on_an_address_stays_on_that_address() {
    let pages = site(&[(
        "http://127.0.0.1/",
        html(
            "<a href=\"/a\">x</a>\
             <a href=\"http://example.test/b\">x</a>\
             <a href=\"http://127.0.0.2/c\">x</a>\
             <a href=\"http://10.0.0.1/d\">x</a>\
             <a href=\"http://[::1]/e\">x</a>\
             <a href=\"http://127.0.0.1:8080/f\">x</a>\
             <a href=\"http://127.1/g\">x</a>",
        ),
    )]);
    let found = crawl("http://127.0.0.1/", 1, 10, |u: &str| pages.get(u).cloned());
    assert_eq!(
        found,
        strings(&["http://127.0.0.1/a", "http://127.0.0.1:8080/f", "http://127.0.0.1/g"])
    );
}

#[test]
fn the_host_is_compared_as_the_parser_writes_it() {
    let pages = site(&[(
        "http://example.test/",
        html(
            "<a href=\"http://EXAMPLE.test/upper\">x</a>\
             <a href=\"http://example.test:8080/port\">x</a>\
             <a href=\"http://www.example.test/www\">x</a>\
             <a href=\"http://user@example.test/user\">x</a>",
        ),
    )]);
    let found = crawl("http://example.test/", 1, 10, |u: &str| pages.get(u).cloned());
    assert_eq!(
        found,
        strings(&[
            "http://example.test/upper",
            "http://example.test:8080/port",
            "http://user@example.test/user",
        ])
    );
}

#[test]
fn urls_that_look_like_an_api() {
    assert!(is_likely_endpoint("http://example.test/api/users"));
    assert!(is_likely_endpoint("http://example.test/v2/users"));
    assert!(is_likely_endpoint("http://example.test/swagger.json"));
    assert!(is_likely_endpoint("http://example.test/forest"));
    assert!(!is_likely_endpoint("http://example.test/users"));
    assert!(!is_likely_endpoint("http://example.test/vx"));
    assert!(!is_likely_endpoint(""));
}

#[test]
fn no_url_is_asked_for_twice() {
    let pages = site(&[
        ("http://example.test/", html("<a href='/a'>1</a><a href='/b'>2</a><a href='/'>3</a>")),
        ("http://example.test/a", html("<a href='/b'>1</a><a href='/'>2</a><a href='/a'>3</a>")),
        ("http://example.test/b", html("<a href='/a'>1</a><a href='/c'>2</a><a href='/b#x'>3</a>")),
        ("http://example.test/c", html("<a href='/'>1</a><a href='/a'>2</a>")),
    ]);
    let asked = RefCell::new(Vec::new());
    let found = crawl("http://example.test/", 10, 1000, |u: &str| {
        asked.borrow_mut().push(u.to_string());
        pages.get(u).cloned()
    });
    let asked = asked.into_inner();
    for (i, u) in asked.iter().enumerate() {
        assert!(!asked[..i].contains(u));
    }
    assert_eq!(asked[0], "http://example.test/");
    assert_eq!(
        found,
        strings(&[
            "http://example.test/a",
            "http://example.test/b",
            "http://example.test/c",
            "http://example.test/b#x",
        ])
    );
}

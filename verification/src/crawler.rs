//! The same-domain crawler: a breadth-first walk from a seed URL under a
//! depth budget and a page budget.
//!
//! A `Crawler` holds the frontier, the visited URLs and the discoveries. It
//! hands out the next page to fetch and takes the fetched page back; links
//! are resolved by the `url` crate and found by the `regex` crate.

use crate::pattern::{pattern_first_groups, pattern_matches, regex_first_groups, regex_search};
use crate::text::{ends_with, starts_with, string_views};
use std::collections::VecDeque;
use vstd::prelude::*;

verus! {

/// A URL with the parts by which the crawler judges it.
#[derive(Clone, Debug, PartialEq, Eq)]
pub struct Location {
    /// The URL as the `url` crate writes it.
    pub url: String,
    pub scheme: String,
    /// The host, a domain name or an address, where the URL has one.
    pub host: Option<String>,
    /// The path, without query and fragment.
    pub path: String,
}

/// A `Location` with each string as its characters.
pub struct LocationView {
    pub url: Seq<char>,
    pub scheme: Seq<char>,
    pub host: Option<Seq<char>>,
    pub path: Seq<char>,
}

impl View for Location {
    type V = LocationView;

    open spec fn view(&self) -> LocationView {
        LocationView {
            url: self.url@,
            scheme: self.scheme@,
            host: match self.host {
                Some(h) => Some(h@),
                None => None,
            },
            path: self.path@,
        }
    }
}

/// The view of an optional location.
pub open spec fn location_view(l: Option<Location>) -> Option<LocationView> {
    match l {
        Some(l) => Some(l@),
        None => None,
    }
}

/// What parsing `input` as an absolute URL gives: `None` where it is none.
pub uninterp spec fn url_parsed(input: Seq<char>) -> Option<LocationView>;

/// What resolving the reference `input` against the URL `base` gives: `None`
/// where `base` is no absolute URL or `input` cannot be resolved against it.
pub uninterp spec fn url_joined(base: Seq<char>, input: Seq<char>) -> Option<LocationView>;

/// `url::Url::parse` on `input`; of a parsed URL `Url::as_str`,
/// `Url::scheme`, `Url::host_str` and `Url::path`.
#[verifier::external_body]
fn parse_url(input: &str) -> (r: Option<Location>)
    ensures
        location_view(r) == url_parsed(input@),
{
    match url::Url::parse(input) {
        Ok(u) => Some(
            Location {
                url: u.as_str().to_string(),
                scheme: u.scheme().to_string(),
                host: u.host_str().map(|h| h.to_string()),
                path: u.path().to_string(),
            },
        ),
        Err(_) => None,
    }
}

/// `url::Url::parse` on `base`, then `Url::join` with `input`; of the
/// resolved URL `Url::as_str`, `Url::scheme`, `Url::host_str` and
/// `Url::path`.
#[verifier::external_body]
fn join_url(base: &str, input: &str) -> (r: Option<Location>)
    ensures
        location_view(r) == url_joined(base@, input@),
{
    match url::Url::parse(base).and_then(|b| b.join(input)) {
        Ok(u) => Some(
            Location {
                url: u.as_str().to_string(),
                scheme: u.scheme().to_string(),
                host: u.host_str().map(|h| h.to_string()),
                path: u.path().to_string(),
            },
        ),
        Err(_) => None,
    }
}

/// The pattern that finds `href` attributes, in either case and with either
/// kind of quote; its first group is the attribute's value.
pub open spec fn href_pattern() -> Seq<char> {
    "(?i)href\\s*=\\s*[\"']([^\"'>]+)[\"']"@
}

/// The pattern that marks a URL as a likely API endpoint.
pub open spec fn api_pattern() -> Seq<char> {
    "(api|rest|openapi|swagger|v\\d+)"@
}

/// The groups that took part in their match, in order.
pub open spec fn present(groups: Seq<Option<Seq<char>>>) -> Seq<Seq<char>>
    decreases groups.len(),
{
    if groups.len() == 0 {
        Seq::empty()
    } else {
        match groups.last() {
            Some(g) => present(groups.drop_last()).push(g),
            None => present(groups.drop_last()),
        }
    }
}

/// The `href` values of a page, in the order in which they stand in it.
pub open spec fn page_links(body: Seq<char>) -> Seq<Seq<char>> {
    match regex_first_groups(href_pattern(), body) {
        Some(groups) => present(groups),
        None => Seq::empty(),
    }
}

/// The beginnings of references that lead to no page.
pub open spec fn dead_prefixes() -> Seq<Seq<char>> {
    seq!["#"@, "mailto:"@, "javascript:"@, "tel:"@, "data:"@]
}

/// A reference that may lead to a page: it begins with none of `#`,
/// `mailto:`, `javascript:`, `tel:` and `data:`.
pub open spec fn is_navigable(href: Seq<char>) -> bool {
    forall|k: int|
        0 <= k < dead_prefixes().len() ==> !(#[trigger] dead_prefixes()[k]).is_prefix_of(href)
}

/// The endings of URLs that name static assets: images, style sheets,
/// scripts, fonts, documents and archives.
pub open spec fn static_extensions() -> Seq<Seq<char>> {
    seq![
        ".jpg"@,
        ".jpeg"@,
        ".png"@,
        ".gif"@,
        ".svg"@,
        ".ico"@,
        ".css"@,
        ".js"@,
        ".woff"@,
        ".woff2"@,
        ".ttf"@,
        ".eot"@,
        ".pdf"@,
        ".zip"@,
    ]
}

/// A text that ends in one of the static extensions.
pub open spec fn is_static_asset(text: Seq<char>) -> bool {
    exists|k: int|
        0 <= k < static_extensions().len() && (#[trigger] static_extensions()[k]).is_suffix_of(
            text,
        )
}

/// A location that names a static asset: its path ends in one of the static
/// extensions, whatever query or fragment follows, or its URL as a whole
/// does.
pub open spec fn names_static_asset(loc: LocationView) -> bool {
    is_static_asset(loc.path) || is_static_asset(loc.url)
}

/// Whether `href` may lead to a page.
pub fn navigable(href: &str) -> (r: bool)
    ensures
        r == is_navigable(href@),
{
    let mut dead: Vec<&str> = Vec::new();
    dead.push("#");
    dead.push("mailto:");
    dead.push("javascript:");
    dead.push("tel:");
    dead.push("data:");
    proof {
        assert(dead@.map_values(|p: &str| p@) =~= dead_prefixes());
    }
    let mut k: usize = 0;
    while k < dead.len()
        invariant
            k <= dead.len(),
            dead@.map_values(|p: &str| p@) == dead_prefixes(),
            forall|i: int| 0 <= i < k ==> !(#[trigger] dead_prefixes()[i]).is_prefix_of(href@),
        decreases dead.len() - k,
    {
        proof {
            assert(dead@.map_values(|p: &str| p@)[k as int] == dead@[k as int]@);
        }
        if starts_with(href, dead[k]) {
            return false;
        }
        k += 1;
    }
    true
}

/// Whether `url` ends in one of the static extensions. The argument is a
/// path or a whole URL.
pub fn static_asset(url: &str) -> (r: bool)
    ensures
        r == is_static_asset(url@),
{
    let mut endings: Vec<&str> = Vec::new();
    endings.push(".jpg");
    endings.push(".jpeg");
    endings.push(".png");
    endings.push(".gif");
    endings.push(".svg");
    endings.push(".ico");
    endings.push(".css");
    endings.push(".js");
    endings.push(".woff");
    endings.push(".woff2");
    endings.push(".ttf");
    endings.push(".eot");
    endings.push(".pdf");
    endings.push(".zip");
    proof {
        assert(endings@.map_values(|p: &str| p@) =~= static_extensions());
    }
    let mut k: usize = 0;
    while k < endings.len()
        invariant
            k <= endings.len(),
            endings@.map_values(|p: &str| p@) == static_extensions(),
            forall|i: int| 0 <= i < k ==> !(#[trigger] static_extensions()[i]).is_suffix_of(url@),
        decreases endings.len() - k,
    {
        proof {
            assert(endings@.map_values(|p: &str| p@)[k as int] == endings@[k as int]@);
        }
        if ends_with(url, endings[k]) {
            return true;
        }
        k += 1;
    }
    false
}

/// The `href` values of a page, in the order in which they stand in it.
pub fn extract_links(body: &str) -> (links: Vec<String>)
    ensures
        string_views(links@) == page_links(body@),
{
    let mut links: Vec<String> = Vec::new();
    match pattern_first_groups("(?i)href\\s*=\\s*[\"']([^\"'>]+)[\"']", body) {
        Some(groups) => {
            let ghost all = regex_first_groups(href_pattern(), body@)->0;
            let mut groups = groups;
            let mut k: usize = 0;
            proof {
                assert(all.take(0) =~= Seq::<Option<Seq<char>>>::empty());
                assert(string_views(links@) =~= Seq::<Seq<char>>::empty());
            }
            while k < groups.len()
                invariant
                    k <= groups.len(),
                    all.len() == groups.len(),
                    forall|i: int|
                        k <= i < groups.len() ==> all[i] == match #[trigger] groups@[i] {
                            Some(s) => Some(s@),
                            None => None,
                        },
                    string_views(links@) == present(all.take(k as int)),
                decreases groups.len() - k,
            {
                proof {
                    assert(all.take(k + 1).drop_last() =~= all.take(k as int));
                    assert(all.take(k + 1).last() == all[k as int]);
                }
                let ghost before = string_views(links@);
                let mut taken: Option<String> = None;
                std::mem::swap(&mut groups[k], &mut taken);
                match taken {
                    Some(link) => {
                        links.push(link);
                        proof {
                            assert(string_views(links@) =~= before.push(link@));
                        }
                    },
                    None => {},
                }
                k += 1;
            }
            proof {
                assert(all.take(k as int) =~= all);
            }
        },
        None => {
            proof {
                assert(string_views(links@) =~= Seq::<Seq<char>>::empty());
            }
        },
    }
    links
}

/// Whether `url` looks like an endpoint of an API: it holds `api`, `rest`,
/// `openapi`, `swagger` or a `v` before a digit. The mark is a hint for the
/// reader of a crawl's results; the crawl itself never asks for it.
pub fn is_likely_endpoint(url: &str) -> (r: bool)
    ensures
        r == (regex_search(api_pattern(), url@) == Some(true)),
{
    match pattern_matches("(api|rest|openapi|swagger|v\\d+)", url) {
        Some(found) => found,
        None => false,
    }
}

/// A page that was fetched: the value of its `Content-Type` header, empty
/// where it has none, and its body.
#[derive(Clone, Debug, PartialEq, Eq)]
pub struct Page {
    pub content_type: String,
    pub body: String,
}

/// A URL of the frontier and the number of links that led to it.
#[derive(Clone, Debug, PartialEq, Eq)]
pub struct Visit {
    pub url: String,
    pub depth: usize,
}

/// A discovered URL and the number of links that led to it.
#[derive(Clone, Debug, PartialEq, Eq)]
pub struct Discovery {
    pub location: Location,
    pub depth: usize,
}

/// The frontier as plain values.
pub open spec fn visit_views(visits: Seq<Visit>) -> Seq<(Seq<char>, nat)> {
    visits.map_values(|v: Visit| (v.url@, v.depth as nat))
}

/// The discoveries as plain values.
pub open spec fn discovery_views(found: Seq<Discovery>) -> Seq<(LocationView, nat)> {
    found.map_values(|d: Discovery| (d.location@, d.depth as nat))
}

/// The URLs of a list of discoveries.
pub open spec fn found_urls(found: Seq<(LocationView, nat)>) -> Seq<Seq<char>> {
    found.map_values(|d: (LocationView, nat)| d.0.url)
}

/// A URL that was queued once and waits in the frontier no more: it is
/// being read or was read, and is not asked for again.
pub open spec fn is_spent(state: CrawlerView, url: Seq<char>) -> bool {
    &&& state.visited.contains(url)
    &&& forall|i: int| 0 <= i < state.frontier.len() ==> (#[trigger] state.frontier[i]).0 != url
}

/// The state of a crawl as plain values.
pub struct CrawlerView {
    /// The seed, as parsed.
    pub seed: LocationView,
    pub max_depth: nat,
    pub max_pages: nat,
    /// The pages still to fetch, first in first out, each with its depth.
    pub frontier: Seq<(Seq<char>, nat)>,
    /// The page that was handed out and not taken back yet.
    pub current: Option<(Seq<char>, nat)>,
    /// Every URL that was ever queued, the seed first.
    pub visited: Seq<Seq<char>>,
    /// The discoveries in the order in which they were made.
    pub found: Seq<(LocationView, nat)>,
    /// A budget was hit; nothing more is fetched.
    pub halted: bool,
}

impl CrawlerView {
    /// The state in which a crawl from `seed` begins.
    pub open spec fn start(seed: LocationView, max_depth: nat, max_pages: nat) -> CrawlerView {
        CrawlerView {
            seed,
            max_depth,
            max_pages,
            frontier: seq![(seed.url, 0nat)],
            current: None,
            visited: seq![seed.url],
            found: Seq::empty(),
            halted: false,
        }
    }

    /// A location that shares the seed's scheme and the seed's host, be the
    /// host a domain name or an address.
    pub open spec fn in_scope(self, loc: LocationView) -> bool {
        loc.scheme == self.seed.scheme && loc.host == self.seed.host
    }

    /// What holds of every state of a crawl.
    pub open spec fn valid(self) -> bool {
        &&& self.visited.no_duplicates()
        &&& self.visited.contains(self.seed.url)
        &&& self.found.len() <= self.max_pages
        &&& forall|i: int|
            0 <= i < self.found.len() ==> {
                let d = #[trigger] self.found[i];
                &&& self.in_scope(d.0)
                &&& !names_static_asset(d.0)
                &&& 1 <= d.1 <= self.max_depth + 1
                &&& self.visited.contains(d.0.url)
                &&& d.0.url != self.seed.url
            }
        &&& forall|i: int, j: int|
            0 <= i < j < self.found.len() ==> (#[trigger] self.found[i]).0.url != (
            #[trigger] self.found[j]).0.url
        &&& forall|i: int, j: int|
            0 <= i <= j < self.frontier.len() ==> (#[trigger] self.frontier[i]).1 <= (
            #[trigger] self.frontier[j]).1 <= self.frontier[i].1 + 1
        &&& forall|i: int|
            0 <= i < self.frontier.len() ==> (#[trigger] self.frontier[i]).1 <= self.found.len()
        &&& forall|i: int|
            0 <= i < self.frontier.len() ==> self.visited.contains((#[trigger] self.frontier[i]).0)
        &&& forall|i: int, j: int|
            0 <= i < j < self.frontier.len() ==> (#[trigger] self.frontier[i]).0 != (
            #[trigger] self.frontier[j]).0
        &&& self.current matches Some(page) ==> {
            &&& page.1 <= self.max_depth
            &&& page.1 <= self.found.len()
            &&& is_spent(self, page.0)
            &&& forall|i: int|
                0 <= i < self.frontier.len() ==> page.1 <= (#[trigger] self.frontier[i]).1
                    <= page.1 + 1
        }
    }

    /// The state after the next page was asked for. The head of the frontier
    /// leaves it. Where its depth is over the budget, or as many URLs were
    /// found as the page budget allows, the whole crawl halts; else the head
    /// is the page to fetch.
    pub open spec fn advanced(self) -> CrawlerView {
        if self.halted || self.frontier.len() == 0 {
            CrawlerView { current: None, ..self }
        } else if self.frontier[0].1 > self.max_depth || self.found.len() >= self.max_pages {
            CrawlerView { current: None, halted: true, frontier: self.frontier.skip(1), ..self }
        } else {
            CrawlerView {
                current: Some(self.frontier[0]),
                frontier: self.frontier.skip(1),
                ..self
            }
        }
    }

    /// The state after a resolved link of the current page was judged. A
    /// location is passed over where the page budget is used up, where it is
    /// out of scope, and where its URL was visited before. Else its URL
    /// counts as visited; and unless it names a static asset it is found and
    /// queued one level below the current page.
    pub open spec fn accepted(self, loc: LocationView) -> CrawlerView {
        match self.current {
            None => self,
            Some(page) => {
                if self.found.len() >= self.max_pages || !self.in_scope(loc)
                    || self.visited.contains(loc.url) {
                    self
                } else if names_static_asset(loc) {
                    CrawlerView { visited: self.visited.push(loc.url), ..self }
                } else {
                    CrawlerView {
                        visited: self.visited.push(loc.url),
                        found: self.found.push((loc, page.1 + 1)),
                        frontier: self.frontier.push((loc.url, page.1 + 1)),
                        ..self
                    }
                }
            },
        }
    }

    /// The state after a reference of the current page was judged: one that
    /// is navigable and resolves against the page's URL is judged as the
    /// location it resolves to; any other is passed over.
    pub open spec fn offered(self, href: Seq<char>) -> CrawlerView {
        match self.current {
            None => self,
            Some(page) => {
                if !is_navigable(href) {
                    self
                } else {
                    match url_joined(page.0, href) {
                        Some(loc) => self.accepted(loc),
                        None => self,
                    }
                }
            },
        }
    }

    /// The state after the references of the current page were judged in
    /// order.
    pub open spec fn absorbed(self, hrefs: Seq<Seq<char>>) -> CrawlerView
        decreases hrefs.len(),
    {
        if hrefs.len() == 0 {
            self
        } else {
            self.absorbed(hrefs.drop_last()).offered(hrefs.last())
        }
    }

    /// The state after the current page came back. Only a page whose content
    /// type begins with `text/html` is read for links; a page that could not
    /// be fetched is passed over like any other.
    pub open spec fn fetched(self, page: Option<(Seq<char>, Seq<char>)>) -> CrawlerView {
        match page {
            Some((content_type, body)) => {
                if "text/html"@.is_prefix_of(content_type) {
                    CrawlerView { current: None, ..self.absorbed(page_links(body)) }
                } else {
                    CrawlerView { current: None, ..self }
                }
            },
            None => CrawlerView { current: None, ..self },
        }
    }

    /// What decreases with every page that is handed out.
    pub open spec fn remaining(self) -> int {
        self.max_pages - self.found.len() + self.frontier.len()
    }
}

/// Asking for the next page keeps a state valid.
pub proof fn lemma_advanced_valid(s: CrawlerView)
    requires
        s.valid(),
    ensures
        s.advanced().valid(),
        s.advanced().current is Some ==> s.advanced().remaining() == s.remaining() - 1,
        s.advanced().found == s.found,
{
    let t = s.advanced();
    if !(s.halted || s.frontier.len() == 0) {
        assert forall|i: int, j: int| 0 <= i <= j < t.frontier.len() implies (
        #[trigger] t.frontier[i]).1 <= (#[trigger] t.frontier[j]).1 <= t.frontier[i].1 + 1 by {
            assert(t.frontier[i] == s.frontier[i + 1]);
            assert(t.frontier[j] == s.frontier[j + 1]);
        }
        assert forall|i: int| 0 <= i < t.frontier.len() implies (#[trigger] t.frontier[i]).1
            <= t.found.len() by {
            assert(t.frontier[i] == s.frontier[i + 1]);
        }
        assert forall|i: int| 0 <= i < t.frontier.len() implies t.visited.contains(
            (#[trigger] t.frontier[i]).0,
        ) by {
            assert(t.frontier[i] == s.frontier[i + 1]);
        }
        assert forall|i: int, j: int| 0 <= i < j < t.frontier.len() implies (
        #[trigger] t.frontier[i]).0 != (#[trigger] t.frontier[j]).0 by {
            assert(t.frontier[i] == s.frontier[i + 1]);
            assert(t.frontier[j] == s.frontier[j + 1]);
        }
        if t.current is Some {
            let page = s.frontier[0];
            assert forall|i: int| 0 <= i < t.frontier.len() implies page.1 <= (
            #[trigger] t.frontier[i]).1 <= page.1 + 1 by {
                assert(t.frontier[i] == s.frontier[i + 1]);
            }
            assert forall|i: int| 0 <= i < t.frontier.len() implies (#[trigger] t.frontier[i]).0
                != page.0 by {
                assert(t.frontier[i] == s.frontier[i + 1]);
            }
        }
    }
}

/// Judging a location keeps a state valid; what is found is queued.
pub proof fn lemma_accepted_valid(s: CrawlerView, loc: LocationView)
    requires
        s.valid(),
    ensures
        s.accepted(loc).valid(),
        s.accepted(loc).current == s.current,
        s.accepted(loc).remaining() == s.remaining(),
{
    let t = s.accepted(loc);
    if t != s {
        let page = s.current->0;
        assert(t.visited.no_duplicates()) by {
            assert forall|i: int, j: int|
                0 <= i < t.visited.len() && 0 <= j < t.visited.len() && i != j implies t.visited[i]
                != t.visited[j] by {
                if i < s.visited.len() && j < s.visited.len() {
                } else if i < s.visited.len() {
                    assert(s.visited.contains(s.visited[i]));
                } else {
                    assert(s.visited.contains(s.visited[j]));
                }
            }
        }
        assert(t.visited.contains(t.seed.url)) by {
            let k = choose|k: int| 0 <= k < s.visited.len() && s.visited[k] == s.seed.url;
            assert(t.visited[k] == s.seed.url);
        }
        assert forall|i: int| 0 <= i < t.found.len() implies {
            let d = #[trigger] t.found[i];
            &&& t.in_scope(d.0)
            &&& !names_static_asset(d.0)
            &&& 1 <= d.1 <= t.max_depth + 1
            &&& t.visited.contains(d.0.url)
            &&& d.0.url != t.seed.url
        } by {
            if i < s.found.len() {
                let d = s.found[i];
                assert(t.found[i] == d);
                let k = choose|k: int| 0 <= k < s.visited.len() && s.visited[k] == d.0.url;
                assert(t.visited[k] == d.0.url);
            } else {
                assert(t.visited[s.visited.len() as int] == loc.url);
            }
        }
        assert forall|i: int| 0 <= i < t.frontier.len() implies t.visited.contains(
            (#[trigger] t.frontier[i]).0,
        ) by {
            if i < s.frontier.len() {
                assert(t.frontier[i] == s.frontier[i]);
                let u = s.frontier[i].0;
                let k = choose|k: int| 0 <= k < s.visited.len() && s.visited[k] == u;
                assert(t.visited[k] == u);
            } else {
                assert(t.visited[s.visited.len() as int] == loc.url);
            }
        }
        assert forall|i: int, j: int| 0 <= i < j < t.frontier.len() implies (
        #[trigger] t.frontier[i]).0 != (#[trigger] t.frontier[j]).0 by {
            if j < s.frontier.len() {
                assert(t.frontier[i] == s.frontier[i]);
                assert(t.frontier[j] == s.frontier[j]);
            } else {
                assert(t.frontier[i] == s.frontier[i]);
                assert(s.visited.contains(s.frontier[i].0));
            }
        }
        assert(is_spent(t, page.0)) by {
            let k = choose|k: int| 0 <= k < s.visited.len() && s.visited[k] == page.0;
            assert(t.visited[k] == page.0);
            assert forall|i: int| 0 <= i < t.frontier.len() implies (#[trigger] t.frontier[i]).0
                != page.0 by {
                if i < s.frontier.len() {
                    assert(t.frontier[i] == s.frontier[i]);
                }
            }
        }
        if !names_static_asset(loc) {
            assert forall|i: int, j: int| 0 <= i < j < t.found.len() implies (
            #[trigger] t.found[i]).0.url != (#[trigger] t.found[j]).0.url by {
                if j == s.found.len() {
                    assert(t.found[i] == s.found[i]);
                    assert(s.visited.contains(s.found[i].0.url));
                } else {
                    assert(t.found[i] == s.found[i]);
                    assert(t.found[j] == s.found[j]);
                }
            }
            assert forall|i: int, j: int| 0 <= i <= j < t.frontier.len() implies (
            #[trigger] t.frontier[i]).1 <= (#[trigger] t.frontier[j]).1 <= t.frontier[i].1
                + 1 by {
                if j < s.frontier.len() {
                    assert(t.frontier[i] == s.frontier[i]);
                    assert(t.frontier[j] == s.frontier[j]);
                } else if i < s.frontier.len() {
                    assert(t.frontier[i] == s.frontier[i]);
                }
            }
            assert forall|i: int| 0 <= i < t.frontier.len() implies (#[trigger] t.frontier[i]).1
                <= t.found.len() by {
                if i < s.frontier.len() {
                    assert(t.frontier[i] == s.frontier[i]);
                }
            }
            assert forall|i: int| 0 <= i < t.frontier.len() implies page.1 <= (
            #[trigger] t.frontier[i]).1 <= page.1 + 1 by {
                if i < s.frontier.len() {
                    assert(t.frontier[i] == s.frontier[i]);
                }
            }
        }
    }
}

/// Judging the references of a page keeps a state valid; what is found is
/// queued.
pub proof fn lemma_absorbed_valid(s: CrawlerView, hrefs: Seq<Seq<char>>)
    requires
        s.valid(),
    ensures
        s.absorbed(hrefs).valid(),
        s.absorbed(hrefs).current == s.current,
        s.absorbed(hrefs).remaining() == s.remaining(),
    decreases hrefs.len(),
{
    if hrefs.len() > 0 {
        lemma_absorbed_valid(s, hrefs.drop_last());
        let mid = s.absorbed(hrefs.drop_last());
        let href = hrefs.last();
        if mid.current is Some && is_navigable(href) {
            let page = mid.current->0;
            match url_joined(page.0, href) {
                Some(loc) => {
                    lemma_accepted_valid(mid, loc);
                },
                None => {},
            }
        }
    }
}

/// Whether `url` is one of `urls`.
pub fn is_listed(urls: &Vec<String>, url: &String) -> (r: bool)
    ensures
        r == string_views(urls@).contains(url@),
{
    let mut k: usize = 0;
    while k < urls.len()
        invariant
            k <= urls.len(),
            forall|i: int| 0 <= i < k ==> string_views(urls@)[i] != url@,
        decreases urls.len() - k,
    {
        if urls[k] == *url {
            assert(string_views(urls@)[k as int] == url@);
            return true;
        }
        k += 1;
    }
    false
}

/// Whether two optional strings hold the same text, or both none.
pub fn same_text(a: &Option<String>, b: &Option<String>) -> (r: bool)
    ensures
        r == (match (*a, *b) {
            (Some(x), Some(y)) => x@ == y@,
            (None, None) => true,
            _ => false,
        }),
{
    match (a, b) {
        (Some(x), Some(y)) => *x == *y,
        (None, None) => true,
        _ => false,
    }
}

/// A crawl from one seed: the frontier, the visited URLs and what was found.
pub struct Crawler {
    seed: Location,
    max_depth: usize,
    max_pages: usize,
    frontier: VecDeque<Visit>,
    current: Option<Visit>,
    visited: Vec<String>,
    found: Vec<Discovery>,
    halted: bool,
}

impl View for Crawler {
    type V = CrawlerView;

    closed spec fn view(&self) -> CrawlerView {
        CrawlerView {
            seed: self.seed@,
            max_depth: self.max_depth as nat,
            max_pages: self.max_pages as nat,
            frontier: visit_views(self.frontier@),
            current: match self.current {
                Some(v) => Some((v.url@, v.depth as nat)),
                None => None,
            },
            visited: string_views(self.visited@),
            found: discovery_views(self.found@),
            halted: self.halted,
        }
    }
}

impl Crawler {
    /// The invariant of a crawl: its state is valid.
    pub closed spec fn wf(&self) -> bool {
        self@.valid()
    }

    /// What `wf` holds: the state of a crawl is valid, so that the laws of
    /// valid states speak of what `discoveries` hands out.
    pub proof fn law_state_valid(&self)
        requires
            self.wf(),
        ensures
            self@.valid(),
    {
    }

    /// A crawl from `seed` under the two budgets; `None` where `seed` is no
    /// absolute URL.
    pub fn new(seed: &str, max_depth: usize, max_pages: usize) -> (c: Option<Crawler>)
        ensures
            (c is Some) == (url_parsed(seed@) is Some),
            c matches Some(c) ==> c.wf() && c@ == CrawlerView::start(
                url_parsed(seed@)->0,
                max_depth as nat,
                max_pages as nat,
            ),
    {
        match parse_url(seed) {
            None => None,
            Some(location) => {
                let mut frontier: VecDeque<Visit> = VecDeque::new();
                frontier.push_back(Visit { url: location.url.clone(), depth: 0 });
                let mut visited: Vec<String> = Vec::new();
                visited.push(location.url.clone());
                let c = Crawler {
                    seed: location,
                    max_depth,
                    max_pages,
                    frontier,
                    current: None,
                    visited,
                    found: Vec::new(),
                    halted: false,
                };
                proof {
                    let start = CrawlerView::start(c.seed@, max_depth as nat, max_pages as nat);
                    assert(c@.frontier =~= start.frontier);
                    assert(c@.visited =~= start.visited);
                    assert(c@.found =~= start.found);
                    law_start_valid(c.seed@, max_depth as nat, max_pages as nat);
                }
                Some(c)
            },
        }
    }

    /// Hands out the URL of the next page to fetch; `None` when the frontier
    /// is empty or a budget has halted the crawl. The budgets are tested
    /// here, before each page, and nowhere else: a page that was handed out
    /// is read in full, up to the page budget.
    pub fn next_page(&mut self) -> (url: Option<String>)
        requires
            old(self).wf(),
        ensures
            final(self).wf(),
            final(self)@ == old(self)@.advanced(),
            match url {
                Some(u) => final(self)@.current matches Some(page) && page.0 == u@,
                None => final(self)@.current is None,
            },
    {
        proof {
            lemma_advanced_valid(self@);
        }
        let ghost before = self@;
        if self.halted {
            self.current = None;
            return None;
        }
        match self.frontier.pop_front() {
            None => {
                self.current = None;
                proof {
                    assert(self@.frontier =~= before.frontier);
                }
                None
            },
            Some(head) => {
                proof {
                    assert(before.frontier[0] == (head.url@, head.depth as nat));
                    assert(self@.frontier =~= before.frontier.skip(1));
                }
                if head.depth > self.max_depth || self.found.len() >= self.max_pages {
                    self.halted = true;
                    self.current = None;
                    None
                } else {
                    let url = head.url.clone();
                    self.current = Some(head);
                    Some(url)
                }
            },
        }
    }

    /// Judges one resolved link of the current page.
    pub fn accept(&mut self, location: Location)
        requires
            old(self).wf(),
        ensures
            final(self).wf(),
            final(self)@ == old(self)@.accepted(location@),
    {
        proof {
            lemma_accepted_valid(self@, location@);
        }
        let ghost before = self@;
        let depth = match &self.current {
            Some(page) => page.depth,
            None => {
                return ;
            },
        };
        if self.found.len() >= self.max_pages {
            return ;
        }
        if !(location.scheme == self.seed.scheme) || !same_text(
            &location.host,
            &self.seed.host,
        ) {
            return ;
        }
        if is_listed(&self.visited, &location.url) {
            return ;
        }
        self.visited.push(location.url.clone());
        proof {
            assert(self@.visited =~= before.visited.push(location@.url));
        }
        if static_asset(location.path.as_str()) || static_asset(location.url.as_str()) {
            return ;
        }
        self.frontier.push_back(Visit { url: location.url.clone(), depth: depth + 1 });
        self.found.push(Discovery { location, depth: depth + 1 });
        proof {
            assert(self@.frontier =~= before.frontier.push((location@.url, (depth + 1) as nat)));
            assert(self@.found =~= before.found.push((location@, (depth + 1) as nat)));
        }
    }

    /// Judges one reference of the current page.
    pub fn offer(&mut self, href: &str)
        requires
            old(self).wf(),
        ensures
            final(self).wf(),
            final(self)@ == old(self)@.offered(href@),
    {
        let resolved = match &self.current {
            Some(page) => {
                if !navigable(href) {
                    return ;
                }
                join_url(page.url.as_str(), href)
            },
            None => {
                return ;
            },
        };
        match resolved {
            Some(location) => {
                self.accept(location);
            },
            None => {},
        }
    }

    /// Judges the references of the current page, in order.
    pub fn absorb_links(&mut self, links: &Vec<String>)
        requires
            old(self).wf(),
        ensures
            final(self).wf(),
            final(self)@ == old(self)@.absorbed(string_views(links@)),
    {
        let ghost before = self@;
        let ghost hrefs = string_views(links@);
        let mut k: usize = 0;
        proof {
            assert(hrefs.take(0) =~= Seq::<Seq<char>>::empty());
        }
        while k < links.len()
            invariant
                k <= links.len(),
                hrefs == string_views(links@),
                self.wf(),
                self@ == before.absorbed(hrefs.take(k as int)),
            decreases links.len() - k,
        {
            proof {
                assert(hrefs.take(k + 1).drop_last() =~= hrefs.take(k as int));
                assert(hrefs.take(k + 1).last() == links@[k as int]@);
            }
            self.offer(links[k].as_str());
            k += 1;
        }
        proof {
            assert(hrefs.take(k as int) =~= hrefs);
        }
    }

    /// Takes back the page that was handed out: `None` where it could not be
    /// fetched. A page of another content type than `text/html` is passed
    /// over, as is a page that could not be fetched; nothing is reported of
    /// either.
    pub fn absorb(&mut self, page: Option<&Page>)
        requires
            old(self).wf(),
        ensures
            final(self).wf(),
            final(self)@ == old(self)@.fetched(
                match page {
                    Some(p) => Some((p.content_type@, p.body@)),
                    None => None,
                },
            ),
            final(self)@.current is None,
            old(self)@.current is Some ==> final(self)@.remaining() == old(self)@.remaining(),
    {
        let ghost before = self@;
        match page {
            Some(p) => {
                if starts_with(p.content_type.as_str(), "text/html") {
                    let links = extract_links(p.body.as_str());
                    proof {
                        lemma_absorbed_valid(before, page_links(p.body@));
                    }
                    self.absorb_links(&links);
                }
            },
            None => {},
        }
        self.current = None;
    }

    /// Whether a budget has halted the crawl.
    pub fn is_halted(&self) -> (r: bool)
        ensures
            r == self@.halted,
    {
        self.halted
    }

    /// What was found so far, in the order of discovery.
    pub fn discoveries(&self) -> (found: &Vec<Discovery>)
        ensures
            discovery_views(found@) == self@.found,
    {
        &self.found
    }

    /// The URLs that were found, in the order of discovery. The seed and the
    /// pages that were only visited are not among them.
    pub fn into_found(self) -> (urls: Vec<String>)
        ensures
            string_views(urls@) == found_urls(self@.found),
    {
        let mut urls: Vec<String> = Vec::new();
        let mut k: usize = 0;
        while k < self.found.len()
            invariant
                k <= self.found.len(),
                string_views(urls@) == found_urls(self@.found).take(k as int),
            decreases self.found.len() - k,
        {
            let ghost held = string_views(urls@);
            urls.push(self.found[k].location.url.clone());
            proof {
                assert(string_views(urls@) =~= held.push(self.found@[k as int].location.url@));
                assert(string_views(urls@) =~= found_urls(self@.found).take(k + 1));
            }
            k += 1;
        }
        proof {
            assert(found_urls(self@.found).take(k as int) =~= found_urls(self@.found));
        }
        urls
    }
}

/// A page that came back, as plain values.
pub open spec fn page_view(page: Option<Page>) -> Option<(Seq<char>, Seq<char>)> {
    match page {
        Some(p) => Some((p.content_type@, p.body@)),
        None => None,
    }
}

/// The state after each of `pages` was asked for and taken back, in turn.
pub open spec fn state_after(start: CrawlerView, pages: Seq<Option<Page>>) -> CrawlerView
    decreases pages.len(),
{
    if pages.len() == 0 {
        start
    } else {
        state_after(start, pages.drop_last()).advanced().fetched(page_view(pages.last()))
    }
}

/// In `asking` a page is handed out, and `page` is what `fetch` answers for
/// its URL.
pub open spec fn is_answer<F: Fn(&str) -> Option<Page>>(
    asking: CrawlerView,
    fetch: F,
    page: Option<Page>,
) -> bool {
    asking.current matches Some(handed) && exists|u: &str|
        u@ == handed.0 && #[trigger] fetch.ensures((u,), page)
}

/// `pages` are the answers of `fetch` in a crawl from `start` to its end:
/// each is the answer for the page that is handed out after those before it,
/// and after the last no page is handed out.
pub open spec fn is_crawl_run<F: Fn(&str) -> Option<Page>>(
    start: CrawlerView,
    fetch: F,
    pages: Seq<Option<Page>>,
) -> bool {
    &&& forall|k: int|
        0 <= k < pages.len() ==> is_answer(
            state_after(start, #[trigger] pages.take(k)).advanced(),
            fetch,
            pages[k],
        )
    &&& state_after(start, pages).advanced().current is None
}

/// What a crawl from `seed` returns: nothing where the seed is no absolute
/// URL; else what is found by the end of a run from the seed with the
/// answers of `fetch`.
pub open spec fn is_crawl_result<F: Fn(&str) -> Option<Page>>(
    seed: Seq<char>,
    max_depth: nat,
    max_pages: nat,
    fetch: F,
    urls: Seq<Seq<char>>,
) -> bool {
    match url_parsed(seed) {
        None => urls.len() == 0,
        Some(parsed) => exists|pages: Seq<Option<Page>>|
            {
                &&& #[trigger] is_crawl_run(
                    CrawlerView::start(parsed, max_depth, max_pages),
                    fetch,
                    pages,
                )
                &&& urls == found_urls(
                    state_after(CrawlerView::start(parsed, max_depth, max_pages), pages).found,
                )
            },
    }
}

/// Crawls breadth first from `seed` and returns the URLs found, in the order
/// of discovery. `fetch` is called once for each page that is read, with the
/// page's URL, and answers `None` where the page could not be had.
///
/// A seed that is no absolute URL gives no URLs. The crawl ends when the
/// frontier is empty, when the head of the frontier lies deeper than
/// `max_depth`, or when `max_pages` URLs were found. No URL is returned
/// twice, none names a static asset, and there are no more than `max_pages`.
pub fn crawl<F: Fn(&str) -> Option<Page>>(
    seed: &str,
    max_depth: usize,
    max_pages: usize,
    fetch: F,
) -> (urls: Vec<String>)
    requires
        forall|u: &str| #[trigger] fetch.requires((u,)),
    ensures
        is_crawl_result(seed@, max_depth as nat, max_pages as nat, fetch, string_views(urls@)),
        urls@.len() <= max_pages,
        string_views(urls@).no_duplicates(),
        forall|i: int| 0 <= i < urls@.len() ==> !is_static_asset(#[trigger] urls@[i]@),
{
    let mut crawler = match Crawler::new(seed, max_depth, max_pages) {
        Some(c) => c,
        None => {
            return Vec::new();
        },
    };
    let ghost start = crawler@;
    let ghost mut pages: Seq<Option<Page>> = Seq::empty();
    loop
        invariant_except_break
            crawler@ == state_after(start, pages),
        invariant
            crawler.wf(),
            crawler@.max_pages == max_pages,
            forall|k: int|
                0 <= k < pages.len() ==> is_answer(
                    state_after(start, #[trigger] pages.take(k)).advanced(),
                    fetch,
                    pages[k],
                ),
            forall|u: &str| #[trigger] fetch.requires((u,)),
        ensures
            crawler@ == state_after(start, pages).advanced(),
            crawler@.current is None,
        decreases crawler@.remaining(),
    {
        proof {
            lemma_advanced_valid(crawler@);
        }
        match crawler.next_page() {
            None => {
                break ;
            },
            Some(url) => {
                let ghost asking = crawler@;
                let page = fetch(url.as_str());
                proof {
                    assert(is_answer(asking, fetch, page));
                    lemma_fetched_keeps(asking, page_view(page));
                }
                match &page {
                    Some(p) => {
                        crawler.absorb(Some(p));
                    },
                    None => {
                        crawler.absorb(None);
                    },
                }
                proof {
                    let longer = pages.push(page);
                    assert(longer.drop_last() =~= pages);
                    assert forall|k: int| 0 <= k < longer.len() implies is_answer(
                        state_after(start, #[trigger] longer.take(k)).advanced(),
                        fetch,
                        longer[k],
                    ) by {
                        if k < pages.len() {
                            assert(longer.take(k) =~= pages.take(k));
                        } else {
                            assert(longer.take(k) =~= pages);
                        }
                    }
                    pages = longer;
                }
            },
        }
    }
    let ghost state = crawler@;
    let urls = crawler.into_found();
    proof {
        assert(is_crawl_run(start, fetch, pages));
        law_found_within_budgets(state);
        law_found_once(state);
        assert(string_views(urls@).len() == urls@.len());
        assert forall|i: int| 0 <= i < urls@.len() implies !is_static_asset(
            #[trigger] urls@[i]@,
        ) by {
            assert(string_views(urls@)[i] == urls@[i]@);
            assert(found_urls(state.found)[i] == state.found[i].0.url);
        }
    }
    urls
}

/// Taking a page back changes neither the seed nor the budgets.
pub proof fn lemma_fetched_keeps(s: CrawlerView, page: Option<(Seq<char>, Seq<char>)>)
    requires
        s.valid(),
    ensures
        s.fetched(page).seed == s.seed,
        s.fetched(page).max_depth == s.max_depth,
        s.fetched(page).max_pages == s.max_pages,
        s.fetched(page).valid(),
{
    match page {
        Some((content_type, body)) => {
            lemma_absorbed_keeps(s, page_links(body));
        },
        None => {},
    }
}

/// Judging references changes neither the seed nor the budgets.
pub proof fn lemma_absorbed_keeps(s: CrawlerView, hrefs: Seq<Seq<char>>)
    requires
        s.valid(),
    ensures
        s.absorbed(hrefs).seed == s.seed,
        s.absorbed(hrefs).max_depth == s.max_depth,
        s.absorbed(hrefs).max_pages == s.max_pages,
        s.absorbed(hrefs).halted == s.halted,
        s.absorbed(hrefs).valid(),
    decreases hrefs.len(),
{
    lemma_absorbed_valid(s, hrefs);
    if hrefs.len() > 0 {
        lemma_absorbed_keeps(s, hrefs.drop_last());
    }
}

/// Every state of a run is valid: what holds of valid states holds of a
/// crawl from its first page to its last.
pub proof fn law_run_valid(start: CrawlerView, pages: Seq<Option<Page>>)
    requires
        start.valid(),
    ensures
        state_after(start, pages).valid(),
        state_after(start, pages).seed == start.seed,
        state_after(start, pages).max_depth == start.max_depth,
        state_after(start, pages).max_pages == start.max_pages,
    decreases pages.len(),
{
    if pages.len() > 0 {
        law_run_valid(start, pages.drop_last());
        let before = state_after(start, pages.drop_last());
        lemma_advanced_valid(before);
        lemma_fetched_keeps(before.advanced(), page_view(pages.last()));
    }
}

/// The page that is handed out after the first `k` answers of a run.
pub open spec fn asked_at(start: CrawlerView, pages: Seq<Option<Page>>, k: int) -> Option<
    (Seq<char>, nat),
> {
    state_after(start, pages.take(k)).advanced().current
}

/// A spent URL stays spent when the next page is asked for, and is not the
/// page that is handed out.
pub proof fn lemma_spent_advanced(s: CrawlerView, url: Seq<char>)
    requires
        s.valid(),
        is_spent(s, url),
    ensures
        is_spent(s.advanced(), url),
        s.advanced().current matches Some(page) ==> page.0 != url,
{
    let t = s.advanced();
    if !(s.halted || s.frontier.len() == 0) {
        assert(s.frontier[0].0 != url);
        assert forall|i: int| 0 <= i < t.frontier.len() implies (#[trigger] t.frontier[i]).0
            != url by {
            assert(t.frontier[i] == s.frontier[i + 1]);
        }
    }
}

/// A spent URL stays spent when a location is judged.
pub proof fn lemma_spent_accepted(s: CrawlerView, loc: LocationView, url: Seq<char>)
    requires
        is_spent(s, url),
    ensures
        is_spent(s.accepted(loc), url),
{
    let t = s.accepted(loc);
    if t != s {
        let k = choose|k: int| 0 <= k < s.visited.len() && s.visited[k] == url;
        assert(t.visited[k] == url);
        assert forall|i: int| 0 <= i < t.frontier.len() implies (#[trigger] t.frontier[i]).0
            != url by {
            if i < s.frontier.len() {
                assert(t.frontier[i] == s.frontier[i]);
            }
        }
    }
}

/// A spent URL stays spent when the references of a page are judged.
pub proof fn lemma_spent_absorbed(s: CrawlerView, hrefs: Seq<Seq<char>>, url: Seq<char>)
    requires
        is_spent(s, url),
    ensures
        is_spent(s.absorbed(hrefs), url),
    decreases hrefs.len(),
{
    if hrefs.len() > 0 {
        lemma_spent_absorbed(s, hrefs.drop_last(), url);
        let mid = s.absorbed(hrefs.drop_last());
        if mid.current is Some && is_navigable(hrefs.last()) {
            let page = mid.current->0;
            match url_joined(page.0, hrefs.last()) {
                Some(loc) => {
                    lemma_spent_accepted(mid, loc, url);
                },
                None => {},
            }
        }
    }
}

/// The page asked for after `j` answers is spent after every later answer.
pub proof fn lemma_spent_through(start: CrawlerView, pages: Seq<Option<Page>>, j: int, k: int)
    requires
        start.valid(),
        0 <= j < k <= pages.len(),
        asked_at(start, pages, j) is Some,
    ensures
        asked_at(start, pages, j) matches Some(page) && is_spent(
            state_after(start, pages.take(k)),
            page.0,
        ),
    decreases k - j,
{
    let first = asked_at(start, pages, j)->0;
    let url = first.0;
    let shorter = pages.take(k - 1);
    assert(pages.take(k).drop_last() =~= shorter);
    assert(pages.take(k).last() == pages[k - 1]);
    let before = state_after(start, shorter);
    law_run_valid(start, shorter);
    lemma_advanced_valid(before);
    if k - 1 > j {
        lemma_spent_through(start, pages, j, k - 1);
        lemma_spent_advanced(before, url);
    }
    let asking = before.advanced();
    assert(is_spent(asking, url));
    match page_view(pages[k - 1]) {
        Some((content_type, body)) => {
            lemma_spent_absorbed(asking, page_links(body), url);
        },
        None => {},
    }
}

/// No URL is asked for twice in a run: the pages handed out after different
/// numbers of answers have different URLs.
pub proof fn law_asked_once(start: CrawlerView, pages: Seq<Option<Page>>, j: int, k: int)
    requires
        start.valid(),
        0 <= j < k <= pages.len(),
        asked_at(start, pages, j) is Some,
        asked_at(start, pages, k) is Some,
    ensures
        asked_at(start, pages, j) matches Some(first) && asked_at(start, pages, k) matches Some(
            second,
        ) && first.0 != second.0,
{
    lemma_spent_through(start, pages, j, k);
    law_run_valid(start, pages.take(k));
    let first = asked_at(start, pages, j)->0;
    let url = first.0;
    lemma_spent_advanced(state_after(start, pages.take(k)), url);
}

/// The state in which a crawl begins is valid.
pub proof fn law_start_valid(seed: LocationView, max_depth: nat, max_pages: nat)
    ensures
        CrawlerView::start(seed, max_depth, max_pages).valid(),
{
    let start = CrawlerView::start(seed, max_depth, max_pages);
    assert(start.visited[0] == seed.url);
}

/// Every discovery of a crawl shares the seed's scheme and the seed's host,
/// names no static asset by its path or by its URL, is not the seed itself,
/// and lies at most one link deeper than the depth budget: links are read
/// from pages down to the budget's depth. No more URLs are found than the
/// page budget allows.
pub proof fn law_found_within_budgets(state: CrawlerView)
    requires
        state.valid(),
    ensures
        state.found.len() <= state.max_pages,
        forall|i: int|
            0 <= i < state.found.len() ==> {
                let d = #[trigger] state.found[i];
                &&& d.0.scheme == state.seed.scheme
                &&& d.0.host == state.seed.host
                &&& !is_static_asset(d.0.path)
                &&& !is_static_asset(d.0.url)
                &&& d.0.url != state.seed.url
                &&& 1 <= d.1 <= state.max_depth + 1
            },
{
}

/// No URL is found twice, however often a page links to it; and each URL is
/// visited at most once.
pub proof fn law_found_once(state: CrawlerView)
    requires
        state.valid(),
    ensures
        found_urls(state.found).no_duplicates(),
        state.visited.no_duplicates(),
{
    let urls = found_urls(state.found);
    assert forall|i: int, j: int| 0 <= i < urls.len() && 0 <= j < urls.len() && i != j implies urls[i]
        != urls[j] by {
        if i < j {
            assert(state.found[i].0.url != state.found[j].0.url);
        } else {
            assert(state.found[j].0.url != state.found[i].0.url);
        }
    }
}

/// The frontier is in breadth-first order: depths never decrease towards its
/// end, its entries lie on at most two neighbouring levels, and none lies
/// above the page that is being read.
pub proof fn law_frontier_breadth_first(state: CrawlerView)
    requires
        state.valid(),
    ensures
        forall|i: int, j: int|
            0 <= i <= j < state.frontier.len() ==> (#[trigger] state.frontier[i]).1 <= (
            #[trigger] state.frontier[j]).1,
        state.current matches Some(page) ==> forall|i: int|
            0 <= i < state.frontier.len() ==> page.1 <= (#[trigger] state.frontier[i]).1,
        state.advanced().current matches Some(page) ==> forall|i: int|
            0 <= i < state.advanced().frontier.len() ==> page.1 <= (
            #[trigger] state.advanced().frontier[i]).1,
{
    lemma_advanced_valid(state);
}

} // verus!

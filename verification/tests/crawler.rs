use silent_crawler::crawler::{with_default_scheme, FrontierEntry, InvalidSeedError, Results, SilentCrawler};
use silent_crawler::response::{FetchOutcome, SkipReason};
use silent_crawler::urls::ParsedUrl;

fn strings(words: &[&str]) -> Vec<String> {
    words.iter().map(|w| w.to_string()).collect()
}

struct Run {
    results: Results,
    fetched: Vec<String>,
    most_in_flight: usize,
}

/// Drives a crawl over `pages`, a list of URLs with their HTML: a URL that is
/// not listed answers with a failed status. Fetches end in the order in
/// which they began.
fn run(mut crawler: SilentCrawler, pages: &[(&str, &str)]) -> Run {
    let cap = crawler.concurrency();
    let mut under_way: Vec<FrontierEntry> = Vec::new();
    let mut fetched = Vec::new();
    let mut most_in_flight = 0;
    loop {
        while let Some(entry) = crawler.next_fetch() {
            assert!(entry.depth <= crawler.max_depth());
            under_way.push(entry);
        }
        assert_eq!(crawler.in_flight(), under_way.len());
        assert!(under_way.len() <= cap);
        most_in_flight = most_in_flight.max(under_way.len());
        if crawler.is_finished() {
            break;
        }
        assert!(!under_way.is_empty());
        let entry = under_way.remove(0);
        let outcome = match pages.iter().find(|(url, _)| *url == entry.url) {
            Some((_, html)) => FetchOutcome::Fetched(html.to_string()),
            None => FetchOutcome::Skipped(SkipReason::Status),
        };
        fetched.push(entry.url.clone());
        assert!(crawler.complete(&entry.url, &outcome));
    }
    assert!(under_way.is_empty());
    assert_eq!(crawler.pending(), 0);
    Run { results: crawler.results(), fetched, most_in_flight }
}

const HOME: &str = r#"<html><body>
<a href="/about.html">About</a>
<a href="http://blog.example.com/post">Blog</a>
<a href="javascript:void(0)">Script</a>
<a href="http://other.com/x">Other</a>
</body></html>"#;

const ABOUT: &str = r#"<html><body><a href="/deep.html">Deep</a></body></html>"#;

const DEEP: &str = r#"<html><body><a href="/deeper/still.html">Deeper</a></body></html>"#;

#[test]
fn the_seed_gets_a_scheme_where_it_has_none() {
    assert_eq!(with_default_scheme("example.com"), "http://example.com");
    assert_eq!(with_default_scheme("http://example.com"), "http://example.com");
    assert_eq!(with_default_scheme("https://example.com/x"), "https://example.com/x");
    assert_eq!(with_default_scheme("ftp://example.com"), "http://ftp://example.com");
    assert_eq!(with_default_scheme("HTTP://example.com"), "http://HTTP://example.com");
    assert_eq!(with_default_scheme(""), "http://");
}

#[test]
fn a_new_crawler_holds_the_seed_and_nothing_else() {
    let crawler = SilentCrawler::new("example.com", 3, true, 7).unwrap();
    assert_eq!(crawler.base_url(), "http://example.com");
    assert_eq!(crawler.base_domain(), "example.com");
    assert_eq!(crawler.max_depth(), 3);
    assert_eq!(crawler.concurrency(), 7);
    assert!(crawler.respect_robots());
    assert_eq!(crawler.in_flight(), 0);
    assert_eq!(crawler.pending(), 1);
    assert!(!crawler.is_finished());
    assert_eq!(crawler.robots_url(), "http://example.com/robots.txt");
    let results = crawler.results();
    assert_eq!(results.urls, strings(&[]));
    assert_eq!(results.directories, strings(&[]));
    assert_eq!(results.subdomains, strings(&[]));
}

#[test]
fn the_base_domain_is_the_host_as_the_parser_writes_it() {
    let crawler = SilentCrawler::new("https://Blog.Example.COM:8443/a/b?c#d", 1, false, 1).unwrap();
    assert_eq!(crawler.base_url(), "https://Blog.Example.COM:8443/a/b?c#d");
    assert_eq!(crawler.base_domain(), "blog.example.com");
}

#[test]
fn a_seed_that_does_not_parse_is_refused() {
    assert_eq!(SilentCrawler::new("", 1, false, 1).err(), Some(InvalidSeedError::Malformed));
    assert_eq!(SilentCrawler::new("http://", 1, false, 1).err(), Some(InvalidSeedError::Malformed));
    assert_eq!(SilentCrawler::new("http://[::1", 1, false, 1).err(), Some(InvalidSeedError::Malformed));
    assert_eq!(SilentCrawler::new("exa mple.com", 1, false, 1).err(), Some(InvalidSeedError::Malformed));
    assert_eq!(
        SilentCrawler::from_parts("http://".to_string(), None, 1, false, 1).err(),
        Some(InvalidSeedError::Malformed)
    );
}

#[test]
fn a_seed_without_a_host_is_refused() {
    let parts = ParsedUrl { href: "data:text/plain,x".to_string(), host: None, path: "text/plain,x".to_string() };
    assert_eq!(
        SilentCrawler::from_parts("data:text/plain,x".to_string(), Some(parts), 1, false, 1).err(),
        Some(InvalidSeedError::MissingHost)
    );
}

#[test]
fn from_parts_starts_at_the_canonical_form_of_the_seed() {
    let parts = ParsedUrl {
        href: "http://example.com/shop#offers".to_string(),
        host: Some("example.com".to_string()),
        path: "/shop".to_string(),
    };
    let mut crawler =
        SilentCrawler::from_parts("http://example.com/shop#offers".to_string(), Some(parts), 0, false, 1).unwrap();
    assert_eq!(crawler.base_domain(), "example.com");
    let first = crawler.next_fetch().unwrap();
    assert_eq!(first.url, "http://example.com/shop/");
    assert_eq!(first.depth, 0);
}

#[test]
fn the_errors_have_messages() {
    assert_eq!(InvalidSeedError::Malformed.message(), "invalid URL: the seed does not parse");
    assert_eq!(InvalidSeedError::MissingHost.message(), "invalid URL: missing domain");
}

#[test]
fn a_crawl_of_depth_one_stops_below_the_linked_pages() {
    let crawler = SilentCrawler::new("http://example.com", 1, false, 10).unwrap();
    let pages = [
        ("http://example.com/", HOME),
        ("http://example.com/about.html", ABOUT),
        ("http://example.com/deep.html", DEEP),
    ];
    let run = run(crawler, &pages);
    assert_eq!(
        run.results.urls,
        strings(&["http://blog.example.com/post/", "http://example.com/", "http://example.com/about.html"])
    );
    assert_eq!(run.results.directories, strings(&["/post/"]));
    assert_eq!(run.results.subdomains, strings(&["blog"]));
    assert_eq!(
        run.fetched,
        strings(&["http://example.com/", "http://blog.example.com/post/", "http://example.com/about.html"])
    );
    assert!(!run.fetched.iter().any(|url| url.contains("deep")));
    assert!(!run.results.urls.iter().any(|url| url.contains("deep")));
    assert!(!run.results.directories.iter().any(|dir| dir.contains("deep")));
}

#[test]
fn a_crawl_of_depth_zero_visits_the_seed_alone() {
    let crawler = SilentCrawler::new("http://example.com", 0, false, 10).unwrap();
    let run = run(crawler, &[("http://example.com/", HOME)]);
    assert_eq!(run.results.urls, strings(&["http://example.com/"]));
    assert_eq!(run.results.directories, strings(&[]));
    assert_eq!(run.results.subdomains, strings(&[]));
    assert_eq!(run.fetched, strings(&["http://example.com/"]));
}

#[test]
fn a_deeper_bound_lets_the_crawl_go_deeper() {
    let pages = [
        ("http://example.com/", HOME),
        ("http://example.com/about.html", ABOUT),
        ("http://example.com/deep.html", DEEP),
    ];
    let two = run(SilentCrawler::new("http://example.com", 2, false, 10).unwrap(), &pages);
    assert_eq!(
        two.results.urls,
        strings(&[
            "http://blog.example.com/post/",
            "http://example.com/",
            "http://example.com/about.html",
            "http://example.com/deep.html",
        ])
    );
    assert_eq!(two.results.directories, strings(&["/post/"]));
    let three = run(SilentCrawler::new("http://example.com", 3, false, 10).unwrap(), &pages);
    assert_eq!(
        three.results.urls,
        strings(&[
            "http://blog.example.com/post/",
            "http://example.com/",
            "http://example.com/about.html",
            "http://example.com/deep.html",
            "http://example.com/deeper/still.html",
        ])
    );
    assert_eq!(three.results.directories, strings(&["/deeper/", "/post/"]));
    assert_eq!(three.results.subdomains, strings(&["blog"]));
}

#[test]
fn a_url_is_fetched_once_however_often_it_is_linked() {
    let a = r##"<a href="/b.html">b</a><a href="/b.html#x">b</a><a href="/">home</a><a href="/c.html">c</a>"##;
    let b = r#"<a href="/">home</a><a href="/a.html">a</a><a href="/c.html">c</a><a href="b.html">b</a>"#;
    let c = r#"<a href="http://example.com/a.html">a</a><a href="http://example.com/b.html">b</a>"#;
    let pages = [
        ("http://example.com/", a),
        ("http://example.com/a.html", a),
        ("http://example.com/b.html", b),
        ("http://example.com/c.html", c),
    ];
    let run = run(SilentCrawler::new("example.com", 10, false, 3).unwrap(), &pages);
    assert_eq!(
        run.results.urls,
        strings(&[
            "http://example.com/",
            "http://example.com/a.html",
            "http://example.com/b.html",
            "http://example.com/c.html",
        ])
    );
    let mut fetched = run.fetched.clone();
    fetched.sort();
    assert_eq!(fetched, run.results.urls);
}

#[test]
fn no_more_fetches_are_under_way_than_the_cap_allows() {
    let mut home = String::new();
    for i in 0..25 {
        home.push_str(&format!("<a href=\"/page{}.html\">p</a>", i));
    }
    let pages = [("http://example.com/", home.as_str())];
    for cap in [1, 2, 5, 25, 100] {
        let run = run(SilentCrawler::new("example.com", 1, false, cap).unwrap(), &pages);
        assert_eq!(run.results.urls.len(), 26);
        assert_eq!(run.fetched.len(), 26);
        assert_eq!(run.most_in_flight, cap.min(25));
    }
}

#[test]
fn a_cap_of_zero_fetches_nothing() {
    let mut crawler = SilentCrawler::new("example.com", 3, false, 0).unwrap();
    assert!(crawler.is_finished());
    assert!(crawler.next_fetch().is_none());
    assert_eq!(crawler.pending(), 1);
    assert!(crawler.is_finished());
    assert_eq!(crawler.results().urls, strings(&[]));
}

#[test]
fn next_fetch_waits_for_a_free_slot() {
    let mut crawler = SilentCrawler::new("example.com", 1, false, 1).unwrap();
    let seed = crawler.next_fetch().unwrap();
    assert_eq!(seed.url, "http://example.com/");
    assert_eq!(seed.depth, 0);
    assert_eq!(crawler.in_flight(), 1);
    assert!(crawler.next_fetch().is_none());
    assert!(crawler.complete(&seed.url, &FetchOutcome::Fetched(HOME.to_string())));
    assert_eq!(crawler.in_flight(), 0);
    assert_eq!(crawler.pending(), 2);
    let first = crawler.next_fetch().unwrap();
    assert_eq!(first.url, "http://blog.example.com/post/");
    assert_eq!(first.depth, 1);
    assert!(crawler.next_fetch().is_none());
    assert_eq!(crawler.pending(), 1);
    assert!(!crawler.is_finished());
    assert!(crawler.complete(&first.url, &FetchOutcome::Skipped(SkipReason::Transport)));
    let second = crawler.next_fetch().unwrap();
    assert_eq!(second.url, "http://example.com/about.html");
    assert_eq!(second.depth, 1);
    assert!(crawler.complete(&second.url, &FetchOutcome::Fetched(ABOUT.to_string())));
    assert_eq!(crawler.pending(), 0);
    assert!(crawler.next_fetch().is_none());
    assert!(crawler.is_finished());
}

#[test]
fn the_end_of_an_unknown_fetch_changes_nothing() {
    let mut crawler = SilentCrawler::new("example.com", 2, false, 4).unwrap();
    assert!(!crawler.complete("http://example.com/", &FetchOutcome::Fetched(HOME.to_string())));
    assert_eq!(crawler.pending(), 1);
    let seed = crawler.next_fetch().unwrap();
    assert!(!crawler.complete("http://example.com", &FetchOutcome::Fetched(HOME.to_string())));
    assert!(!crawler.expand("http://example.com/other", &strings(&["http://example.com/x"])));
    assert_eq!(crawler.in_flight(), 1);
    assert_eq!(crawler.pending(), 0);
    assert!(crawler.complete(&seed.url, &FetchOutcome::Skipped(SkipReason::ContentType)));
    assert!(!crawler.complete(&seed.url, &FetchOutcome::Fetched(HOME.to_string())));
    assert_eq!(crawler.pending(), 0);
    assert!(crawler.is_finished());
    assert_eq!(crawler.results().urls, strings(&["http://example.com/"]));
}

#[test]
fn expand_takes_links_as_they_are_given() {
    let mut crawler = SilentCrawler::new("example.com", 1, false, 4).unwrap();
    let seed = crawler.next_fetch().unwrap();
    let links = strings(&[
        "http://example.com/b/",
        "http://other.com/",
        "http://example.com/b/",
        "junk",
        "http://shop.example.com/a/b/c.html",
    ]);
    assert!(crawler.expand(&seed.url, &links));
    assert_eq!(crawler.pending(), 5);
    let first = crawler.next_fetch().unwrap();
    assert_eq!((first.url.as_str(), first.depth), ("http://example.com/b/", 1));
    let second = crawler.next_fetch().unwrap();
    assert_eq!((second.url.as_str(), second.depth), ("http://shop.example.com/a/b/c.html", 1));
    assert!(crawler.next_fetch().is_none());
    assert_eq!(crawler.pending(), 0);
    assert!(crawler.expand(&first.url, &strings(&["http://example.com/too/deep/"])));
    assert_eq!(crawler.pending(), 0);
    assert!(crawler.complete(&second.url, &FetchOutcome::Fetched(HOME.to_string())));
    assert_eq!(crawler.pending(), 0);
    assert!(crawler.is_finished());
    let results = crawler.results();
    assert_eq!(
        results.urls,
        strings(&["http://example.com/", "http://example.com/b/", "http://shop.example.com/a/b/c.html"])
    );
    assert_eq!(results.directories, strings(&["/a/b/", "/b/"]));
    assert_eq!(results.subdomains, strings(&["shop"]));
}

#[test]
fn links_to_visited_pages_do_not_enter_the_frontier() {
    let mut crawler = SilentCrawler::new("example.com", 5, false, 4).unwrap();
    let seed = crawler.next_fetch().unwrap();
    let home = r#"<a href="/">home</a><a href="/a.html">a</a><a href="http://example.com">home</a>"#;
    assert!(crawler.complete(&seed.url, &FetchOutcome::Fetched(home.to_string())));
    assert_eq!(crawler.pending(), 1);
    let a = crawler.next_fetch().unwrap();
    assert_eq!(a.url, "http://example.com/a.html");
    let page = r#"<a href="/">home</a><a href="/a.html">a</a><a href="/b.html">b</a><a href="/c.html">c</a>"#;
    assert!(crawler.complete(&a.url, &FetchOutcome::Fetched(page.to_string())));
    assert_eq!(crawler.pending(), 2);
}

#[test]
fn every_visited_url_is_in_scope() {
    let home = r#"<a href="http://other.com/">o</a><a href="http://example.com.evil.org/">e</a>
<a href="http://badexample.com/">b</a><a href="http://a.example.com/">a</a><a href="//b.a.example.com/x/y">b</a>
<a href="https://example.com/secure">s</a>"#;
    let run = run(SilentCrawler::new("example.com", 2, false, 2).unwrap(), &[("http://example.com/", home)]);
    assert_eq!(
        run.results.urls,
        strings(&[
            "http://a.example.com/",
            "http://b.a.example.com/x/y/",
            "http://example.com/",
            "https://example.com/secure/",
        ])
    );
    for url in &run.results.urls {
        assert!(SilentCrawler::new("example.com", 0, false, 1).unwrap().is_same_domain(url));
    }
    assert_eq!(run.results.subdomains, strings(&["a", "b.a"]));
    assert_eq!(run.results.directories, strings(&["/secure/", "/x/y/"]));
}

#[test]
fn the_robots_policy_keeps_disallowed_urls_out() {
    let home = r#"<a href="/private/a.html">a</a><a href="/public/b.html">b</a><a href="/tmp/">t</a>"#;
    let pages = [("http://example.com/", home)];
    let mut crawler = SilentCrawler::new("example.com", 2, true, 2).unwrap();
    crawler.parse_robots_txt(Some("User-agent: *\nDisallow: /private\nDisallow: /tmp/\n"));
    assert!(crawler.is_allowed("http://example.com/public/b.html"));
    assert!(!crawler.is_allowed("http://example.com/private/a.html"));
    let run = run(crawler, &pages);
    assert_eq!(run.results.urls, strings(&["http://example.com/", "http://example.com/public/b.html"]));
    assert_eq!(run.results.directories, strings(&["/public/"]));
}

#[test]
fn a_policy_that_is_not_enforced_keeps_nothing_out() {
    let home = r#"<a href="/private/a.html">a</a><a href="/public/b.html">b</a>"#;
    let mut crawler = SilentCrawler::new("example.com", 2, false, 2).unwrap();
    crawler.parse_robots_txt(Some("Disallow: /private\n"));
    let run = run(crawler, &[("http://example.com/", home)]);
    assert_eq!(
        run.results.urls,
        strings(&["http://example.com/", "http://example.com/private/a.html", "http://example.com/public/b.html"])
    );
}

#[test]
fn a_robots_file_that_could_not_be_had_disallows_nothing() {
    let mut crawler = SilentCrawler::new("example.com", 2, true, 2).unwrap();
    crawler.parse_robots_txt(Some("Disallow: /\n"));
    assert!(!crawler.is_allowed("http://example.com/"));
    crawler.parse_robots_txt(None);
    for url in ["http://example.com/", "http://example.com/private/a.html", "http://example.com/tmp/", "junk"] {
        assert!(crawler.is_allowed(url));
    }
    let run = run(crawler, &[("http://example.com/", r#"<a href="/private/a.html">a</a>"#)]);
    assert_eq!(run.results.urls, strings(&["http://example.com/", "http://example.com/private/a.html"]));
}

#[test]
fn without_a_robots_file_nothing_is_disallowed() {
    let crawler = SilentCrawler::new("example.com", 2, true, 2).unwrap();
    for url in ["http://example.com/", "http://example.com/private/a.html", "http://example.com/tmp/", "junk"] {
        assert!(crawler.is_allowed(url));
    }
    let home = r#"<a href="/private/a.html">a</a>"#;
    let run = run(crawler, &[("http://example.com/", home)]);
    assert_eq!(run.results.urls, strings(&["http://example.com/", "http://example.com/private/a.html"]));
}

#[test]
fn a_disallowed_seed_gives_an_empty_crawl() {
    let mut crawler = SilentCrawler::new("example.com", 2, true, 2).unwrap();
    crawler.parse_robots_txt(Some("Disallow: /\n"));
    let run = run(crawler, &[("http://example.com/", HOME)]);
    assert_eq!(run.results.urls, strings(&[]));
    assert_eq!(run.fetched, strings(&[]));
}

#[test]
fn a_site_that_answers_nothing_gives_the_seed_alone() {
    let run = run(SilentCrawler::new("example.com", 3, false, 5).unwrap(), &[]);
    assert_eq!(run.results.urls, strings(&["http://example.com/"]));
    assert_eq!(run.results.directories, strings(&[]));
    assert_eq!(run.results.subdomains, strings(&[]));
}

#[test]
fn the_methods_of_a_crawler_use_its_base_domain() {
    let crawler = SilentCrawler::new("https://example.com/start", 2, false, 2).unwrap();
    assert!(crawler.is_same_domain("http://blog.example.com/"));
    assert!(!crawler.is_same_domain("http://example.org/"));
    assert_eq!(crawler.extract_subdomain("http://blog.example.com/x"), Some("blog".to_string()));
    assert_eq!(crawler.extract_subdomain("http://example.com/x"), None);
    assert_eq!(crawler.extract_directory("http://example.com/a/b/c.html"), Some("/a/b/".to_string()));
    assert_eq!(crawler.extract_directory("http://example.com/"), None);
    assert_eq!(
        crawler.normalize_url("../x", "http://example.com/a/b/"),
        Ok("http://example.com/a/x/".to_string())
    );
    assert_eq!(
        crawler.extract_links(r#"<a href="/x">x</a><a href="http://example.org/">o</a>"#, "http://example.com/"),
        strings(&["http://example.com/x/"])
    );
    assert_eq!(crawler.robots_url(), "https://example.com/start/robots.txt");
}

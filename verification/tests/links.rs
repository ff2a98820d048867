use silent_crawler::links::{extract_links, is_navigational, select_links};

fn strings(words: &[&str]) -> Vec<String> {
    words.iter().map(|w| w.to_string()).collect()
}

fn hrefs(values: &[Option<&str>]) -> Vec<Option<String>> {
    values.iter().map(|v| v.map(|s| s.to_string())).collect()
}

#[test]
fn scripts_mail_telephone_and_fragments_are_not_navigational() {
    assert!(!is_navigational("javascript:void(0)"));
    assert!(!is_navigational("mailto:someone@example.com"));
    assert!(!is_navigational("tel:+123456"));
    assert!(!is_navigational("#top"));
    assert!(!is_navigational("#"));
}

#[test]
fn other_links_are_navigational() {
    assert!(is_navigational("/about.html"));
    assert!(is_navigational("http://example.com/"));
    assert!(is_navigational("page.html#top"));
    assert!(is_navigational(""));
    assert!(is_navigational("JavaScript:void(0)"));
    assert!(is_navigational(" mailto:x@example.com"));
    assert!(is_navigational("telephone.html"));
    assert!(is_navigational("tel"));
}

#[test]
fn select_links_keeps_what_resolves_in_scope() {
    let found = select_links(
        &hrefs(&[
            Some("/about.html"),
            Some("http://blog.example.com/post"),
            Some("javascript:void(0)"),
            Some("http://other.com/x"),
            None,
            Some("mailto:a@example.com"),
            Some("#top"),
            Some("http://[::1"),
            Some("contact"),
        ]),
        "http://example.com/",
        "example.com",
    );
    assert_eq!(
        found,
        strings(&[
            "http://blog.example.com/post/",
            "http://example.com/about.html",
            "http://example.com/contact/",
        ])
    );
}

#[test]
fn select_links_gives_each_target_once_in_order() {
    let found = select_links(
        &hrefs(&[
            Some("/z"),
            Some("/a#one"),
            Some("/a#two"),
            Some("http://example.com/a/"),
            Some("/z/"),
            Some("/m.html"),
        ]),
        "http://example.com/index.html",
        "example.com",
    );
    assert_eq!(
        found,
        strings(&["http://example.com/a/", "http://example.com/m.html", "http://example.com/z/"])
    );
}

#[test]
fn select_links_with_a_malformed_source_finds_nothing() {
    assert_eq!(select_links(&hrefs(&[Some("/a"), Some("http://example.com/")]), "junk", "example.com"), strings(&[]));
    assert_eq!(select_links(&hrefs(&[]), "http://example.com/", "example.com"), strings(&[]));
}

#[test]
fn extract_links_reads_the_anchors_of_a_page() {
    let html = r##"<!DOCTYPE html>
<html>
  <head><title>Home</title><link href="/style.css" rel="stylesheet"></head>
  <body>
    <a href="/about.html">About</a>
    <a href="http://blog.example.com/post">Blog</a>
    <a href="javascript:void(0)">Script</a>
    <a href="http://other.com/x">Elsewhere</a>
    <a href="mailto:someone@example.com">Mail</a>
    <a href="tel:+1234">Call</a>
    <a href="#top">Top</a>
    <a name="anchor">No target</a>
    <p><a href="/about.html#team">Team</a></p>
    <img src="/logo.png">
    <div href="/not-an-anchor">Not an anchor</div>
  </body>
</html>"##;
    assert_eq!(
        extract_links(html, "http://example.com/", "example.com"),
        strings(&["http://blog.example.com/post/", "http://example.com/about.html"])
    );
}

#[test]
fn extract_links_resolves_against_the_page() {
    let html = r#"<a href="next.html">next</a> <a href="../up/">up</a> <a href="?page=2">more</a>"#;
    assert_eq!(
        extract_links(html, "http://example.com/docs/guide/index.html", "example.com"),
        strings(&[
            "http://example.com/docs/guide/index.html?page=2",
            "http://example.com/docs/guide/next.html",
            "http://example.com/docs/up/",
        ])
    );
}

#[test]
fn extract_links_finds_nothing_where_there_is_nothing() {
    assert_eq!(extract_links("", "http://example.com/", "example.com"), strings(&[]));
    assert_eq!(extract_links("plain text, no markup", "http://example.com/", "example.com"), strings(&[]));
    assert_eq!(extract_links("<<<>>><a href", "http://example.com/", "example.com"), strings(&[]));
    assert_eq!(
        extract_links(r#"<a href="http://other.com/">x</a>"#, "http://example.com/", "example.com"),
        strings(&[])
    );
}

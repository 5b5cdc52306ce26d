use collie::service::feed::parse_link;
use collie::service::feed::resolve_feed_link;
use collie::text::{join_comma, str_eq, trim_str};

#[test]
fn trim_removes_surrounding_whitespace_only() {
    assert_eq!(trim_str("  hello world  "), "hello world");
    assert_eq!(trim_str("\t\n mixed \r\n"), "mixed");
    assert_eq!(trim_str("untouched"), "untouched");
    assert_eq!(trim_str("inner  space"), "inner  space");
    assert_eq!(trim_str(""), "");
    assert_eq!(trim_str(" \u{a0}\u{3000} "), "");
    assert_eq!(trim_str("\u{2003}wide\u{2028}"), "wide");
}

#[test]
fn join_comma_joins_neighbours() {
    assert_eq!(join_comma(&vec![]), "");
    assert_eq!(join_comma(&vec!["one".to_string()]), "one");
    assert_eq!(
        join_comma(&vec!["one".to_string(), "two".to_string(), "three".to_string()]),
        "one,two,three"
    );
}

#[test]
fn str_eq_compares_contents() {
    assert!(str_eq("abc", "abc"));
    assert!(!str_eq("abc", "abd"));
    assert!(!str_eq("abc", "ab"));
}

#[test]
fn parse_link_discovers_the_advertised_feed() {
    let html = "<html><head>\
        <link rel=\"alternate\" type=\"application/rss+xml\" href=\"https://example.com/rss.xml\">\
        </head><body></body></html>";
    let r = parse_link(html).unwrap();
    assert_eq!(r.as_deref(), Some("https://example.com/rss.xml"));
    let atom = "<html><head>\
        <link rel=\"alternate\" type=\"application/atom+xml\" href=\"https://example.com/atom.xml\">\
        </head><body></body></html>";
    let r = parse_link(atom).unwrap();
    assert_eq!(r.as_deref(), Some("https://example.com/atom.xml"));
    let none = parse_link("<html><head></head><body>plain page</body></html>").unwrap();
    assert_eq!(none, None);
}

#[test]
fn resolve_feed_link_keeps_feeds_and_discovers_pages() {
    let rss = "<rss version=\"2.0\"><channel><title>T</title>\
        <link>https://example.com/</link><description>D</description></channel></rss>";
    assert_eq!(
        resolve_feed_link(rss, "https://example.com/feed.xml").unwrap(),
        "https://example.com/feed.xml"
    );
    let page = "<html><head>\
        <link rel=\"alternate\" type=\"application/rss+xml\" href=\"https://example.com/rss.xml\">\
        </head></html>";
    assert_eq!(
        resolve_feed_link(page, "https://example.com/").unwrap(),
        "https://example.com/rss.xml"
    );
    let bare = "<html><head></head><body>nothing here</body></html>";
    assert_eq!(
        resolve_feed_link(bare, "https://example.com/"),
        Err(collie::error::Error::FeedNotFound)
    );
}

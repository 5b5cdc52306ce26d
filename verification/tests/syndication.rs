use collie::model::syndication::{parse_feed_items, parse_feed_title, RawItem};

fn rss_fixture() -> String {
    let mut s = String::new();
    s.push_str("<rss version=\"2.0\" xmlns:dc=\"http://purl.org/dc/elements/1.1/\">\n<channel>\n");
    s.push_str("<title>Hacker News: Front Page</title>\n");
    s.push_str("<link>https://news.ycombinator.com/</link>\n");
    s.push_str("<description>Hacker News RSS</description>\n");
    s.push_str("<item>\n<title>Hacker Smacker: Friend/foe individual writers on Hacker News</title>\n");
    s.push_str("<dc:creator>swyx</dc:creator>\n");
    s.push_str("<link>https://github.com/samuelclay/hackersmacker</link>\n");
    s.push_str("<description><![CDATA[<p>Article URL: <a href=\"https://github.com/samuelclay/hackersmacker\">https://github.com/samuelclay/hackersmacker</a></p>\n<p>Comments URL: <a href=\"https://news.ycombinator.com/item?id=37288627\">https://news.ycombinator.com/item?id=37288627</a></p>\n<p>Points: 36</p>\n<p># Comments: 14</p>]]></description>\n");
    s.push_str("<pubDate>Mon, 28 Aug 2023 01:33:24 +0000</pubDate>\n</item>\n");
    s.push_str("<item>\n<title>Writing Linux Modules in Ada – Part 1</title>\n");
    s.push_str("<dc:creator>slondr</dc:creator>\n");
    s.push_str("<link>http://www.nihamkin.com/2016/10/23/writing-linux-modules-in-ada-part-1/#writing-linux-modules-in-ada-part-1</link>\n");
    s.push_str("<description><![CDATA[<p>Article URL: <a href=\"http://www.nihamkin.com/2016/10/23/writing-linux-modules-in-ada-part-1/#writing-linux-modules-in-ada-part-1\">http://www.nihamkin.com/2016/10/23/writing-linux-modules-in-ada-part-1/#writing-linux-modules-in-ada-part-1</a></p>\n<p>Comments URL: <a href=\"https://news.ycombinator.com/item?id=37288446\">https://news.ycombinator.com/item?id=37288446</a></p>\n<p>Points: 27</p>\n<p># Comments: 5</p>]]></description>\n");
    s.push_str("<pubDate>Mon, 28 Aug 2023 01:05:24 +0000</pubDate>\n</item>\n");
    s.push_str("<item>\n<title>Federal study links testicular cancer to ‘forever chemicals’</title>\n");
    s.push_str("<dc:creator>EA-3167</dc:creator>\n");
    s.push_str("<link>https://undark.org/2023/08/22/federal-study-links-testicular-cancer-to-forever-chemicals/</link>\n");
    s.push_str("<description><![CDATA[<p>Article URL: <a href=\"https://undark.org/2023/08/22/federal-study-links-testicular-cancer-to-forever-chemicals/\">https://undark.org/2023/08/22/federal-study-links-testicular-cancer-to-forever-chemicals/</a></p>\n<p>Comments URL: <a href=\"https://news.ycombinator.com/item?id=37288208\">https://news.ycombinator.com/item?id=37288208</a></p>\n<p>Points: 62</p>\n<p># Comments: 15</p>]]></description>\n");
    s.push_str("<pubDate>Mon, 28 Aug 2023 00:32:34 +0000</pubDate>\n</item>\n");
    s.push_str("</channel>\n</rss>\n");
    s
}

fn atom_fixture() -> String {
    let mut s = String::new();
    s.push_str("<?xml version=\"1.0\" encoding=\"utf-8\"?>\n");
    s.push_str("<feed xmlns=\"http://www.w3.org/2005/Atom\">\n");
    s.push_str("<title>Hacker News: Front Page</title>\n");
    s.push_str("<id>https://hnrss.org/frontpage</id>\n");
    s.push_str("<updated>2023-08-28T01:33:24+00:00</updated>\n");
    s.push_str("<entry>\n<title>Hacker Smacker: Friend/foe individual writers on Hacker News</title>\n");
    s.push_str("<author><name>swyx</name></author>\n");
    s.push_str("<link href=\"https://github.com/samuelclay/hackersmacker\"/>\n");
    s.push_str("<content type=\"html\"><![CDATA[<p>Article URL: <a href=\"https://github.com/samuelclay/hackersmacker\">https://github.com/samuelclay/hackersmacker</a></p>\n<p>Comments URL: <a href=\"https://news.ycombinator.com/item?id=37288627\">https://news.ycombinator.com/item?id=37288627</a></p>\n<p>Points: 36</p>\n<p># Comments: 14</p>]]></content>\n");
    s.push_str("<published>2023-08-28T01:33:24+00:00</published>\n<updated>2023-08-28T01:33:24+00:00</updated>\n");
    s.push_str("<id>https://news.ycombinator.com/item?id=37288627</id>\n</entry>\n");
    s.push_str("<entry>\n<title>Writing Linux Modules in Ada – Part 1</title>\n");
    s.push_str("<author><name>slondr</name></author>\n");
    s.push_str("<link href=\"http://www.nihamkin.com/2016/10/23/writing-linux-modules-in-ada-part-1/#writing-linux-modules-in-ada-part-1\"/>\n");
    s.push_str("<content type=\"html\"><![CDATA[<p>Article URL: <a href=\"http://www.nihamkin.com/2016/10/23/writing-linux-modules-in-ada-part-1/#writing-linux-modules-in-ada-part-1\">http://www.nihamkin.com/2016/10/23/writing-linux-modules-in-ada-part-1/#writing-linux-modules-in-ada-part-1</a></p>\n<p>Comments URL: <a href=\"https://news.ycombinator.com/item?id=37288446\">https://news.ycombinator.com/item?id=37288446</a></p>\n<p>Points: 27</p>\n<p># Comments: 5</p>]]></content>\n");
    s.push_str("<published>2023-08-28T01:05:24+00:00</published>\n<updated>2023-08-28T01:05:24+00:00</updated>\n");
    s.push_str("<id>https://news.ycombinator.com/item?id=37288446</id>\n</entry>\n");
    s.push_str("<entry>\n<title>Federal study links testicular cancer to ‘forever chemicals’</title>\n");
    s.push_str("<author><name>EA-3167</name></author>\n");
    s.push_str("<link href=\"https://undark.org/2023/08/22/federal-study-links-testicular-cancer-to-forever-chemicals/\"/>\n");
    s.push_str("<content type=\"html\"><![CDATA[<p>Article URL: <a href=\"https://undark.org/2023/08/22/federal-study-links-testicular-cancer-to-forever-chemicals/\">https://undark.org/2023/08/22/federal-study-links-testicular-cancer-to-forever-chemicals/</a></p>\n<p>Comments URL: <a href=\"https://news.ycombinator.com/item?id=37288208\">https://news.ycombinator.com/item?id=37288208</a></p>\n<p>Points: 62</p>\n<p># Comments: 15</p>]]></content>\n");
    s.push_str("<published>2023-08-28T00:32:34+00:00</published>\n<updated>2023-08-28T00:32:34+00:00</updated>\n");
    s.push_str("<id>https://news.ycombinator.com/item?id=37288208</id>\n</entry>\n");
    s.push_str("</feed>\n");
    s
}

fn expected_items() -> Vec<RawItem> {
    vec![
        RawItem {
            title: "Hacker Smacker: Friend/foe individual writers on Hacker News".to_string(),
            author: Some("swyx".to_string()),
            link: Some("https://github.com/samuelclay/hackersmacker".to_string()),
            content: Some("<p>Article URL: <a href=\"https://github.com/samuelclay/hackersmacker\">https://github.com/samuelclay/hackersmacker</a></p>\n<p>Comments URL: <a href=\"https://news.ycombinator.com/item?id=37288627\">https://news.ycombinator.com/item?id=37288627</a></p>\n<p>Points: 36</p>\n<p># Comments: 14</p>".to_string()),
            published_at: Some(chrono::DateTime::parse_from_rfc3339("2023-08-28T01:33:24+00:00").unwrap().timestamp()),
        },
        RawItem {
            title: "Writing Linux Modules in Ada – Part 1".to_string(),
            author: Some("slondr".to_string()),
            link: Some("http://www.nihamkin.com/2016/10/23/writing-linux-modules-in-ada-part-1/#writing-linux-modules-in-ada-part-1".to_string()),
            content: Some("<p>Article URL: <a href=\"http://www.nihamkin.com/2016/10/23/writing-linux-modules-in-ada-part-1/#writing-linux-modules-in-ada-part-1\">http://www.nihamkin.com/2016/10/23/writing-linux-modules-in-ada-part-1/#writing-linux-modules-in-ada-part-1</a></p>\n<p>Comments URL: <a href=\"https://news.ycombinator.com/item?id=37288446\">https://news.ycombinator.com/item?id=37288446</a></p>\n<p>Points: 27</p>\n<p># Comments: 5</p>".to_string()),
            published_at: Some(chrono::DateTime::parse_from_rfc3339("2023-08-28T01:05:24+00:00").unwrap().timestamp()),
        },
        RawItem {
            title: "Federal study links testicular cancer to ‘forever chemicals’".to_string(),
            author: Some("EA-3167".to_string()),
            link: Some("https://undark.org/2023/08/22/federal-study-links-testicular-cancer-to-forever-chemicals/".to_string()),
            content: Some("<p>Article URL: <a href=\"https://undark.org/2023/08/22/federal-study-links-testicular-cancer-to-forever-chemicals/\">https://undark.org/2023/08/22/federal-study-links-testicular-cancer-to-forever-chemicals/</a></p>\n<p>Comments URL: <a href=\"https://news.ycombinator.com/item?id=37288208\">https://news.ycombinator.com/item?id=37288208</a></p>\n<p>Points: 62</p>\n<p># Comments: 15</p>".to_string()),
            published_at: Some(chrono::DateTime::parse_from_rfc3339("2023-08-28T00:32:34+00:00").unwrap().timestamp()),
        },
    ]
}

#[test]
fn fetch_feed_title_rss() {
    let title = parse_feed_title(&rss_fixture()).unwrap();
    assert_eq!(title, "Hacker News: Front Page");
}

#[test]
fn fetch_feed_title_atom() {
    let title = parse_feed_title(&atom_fixture()).unwrap();
    assert_eq!(title, "Hacker News: Front Page");
}

#[test]
fn fetch_feed_items_rss() {
    let items = parse_feed_items(&rss_fixture()).unwrap();
    assert_eq!(expected_items(), items);
}

#[test]
fn fetch_feed_items_atom() {
    let items = parse_feed_items(&atom_fixture()).unwrap();
    assert_eq!(expected_items(), items);
}

#[test]
fn unrecognized_format_is_rejected() {
    let r = parse_feed_items("<html><body>not a feed</body></html>");
    assert_eq!(r, Err(collie::error::Error::SyndicationParsingFailure));
    let t = parse_feed_title("plain text");
    assert!(matches!(t, Err(collie::error::Error::SyndicationParsingFailure)));
}

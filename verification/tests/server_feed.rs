use rssreader::feed::{download_feed, feed_from_channel, item_from_channel, last_updated_of, latest_date, Feed, Item};
use rssreader::channel::{ChannelData, ChannelItem};
use rssreader::timestamp::Timestamp;

fn ts(secs: i64) -> Timestamp {
    Timestamp { secs, nanos: 0 }
}

fn item(guid: &str, date: Option<i64>, unread: bool) -> Item {
    Item {
        title: Some(format!("title {}", guid)),
        link: None,
        content: None,
        pub_date: date.map(ts),
        guid: guid.to_string(),
        unread,
    }
}

fn feed(title: &str, updated: i64, items: Vec<Item>) -> Feed {
    Feed { title: title.to_string(), last_updated: ts(updated), items }
}

fn guids(f: &Feed) -> Vec<String> {
    f.items.iter().map(|i| i.guid.clone()).collect()
}

const CHANNEL: &str = r#"<?xml version="1.0" encoding="UTF-8"?>
<rss version="2.0" xmlns:content="http://purl.org/rss/1.0/modules/content/">
<channel>
<title>Example feed</title>
<link>http://example.com/</link>
<description>An example</description>
<lastBuildDate>Sun, 01 Jan 2017 12:00:00 GMT</lastBuildDate>
<item>
<title>First</title>
<link>http://example.com/1</link>
<guid>one</guid>
<pubDate>Mon, 02 Jan 2017 10:00:00 +0000</pubDate>
<description>first description</description>
<content:encoded>first content</content:encoded>
</item>
<item>
<title>Second</title>
<guid>two</guid>
<pubDate>not a date</pubDate>
<description>second description</description>
</item>
</channel>
</rss>"#;

#[test]
fn download_reads_items_and_build_date() {
    let f = download_feed(CHANNEL.as_bytes()).unwrap();
    assert_eq!(f.title, "Example feed");
    assert_eq!(f.last_updated, ts(1483272000));
    assert_eq!(f.items.len(), 2);
    let a = &f.items[0];
    assert_eq!(a.guid, "one");
    assert_eq!(a.title.as_deref(), Some("First"));
    assert_eq!(a.link.as_deref(), Some("http://example.com/1"));
    assert_eq!(a.content.as_deref(), Some("first content"));
    assert_eq!(a.pub_date, Some(ts(1483351200)));
    assert!(a.unread);
    let b = &f.items[1];
    assert_eq!(b.guid, "two");
    assert_eq!(b.content.as_deref(), Some("second description"));
    assert_eq!(b.pub_date, None);
    assert!(b.unread);
}

#[test]
fn download_without_build_date_takes_latest_item_date() {
    let text = CHANNEL.replace("<lastBuildDate>Sun, 01 Jan 2017 12:00:00 GMT</lastBuildDate>", "");
    let f = download_feed(text.as_bytes()).unwrap();
    assert_eq!(f.last_updated, ts(1483351200));
}

#[test]
fn download_with_unreadable_build_date_is_epoch() {
    let text = CHANNEL.replace("Sun, 01 Jan 2017 12:00:00 GMT", "yesterday");
    let f = download_feed(text.as_bytes()).unwrap();
    assert_eq!(f.last_updated, ts(0));
}

#[test]
fn download_item_without_guid_is_broken_channel() {
    let text = CHANNEL.replace("<guid>two</guid>", "");
    assert_eq!(download_feed(text.as_bytes()).err(), Some("broken channel".to_string()));
}

#[test]
fn download_of_non_rss_text_fails() {
    assert_eq!(
        download_feed(b"<html></html>").err(),
        Some("Channel not downloaded: the input did not begin with an rss tag".to_string())
    );
}

#[test]
fn download_of_empty_channel() {
    let text = r#"<rss version="2.0"><channel><title>Empty</title></channel></rss>"#;
    let f = download_feed(text.as_bytes()).unwrap();
    assert_eq!(f.title, "Empty");
    assert!(f.items.is_empty());
    assert_eq!(f.last_updated, ts(0));
}

#[test]
fn rfc2822_offsets_are_read_in_utc() {
    let text = CHANNEL.replace("Mon, 02 Jan 2017 10:00:00 +0000", "Mon, 02 Jan 2017 12:00:00 +0200");
    let f = download_feed(text.as_bytes()).unwrap();
    assert_eq!(f.items[0].pub_date, Some(ts(1483351200)));
}

fn channel_item(guid: Option<&str>, content: Option<&str>, description: Option<&str>) -> ChannelItem {
    ChannelItem {
        guid: guid.map(str::to_string),
        title: Some("t".to_string()),
        link: Some("l".to_string()),
        content: content.map(str::to_string),
        description: description.map(str::to_string),
        pub_date: None,
    }
}

#[test]
fn item_content_falls_back_to_description() {
    let it = item_from_channel(&channel_item(Some("g"), None, Some("d")), Some(ts(5))).unwrap();
    assert_eq!(it.content.as_deref(), Some("d"));
    assert_eq!(it.pub_date, Some(ts(5)));
    assert_eq!(it.guid, "g");
    assert!(it.unread);
    let it = item_from_channel(&channel_item(Some("g"), Some("c"), Some("d")), None).unwrap();
    assert_eq!(it.content.as_deref(), Some("c"));
    assert!(item_from_channel(&channel_item(None, None, None), None).is_err());
}

#[test]
fn feed_from_channel_values() {
    let c = ChannelData {
        title: "T".to_string(),
        last_build_date: None,
        items: vec![channel_item(Some("a"), None, None)],
    };
    let f = feed_from_channel(&c).unwrap();
    assert_eq!(f.title, "T");
    assert_eq!(guids(&f), vec!["a"]);
    assert_eq!(f.last_updated, ts(0));
}

#[test]
fn update_date_rules() {
    let items = vec![item("a", Some(10), true), item("b", None, true), item("c", Some(30), true), item("d", Some(20), true)];
    assert_eq!(latest_date(&items), Some(Some(ts(30))));
    assert_eq!(last_updated_of(None, &items), ts(30));
    assert_eq!(last_updated_of(Some(Some(ts(7))), &items), ts(7));
    assert_eq!(last_updated_of(Some(None), &items), ts(0));
    assert_eq!(last_updated_of(None, &vec![]), ts(0));
    assert_eq!(last_updated_of(None, &vec![item("x", None, true)]), ts(0));
    assert_eq!(latest_date(&vec![]), None);
}

#[test]
fn merge_takes_title_and_date_of_download() {
    let mut stored = feed("old", 1, vec![]);
    stored.merge(feed("new", 2, vec![]));
    assert_eq!(stored.title, "new");
    assert_eq!(stored.last_updated, ts(2));
}

#[test]
fn merge_keeps_read_marks_and_adds_new_items_unread() {
    let mut stored = feed("f", 1, vec![item("a", Some(10), false), item("b", Some(20), true)]);
    let mut fresh_a = item("a", Some(10), true);
    fresh_a.title = Some("changed".to_string());
    let mut c = item("c", Some(15), false);
    c.content = Some("body".to_string());
    stored.merge(feed("f", 2, vec![fresh_a, c]));
    assert_eq!(guids(&stored), vec!["a", "c", "b"]);
    let a = &stored.items[0];
    assert!(!a.unread);
    assert_eq!(a.title.as_deref(), Some("title a"));
    let c = &stored.items[1];
    assert!(c.unread);
    assert_eq!(c.content.as_deref(), Some("body"));
    assert!(stored.items[2].unread);
}

#[test]
fn merge_deduplicates_by_guid() {
    let mut stored = feed("f", 1, vec![item("a", Some(1), true), item("a", Some(5), false)]);
    let mut first_b = item("b", Some(3), false);
    first_b.link = Some("first".to_string());
    let mut second_b = item("b", Some(4), false);
    second_b.link = Some("second".to_string());
    stored.merge(feed("f", 2, vec![first_b, second_b, item("a", Some(9), true)]));
    assert_eq!(guids(&stored), vec!["b", "a"]);
    assert_eq!(stored.items[0].link.as_deref(), Some("first"));
    assert!(stored.items[0].unread);
    assert_eq!(stored.items[1].pub_date, Some(ts(5)));
    assert!(!stored.items[1].unread);
}

#[test]
fn merge_sorts_by_date_with_undated_first() {
    let mut stored = feed("f", 1, vec![item("late", Some(100), true), item("nodate", None, true)]);
    let mut early = item("early", Some(-5), true);
    early.pub_date = Some(Timestamp { secs: -5, nanos: 7 });
    stored.merge(feed("f", 2, vec![early, item("mid", Some(50), true)]));
    assert_eq!(guids(&stored), vec!["nodate", "early", "mid", "late"]);
    let dates: Vec<Option<Timestamp>> = stored.items.iter().map(|i| i.pub_date).collect();
    let key = |d: &Option<Timestamp>| d.map(|t| (t.secs, t.nanos));
    for w in dates.windows(2) {
        assert!(key(&w[0]) <= key(&w[1]));
    }
}

#[test]
fn merge_orders_leap_second_before_next_second() {
    let mut stored = feed("f", 1, vec![]);
    let next = item("next", Some(60), true);
    let mut leap = item("leap", Some(59), true);
    leap.pub_date = Some(Timestamp { secs: 59, nanos: 1_500_000_000 });
    stored.merge(feed("f", 2, vec![next, leap]));
    assert_eq!(guids(&stored), vec!["leap", "next"]);
}

#[test]
fn merge_twice_changes_nothing() {
    let download = feed("f", 2, vec![item("x", Some(3), true), item("y", Some(1), true)]);
    let mut stored = feed("f", 1, vec![item("y", Some(1), false)]);
    stored.merge(download.duplicate());
    let once: Vec<(String, bool)> = stored.items.iter().map(|i| (i.guid.clone(), i.unread)).collect();
    stored.merge(download.duplicate());
    let twice: Vec<(String, bool)> = stored.items.iter().map(|i| (i.guid.clone(), i.unread)).collect();
    assert_eq!(once, twice);
    assert_eq!(once, vec![("y".to_string(), false), ("x".to_string(), true)]);
}

#[test]
fn duplicate_copies_everything() {
    let f = feed("f", 3, vec![item("a", Some(1), false)]);
    let g = f.duplicate();
    assert_eq!(g.title, "f");
    assert_eq!(g.last_updated, ts(3));
    assert_eq!(guids(&g), vec!["a"]);
    assert!(!g.items[0].unread);
    assert_eq!(g.items[0].title.as_deref(), Some("title a"));
}

#[test]
fn download_reads_documents_in_their_declared_encoding() {
    let mut doc: Vec<u8> = br#"<?xml version="1.0" encoding="ISO-8859-1"?><rss version="2.0"><channel><title>Caf"#.to_vec();
    doc.push(0xE9);
    doc.extend_from_slice(b"</title><item><guid>g</guid></item></channel></rss>");
    let f = download_feed(&doc).unwrap();
    assert_eq!(f.title, "Caf\u{e9}");
    assert_eq!(guids(&f), vec!["g"]);
}

#[test]
fn download_tolerates_bad_syndication_values() {
    let text = r#"<rss version="2.0" xmlns:sy="http://purl.org/rss/1.0/modules/syndication/"><channel><title>S</title>
<sy:updatePeriod>sometimes</sy:updatePeriod><sy:updateFrequency>often</sy:updateFrequency>
<item><guid>g</guid></item></channel></rss>"#;
    let f = download_feed(text.as_bytes()).unwrap();
    assert_eq!(f.title, "S");
    assert_eq!(guids(&f), vec!["g"]);
}

#[test]
fn download_tolerates_dates_at_the_end_of_time() {
    let text = CHANNEL.replace("Mon, 02 Jan 2017 10:00:00 +0000", "31 Dec 262143 23:59:59 -2359");
    let f = download_feed(text.as_bytes()).unwrap();
    assert_eq!(f.items.len(), 2);
    let text = CHANNEL.replace("Sun, 01 Jan 2017 12:00:00 GMT", "31 Dec 262143 23:59:59 -2359");
    assert!(download_feed(text.as_bytes()).is_ok());
}

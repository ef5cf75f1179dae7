use rssreader::client::{apply_channel, Feed, Item};
use rssreader::channel::ChannelData;
use rssreader::text::{opt_text_no_later, text_no_later};
use rssreader::timestamp::{opt_not_after, Timestamp};
use rssreader::update_feed;
use rssreader::utils::ErrString;

fn item(guid: &str, date: Option<&str>, unread: bool) -> Item {
    Item {
        title: Some(format!("title {}", guid)),
        link: None,
        content: None,
        pub_date: date.map(str::to_string),
        guid: guid.to_string(),
        unread,
    }
}

fn stored(items: Vec<Item>) -> Feed {
    Feed { title: String::new(), last_updated: String::new(), items }
}

const CHANNEL: &str = r#"<rss version="2.0"><channel><title>Client feed</title>
<lastBuildDate>Sun, 01 Jan 2017 12:00:00 GMT</lastBuildDate>
<item><title>ignored</title><guid>new</guid></item>
</channel></rss>"#;

#[test]
fn update_takes_title_and_build_date_and_keeps_stored_items() {
    let f = update_feed(CHANNEL, stored(vec![item("b", Some("Tue, 03 Jan 2017"), false), item("a", Some("Mon, 02 Jan 2017"), true)])).unwrap();
    assert_eq!(f.title, "Client feed");
    assert_eq!(f.last_updated, "Sun, 01 Jan 2017 12:00:00 GMT");
    let got: Vec<(String, bool)> = f.items.iter().map(|i| (i.guid.clone(), i.unread)).collect();
    // dates are ordered as texts: "Mon" < "Tue"; channel items are not added
    assert_eq!(got, vec![("a".to_string(), true), ("b".to_string(), false)]);
}

#[test]
fn update_deduplicates_stored_items_last_wins() {
    let f = update_feed(CHANNEL, stored(vec![item("a", None, true), item("a", Some("x"), false), item("b", None, true)])).unwrap();
    let got: Vec<(String, Option<String>, bool)> = f.items.iter().map(|i| (i.guid.clone(), i.pub_date.clone(), i.unread)).collect();
    assert_eq!(got, vec![("b".to_string(), None, true), ("a".to_string(), Some("x".to_string()), false)]);
}

#[test]
fn update_twice_changes_no_item() {
    let once = update_feed(CHANNEL, stored(vec![item("a", Some("2"), true), item("b", Some("1"), false), item("a", Some("3"), false)])).unwrap();
    let first: Vec<(String, Option<String>, bool)> = once.items.iter().map(|i| (i.guid.clone(), i.pub_date.clone(), i.unread)).collect();
    let twice = update_feed(CHANNEL, once).unwrap();
    let second: Vec<(String, Option<String>, bool)> = twice.items.iter().map(|i| (i.guid.clone(), i.pub_date.clone(), i.unread)).collect();
    assert_eq!(first, second);
}

#[test]
fn update_without_build_date_is_incorrect_feed() {
    let text = CHANNEL.replace("<lastBuildDate>Sun, 01 Jan 2017 12:00:00 GMT</lastBuildDate>", "");
    assert_eq!(update_feed(&text, stored(vec![])).err(), Some("Incorrect feed".to_string()));
}

#[test]
fn update_of_unreadable_text_gives_the_rss_error() {
    assert_eq!(
        update_feed("<html></html>", stored(vec![])).err(),
        Some("the input did not begin with an rss tag".to_string())
    );
    assert_eq!(
        update_feed("plain text", stored(vec![])).err(),
        Some("reached end of input without finding a complete channel".to_string())
    );
}

#[test]
fn apply_channel_values() {
    let c = ChannelData { title: "T".to_string(), last_build_date: Some("when".to_string()), items: vec![] };
    let f = apply_channel(stored(vec![item("z", Some("b"), true), item("y", Some("a"), true)]), &c).unwrap();
    assert_eq!(f.title, "T");
    assert_eq!(f.last_updated, "when");
    assert_eq!(f.items.iter().map(|i| i.guid.as_str()).collect::<Vec<_>>(), vec!["y", "z"]);
}

#[test]
fn text_order_is_byte_order() {
    assert!(text_no_later(&"abc".to_string(), &"abd".to_string()));
    assert!(!text_no_later(&"abd".to_string(), &"abc".to_string()));
    assert!(text_no_later(&"ab".to_string(), &"abc".to_string()));
    assert!(!text_no_later(&"abc".to_string(), &"ab".to_string()));
    assert!(text_no_later(&"".to_string(), &"".to_string()));
    assert!(text_no_later(&"Z".to_string(), &"a".to_string()));
    assert!(text_no_later(&"z".to_string(), &"é".to_string()));
    assert!(opt_text_no_later(&None, &Some("a".to_string())));
    assert!(!opt_text_no_later(&Some("a".to_string()), &None));
    assert!(opt_text_no_later(&None, &None));
}

#[test]
fn instant_order() {
    let t = |secs, nanos| Timestamp { secs, nanos };
    assert!(t(1, 5).not_after(&t(1, 5)));
    assert!(t(1, 5).not_after(&t(2, 0)));
    assert!(!t(2, 0).not_after(&t(1, 1_500_000_000)));
    assert!(opt_not_after(&None, &Some(t(0, 0))));
    assert!(!opt_not_after(&Some(t(0, 0)), &None));
    assert_eq!(Timestamp::epoch(), t(0, 0));
}

#[test]
fn or_err_on_options_and_results() {
    assert_eq!(Some(3).or_err("missing"), Ok(3));
    assert_eq!(None::<u8>.or_err("missing"), Err("missing".to_string()));
    assert_eq!(Ok::<u8, String>(4).or_err("Download failed"), Ok(4));
    assert_eq!(Err::<u8, String>("timeout".to_string()).or_err("Download failed"), Err("Download failed: timeout".to_string()));
}

#[test]
fn stored_feed_or_an_empty_one() {
    let f = rssreader::client::stored_or_empty(None);
    assert_eq!(f.title, "");
    assert_eq!(f.last_updated, "");
    assert!(f.items.is_empty());
    let f = rssreader::client::stored_or_empty(Some(stored(vec![item("a", None, true)])));
    assert_eq!(f.items.len(), 1);
}

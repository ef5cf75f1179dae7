use rssreader::feed::{Feed, Item};
use rssreader::refresh::{RefreshAction, RefreshCycle};
use rssreader::storage::FeedStorage;
use rssreader::timestamp::Timestamp;

fn ts(secs: i64) -> Timestamp {
    Timestamp { secs, nanos: 0 }
}

fn item(guid: &str, date: i64, unread: bool) -> Item {
    Item { title: None, link: None, content: None, pub_date: Some(ts(date)), guid: guid.to_string(), unread }
}

fn feed(title: &str, items: Vec<Item>) -> Feed {
    Feed { title: title.to_string(), last_updated: ts(1), items }
}

fn s(x: &str) -> String {
    x.to_string()
}

#[test]
fn add_then_get_gives_the_feed_back() {
    let mut store = FeedStorage::new();
    let url = s("http://a");
    assert!(store.begin_add(&url).is_ok());
    assert!(store.finish_add(url.clone(), Ok(feed("A", vec![item("x", 1, true)]))).is_ok());
    let got = store.get(&url).unwrap();
    assert_eq!(got.title, "A");
    assert_eq!(got.items.len(), 1);
    assert!(store.contains(&url));
}

#[test]
fn adding_an_existing_feed_is_refused() {
    let mut store = FeedStorage::new();
    let url = s("http://a");
    store.insert(url.clone(), feed("A", vec![]));
    assert_eq!(store.begin_add(&url), Err(s("Feed already exists")));
}

#[test]
fn failed_download_stores_nothing() {
    let mut store = FeedStorage::new();
    let url = s("http://a");
    assert_eq!(store.finish_add(url.clone(), Err(s("Failed to download: boom"))), Err(s("Failed to download: boom")));
    assert!(!store.contains(&url));
    assert!(store.list().is_empty());
}

#[test]
fn get_of_unknown_feed_is_not_found() {
    let store = FeedStorage::new();
    assert_eq!(store.get(&s("http://nowhere")).err(), Some(s("Feed not found")));
}

#[test]
fn remove_then_get_is_not_found() {
    let mut store = FeedStorage::new();
    let url = s("http://a");
    store.insert(url.clone(), feed("A", vec![]));
    store.insert(s("http://b"), feed("B", vec![]));
    store.remove(&url);
    assert_eq!(store.get(&url).err(), Some(s("Feed not found")));
    assert!(store.get(&s("http://b")).is_ok());
    store.remove(&s("http://unknown"));
    assert_eq!(store.list().len(), 1);
}

#[test]
fn insert_replaces_the_feed_under_a_url() {
    let mut store = FeedStorage::new();
    let url = s("http://a");
    store.insert(url.clone(), feed("A", vec![]));
    store.insert(url.clone(), feed("A2", vec![]));
    assert_eq!(store.get(&url).unwrap().title, "A2");
    assert_eq!(store.list().len(), 1);
}

#[test]
fn list_summarises_every_feed_once() {
    let mut store = FeedStorage::new();
    store.insert(s("http://a"), feed("A", vec![]));
    store.insert(s("http://b"), Feed { title: s("B"), last_updated: ts(9), items: vec![] });
    let mut infos: Vec<(String, String, Timestamp)> =
        store.list().into_iter().map(|i| (i.url, i.title, i.last_updated)).collect();
    infos.sort_by(|a, b| a.0.cmp(&b.0));
    assert_eq!(infos, vec![(s("http://a"), s("A"), ts(1)), (s("http://b"), s("B"), ts(9))]);
}

#[test]
fn mark_read_marks_the_first_matching_item_only() {
    let mut store = FeedStorage::new();
    let url = s("http://a");
    store.insert(url.clone(), feed("A", vec![item("x", 1, true), item("y", 2, true), item("x", 3, true)]));
    assert!(store.mark_read(&url, &s("x")));
    let f = store.get(&url).unwrap();
    let flags: Vec<bool> = f.items.iter().map(|i| i.unread).collect();
    assert_eq!(flags, vec![false, true, true]);
    // marking again still finds it and changes nothing
    assert!(store.mark_read(&url, &s("x")));
    let flags: Vec<bool> = store.get(&url).unwrap().items.iter().map(|i| i.unread).collect();
    assert_eq!(flags, vec![false, true, true]);
}

#[test]
fn mark_read_of_unknown_item_or_feed_is_false() {
    let mut store = FeedStorage::new();
    let url = s("http://a");
    store.insert(url.clone(), feed("A", vec![item("x", 1, true)]));
    assert!(!store.mark_read(&url, &s("nope")));
    assert!(!store.mark_read(&s("http://b"), &s("x")));
    assert!(store.get(&url).unwrap().items[0].unread);
}

#[test]
fn refresh_merges_and_keeps_read_marks() {
    let mut store = FeedStorage::new();
    let url = s("http://a");
    store.insert(url.clone(), feed("A", vec![item("x", 1, true)]));
    assert!(store.mark_read(&url, &s("x")));
    store.refresh(&url, feed("A new", vec![item("x", 1, true), item("y", 2, true)]));
    let f = store.get(&url).unwrap();
    assert_eq!(f.title, "A new");
    let got: Vec<(String, bool)> = f.items.iter().map(|i| (i.guid.clone(), i.unread)).collect();
    assert_eq!(got, vec![(s("x"), false), (s("y"), true)]);
}

#[test]
fn refresh_of_removed_feed_changes_nothing() {
    let mut store = FeedStorage::new();
    store.refresh(&s("http://gone"), feed("G", vec![]));
    assert!(store.list().is_empty());
}

fn infos(store: &FeedStorage) -> Result<Vec<rssreader::storage::FeedInfo>, String> {
    Ok(store.list())
}

#[test]
fn refresh_cycle_visits_every_feed_in_turn() {
    let mut store = FeedStorage::new();
    store.insert(s("http://a"), feed("A", vec![]));
    store.insert(s("http://b"), feed("B", vec![]));
    let listed = store.list();
    let urls: Vec<String> = listed.iter().map(|i| i.url.clone()).collect();
    let mut cycle = RefreshCycle::new();
    let first = cycle.on_listed(infos(&store));
    match first {
        RefreshAction::Download(u) => assert_eq!(u, urls[0]),
        _ => panic!("expected a download"),
    }
    match cycle.on_downloaded(Ok(feed("A2", vec![]))) {
        RefreshAction::Store(u, f) => {
            assert_eq!(u, urls[0]);
            assert_eq!(f.title, "A2");
        },
        _ => panic!("expected a store"),
    }
    match cycle.on_stored() {
        RefreshAction::Download(u) => assert_eq!(u, urls[1]),
        _ => panic!("expected a download"),
    }
    match cycle.on_downloaded(Err(s("offline"))) {
        RefreshAction::Finished => {},
        _ => panic!("expected the end"),
    }
    assert!(matches!(cycle.on_stored(), RefreshAction::Finished));
    assert!(matches!(cycle.on_downloaded(Ok(feed("late", vec![]))), RefreshAction::Finished));
}

#[test]
fn refresh_cycle_after_failed_listing_is_over() {
    let mut cycle = RefreshCycle::new();
    assert!(matches!(cycle.on_listed(Err(s("overloaded"))), RefreshAction::Finished));
    let mut cycle = RefreshCycle::new();
    assert!(matches!(cycle.on_listed(Ok(vec![])), RefreshAction::Finished));
}

//! The server's store of subscribed feeds, keyed by URL, and the requests
//! it answers: add, remove, get, list, mark an item read, and take in a
//! refreshed download.

use vstd::prelude::*;

use crate::entries::{lists_exactly, sorted_by_date};
use crate::feed::{merged_items, Feed, FeedView, Item};
use crate::timestamp::Timestamp;

verus! {

/// A summary of a stored feed, as the feed list shows it.
pub struct FeedInfo {
    pub url: String,
    pub title: String,
    pub last_updated: Timestamp,
}

/// A feed and the URL it is stored under.
pub struct StoredFeed {
    pub url: String,
    pub feed: Feed,
}

/// The subscribed feeds, at most one per URL.
pub struct FeedStorage {
    feeds: Vec<StoredFeed>,
}

/// No URL is stored twice.
pub open spec fn unique_urls(s: Seq<StoredFeed>) -> bool {
    forall|i: int, j: int| 0 <= i < j < s.len() ==> (#[trigger] s[i]).url@ != (#[trigger] s[j]).url@
}

/// Some feed is stored under `k`.
pub open spec fn holds_url(s: Seq<StoredFeed>, k: Seq<char>) -> bool {
    exists|i: int| 0 <= i < s.len() && (#[trigger] s[i]).url@ == k
}

/// The stored feeds by URL.
pub open spec fn feeds_by_url(s: Seq<StoredFeed>) -> Map<Seq<char>, FeedView> {
    Map::new(
        |k: Seq<char>| holds_url(s, k),
        |k: Seq<char>| s[choose|i: int| 0 <= i < s.len() && (#[trigger] s[i]).url@ == k].feed@,
    )
}

proof fn lemma_feed_at(s: Seq<StoredFeed>, i: int)
    requires
        unique_urls(s),
        0 <= i < s.len(),
    ensures
        feeds_by_url(s).contains_key(s[i].url@),
        feeds_by_url(s)[s[i].url@] == s[i].feed@,
{
    let k = s[i].url@;
    assert(holds_url(s, k));
    let j = choose|j: int| 0 <= j < s.len() && (#[trigger] s[j]).url@ == k;
    if j != i {
        if j < i {
            assert(s[j].url@ != s[i].url@);
        } else {
            assert(s[i].url@ != s[j].url@);
        }
    }
}

proof fn lemma_feeds_update(s: Seq<StoredFeed>, i: int, x: StoredFeed)
    requires
        unique_urls(s),
        0 <= i < s.len(),
        x.url@ == s[i].url@,
    ensures
        unique_urls(s.update(i, x)),
        feeds_by_url(s.update(i, x)) == feeds_by_url(s).insert(x.url@, x.feed@),
{
    let t = s.update(i, x);
    assert forall|a: int, b: int| 0 <= a < b < t.len() implies (#[trigger] t[a]).url@ != (
    #[trigger] t[b]).url@ by {
        assert(s[a].url@ != s[b].url@);
    }
    let m = feeds_by_url(s).insert(x.url@, x.feed@);
    assert forall|k: Seq<char>| holds_url(t, k) <==> m.contains_key(k) by {
        if holds_url(t, k) {
            let j = choose|j: int| 0 <= j < t.len() && (#[trigger] t[j]).url@ == k;
            if j != i {
                assert(s[j].url@ == k);
            }
        }
        if holds_url(s, k) {
            let j = choose|j: int| 0 <= j < s.len() && (#[trigger] s[j]).url@ == k;
            if j == i {
                assert(t[i].url@ == k);
            } else {
                assert(t[j].url@ == k);
            }
        }
        if k == x.url@ {
            assert(t[i].url@ == k);
        }
    }
    assert forall|k: Seq<char>| #[trigger] m.contains_key(k) implies feeds_by_url(t)[k] == m[k] by {
        assert(holds_url(t, k));
        let j = choose|j: int| 0 <= j < t.len() && (#[trigger] t[j]).url@ == k;
        lemma_feed_at(t, j);
        if j != i {
            lemma_feed_at(s, j);
        }
    }
    assert(feeds_by_url(t) =~= m);
}

proof fn lemma_feeds_push(s: Seq<StoredFeed>, x: StoredFeed)
    requires
        unique_urls(s),
        !holds_url(s, x.url@),
    ensures
        unique_urls(s.push(x)),
        feeds_by_url(s.push(x)) == feeds_by_url(s).insert(x.url@, x.feed@),
{
    let t = s.push(x);
    let n = s.len() as int;
    assert forall|a: int, b: int| 0 <= a < b < t.len() implies (#[trigger] t[a]).url@ != (
    #[trigger] t[b]).url@ by {
        if b == n {
            assert(t[a] == s[a]);
        } else {
            assert(t[a] == s[a] && t[b] == s[b]);
        }
    }
    let m = feeds_by_url(s).insert(x.url@, x.feed@);
    assert forall|k: Seq<char>| holds_url(t, k) <==> m.contains_key(k) by {
        if holds_url(t, k) {
            let j = choose|j: int| 0 <= j < t.len() && (#[trigger] t[j]).url@ == k;
            if j != n {
                assert(s[j].url@ == k);
            }
        }
        if holds_url(s, k) {
            let j = choose|j: int| 0 <= j < s.len() && (#[trigger] s[j]).url@ == k;
            assert(t[j].url@ == k);
        }
        if k == x.url@ {
            assert(t[n].url@ == k);
        }
    }
    assert forall|k: Seq<char>| #[trigger] m.contains_key(k) implies feeds_by_url(t)[k] == m[k] by {
        assert(holds_url(t, k));
        let j = choose|j: int| 0 <= j < t.len() && (#[trigger] t[j]).url@ == k;
        lemma_feed_at(t, j);
        if j != n {
            assert(t[j] == s[j]);
            lemma_feed_at(s, j);
        }
    }
    assert(feeds_by_url(t) =~= m);
}

proof fn lemma_feeds_remove(s: Seq<StoredFeed>, i: int)
    requires
        unique_urls(s),
        0 <= i < s.len(),
    ensures
        unique_urls(s.remove(i)),
        feeds_by_url(s.remove(i)) == feeds_by_url(s).remove(s[i].url@),
{
    let t = s.remove(i);
    let g = s[i].url@;
    s.remove_ensures(i);
    assert forall|a: int, b: int| 0 <= a < b < t.len() implies (#[trigger] t[a]).url@ != (
    #[trigger] t[b]).url@ by {
        let a2 = if a < i { a } else { a + 1 };
        let b2 = if b < i { b } else { b + 1 };
        assert(t[a] == s[a2] && t[b] == s[b2] && a2 < b2);
    }
    let m = feeds_by_url(s).remove(g);
    assert forall|k: Seq<char>| holds_url(t, k) <==> m.contains_key(k) by {
        if holds_url(t, k) {
            let j = choose|j: int| 0 <= j < t.len() && (#[trigger] t[j]).url@ == k;
            let j2 = if j < i { j } else { j + 1 };
            assert(t[j] == s[j2]);
            if j2 < i {
                assert(s[j2].url@ != s[i].url@);
            } else {
                assert(s[i].url@ != s[j2].url@);
            }
        }
        if holds_url(s, k) && k != g {
            let j = choose|j: int| 0 <= j < s.len() && (#[trigger] s[j]).url@ == k;
            if j < i {
                assert(t[j] == s[j]);
            } else {
                assert(t[j - 1] == s[j]);
            }
        }
    }
    assert forall|k: Seq<char>| #[trigger] m.contains_key(k) implies feeds_by_url(t)[k] == m[k] by {
        assert(holds_url(t, k));
        let j = choose|j: int| 0 <= j < t.len() && (#[trigger] t[j]).url@ == k;
        let j2 = if j < i { j } else { j + 1 };
        assert(t[j] == s[j2]);
        lemma_feed_at(t, j);
        lemma_feed_at(s, j2);
    }
    assert(feeds_by_url(t) =~= m);
}

/// The first item of `items` with guid `g` is the one at `i`.
pub open spec fn first_with_guid(items: Seq<Item>, g: Seq<char>, i: int) -> bool {
    &&& 0 <= i < items.len()
    &&& items[i].guid@ == g
    &&& forall|j: int| 0 <= j < i ==> (#[trigger] items[j]).guid@ != g
}

/// Feed `f` with its item at `i` marked read.
pub open spec fn with_item_read(f: FeedView, i: int) -> FeedView {
    FeedView { title: f.title, last_updated: f.last_updated, items: f.items.update(i, f.items[i].as_read()) }
}

impl View for FeedStorage {
    type V = Map<Seq<char>, FeedView>;

    closed spec fn view(&self) -> Map<Seq<char>, FeedView> {
        feeds_by_url(self.feeds@)
    }
}

impl FeedStorage {
    #[verifier::type_invariant]
    closed spec fn urls_are_unique(self) -> bool {
        unique_urls(self.feeds@)
    }

    /// An empty store.
    pub fn new() -> (r: FeedStorage)
        ensures
            r@ == Map::<Seq<char>, FeedView>::empty(),
    {
        let r = FeedStorage { feeds: Vec::new() };
        assert(r@ =~= Map::<Seq<char>, FeedView>::empty());
        r
    }

    /// Where the feed stored under `url` is, if there is one.
    fn position(&self, url: &String) -> (r: Option<usize>)
        ensures
            match r {
                Some(i) => i < self.feeds@.len() && self.feeds@[i as int].url@ == url@
                    && self@.contains_key(url@) && self@[url@] == self.feeds@[i as int].feed@,
                None => !self@.contains_key(url@),
            },
    {
        proof {
            use_type_invariant(self);
        }
        let mut i: usize = 0;
        while i < self.feeds.len()
            invariant
                i <= self.feeds@.len(),
                unique_urls(self.feeds@),
                forall|j: int| 0 <= j < i ==> (#[trigger] self.feeds@[j]).url@ != url@,
            decreases self.feeds@.len() - i,
        {
            if self.feeds[i].url == *url {
                proof {
                    lemma_feed_at(self.feeds@, i as int);
                }
                return Some(i);
            }
            i = i + 1;
        }
        None
    }

    /// Whether a feed is stored under `url`.
    pub fn contains(&self, url: &String) -> (r: bool)
        ensures
            r == self@.contains_key(url@),
    {
        self.position(url).is_some()
    }

    /// First step of adding a feed: `Feed already exists` when a feed is
    /// stored under `url`, else the go-ahead to download it.
    pub fn begin_add(&self, url: &String) -> (r: Result<(), String>)
        ensures
            r is Ok <==> !self@.contains_key(url@),
            r matches Err(e) ==> e@ == "Feed already exists"@,
    {
        if self.contains(url) {
            Err("Feed already exists".to_owned())
        } else {
            Ok(())
        }
    }

    /// Stores `feed` under `url`, in place of any feed stored there.
    pub fn insert(&mut self, url: String, feed: Feed)
        ensures
            final(self)@ == old(self)@.insert(url@, feed@),
    {
        proof {
            use_type_invariant(&*self);
        }
        let x = StoredFeed { url, feed };
        let found = self.position(&x.url);
        let mut feeds: Vec<StoredFeed> = Vec::new();
        std::mem::swap(&mut feeds, &mut self.feeds);
        match found {
            Some(i) => {
                proof {
                    lemma_feeds_update(feeds@, i as int, x);
                }
                feeds.set(i, x);
            },
            None => {
                proof {
                    lemma_feeds_push(feeds@, x);
                }
                feeds.push(x);
            },
        }
        self.feeds = feeds;
    }

    /// Last step of adding a feed: a downloaded feed is stored under `url`
    /// and the answer is `Ok`; a failed download stores nothing and its error
    /// is the answer.
    pub fn finish_add(&mut self, url: String, downloaded: Result<Feed, String>) -> (r: Result<
        (),
        String,
    >)
        ensures
            match downloaded {
                Ok(f) => r is Ok && final(self)@ == old(self)@.insert(url@, f@),
                Err(e) => r == Err::<(), String>(e) && final(self)@ == old(self)@,
            },
    {
        match downloaded {
            Ok(feed) => {
                self.insert(url, feed);
                Ok(())
            },
            Err(e) => Err(e),
        }
    }

    /// Unsubscribes from the feed stored under `url`, if any.
    pub fn remove(&mut self, url: &String)
        ensures
            final(self)@ == old(self)@.remove(url@),
    {
        proof {
            use_type_invariant(&*self);
        }
        match self.position(url) {
            Some(i) => {
                proof {
                    lemma_feeds_remove(self.feeds@, i as int);
                }
                let mut feeds: Vec<StoredFeed> = Vec::new();
                std::mem::swap(&mut feeds, &mut self.feeds);
                feeds.remove(i);
                self.feeds = feeds;
            },
            None => {
                assert(self@.remove(url@) =~= self@);
            },
        }
    }

    /// A copy of the feed stored under `url`, or `Feed not found`.
    pub fn get(&self, url: &String) -> (r: Result<Feed, String>)
        ensures
            match r {
                Ok(f) => self@.contains_key(url@) && f@ == self@[url@],
                Err(e) => !self@.contains_key(url@) && e@ == "Feed not found"@,
            },
    {
        match self.position(url) {
            Some(i) => Ok(self.feeds[i].feed.duplicate()),
            None => Err("Feed not found".to_owned()),
        }
    }

    /// A summary of every stored feed, one per URL.
    pub fn list(&self) -> (r: Vec<FeedInfo>)
        ensures
            forall|i: int|
                0 <= i < r@.len() ==> self@.contains_key((#[trigger] r@[i]).url@)
                    && r@[i].title@ == self@[r@[i].url@].title
                    && r@[i].last_updated == self@[r@[i].url@].last_updated,
            forall|k: Seq<char>|
                #[trigger] self@.contains_key(k) ==> exists|i: int|
                    0 <= i < r@.len() && (#[trigger] r@[i]).url@ == k,
            forall|i: int, j: int| 0 <= i < j < r@.len() ==> (#[trigger] r@[i]).url@ != (#[trigger] r@[j]).url@,
    {
        proof {
            use_type_invariant(self);
        }
        let ghost s = self.feeds@;
        let mut r: Vec<FeedInfo> = Vec::new();
        let mut i: usize = 0;
        while i < self.feeds.len()
            invariant
                s == self.feeds@,
                unique_urls(s),
                i <= s.len(),
                r@.len() == i,
                forall|j: int|
                    0 <= j < i ==> (#[trigger] r@[j]).url@ == s[j].url@ && r@[j].title@
                        == s[j].feed.title@ && r@[j].last_updated == s[j].feed.last_updated,
            decreases s.len() - i,
        {
            let e = &self.feeds[i];
            r.push(
                FeedInfo {
                    url: e.url.clone(),
                    title: e.feed.title.clone(),
                    last_updated: e.feed.last_updated,
                },
            );
            i = i + 1;
        }
        proof {
            assert forall|j: int| 0 <= j < r@.len() implies self@.contains_key(
                (#[trigger] r@[j]).url@,
            ) && r@[j].title@ == self@[r@[j].url@].title && r@[j].last_updated
                == self@[r@[j].url@].last_updated by {
                lemma_feed_at(s, j);
            }
            assert forall|k: Seq<char>| #[trigger] self@.contains_key(k) implies exists|j: int|
                0 <= j < r@.len() && (#[trigger] r@[j]).url@ == k by {
                let j = choose|j: int| 0 <= j < s.len() && (#[trigger] s[j]).url@ == k;
                assert(r@[j].url@ == k);
            }
            assert forall|a: int, b: int| 0 <= a < b < r@.len() implies (#[trigger] r@[a]).url@ != (
            #[trigger] r@[b]).url@ by {
                assert(s[a].url@ != s[b].url@);
            }
        }
        r
    }

    /// Marks as read the first item with `guid` of the feed stored under
    /// `url`; says whether there was such an item.
    pub fn mark_read(&mut self, url: &String, guid: &String) -> (r: bool)
        ensures
            r == (old(self)@.contains_key(url@) && exists|i: int|
                first_with_guid(old(self)@[url@].items, guid@, i)),
            forall|i: int|
                r && #[trigger] first_with_guid(old(self)@[url@].items, guid@, i) ==> final(self)@
                    == old(self)@.insert(url@, with_item_read(old(self)@[url@], i)),
            forall|i: int|
                r && #[trigger] first_with_guid(old(self)@[url@].items, guid@, i) ==> {
                    let before = old(self)@[url@];
                    let after = final(self)@[url@];
                    &&& after.title == before.title
                    &&& after.last_updated == before.last_updated
                    &&& after.items.len() == before.items.len()
                    &&& forall|j: int|
                        0 <= j < before.items.len() && j != i ==> after.items[j] == before.items[j]
                    &&& after.items[i].title == before.items[i].title
                    &&& after.items[i].link == before.items[i].link
                    &&& after.items[i].content == before.items[i].content
                    &&& after.items[i].pub_date == before.items[i].pub_date
                    &&& after.items[i].guid == before.items[i].guid
                    &&& !after.items[i].unread
                },
            !r ==> final(self)@ == old(self)@,
    {
        proof {
            use_type_invariant(&*self);
        }
        let k = match self.position(url) {
            Some(k) => k,
            None => return false,
        };
        let ghost items = self.feeds@[k as int].feed.items@;
        let n = self.feeds[k].feed.items.len();
        let mut j: usize = 0;
        while j < n && !(self.feeds[k].feed.items[j].guid == *guid)
            invariant
                k < self.feeds@.len(),
                items == self.feeds@[k as int].feed.items@,
                n == items.len(),
                j <= n,
                forall|a: int| 0 <= a < j ==> (#[trigger] items[a]).guid@ != guid@,
            decreases n - j,
        {
            j = j + 1;
        }
        if j == n {
            return false;
        }
        proof {
            assert(first_with_guid(items, guid@, j as int));
            assert forall|i: int| #[trigger] first_with_guid(items, guid@, i) implies i == j by {
                if i < j {
                    assert(items[i].guid@ != guid@);
                } else if i > j {
                    assert(items[j as int].guid@ != guid@);
                }
            }
        }
        let mut feeds: Vec<StoredFeed> = Vec::new();
        std::mem::swap(&mut feeds, &mut self.feeds);
        let ghost before = feeds@;
        let mut entry = feeds.remove(k);
        let mut item = entry.feed.items.remove(j);
        item.unread = false;
        entry.feed.items.insert(j, item);
        proof {
            assert(entry.feed.items@ =~= items.update(j as int, items[j as int].as_read()));
            assert(entry.feed@ == with_item_read(before[k as int].feed@, j as int));
            lemma_feeds_update(before, k as int, entry);
        }
        feeds.insert(k, entry);
        proof {
            assert(feeds@ =~= before.update(k as int, entry));
        }
        self.feeds = feeds;
        true
    }

    /// Takes in a freshly downloaded version of the feed stored under `url`
    /// by merging it into the stored one (see `Feed::merge`); when no feed is
    /// stored there any more, nothing changes.
    pub fn refresh(&mut self, url: &String, feed: Feed)
        ensures
            !old(self)@.contains_key(url@) ==> final(self)@ == old(self)@,
            old(self)@.contains_key(url@) ==> {
                &&& final(self)@ == old(self)@.insert(url@, final(self)@[url@])
                &&& final(self)@[url@].title == feed.title@
                &&& final(self)@[url@].last_updated == feed.last_updated
                &&& sorted_by_date(final(self)@[url@].items)
                &&& lists_exactly(
                    final(self)@[url@].items,
                    merged_items(old(self)@[url@].items, feed.items@),
                )
            },
    {
        proof {
            use_type_invariant(&*self);
        }
        let k = match self.position(url) {
            Some(k) => k,
            None => return,
        };
        let mut feeds: Vec<StoredFeed> = Vec::new();
        std::mem::swap(&mut feeds, &mut self.feeds);
        let ghost before = feeds@;
        let mut entry = feeds.remove(k);
        entry.feed.merge(feed);
        proof {
            lemma_feeds_update(before, k as int, entry);
        }
        feeds.insert(k, entry);
        proof {
            assert(feeds@ =~= before.update(k as int, entry));
        }
        self.feeds = feeds;
    }
}

/// What a read gives back of a write: after a feed is stored under a URL,
/// the store holds that URL (a new subscription to it is refused) and
/// getting it gives back that feed; after a URL is unsubscribed, getting it
/// finds nothing.
pub proof fn law_get_after_store(m: Map<Seq<char>, FeedView>, url: Seq<char>, f: FeedView)
    ensures
        m.insert(url, f).contains_key(url),
        m.insert(url, f)[url] == f,
        !m.remove(url).contains_key(url),
{
}

/// Marking an item read changes its unread flag alone: the feed's title and
/// date, its other items, and the item's title, link, content, date and guid
/// stay as they were.
pub proof fn law_mark_read_changes_only_the_flag(f: FeedView, i: int)
    requires
        0 <= i < f.items.len(),
    ensures
        with_item_read(f, i).title == f.title,
        with_item_read(f, i).last_updated == f.last_updated,
        with_item_read(f, i).items.len() == f.items.len(),
        forall|j: int| 0 <= j < f.items.len() && j != i ==> with_item_read(f, i).items[j] == f.items[j],
        with_item_read(f, i).items[i].title == f.items[i].title,
        with_item_read(f, i).items[i].link == f.items[i].link,
        with_item_read(f, i).items[i].content == f.items[i].content,
        with_item_read(f, i).items[i].pub_date == f.items[i].pub_date,
        with_item_read(f, i).items[i].guid == f.items[i].guid,
        !with_item_read(f, i).items[i].unread,
{
}

/// Marking an item read a second time finds it again and changes nothing
/// more.
pub proof fn law_mark_read_twice(f: FeedView, g: Seq<char>, i: int)
    requires
        first_with_guid(f.items, g, i),
    ensures
        !with_item_read(f, i).items[i].unread,
        first_with_guid(with_item_read(f, i).items, g, i),
        with_item_read(with_item_read(f, i), i) == with_item_read(f, i),
{
    let h = with_item_read(f, i);
    assert forall|j: int| 0 <= j < i implies (#[trigger] h.items[j]).guid@ != g by {
        assert(h.items[j] == f.items[j]);
    }
    assert(h.items.update(i, h.items[i].as_read()) =~= h.items);
}

} // verus!

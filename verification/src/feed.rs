//! The server's feed model: items dated by instants, the merge of a freshly
//! downloaded feed into a stored one, and the reading of a feed from an RSS
//! channel.

use vstd::prelude::*;

use crate::channel::{read_channel, rss_channel, ChannelData, ChannelItem, ChannelItemModel, ChannelModel};
use crate::entries::{
    find_key, insert_by_date, last_wins, latest_by_key, lemma_last_wins_contents,
    lemma_last_wins_of_listing, lemma_lists_insert, lists_exactly, sorted_by_date, Entry,
};
use crate::text::{copy_text, opt_view};
use crate::timestamp::{opt_not_after, opt_ts_le, parse_rfc2822, rfc2822_instant, Timestamp};
use crate::utils::ErrString;

verus! {

/// An item of a feed, with whether the reader has yet to read it.
pub struct Item {
    pub title: Option<String>,
    pub link: Option<String>,
    pub content: Option<String>,
    pub pub_date: Option<Timestamp>,
    pub guid: String,
    pub unread: bool,
}

/// A feed: its title, when it was last updated, and its items.
pub struct Feed {
    pub title: String,
    pub last_updated: Timestamp,
    pub items: Vec<Item>,
}

/// What a `Feed` holds.
pub struct FeedView {
    pub title: Seq<char>,
    pub last_updated: Timestamp,
    pub items: Seq<Item>,
}

impl View for Feed {
    type V = FeedView;

    open spec fn view(&self) -> FeedView {
        FeedView { title: self.title@, last_updated: self.last_updated, items: self.items@ }
    }
}

impl Item {
    /// The same item, not yet read.
    pub open spec fn as_unread(self) -> Item {
        Item {
            title: self.title,
            link: self.link,
            content: self.content,
            pub_date: self.pub_date,
            guid: self.guid,
            unread: true,
        }
    }

    /// The same item, read.
    pub open spec fn as_read(self) -> Item {
        Item {
            title: self.title,
            link: self.link,
            content: self.content,
            pub_date: self.pub_date,
            guid: self.guid,
            unread: false,
        }
    }

    /// A copy of the item.
    pub fn duplicate(&self) -> (r: Item)
        ensures
            r == *self,
    {
        Item {
            title: copy_text(&self.title),
            link: copy_text(&self.link),
            content: copy_text(&self.content),
            pub_date: self.pub_date,
            guid: self.guid.clone(),
            unread: self.unread,
        }
    }

    /// A copy of the item, marked as not yet read.
    pub fn unread_copy(&self) -> (r: Item)
        ensures
            r == self.as_unread(),
            r.title == self.title,
            r.link == self.link,
            r.content == self.content,
            r.pub_date == self.pub_date,
            r.guid == self.guid,
            r.unread,
    {
        Item {
            title: copy_text(&self.title),
            link: copy_text(&self.link),
            content: copy_text(&self.content),
            pub_date: self.pub_date,
            guid: self.guid.clone(),
            unread: true,
        }
    }
}

impl Entry for Item {
    open spec fn key(self) -> Seq<char> {
        self.guid@
    }

    open spec fn date_le(self, other: Item) -> bool {
        opt_ts_le(self.pub_date, other.pub_date)
    }

    proof fn lemma_date_le_total(a: Item, b: Item) {
    }

    proof fn lemma_date_le_transitive(a: Item, b: Item, c: Item) {
    }

    fn key_ref(&self) -> (k: &String) {
        &self.guid
    }

    fn dated_no_later(&self, other: &Item) -> (r: bool) {
        opt_not_after(&self.pub_date, &other.pub_date)
    }

    fn duplicate(&self) -> (r: Item) {
        Item::duplicate(self)
    }
}

/// Adds to `m`, in order, each item of `incoming` whose guid `m` does not
/// hold yet, as unread; an item whose guid is already there changes nothing.
pub open spec fn add_unseen(m: Map<Seq<char>, Item>, incoming: Seq<Item>) -> Map<Seq<char>, Item>
    decreases incoming.len(),
{
    if incoming.len() == 0 {
        m
    } else {
        let before = add_unseen(m, incoming.drop_last());
        let x = incoming.last();
        if before.contains_key(x.guid@) {
            before
        } else {
            before.insert(x.guid@, x.as_unread())
        }
    }
}

/// The items, by guid, of a stored feed after `incoming` is merged into it:
/// every stored guid keeps its stored item (the last one with that guid),
/// and every other guid of `incoming` gets its first item there, as unread.
pub open spec fn merged_items(stored: Seq<Item>, incoming: Seq<Item>) -> Map<Seq<char>, Item> {
    add_unseen(last_wins(stored), incoming)
}

proof fn lemma_add_unseen_step(m: Map<Seq<char>, Item>, o: Seq<Item>, j: int)
    requires
        0 <= j < o.len(),
    ensures
        add_unseen(m, o.take(j + 1)) == (if add_unseen(m, o.take(j)).contains_key(o[j].guid@) {
            add_unseen(m, o.take(j))
        } else {
            add_unseen(m, o.take(j)).insert(o[j].guid@, o[j].as_unread())
        }),
{
    assert(o.take(j + 1).drop_last() =~= o.take(j));
}

impl Feed {
    /// Merges a freshly downloaded version of this feed into it: the title
    /// and the update date become those of `other`; the items become one per
    /// guid, in date order, where a stored item stays as it is (read or not)
    /// and an item new to this feed comes in as unread.
    pub fn merge(&mut self, other: Feed)
        ensures
            final(self).title == other.title,
            final(self).last_updated == other.last_updated,
            sorted_by_date(final(self).items@),
            lists_exactly(final(self).items@, merged_items(old(self).items@, other.items@)),
    {
        let mut out = latest_by_key(&self.items);
        let ghost m0 = last_wins(self.items@);
        let ghost o = other.items@;
        let mut j: usize = 0;
        proof {
            assert(o.take(0) =~= Seq::<Item>::empty());
        }
        while j < other.items.len()
            invariant
                o == other.items@,
                j <= o.len(),
                sorted_by_date(out@),
                lists_exactly(out@, add_unseen(m0, o.take(j as int))),
            decreases o.len() - j,
        {
            let ghost m = add_unseen(m0, o.take(j as int));
            proof {
                lemma_add_unseen_step(m0, o, j as int);
            }
            let it = &other.items[j];
            match find_key(&out, &it.guid) {
                Some(_) => {},
                None => {
                    proof {
                        if m.contains_key(it.guid@) {
                            let k = choose|k: int| 0 <= k < out@.len() && (#[trigger] out@[k]).key() == it.guid@;
                            assert(out@[k].key() != it.guid@);
                        }
                    }
                    let ghost before = out@;
                    let x = it.unread_copy();
                    let p = insert_by_date(&mut out, x);
                    proof {
                        lemma_lists_insert(before, m, p as int, x);
                    }
                },
            }
            j = j + 1;
        }
        proof {
            assert(o.take(o.len() as int) =~= o);
        }
        self.title = other.title;
        self.last_updated = other.last_updated;
        self.items = out;
    }

    /// A copy of the feed.
    pub fn duplicate(&self) -> (r: Feed)
        ensures
            r@ == self@,
    {
        let mut items: Vec<Item> = Vec::new();
        let mut i: usize = 0;
        while i < self.items.len()
            invariant
                i <= self.items@.len(),
                items@ == self.items@.take(i as int),
            decreases self.items@.len() - i,
        {
            items.push(self.items[i].duplicate());
            i = i + 1;
            proof {
                assert(items@ =~= self.items@.take(i as int));
            }
        }
        proof {
            assert(self.items@.take(self.items@.len() as int) =~= self.items@);
        }
        Feed { title: self.title.clone(), last_updated: self.last_updated, items }
    }
}

/// The instant of a channel item's publication date, as chrono reads it.
pub open spec fn pub_instant(date: Option<Seq<char>>) -> Option<Timestamp> {
    match date {
        Some(s) => rfc2822_instant(s),
        None => None,
    }
}

/// The channel's build date as chrono reads it, where the channel has one.
pub open spec fn build_instant(date: Option<Seq<char>>) -> Option<Option<Timestamp>> {
    match date {
        Some(s) => Some(rfc2822_instant(s)),
        None => None,
    }
}

/// `it` is the unread feed item made from channel item `ci`, dated `date`:
/// its guid, title and link are the channel item's, its content is the
/// item's content or else its description.
pub open spec fn item_from_model(it: Item, ci: ChannelItemModel, date: Option<Timestamp>) -> bool {
    &&& ci.guid == Some(it.guid@)
    &&& opt_view(it.title) == ci.title
    &&& opt_view(it.link) == ci.link
    &&& opt_view(it.content) == (if ci.content is Some {
        ci.content
    } else {
        ci.description
    })
    &&& it.pub_date == date
    &&& it.unread
}

/// The latest publication date among `items` (`Iterator::max` of their
/// optional dates), or `None` when there are no items.
pub open spec fn latest_pub_date(items: Seq<Item>) -> Option<Option<Timestamp>>
    decreases items.len(),
{
    if items.len() == 0 {
        None
    } else {
        let last = items.last().pub_date;
        match latest_pub_date(items.drop_last()) {
            None => Some(last),
            Some(d) => if opt_ts_le(d, last) {
                Some(last)
            } else {
                Some(d)
            },
        }
    }
}

/// `latest_pub_date` is a maximum: `None` exactly when there are no items,
/// and otherwise the date of one of the items, no item being dated later.
pub proof fn lemma_latest_pub_date_is_max(items: Seq<Item>)
    ensures
        items.len() == 0 <==> latest_pub_date(items) is None,
        latest_pub_date(items) matches Some(d) ==> {
            &&& exists|i: int| 0 <= i < items.len() && (#[trigger] items[i]).pub_date == d
            &&& forall|i: int| 0 <= i < items.len() ==> opt_ts_le((#[trigger] items[i]).pub_date, d)
        },
    decreases items.len(),
{
    if items.len() > 0 {
        let t = items.drop_last();
        let n = items.len() - 1;
        lemma_latest_pub_date_is_max(t);
        let d = latest_pub_date(items)->0;
        assert forall|i: int| 0 <= i < items.len() implies opt_ts_le((#[trigger] items[i]).pub_date, d) by {
            if i < n {
                assert(t[i] == items[i]);
            }
        }
        if d == items[n].pub_date {
            assert(items[n].pub_date == d);
        } else {
            let i = choose|i: int| 0 <= i < t.len() && (#[trigger] t[i]).pub_date == d;
            assert(items[i] == t[i]);
        }
    }
}

/// The update date of a feed without a build date is the date of one of its
/// items, and no item is dated later; with no dated item, it is the epoch.
pub proof fn law_update_date_is_latest(items: Seq<Item>)
    ensures
        update_date(None, items) == (Timestamp { secs: 0, nanos: 0 }) || exists|i: int|
            0 <= i < items.len() && (#[trigger] items[i]).pub_date == Some(update_date(None, items)),
        forall|i: int|
            0 <= i < items.len() ==> opt_ts_le(
                (#[trigger] items[i]).pub_date,
                Some(update_date(None, items)),
            ) || (forall|j: int| 0 <= j < items.len() ==> (#[trigger] items[j]).pub_date is None),
{
    lemma_latest_pub_date_is_max(items);
}

/// When a feed read from a channel was last updated: the channel's build
/// date where it has one (the epoch where it cannot be read), else the
/// latest publication date among the items, else the epoch.
pub open spec fn update_date(build: Option<Option<Timestamp>>, items: Seq<Item>) -> Timestamp {
    match build {
        Some(Some(t)) => t,
        Some(None) => Timestamp { secs: 0, nanos: 0 },
        None => match latest_pub_date(items) {
            Some(Some(t)) => t,
            _ => Timestamp { secs: 0, nanos: 0 },
        },
    }
}

/// Every item of the channel has a guid.
pub open spec fn has_guids(c: ChannelModel) -> bool {
    forall|i: int| 0 <= i < c.items.len() ==> (#[trigger] c.items[i]).guid is Some
}

/// `f` is the feed read from channel `c`: the channel's title, one item per
/// channel item in the same order, and the update date from `update_date`.
pub open spec fn feed_from_model(f: Feed, c: ChannelModel) -> bool {
    &&& f.title@ == c.title
    &&& f.items@.len() == c.items.len()
    &&& forall|i: int|
        0 <= i < c.items.len() ==> item_from_model(
            #[trigger] f.items@[i],
            c.items[i],
            pub_instant(c.items[i].pub_date),
        )
    &&& f.last_updated == update_date(build_instant(c.last_build_date), f.items@)
}

/// The outcome of reading a feed from channel `c`: the feed, or the error
/// `broken channel` when an item has no guid.
pub open spec fn read_feed_result(r: Result<Feed, String>, c: ChannelModel) -> bool {
    if has_guids(c) {
        r matches Ok(f) && feed_from_model(f, c)
    } else {
        r matches Err(e) && e@ == "broken channel"@
    }
}

/// Each item of a feed read from a channel is the channel item at the same
/// place: the same guid, title and link, its content or else its
/// description, unread, and dated by chrono's reading of its publication
/// date, with no date where the channel item has none.
pub proof fn law_items_from_channel(f: Feed, c: ChannelModel, i: int)
    requires
        feed_from_model(f, c),
        0 <= i < c.items.len(),
    ensures
        c.items[i].guid == Some(f.items@[i].guid@),
        opt_view(f.items@[i].title) == c.items[i].title,
        opt_view(f.items@[i].link) == c.items[i].link,
        c.items[i].content is Some ==> opt_view(f.items@[i].content) == c.items[i].content,
        c.items[i].content is None ==> opt_view(f.items@[i].content) == c.items[i].description,
        c.items[i].pub_date is None ==> f.items@[i].pub_date is None,
        c.items[i].pub_date matches Some(s) ==> f.items@[i].pub_date == rfc2822_instant(s),
        f.items@[i].unread,
{
    assert(item_from_model(f.items@[i], c.items[i], pub_instant(c.items[i].pub_date)));
}

/// The latest publication date among `items`.
pub fn latest_date(items: &Vec<Item>) -> (r: Option<Option<Timestamp>>)
    ensures
        r == latest_pub_date(items@),
{
    let mut best: Option<Option<Timestamp>> = None;
    let mut i: usize = 0;
    while i < items.len()
        invariant
            i <= items@.len(),
            best == latest_pub_date(items@.take(i as int)),
        decreases items@.len() - i,
    {
        proof {
            assert(items@.take(i + 1).drop_last() =~= items@.take(i as int));
        }
        let d = items[i].pub_date;
        best = match best {
            None => Some(d),
            Some(b) => if opt_not_after(&b, &d) {
                Some(d)
            } else {
                Some(b)
            },
        };
        i = i + 1;
    }
    proof {
        assert(items@.take(items@.len() as int) =~= items@);
    }
    best
}

/// When a feed read from a channel was last updated, given the channel's
/// build date as chrono read it (`None` where the channel has none) and the
/// feed's items.
pub fn last_updated_of(build: Option<Option<Timestamp>>, items: &Vec<Item>) -> (r: Timestamp)
    ensures
        r == update_date(build, items@),
{
    match build {
        Some(parsed) => match parsed {
            Some(t) => t,
            None => Timestamp::epoch(),
        },
        None => match latest_date(items) {
            Some(Some(t)) => t,
            _ => Timestamp::epoch(),
        },
    }
}

/// The feed item made from a channel item with the given publication date:
/// `broken channel` when the channel item has no guid.
pub fn item_from_channel(ci: &ChannelItem, pub_date: Option<Timestamp>) -> (r: Result<Item, String>)
    ensures
        match ci.guid {
            Some(_) => r matches Ok(it) && item_from_model(it, ci@, pub_date),
            None => r matches Err(e) && e@ == "broken channel"@,
        },
{
    let guid = copy_text(&ci.guid).or_err("broken channel")?;
    let content = match &ci.content {
        Some(c) => Some(c.clone()),
        None => copy_text(&ci.description),
    };
    Ok(Item {
        title: copy_text(&ci.title),
        link: copy_text(&ci.link),
        content,
        pub_date,
        guid,
        unread: true,
    })
}

/// Reads a feed from a channel: the channel's title, its items (dated by
/// chrono's reading of their publication dates) and its update date.
pub fn feed_from_channel(channel: &ChannelData) -> (r: Result<Feed, String>)
    ensures
        read_feed_result(r, channel@),
        r matches Ok(f) ==> forall|i: int|
            0 <= i < channel.items@.len() ==> match (#[trigger] channel.items@[i]).pub_date {
                None => f.items@[i].pub_date is None,
                Some(s) => f.items@[i].pub_date == rfc2822_instant(s@),
            },
{
    let ghost c = channel@;
    let mut items: Vec<Item> = Vec::new();
    let mut i: usize = 0;
    while i < channel.items.len()
        invariant
            c == channel@,
            i <= channel.items@.len(),
            items@.len() == i,
            forall|k: int| 0 <= k < i ==> (#[trigger] c.items[k]).guid is Some,
            forall|k: int|
                0 <= k < i ==> item_from_model(
                    #[trigger] items@[k],
                    c.items[k],
                    pub_instant(c.items[k].pub_date),
                ),
        decreases channel.items@.len() - i,
    {
        let ci = &channel.items[i];
        assert(c.items[i as int] == ci@);
        let date = match &ci.pub_date {
            Some(s) => parse_rfc2822(s.as_str()),
            None => None,
        };
        let item = item_from_channel(ci, date)?;
        items.push(item);
        i = i + 1;
    }
    let build = match &channel.last_build_date {
        Some(s) => Some(parse_rfc2822(s.as_str())),
        None => None,
    };
    let last_updated = last_updated_of(build, &items);
    Ok(Feed { title: channel.title.clone(), last_updated, items })
}

/// Reads a feed from a downloaded RSS document; a document that the `rss`
/// crate cannot read gives `Channel not downloaded: <its error>`.
pub fn download_feed(document: &[u8]) -> (r: Result<Feed, String>)
    ensures
        match rss_channel(document@) {
            Ok(c) => read_feed_result(r, c),
            Err(e) => r matches Err(m) && m@ == "Channel not downloaded"@ + ": "@ + e,
        },
{
    let channel = read_channel(document).or_err("Channel not downloaded")?;
    feed_from_channel(&channel)
}

/// `add_unseen` only ever adds keys: what `before` holds, the map after one
/// more incoming item still holds, with the same entry.
proof fn lemma_add_unseen_step_keeps(m: Map<Seq<char>, Item>, o: Seq<Item>, k: Seq<char>)
    requires
        o.len() > 0,
        add_unseen(m, o.drop_last()).contains_key(k),
    ensures
        add_unseen(m, o).contains_key(k),
        add_unseen(m, o)[k] == add_unseen(m, o.drop_last())[k],
{
}

/// `add_unseen` keeps every entry of `m`.
pub proof fn lemma_add_unseen_keeps(m: Map<Seq<char>, Item>, o: Seq<Item>, k: Seq<char>)
    requires
        m.contains_key(k),
    ensures
        add_unseen(m, o).contains_key(k),
        add_unseen(m, o)[k] == m[k],
    decreases o.len(),
{
    if o.len() > 0 {
        lemma_add_unseen_keeps(m, o.drop_last(), k);
        lemma_add_unseen_step_keeps(m, o, k);
    }
}

/// `add_unseen` holds the guid of every incoming item.
pub proof fn lemma_add_unseen_covers(m: Map<Seq<char>, Item>, o: Seq<Item>, j: int)
    requires
        0 <= j < o.len(),
    ensures
        add_unseen(m, o).contains_key(o[j].guid@),
    decreases o.len(),
{
    let t = o.drop_last();
    if j < o.len() - 1 {
        assert(t[j] == o[j]);
        lemma_add_unseen_covers(m, t, j);
        lemma_add_unseen_step_keeps(m, o, o[j].guid@);
    }
}

/// `add_unseen` holds no key but those of `m` and of the incoming items.
pub proof fn lemma_add_unseen_only(m: Map<Seq<char>, Item>, o: Seq<Item>, k: Seq<char>)
    requires
        add_unseen(m, o).contains_key(k),
        !m.contains_key(k),
    ensures
        exists|j: int| 0 <= j < o.len() && (#[trigger] o[j]).guid@ == k,
    decreases o.len(),
{
    let t = o.drop_last();
    let n = o.len() - 1;
    if o.len() > 0 {
        if k == o[n].guid@ {
            assert(o[n].guid@ == k);
        } else {
            assert(add_unseen(m, t).contains_key(k));
            lemma_add_unseen_only(m, t, k);
            let j = choose|j: int| 0 <= j < t.len() && (#[trigger] t[j]).guid@ == k;
            assert(o[j] == t[j]);
        }
    }
}

/// `add_unseen` gives a guid new to `m` the first incoming item with it, as
/// unread.
pub proof fn lemma_add_unseen_first(m: Map<Seq<char>, Item>, o: Seq<Item>, j: int)
    requires
        0 <= j < o.len(),
        !m.contains_key(o[j].guid@),
        forall|i: int| 0 <= i < j ==> (#[trigger] o[i]).guid@ != o[j].guid@,
    ensures
        add_unseen(m, o)[o[j].guid@] == o[j].as_unread(),
    decreases o.len(),
{
    let t = o.drop_last();
    let n = o.len() - 1;
    if j < n {
        assert(t[j] == o[j]);
        assert forall|i: int| 0 <= i < j implies (#[trigger] t[i]).guid@ != t[j].guid@ by {
            assert(t[i] == o[i]);
        }
        lemma_add_unseen_first(m, t, j);
        lemma_add_unseen_covers(m, t, j);
        lemma_add_unseen_step_keeps(m, o, o[j].guid@);
    } else if add_unseen(m, t).contains_key(o[n].guid@) {
        lemma_add_unseen_only(m, t, o[n].guid@);
        let i = choose|i: int| 0 <= i < t.len() && (#[trigger] t[i]).guid@ == o[n].guid@;
        assert(o[i] == t[i]);
    }
}

/// `add_unseen` changes nothing when every incoming guid is already held.
pub proof fn lemma_add_unseen_nothing_new(a: Map<Seq<char>, Item>, o: Seq<Item>)
    requires
        forall|j: int| 0 <= j < o.len() ==> a.contains_key((#[trigger] o[j]).guid@),
    ensures
        add_unseen(a, o) == a,
    decreases o.len(),
{
    if o.len() > 0 {
        let t = o.drop_last();
        assert forall|j: int| 0 <= j < t.len() implies a.contains_key((#[trigger] t[j]).guid@) by {
            assert(t[j] == o[j]);
        }
        lemma_add_unseen_nothing_new(a, t);
        assert(a.contains_key(o[o.len() - 1].guid@));
    }
}

/// A merge holds every guid of the stored items and of the incoming ones,
/// and no other.
pub proof fn law_merge_keys(stored: Seq<Item>, incoming: Seq<Item>)
    ensures
        forall|k: Seq<char>|
            #[trigger] merged_items(stored, incoming).contains_key(k) <==> (exists|i: int|
                0 <= i < stored.len() && (#[trigger] stored[i]).guid@ == k) || (exists|j: int|
                0 <= j < incoming.len() && (#[trigger] incoming[j]).guid@ == k),
{
    let m = last_wins(stored);
    assert forall|k: Seq<char>|
        #[trigger] merged_items(stored, incoming).contains_key(k) <==> (exists|i: int|
            0 <= i < stored.len() && (#[trigger] stored[i]).guid@ == k) || (exists|j: int|
            0 <= j < incoming.len() && (#[trigger] incoming[j]).guid@ == k) by {
        lemma_last_wins_contents(stored);
        if exists|i: int| 0 <= i < stored.len() && (#[trigger] stored[i]).guid@ == k {
            let i = choose|i: int| 0 <= i < stored.len() && (#[trigger] stored[i]).guid@ == k;
            assert(stored[i].key() == k);
            assert(m.contains_key(k));
            lemma_add_unseen_keeps(m, incoming, k);
        }
        if m.contains_key(k) {
            let i = choose|i: int| 0 <= i < stored.len() && (#[trigger] stored[i]).key() == k;
            assert(stored[i].guid@ == k);
        } else if merged_items(stored, incoming).contains_key(k) {
            lemma_add_unseen_only(m, incoming, k);
        }
        if exists|j: int| 0 <= j < incoming.len() && (#[trigger] incoming[j]).guid@ == k {
            let j = choose|j: int| 0 <= j < incoming.len() && (#[trigger] incoming[j]).guid@ == k;
            lemma_add_unseen_covers(m, incoming, j);
        }
    }
}

/// A merge keeps, under each stored guid, the last stored item with it, read
/// or not.
pub proof fn law_merge_keeps_stored(stored: Seq<Item>, incoming: Seq<Item>, i: int)
    requires
        0 <= i < stored.len(),
        forall|j: int| i < j < stored.len() ==> (#[trigger] stored[j]).guid@ != stored[i].guid@,
    ensures
        merged_items(stored, incoming).contains_key(stored[i].guid@),
        merged_items(stored, incoming)[stored[i].guid@] == stored[i],
{
    let m = last_wins(stored);
    lemma_last_wins_contents(stored);
    assert forall|j: int| i < j < stored.len() implies (#[trigger] stored[j]).key() != stored[i].key() by {
        assert(stored[j].guid@ != stored[i].guid@);
    }
    assert(m.contains_key(stored[i].key()));
    assert(m[stored[i].key()] == stored[i]);
    lemma_add_unseen_keeps(m, incoming, stored[i].guid@);
}

/// A merge gives a guid new to the feed the first incoming item with it, as
/// unread.
pub proof fn law_merge_adds_unread(stored: Seq<Item>, incoming: Seq<Item>, j: int)
    requires
        0 <= j < incoming.len(),
        forall|i: int| 0 <= i < stored.len() ==> (#[trigger] stored[i]).guid@ != incoming[j].guid@,
        forall|i: int| 0 <= i < j ==> (#[trigger] incoming[i]).guid@ != incoming[j].guid@,
    ensures
        merged_items(stored, incoming).contains_key(incoming[j].guid@),
        merged_items(stored, incoming)[incoming[j].guid@] == incoming[j].as_unread(),
        merged_items(stored, incoming)[incoming[j].guid@].title == incoming[j].title,
        merged_items(stored, incoming)[incoming[j].guid@].link == incoming[j].link,
        merged_items(stored, incoming)[incoming[j].guid@].content == incoming[j].content,
        merged_items(stored, incoming)[incoming[j].guid@].pub_date == incoming[j].pub_date,
        merged_items(stored, incoming)[incoming[j].guid@].guid == incoming[j].guid,
        merged_items(stored, incoming)[incoming[j].guid@].unread,
{
    let m = last_wins(stored);
    lemma_last_wins_contents(stored);
    if m.contains_key(incoming[j].guid@) {
        let i = choose|i: int| 0 <= i < stored.len() && (#[trigger] stored[i]).key() == incoming[j].guid@;
        assert(stored[i].guid@ != incoming[j].guid@);
    }
    lemma_add_unseen_covers(m, incoming, j);
    lemma_add_unseen_first(m, incoming, j);
}

/// Merging the same download a second time changes no item: the items
/// after the second merge are, by guid, those after the first.
pub proof fn law_merge_twice(stored: Seq<Item>, incoming: Seq<Item>, once: Seq<Item>)
    requires
        lists_exactly(once, merged_items(stored, incoming)),
    ensures
        merged_items(once, incoming) == merged_items(stored, incoming),
{
    let m = merged_items(stored, incoming);
    lemma_last_wins_of_listing(once, m);
    assert forall|j: int| 0 <= j < incoming.len() implies m.contains_key((#[trigger] incoming[j]).guid@) by {
        lemma_add_unseen_covers(last_wins(stored), incoming, j);
    }
    lemma_add_unseen_nothing_new(m, incoming);
}

} // verus!

//! The browser client's feed model, where dates are kept as the channel
//! writes them, and the refresh of a stored feed from a downloaded channel.

use vstd::prelude::*;

use crate::channel::{read_channel, rss_channel, ChannelData, ChannelModel};
use crate::entries::{
    last_wins, latest_by_key, lemma_last_wins_contents, lemma_last_wins_of_listing,
    lemma_last_wins_value, lists_exactly, sorted_by_date, Entry,
};
use crate::text::{
    copy_text, lemma_opt_text_le_total, lemma_opt_text_le_transitive, opt_text_le,
    opt_text_no_later,
};
use crate::utils::ErrString;
use vstd::utf8::encode_utf8;

verus! {

/// An item of a feed, with its publication date as written in the channel,
/// and whether the reader has yet to read it.
pub struct Item {
    pub title: Option<String>,
    pub link: Option<String>,
    pub content: Option<String>,
    pub pub_date: Option<String>,
    pub guid: String,
    pub unread: bool,
}

/// A feed: its title, its last build date as written in the channel, and
/// its items.
pub struct Feed {
    pub title: String,
    pub last_updated: String,
    pub items: Vec<Item>,
}

impl Item {
    /// A copy of the item.
    pub fn duplicate(&self) -> (r: Item)
        ensures
            r == *self,
    {
        Item {
            title: copy_text(&self.title),
            link: copy_text(&self.link),
            content: copy_text(&self.content),
            pub_date: copy_text(&self.pub_date),
            guid: self.guid.clone(),
            unread: self.unread,
        }
    }
}

impl Entry for Item {
    open spec fn key(self) -> Seq<char> {
        self.guid@
    }

    /// Items are ordered by their dates as texts (an absent date first).
    open spec fn date_le(self, other: Item) -> bool {
        opt_text_le(self.pub_date, other.pub_date)
    }

    proof fn lemma_date_le_total(a: Item, b: Item) {
        lemma_opt_text_le_total(a.pub_date, b.pub_date);
    }

    proof fn lemma_date_le_transitive(a: Item, b: Item, c: Item) {
        lemma_opt_text_le_transitive(a.pub_date, b.pub_date, c.pub_date);
    }

    fn key_ref(&self) -> (k: &String) {
        &self.guid
    }

    fn dated_no_later(&self, other: &Item) -> (r: bool) {
        opt_text_no_later(&self.pub_date, &other.pub_date)
    }

    fn duplicate(&self) -> (r: Item) {
        Item::duplicate(self)
    }
}

/// `r` is the stored feed refreshed from channel `c`: the channel's title
/// and build date, and the stored items one per guid (the last stored item
/// with that guid) in date order; `Incorrect feed` when the channel has no
/// build date.
pub open spec fn refreshed(r: Result<Feed, String>, stored: Seq<Item>, c: ChannelModel) -> bool {
    match c.last_build_date {
        Some(d) => r matches Ok(f) && {
            &&& f.title@ == c.title
            &&& f.last_updated@ == d
            &&& sorted_by_date(f.items@)
            &&& lists_exactly(f.items@, last_wins(stored))
        },
        None => r matches Err(e) && e@ == "Incorrect feed"@,
    }
}

/// The feed the client refreshes: the one stored, or an empty feed where
/// nothing readable is stored.
pub fn stored_or_empty(stored: Option<Feed>) -> (r: Feed)
    ensures
        match stored {
            Some(f) => r == f,
            None => r.title@ == Seq::<char>::empty() && r.last_updated@ == Seq::<char>::empty()
                && r.items@ == Seq::<Item>::empty(),
        },
{
    match stored {
        Some(f) => f,
        None => Feed { title: String::new(), last_updated: String::new(), items: Vec::new() },
    }
}

/// Refreshes a stored feed from a downloaded channel.
pub fn apply_channel(stored: Feed, channel: &ChannelData) -> (r: Result<Feed, String>)
    ensures
        refreshed(r, stored.items@, channel@),
        r matches Ok(f) ==> forall|k: int|
            0 <= k < f.items@.len() ==> exists|i: int|
                0 <= i < stored.items@.len() && #[trigger] f.items@[k] == stored.items@[i],
        r matches Ok(f) ==> forall|i: int|
            #![trigger stored.items@[i]]
            0 <= i < stored.items@.len() && (forall|j: int|
                i < j < stored.items@.len() ==> (#[trigger] stored.items@[j]).guid@
                    != stored.items@[i].guid@) ==> exists|k: int|
                0 <= k < f.items@.len() && #[trigger] f.items@[k] == stored.items@[i],
{
    let last_updated = copy_text(&channel.last_build_date).or_err("Incorrect feed")?;
    let items = latest_by_key(&stored.items);
    let r = Feed { title: channel.title.clone(), last_updated, items };
    proof {
        law_refresh_keeps_stored_items(r.items@, stored.items@);
    }
    Ok(r)
}

/// Refreshes a stored feed from the text of its RSS channel; a text that the
/// `rss` crate cannot read gives the crate's error message.
pub fn update_feed(channel_text: &str, stored: Feed) -> (r: Result<Feed, String>)
    ensures
        match rss_channel(encode_utf8(channel_text@)) {
            Ok(c) => refreshed(r, stored.items@, c),
            Err(e) => r matches Err(m) && m@ == e,
        },
{
    let channel = read_channel(channel_text.as_bytes())?;
    apply_channel(stored, &channel)
}

/// A refresh keeps the stored items unchanged: every refreshed item is one
/// of the stored items, all fields equal, and the last stored item with each
/// guid is among the refreshed ones.
pub proof fn law_refresh_keeps_stored_items(refreshed_items: Seq<Item>, stored: Seq<Item>)
    requires
        lists_exactly(refreshed_items, last_wins(stored)),
    ensures
        forall|k: int|
            0 <= k < refreshed_items.len() ==> exists|i: int|
                0 <= i < stored.len() && #[trigger] refreshed_items[k] == stored[i],
        forall|i: int|
            #![trigger stored[i]]
            0 <= i < stored.len() && (forall|j: int|
                i < j < stored.len() ==> (#[trigger] stored[j]).guid@ != stored[i].guid@)
                ==> exists|k: int| 0 <= k < refreshed_items.len() && #[trigger] refreshed_items[k] == stored[i],
{
    let m = last_wins(stored);
    lemma_last_wins_contents(stored);
    assert forall|k: int| 0 <= k < refreshed_items.len() implies exists|i: int|
        0 <= i < stored.len() && #[trigger] refreshed_items[k] == stored[i] by {
        let g = refreshed_items[k].key();
        assert(m.contains_key(g));
        lemma_last_wins_value(stored, g);
    }
    assert forall|i: int|
        #![trigger stored[i]]
        0 <= i < stored.len() && (forall|j: int|
            i < j < stored.len() ==> (#[trigger] stored[j]).guid@ != stored[i].guid@)
        implies exists|k: int| 0 <= k < refreshed_items.len() && #[trigger] refreshed_items[k] == stored[i] by {
        assert forall|j: int| i < j < stored.len() implies (#[trigger] stored[j]).key() != stored[i].key() by {
            assert(stored[j].guid@ != stored[i].guid@);
        }
        let g = stored[i].key();
        assert(m.contains_key(g));
        let k = choose|k: int| 0 <= k < refreshed_items.len() && (#[trigger] refreshed_items[k]).key() == g;
        assert(refreshed_items[k] == m[g]);
    }
}

/// Refreshing a feed a second time from the same channel changes no item:
/// the items after the second refresh are, by guid, those after the first.
pub proof fn law_refresh_twice(stored: Seq<Item>, once: Seq<Item>)
    requires
        lists_exactly(once, last_wins(stored)),
    ensures
        last_wins(once) == last_wins(stored),
{
    lemma_last_wins_of_listing(once, last_wins(stored));
}

} // verus!

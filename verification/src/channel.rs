//! An RSS channel as plain values: the parts of a channel that the reader
//! reads, as the `rss` crate hands them out.

use vstd::prelude::*;

use crate::text::opt_view;

verus! {

/// One `<item>` of a channel.
pub struct ChannelItem {
    /// The value of the item's `<guid>`, if it has one.
    pub guid: Option<String>,
    pub title: Option<String>,
    pub link: Option<String>,
    pub content: Option<String>,
    pub description: Option<String>,
    /// The item's `<pubDate>` as written in the channel.
    pub pub_date: Option<String>,
}

/// A channel: its title, its `<lastBuildDate>` as written, and its items in
/// document order.
pub struct ChannelData {
    pub title: String,
    pub last_build_date: Option<String>,
    pub items: Vec<ChannelItem>,
}

/// What a `ChannelItem` holds, as characters.
pub struct ChannelItemModel {
    pub guid: Option<Seq<char>>,
    pub title: Option<Seq<char>>,
    pub link: Option<Seq<char>>,
    pub content: Option<Seq<char>>,
    pub description: Option<Seq<char>>,
    pub pub_date: Option<Seq<char>>,
}

/// What a `ChannelData` holds, as characters.
pub struct ChannelModel {
    pub title: Seq<char>,
    pub last_build_date: Option<Seq<char>>,
    pub items: Seq<ChannelItemModel>,
}

impl View for ChannelItem {
    type V = ChannelItemModel;

    open spec fn view(&self) -> ChannelItemModel {
        ChannelItemModel {
            guid: opt_view(self.guid),
            title: opt_view(self.title),
            link: opt_view(self.link),
            content: opt_view(self.content),
            description: opt_view(self.description),
            pub_date: opt_view(self.pub_date),
        }
    }
}

impl View for ChannelData {
    type V = ChannelModel;

    open spec fn view(&self) -> ChannelModel {
        ChannelModel {
            title: self.title@,
            last_build_date: opt_view(self.last_build_date),
            items: self.items@.map_values(|i: ChannelItem| i@),
        }
    }
}

/// The channel that `rss::Channel::read_from` reads from a document (its
/// bytes), or the message (`to_string`) of the error it reports. It depends
/// on the document alone.
pub uninterp spec fn rss_channel(document: Seq<u8>) -> Result<ChannelModel, Seq<char>>;

/// The model of a read: the channel's model, or the error message.
pub open spec fn read_model(r: Result<ChannelData, String>) -> Result<ChannelModel, Seq<char>> {
    match r {
        Ok(c) => Ok(c@),
        Err(e) => Err(e@),
    }
}

/// Reads a channel with `rss::Channel::read_from` from a document and copies out what the reader uses of it: the title, the last build
/// date, and of each item its guid value, title, link, content, description
/// and publication date (the accessors of `rss::Channel`, `rss::Item` and
/// `rss::Guid`). The contract claims only that the result is `rss_channel`
/// of the document: which documents the crate accepts, and what it reads
/// from them, are not stated here.
#[verifier::external_body]
pub(crate) fn read_channel(document: &[u8]) -> (r: Result<ChannelData, String>)
    ensures
        read_model(r) == rss_channel(document@),
{
    let c = rss::Channel::read_from(document).map_err(|e| e.to_string())?;
    let owned = |o: Option<&str>| o.map(String::from);
    let items = c.items().iter().map(|i| ChannelItem {
        guid: owned(i.guid().map(|g| g.value())),
        title: owned(i.title()),
        link: owned(i.link()),
        content: owned(i.content()),
        description: owned(i.description()),
        pub_date: owned(i.pub_date()),
    });
    let title = c.title().to_string();
    Ok(ChannelData { title, last_build_date: owned(c.last_build_date()), items: items.collect() })
}

} // verus!

//! Verified core of a small RSS reader: the feed model, the rules by which a
//! refreshed channel is merged into a stored feed, the in-memory feed store,
//! and the refresh cycle that keeps it up to date.

pub mod channel;
pub mod client;
pub mod entries;
pub mod feed;
pub mod refresh;
pub mod storage;
pub mod text;
pub mod timestamp;
pub mod utils;

pub use client::{update_feed, Feed, Item};

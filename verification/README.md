# rssreader

A small RSS reader: a server that keeps subscribed feeds, refreshes them every
minute and serves them over HTTP, and a browser client that refreshes a feed
kept in local storage.

- `src/` is the verified library (Verus):
  - `entries` — date-ordered lists with one entry per guid, and the
    last-wins deduplication both feed models share;
  - `feed` — the server's feed model, `Feed::merge`, and the reading of a
    feed from an RSS document (`download_feed`);
  - `client` — the browser client's feed model and `update_feed`;
  - `storage` — the store of subscribed feeds and the requests it answers;
  - `refresh` — the periodic refresh as events and actions;
  - `channel`, `timestamp`, `text`, `utils` — channel data as read by the
    `rss` crate, instants read by `chrono`, the order of texts, error messages.
- `app/` is the unverified program around it: the actix actors and HTTP
  handlers, the HTTP download of channels, the JSON forms of the types, and
  the browser export.
- `tests/` runs the library on concrete feeds.

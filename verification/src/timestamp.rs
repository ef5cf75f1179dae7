use vstd::prelude::*;

verus! {

/// An instant in UTC: whole seconds since the Unix epoch and the nanoseconds
/// past that second (at or above one billion during a leap second).
#[derive(Clone, Copy, Debug, PartialEq, Eq, Structural)]
pub struct Timestamp {
    pub secs: i64,
    pub nanos: u32,
}

/// Chronological order of two instants: by second, then by nanosecond.
pub open spec fn ts_le(a: Timestamp, b: Timestamp) -> bool {
    a.secs < b.secs || (a.secs == b.secs && a.nanos <= b.nanos)
}

/// Order of optional dates as `Option`'s own order: an absent date comes
/// before every present one.
pub open spec fn opt_ts_le(a: Option<Timestamp>, b: Option<Timestamp>) -> bool {
    match (a, b) {
        (None, _) => true,
        (Some(_), None) => false,
        (Some(x), Some(y)) => ts_le(x, y),
    }
}

impl Timestamp {
    /// The Unix epoch, the date a feed falls back to when it has none.
    pub fn epoch() -> (t: Timestamp)
        ensures
            t == (Timestamp { secs: 0, nanos: 0 }),
    {
        Timestamp { secs: 0, nanos: 0 }
    }

    /// `self` is not later than `other`.
    pub fn not_after(&self, other: &Timestamp) -> (r: bool)
        ensures
            r == ts_le(*self, *other),
    {
        self.secs < other.secs || (self.secs == other.secs && self.nanos <= other.nanos)
    }
}

/// Exec form of `opt_ts_le`.
pub fn opt_not_after(a: &Option<Timestamp>, b: &Option<Timestamp>) -> (r: bool)
    ensures
        r == opt_ts_le(*a, *b),
{
    match (a, b) {
        (None, _) => true,
        (Some(_), None) => false,
        (Some(x), Some(y)) => x.not_after(y),
    }
}

/// The instant that `chrono::DateTime::parse_from_rfc2822` reads from a
/// text, in UTC, or `None` where chrono rejects the text. It depends on the
/// text alone.
pub uninterp spec fn rfc2822_instant(text: Seq<char>) -> Option<Timestamp>;

/// Parses an RFC 2822 date with `chrono::DateTime::parse_from_rfc2822` and
/// reads the instant it denotes as seconds and nanoseconds since the epoch in
/// UTC (chrono's `timestamp` and `timestamp_subsec_nanos`). The contract
/// claims only that the result is `rfc2822_instant` of the text: which texts
/// chrono accepts and what instant it reads are not stated here.
#[verifier::external_body]
pub(crate) fn parse_rfc2822(text: &str) -> (r: Option<Timestamp>)
    ensures
        r == rfc2822_instant(text@),
{
    chrono::DateTime::parse_from_rfc2822(text).ok().map(|d| {
        let utc = d.with_timezone(&chrono::Utc);
        Timestamp { secs: utc.timestamp(), nanos: utc.timestamp_subsec_nanos() }
    })
}

} // verus!

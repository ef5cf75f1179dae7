//! The periodic refresh of every stored feed, as decisions from events to
//! actions: list the feeds, download each one in turn, and hand each
//! successful download to the store; a failed download is skipped.

use vstd::prelude::*;

use crate::feed::Feed;
use crate::storage::FeedInfo;

verus! {

/// What the refresh asks for next.
pub enum RefreshAction {
    /// Download the feed at this URL.
    Download(String),
    /// Hand this downloaded feed to the store, for the feed at this URL.
    Store(String, Feed),
    /// The refresh is over.
    Finished,
}

/// One refresh: the URLs listed at its start and the position of the one
/// being worked on.
pub struct RefreshCycle {
    urls: Vec<String>,
    current: usize,
}

/// An action as the refresh's decisions see it: which URL it is for.
pub enum Step {
    Download(Seq<char>),
    Store(Seq<char>),
    Finished,
}

/// The step an action stands for.
pub open spec fn step_of(a: RefreshAction) -> Step {
    match a {
        RefreshAction::Download(u) => Step::Download(u@),
        RefreshAction::Store(u, _) => Step::Store(u@),
        RefreshAction::Finished => Step::Finished,
    }
}

/// The step that comes for position `i` of `urls`: its download, or the end
/// once every URL has been worked on.
pub open spec fn step_at(urls: Seq<Seq<char>>, i: int) -> Step {
    if 0 <= i < urls.len() {
        Step::Download(urls[i])
    } else {
        Step::Finished
    }
}

/// Position and step after the download at position `i` ended, in success
/// or not: a success is stored; after a failure the next URL comes.
pub open spec fn after_download(urls: Seq<Seq<char>>, i: int, success: bool) -> (int, Step) {
    if !(0 <= i < urls.len()) {
        (i, Step::Finished)
    } else if success {
        (i, Step::Store(urls[i]))
    } else {
        (i + 1, step_at(urls, i + 1))
    }
}

/// Position and step after the feed at position `i` was stored: the next
/// URL comes.
pub open spec fn after_store(urls: Seq<Seq<char>>, i: int) -> (int, Step) {
    if !(0 <= i < urls.len()) {
        (i, Step::Finished)
    } else {
        (i + 1, step_at(urls, i + 1))
    }
}

/// The steps a driver takes from position `i` and step `s`, answering the
/// download at position `k` with `success[k]`, until the refresh is over.
pub open spec fn run(urls: Seq<Seq<char>>, success: Seq<bool>, i: nat, s: Step) -> Seq<Step>
    decreases urls.len() - i, (if s is Download {
        2nat
    } else if s is Store {
        1nat
    } else {
        0nat
    }),
{
    if i > urls.len() {
        seq![Step::Finished]
    } else {
        match s {
            Step::Finished => seq![Step::Finished],
            Step::Download(_) => {
                let (j, t) = after_download(urls, i as int, success[i as int]);
                seq![s] + run(urls, success, j as nat, t)
            },
            Step::Store(_) => {
                let (j, t) = after_store(urls, i as int);
                seq![s] + run(urls, success, j as nat, t)
            },
        }
    }
}

/// One whole refresh over `urls` from position `i`: each URL in turn is
/// downloaded, and stored right after exactly when its download succeeded;
/// then the refresh is over.
pub open spec fn tick(urls: Seq<Seq<char>>, success: Seq<bool>, i: nat) -> Seq<Step>
    decreases urls.len() - i,
{
    if i >= urls.len() {
        seq![Step::Finished]
    } else {
        seq![Step::Download(urls[i as int])] + (if success[i as int] {
            seq![Step::Store(urls[i as int])]
        } else {
            Seq::<Step>::empty()
        }) + tick(urls, success, i + 1)
    }
}

/// A whole refresh: once the store has listed `urls`, driving the refresh
/// with the outcomes `success` of the downloads gives `tick`: the listed
/// URLs are downloaded in list order, each successful download is stored
/// right after it, a failed one is skipped, no other URL appears, and the
/// refresh ends. A failed listing lists nothing, so it gives `Finished` at
/// once.
pub proof fn law_refresh_tick(urls: Seq<Seq<char>>, success: Seq<bool>)
    requires
        success.len() == urls.len(),
    ensures
        run(urls, success, 0, step_at(urls, 0)) == tick(urls, success, 0),
        forall|k: int|
            0 <= k < tick(urls, success, 0).len() ==> (#[trigger] tick(urls, success, 0)[k]
                is Finished) || listed_step(urls, tick(urls, success, 0)[k]),
        run(Seq::<Seq<char>>::empty(), Seq::<bool>::empty(), 0, step_at(Seq::empty(), 0)) == seq![
            Step::Finished,
        ],
{
    lemma_run_from(urls, success, 0);
    lemma_tick_listed(urls, success, 0);
}

/// The step is a download or a store of one of `urls`.
pub open spec fn listed_step(urls: Seq<Seq<char>>, s: Step) -> bool {
    match s {
        Step::Download(u) => urls.contains(u),
        Step::Store(u) => urls.contains(u),
        Step::Finished => false,
    }
}

proof fn lemma_tick_listed(urls: Seq<Seq<char>>, success: Seq<bool>, i: nat)
    requires
        success.len() == urls.len(),
    ensures
        forall|k: int|
            0 <= k < tick(urls, success, i).len() ==> (#[trigger] tick(urls, success, i)[k]
                is Finished) || listed_step(urls, tick(urls, success, i)[k]),
    decreases urls.len() - i,
{
    if i < urls.len() {
        lemma_tick_listed(urls, success, i + 1);
        let u = urls[i as int];
        assert(urls.contains(u));
        let head = seq![Step::Download(u)] + (if success[i as int] {
            seq![Step::Store(u)]
        } else {
            Seq::<Step>::empty()
        });
        let rest = tick(urls, success, i + 1);
        assert(tick(urls, success, i) == head + rest);
        assert forall|k: int| 0 <= k < tick(urls, success, i).len() implies (#[trigger] tick(urls, success, i)[k]
            is Finished) || listed_step(urls, tick(urls, success, i)[k]) by {
            if k >= head.len() {
                assert(tick(urls, success, i)[k] == rest[k - head.len()]);
            }
        }
    }
}

proof fn lemma_run_from(urls: Seq<Seq<char>>, success: Seq<bool>, i: nat)
    requires
        success.len() == urls.len(),
        i <= urls.len(),
    ensures
        run(urls, success, i, step_at(urls, i as int)) == tick(urls, success, i),
    decreases urls.len() - i,
{
    if i < urls.len() {
        lemma_run_from(urls, success, i + 1);
        let d = Step::Download(urls[i as int]);
        if success[i as int] {
            let st = Step::Store(urls[i as int]);
            assert(run(urls, success, i, st) == seq![st] + run(urls, success, i + 1, step_at(urls, (i + 1) as int)));
            assert(run(urls, success, i, d) =~= seq![d] + seq![st] + tick(urls, success, i + 1));
        } else {
            assert(run(urls, success, i, d) =~= seq![d] + Seq::<Step>::empty() + tick(urls, success, i + 1));
        }
    }
}

impl RefreshCycle {
    /// The URLs of the refresh, in order.
    pub closed spec fn urls(&self) -> Seq<Seq<char>> {
        self.urls@.map_values(|u: String| u@)
    }

    /// The position of the URL being worked on.
    pub closed spec fn current(&self) -> int {
        self.current as int
    }

    /// A refresh that has listed nothing yet.
    pub fn new() -> (r: RefreshCycle)
        ensures
            r.urls() == Seq::<Seq<char>>::empty(),
            r.current() == 0,
    {
        let r = RefreshCycle { urls: Vec::new(), current: 0 };
        assert(r.urls() =~= Seq::<Seq<char>>::empty());
        r
    }

    fn next_action(&self) -> (a: RefreshAction)
        ensures
            step_of(a) == step_at(self.urls(), self.current()),
    {
        if self.current < self.urls.len() {
            RefreshAction::Download(self.urls[self.current].clone())
        } else {
            RefreshAction::Finished
        }
    }

    /// The store has listed its feeds (or failed to): the refresh works
    /// through the listed URLs in order, starting with the first; a failed
    /// listing ends it.
    pub fn on_listed(&mut self, listed: Result<Vec<FeedInfo>, String>) -> (a: RefreshAction)
        ensures
            match listed {
                Ok(infos) => final(self).urls() == infos@.map_values(|i: FeedInfo| i.url@),
                Err(_) => final(self).urls() == Seq::<Seq<char>>::empty(),
            },
            final(self).current() == 0,
            step_of(a) == step_at(final(self).urls(), 0),
    {
        let mut urls: Vec<String> = Vec::new();
        if let Ok(infos) = listed {
            let mut i: usize = 0;
            while i < infos.len()
                invariant
                    i <= infos@.len(),
                    urls@.len() == i,
                    forall|k: int| 0 <= k < i ==> (#[trigger] urls@[k])@ == infos@[k].url@,
                decreases infos@.len() - i,
            {
                urls.push(infos[i].url.clone());
                i = i + 1;
            }
            assert(urls@.map_values(|u: String| u@) =~= infos@.map_values(|f: FeedInfo| f.url@));
        } else {
            assert(urls@.map_values(|u: String| u@) =~= Seq::<Seq<char>>::empty());
        }
        self.urls = urls;
        self.current = 0;
        self.next_action()
    }

    /// The download of the current URL has finished: a feed goes to the
    /// store; after a failure the refresh moves on to the next URL. With no
    /// download under way, the refresh is over.
    pub fn on_downloaded(&mut self, downloaded: Result<Feed, String>) -> (a: RefreshAction)
        ensures
            final(self).urls() == old(self).urls(),
            (final(self).current(), step_of(a)) == after_download(
                old(self).urls(),
                old(self).current(),
                downloaded is Ok,
            ),
            a matches RefreshAction::Store(_, g) ==> downloaded == Ok::<Feed, String>(g),
    {
        if self.current >= self.urls.len() {
            return RefreshAction::Finished;
        }
        match downloaded {
            Ok(feed) => RefreshAction::Store(self.urls[self.current].clone(), feed),
            Err(_) => {
                self.current = self.current + 1;
                self.next_action()
            },
        }
    }

    /// The store has taken in the current feed: the refresh moves on to the
    /// next URL. With no feed under way, the refresh is over.
    pub fn on_stored(&mut self) -> (a: RefreshAction)
        ensures
            final(self).urls() == old(self).urls(),
            (final(self).current(), step_of(a)) == after_store(old(self).urls(), old(self).current()),
    {
        if self.current >= self.urls.len() {
            return RefreshAction::Finished;
        }
        self.current = self.current + 1;
        self.next_action()
    }
}

} // verus!

use vstd::prelude::*;

use crate::discovery::{normalize_url_spec, Discovery, DiscoveryStep, DiscoveryView};
use crate::display::strings_view;
use crate::feed_parser::{parse_feed_spec, parse_feed_xml_at, FeedError, ParsedEntryView, ParsedFeedView};
use crate::storage::{Store, StoreError, StoreView};
use crate::text::{chars_of, decimal_i64, decimal_int, extend_chars, starts_with_chars, starts_with_seq, string_of};
use crate::time::utc_now;
use crate::urls::{canonical_site_url, canonical_site_url_spec};

verus! {

/// Why syncing a feed failed.
#[derive(Debug)]
pub enum SyncError {
    /// The feed could not be fetched; holds the reason as the fetcher put it.
    Fetch(String),
    /// The body is not well-formed XML; holds the XML reader's error as text.
    InvalidXml(String),
    /// The document holds no entries; holds the feed URL.
    NoEntries(String),
    /// The store refused an entry.
    Store(StoreError),
    /// No feed has the id.
    MissingFeed(i64),
}

pub enum SyncErrorView {
    Fetch(Seq<char>),
    InvalidXml(Seq<char>),
    NoEntries(Seq<char>),
    Store(StoreError),
    MissingFeed(i64),
}

impl View for SyncError {
    type V = SyncErrorView;

    open spec fn view(&self) -> SyncErrorView {
        match self {
            SyncError::Fetch(m) => SyncErrorView::Fetch(m@),
            SyncError::InvalidXml(m) => SyncErrorView::InvalidXml(m@),
            SyncError::NoEntries(u) => SyncErrorView::NoEntries(u@),
            SyncError::Store(e) => SyncErrorView::Store(*e),
            SyncError::MissingFeed(id) => SyncErrorView::MissingFeed(*id),
        }
    }
}

pub open spec fn store_error_message(e: StoreError) -> Seq<char> {
    match e {
        StoreError::Full => "database or disk is full"@,
        StoreError::InvalidRows => "invalid rows"@,
        StoreError::PatternTooComplex => "LIKE or GLOB pattern too complex"@,
        StoreError::ForeignKey => "FOREIGN KEY constraint failed"@,
    }
}

impl SyncErrorView {
    pub open spec fn message(self) -> Seq<char> {
        match self {
            SyncErrorView::Fetch(m) => m,
            SyncErrorView::InvalidXml(m) => m,
            SyncErrorView::NoEntries(u) => u + ": no entries found"@,
            SyncErrorView::Store(e) => store_error_message(e),
            SyncErrorView::MissingFeed(id) => "missing feed "@ + decimal_int(id as int),
        }
    }
}

impl Clone for SyncError {
    fn clone(&self) -> (r: Self)
        ensures
            r@ == self@,
    {
        match self {
            SyncError::Fetch(m) => SyncError::Fetch(m.clone()),
            SyncError::InvalidXml(m) => SyncError::InvalidXml(m.clone()),
            SyncError::NoEntries(u) => SyncError::NoEntries(u.clone()),
            SyncError::Store(e) => SyncError::Store(match e {
                StoreError::Full => StoreError::Full,
                StoreError::InvalidRows => StoreError::InvalidRows,
                StoreError::PatternTooComplex => StoreError::PatternTooComplex,
                StoreError::ForeignKey => StoreError::ForeignKey,
            }),
            SyncError::MissingFeed(id) => SyncError::MissingFeed(*id),
        }
    }
}

impl SyncError {
    /// The error as a line of text.
    pub fn message(&self) -> (r: String)
        ensures
            r@ == self@.message(),
    {
        match self {
            SyncError::Fetch(m) => m.clone(),
            SyncError::InvalidXml(m) => m.clone(),
            SyncError::NoEntries(u) => {
                let mut v = chars_of(u.as_str());
                extend_chars(&mut v, &chars_of(": no entries found"));
                string_of(&v)
            },
            SyncError::Store(e) => match e {
                StoreError::Full => String::from_str("database or disk is full"),
                StoreError::InvalidRows => String::from_str("invalid rows"),
                StoreError::PatternTooComplex => String::from_str("LIKE or GLOB pattern too complex"),
                StoreError::ForeignKey => String::from_str("FOREIGN KEY constraint failed"),
            },
            SyncError::MissingFeed(id) => {
                let mut v = chars_of("missing feed ");
                extend_chars(&mut v, &decimal_i64(*id));
                string_of(&v)
            },
        }
    }
}

// ---------------------------------------------------------------------------
// The report of a sync over all feeds
// ---------------------------------------------------------------------------

/// What a sync over all feeds did.
#[derive(Debug)]
pub struct SyncReport {
    pub processed_feeds: usize,
    pub processed_entries: usize,
    pub new_entries: usize,
    pub errors: Vec<String>,
}

pub open spec fn sat_add(a: usize, b: usize) -> usize {
    if a + b > usize::MAX {
        usize::MAX
    } else {
        (a + b) as usize
    }
}

impl SyncReport {
    /// A report of nothing done.
    pub fn new() -> (r: SyncReport)
        ensures
            r.processed_feeds == 0,
            r.processed_entries == 0,
            r.new_entries == 0,
            r.errors@.len() == 0,
    {
        SyncReport { processed_feeds: 0, processed_entries: 0, new_entries: 0, errors: Vec::new() }
    }

    /// Counts a feed that synced, with the entries it held and those it added
    /// (the counters stop at `usize::MAX`).
    pub fn record_feed(&mut self, entries: usize, inserted: usize)
        ensures
            final(self).processed_feeds == sat_add(old(self).processed_feeds, 1),
            final(self).processed_entries == sat_add(old(self).processed_entries, entries),
            final(self).new_entries == sat_add(old(self).new_entries, inserted),
            final(self).errors@ == old(self).errors@,
    {
        self.processed_feeds = self.processed_feeds.saturating_add(1);
        self.processed_entries = self.processed_entries.saturating_add(entries);
        self.new_entries = self.new_entries.saturating_add(inserted);
    }

    /// Notes a feed that failed.
    pub fn record_error(&mut self, message: String)
        ensures
            final(self).processed_feeds == old(self).processed_feeds,
            final(self).processed_entries == old(self).processed_entries,
            final(self).new_entries == old(self).new_entries,
            final(self).errors@ == old(self).errors@.push(message),
    {
        self.errors.push(message);
    }

    /// Counts the outcome of syncing one feed.
    pub fn record(&mut self, outcome: &Result<(usize, usize), SyncError>)
        ensures
            match outcome {
                Ok((n, k)) => final(self).processed_feeds == sat_add(old(self).processed_feeds, 1)
                    && final(self).processed_entries == sat_add(old(self).processed_entries, *n)
                    && final(self).new_entries == sat_add(old(self).new_entries, *k) && final(self).errors@
                    == old(self).errors@,
                Err(e) => final(self).processed_feeds == old(self).processed_feeds
                    && final(self).processed_entries == old(self).processed_entries
                    && final(self).new_entries == old(self).new_entries && strings_view(final(self).errors@)
                    == strings_view(old(self).errors@).push(e@.message()),
            },
    {
        match outcome {
            Ok((n, k)) => self.record_feed(*n, *k),
            Err(e) => {
                let ghost before = self.errors@;
                self.record_error(e.message());
                assert(strings_view(self.errors@) =~= strings_view(before).push(e@.message()));
            },
        }
    }
}

// ---------------------------------------------------------------------------
// Storing a fetched feed
// ---------------------------------------------------------------------------

pub open spec fn published_secs(p: Option<(i64, u32)>) -> Option<i64> {
    match p {
        Some(t) => Some(t.0),
        None => None,
    }
}

/// Stores the parsed entries in order, skipping those with neither id nor link;
/// stops at the first entry the store refuses. Gives the store and how many
/// entries were inserted or updated.
pub open spec fn store_entries(s: StoreView, feed_id: i64, es: Seq<ParsedEntryView>, now: i64) -> (
    StoreView,
    Result<nat, StoreError>,
)
    decreases es.len(),
{
    if es.len() == 0 {
        (s, Ok(0))
    } else {
        let (s1, r1) = store_entries(s, feed_id, es.drop_last(), now);
        match r1 {
            Err(e) => (s1, Err(e)),
            Ok(k) => {
                let e = es.last();
                if e.id.len() == 0 && e.link.len() == 0 {
                    (s1, Ok(k))
                } else {
                    let (s2, r2) = s1.upsert_or_update_entry(
                        feed_id,
                        e.id,
                        e.link,
                        e.title,
                        e.summary,
                        e.content,
                        published_secs(e.published),
                        now,
                    );
                    match r2 {
                        Err(x) => (s2, Err(x)),
                        Ok(b) => (s2, Ok(if b {
                            k + 1
                        } else {
                            k
                        })),
                    }
                }
            },
        }
    }
}

/// What storing a fetched body does: the body is parsed (the clock reading
/// `now_ms` where an entry needs a made-up id); the feed takes the document's
/// title; the entries are stored at time `now`. Succeeds with the number of
/// entries in the document and the number stored, unless the body is not XML, the
/// store refuses an entry, or the document holds no entries.
pub open spec fn apply_body_spec(
    s: StoreView,
    feed_id: i64,
    feed_url: Seq<char>,
    body: Seq<char>,
    now: i64,
    now_ms: i64,
) -> (StoreView, Result<(nat, nat), SyncErrorView>) {
    match parse_feed_spec(body, now_ms) {
        Err(m) => (s, Err(SyncErrorView::InvalidXml(m))),
        Ok(f) => {
            let s1 = match f.title {
                Some(t) => s.set_feed_title(feed_id, t).0,
                None => s,
            };
            let (s2, r) = store_entries(s1, feed_id, f.entries, now);
            match r {
                Err(e) => (s2, Err(SyncErrorView::Store(e))),
                Ok(k) => if f.entries.len() == 0 {
                    (s2, Err(SyncErrorView::NoEntries(feed_url)))
                } else {
                    (s2, Ok((f.entries.len(), k)))
                },
            }
        },
    }
}

pub open spec fn outcome_view(r: Result<(usize, usize), SyncError>) -> Result<(nat, nat), SyncErrorView> {
    match r {
        Ok((n, k)) => Ok((n as nat, k as nat)),
        Err(e) => Err(e@),
    }
}

/// Stores a fetched feed body (see `apply_body_spec`), with the times given.
pub fn apply_feed_body_at(
    store: &mut Store,
    feed_id: i64,
    feed_url: &str,
    body: &str,
    now: i64,
    now_ms: i64,
) -> (r: Result<(usize, usize), SyncError>)
    requires
        old(store).wf(),
    ensures
        final(store).wf(),
        (final(store)@, outcome_view(r)) == apply_body_spec(old(store)@, feed_id, feed_url@, body@, now, now_ms),
{
    let parsed = match parse_feed_xml_at(body, now_ms) {
        Ok(p) => p,
        Err(FeedError::InvalidXml(m)) => return Err(SyncError::InvalidXml(m)),
    };
    let ghost f = parsed@;
    let ghost s0 = store@;
    match &parsed.title {
        Some(t) => {
            store.set_feed_title(feed_id, t.as_str());
        },
        None => {},
    }
    let ghost s1 = store@;
    let n = parsed.entries.len();
    let mut inserted: usize = 0;
    let mut i: usize = 0;
    while i < n
        invariant
            n == parsed.entries.len(),
            f == parsed@,
            parse_feed_spec(body@, now_ms) == Ok::<ParsedFeedView, Seq<char>>(f),
            s1 == match f.title {
                Some(t) => s0.set_feed_title(feed_id, t).0,
                None => s0,
            },
            s0 == old(store)@,
            i <= n,
            inserted <= i,
            store.wf(),
            (store@, Ok::<nat, StoreError>(inserted as nat)) == store_entries(s1, feed_id, f.entries.take(i as int), now),
        decreases n - i,
    {
        let item = &parsed.entries[i];
        proof {
            let t = f.entries.take(i + 1);
            assert(t.drop_last() =~= f.entries.take(i as int));
            assert(t.last() == item@);
        }
        if item.id.as_str().unicode_len() == 0 && item.link.as_str().unicode_len() == 0 {
        } else {
            let published = match &item.published {
                Some(t) => Some(t.secs),
                None => None,
            };
            let ghost before = store@;
            let res = store.upsert_or_update_entry_at(
                feed_id,
                item.id.as_str(),
                item.link.as_str(),
                item.title.as_str(),
                item.summary.as_str(),
                item.content.as_str(),
                published,
                now,
            );
            match res {
                Ok(b) => {
                    if b {
                        inserted = inserted + 1;
                    }
                },
                Err(e) => {
                    proof {
                        let t = f.entries.take(i + 1);
                        assert(store_entries(s1, feed_id, t.drop_last(), now) == (before, Ok::<nat, StoreError>(inserted as nat)));
                        assert(store_entries(s1, feed_id, t, now) == (store@, Err::<nat, StoreError>(e)));
                        lemma_store_entries_prefix_err(s1, feed_id, f.entries, i as int + 1, now);
                        assert(store_entries(s1, feed_id, f.entries, now) == (store@, Err::<nat, StoreError>(e)));
                    }
                    return Err(SyncError::Store(e));
                },
            }
        }
        i = i + 1;
    }
    assert(f.entries.take(n as int) =~= f.entries);
    if n == 0 {
        let u = String::from_str(feed_url);
        return Err(SyncError::NoEntries(u));
    }
    Ok((n, inserted))
}

/// Once storing the entries fails, the later entries change nothing.
proof fn lemma_store_entries_prefix_err(s: StoreView, feed_id: i64, es: Seq<ParsedEntryView>, k: int, now: i64)
    requires
        0 <= k <= es.len(),
        store_entries(s, feed_id, es.take(k), now).1 is Err,
    ensures
        store_entries(s, feed_id, es, now) == store_entries(s, feed_id, es.take(k), now),
    decreases es.len() - k,
{
    if k < es.len() {
        let t = es.take(k + 1);
        assert(t.drop_last() =~= es.take(k));
        lemma_store_entries_prefix_err(s, feed_id, es, k + 1, now);
    } else {
        assert(es.take(k) =~= es);
    }
}

/// Stores a fetched feed body, reading the clock.
pub fn apply_feed_body(store: &mut Store, feed_id: i64, feed_url: &str, body: &str) -> (r: Result<
    (usize, usize),
    SyncError,
>)
    requires
        old(store).wf(),
    ensures
        final(store).wf(),
        exists|now: i64, now_ms: i64|
            (final(store)@, outcome_view(r)) == apply_body_spec(old(store)@, feed_id, feed_url@, body@, now, now_ms),
{
    let (now, now_ms) = utc_now();
    apply_feed_body_at(store, feed_id, feed_url, body, now, now_ms)
}

// ---------------------------------------------------------------------------
// Syncing one feed, step by step
// ---------------------------------------------------------------------------

/// What a `FeedSync` asks its caller to do next.
#[derive(Debug)]
pub enum SyncStep {
    /// Fetch this URL (with a 25 s timeout) and hand its body, or why the fetch
    /// failed, to `FeedSync::on_fetched`.
    Fetch(String),
    /// Looking for the feed's new address: fetch this URL and report whether it
    /// answered with a feed (`FeedSync::on_verified`).
    Verify(String),
    /// Looking for the feed's new address: fetch this page and hand its text to
    /// `FeedSync::on_page`.
    FetchPage(String),
    /// Finished: `FeedSync::outcome` holds the result.
    Done,
}

/// Syncing one feed: its URL first; where that fails and the URL is a web
/// address, the feeds discovered from it, each in turn, until one works (the feed
/// then moves to that URL). The caller does the fetching.
#[derive(Debug)]
pub struct FeedSync {
    feed_id: i64,
    feed_url: String,
    first_error: Option<SyncError>,
    discovery: Option<Discovery>,
    candidates: Vec<String>,
    next: usize,
    outcome: Option<Result<(usize, usize), SyncError>>,
}

pub struct FeedSyncView {
    pub feed_id: i64,
    /// The feed's URL when the sync started.
    pub feed_url: Seq<char>,
    /// Why the feed's own URL failed, once it has.
    pub first_error: Option<SyncErrorView>,
    /// The search for other feed URLs, while it runs.
    pub discovery: Option<DiscoveryView>,
    /// The URLs the search found.
    pub candidates: Seq<Seq<char>>,
    /// The candidate being tried.
    pub next: int,
    /// The result, once there is one.
    pub outcome: Option<Result<(nat, nat), SyncErrorView>>,
}

pub open spec fn response_view(r: Result<String, String>) -> Result<Seq<char>, Seq<char>> {
    match r {
        Ok(b) => Ok(b@),
        Err(m) => Err(m@),
    }
}

pub open spec fn opt_error_view(e: Option<SyncError>) -> Option<SyncErrorView> {
    match e {
        Some(x) => Some(x@),
        None => None,
    }
}

pub open spec fn opt_outcome_view(o: Option<Result<(usize, usize), SyncError>>) -> Option<
    Result<(nat, nat), SyncErrorView>,
> {
    match o {
        Some(r) => Some(outcome_view(r)),
        None => None,
    }
}

impl View for FeedSync {
    type V = FeedSyncView;

    closed spec fn view(&self) -> FeedSyncView {
        FeedSyncView {
            feed_id: self.feed_id,
            feed_url: self.feed_url@,
            first_error: opt_error_view(self.first_error),
            discovery: match self.discovery {
                Some(d) => Some(d@),
                None => None,
            },
            candidates: strings_view(self.candidates@),
            next: self.next as int,
            outcome: opt_outcome_view(self.outcome),
        }
    }
}

/// The first candidate from `k` on that differs from `url`.
pub open spec fn next_other(cands: Seq<Seq<char>>, k: int, url: Seq<char>) -> int
    decreases cands.len() - k,
{
    if k >= cands.len() || k < 0 {
        cands.len() as int
    } else if cands[k] != url {
        k
    } else {
        next_other(cands, k + 1, url)
    }
}

/// Whether a URL is a web address (the fall-back search applies only to those).
pub open spec fn is_web_url(url: Seq<char>) -> bool {
    starts_with_seq(url, "http://"@) || starts_with_seq(url, "https://"@)
}

impl FeedSyncView {
    pub open spec fn wf(self) -> bool {
        &&& 0 <= self.next <= self.candidates.len()
        &&& self.outcome.is_none() && self.first_error.is_none() ==> self.discovery.is_none()
        &&& self.discovery.is_some() ==> {
            &&& self.discovery.unwrap().wf()
            &&& !self.discovery.unwrap().is_done()
            &&& self.first_error.is_some()
            &&& self.outcome.is_none()
        }
        &&& (self.outcome.is_none() && self.first_error.is_some() && self.discovery.is_none()) ==> {
            &&& self.next < self.candidates.len()
            &&& self.candidates[self.next] != self.feed_url
        }
    }

    /// A sync that has done nothing yet.
    pub open spec fn fresh(feed_id: i64, feed_url: Seq<char>) -> FeedSyncView {
        FeedSyncView {
            feed_id,
            feed_url,
            first_error: None,
            discovery: None,
            candidates: Seq::empty(),
            next: 0,
            outcome: None,
        }
    }

    /// Goes on with the first candidate from `k` on that differs from the feed's
    /// URL; where none is left, the sync fails with the first error.
    pub open spec fn try_from(self, k: int) -> FeedSyncView {
        let j = next_other(self.candidates, k, self.feed_url);
        if j >= self.candidates.len() {
            FeedSyncView { next: self.candidates.len() as int, outcome: Some(Err(self.first_error.unwrap())), ..self }
        } else {
            FeedSyncView { next: j, ..self }
        }
    }

    /// Takes the search's new state: once it is done, the URLs it found become the
    /// candidates (none found: the sync fails with the first error).
    pub open spec fn with_discovery(self, d: DiscoveryView) -> FeedSyncView {
        if d.is_done() {
            if d.found.len() == 0 {
                FeedSyncView { discovery: None, outcome: Some(Err(self.first_error.unwrap())), ..self }
            } else {
                FeedSyncView { discovery: None, candidates: d.found, next: 0, ..self }.try_from(0)
            }
        } else {
            FeedSyncView { discovery: Some(d), ..self }
        }
    }

    /// The URL a `SyncStep::Fetch` asks for.
    pub open spec fn fetch_target(self) -> Seq<char> {
        if self.first_error.is_none() {
            self.feed_url
        } else {
            self.candidates[self.next]
        }
    }

    /// Whether the sync waits for a fetched feed.
    pub open spec fn awaits_fetch(self) -> bool {
        self.outcome.is_none() && self.discovery.is_none()
    }

    /// What `on_fetched` does to the store and the sync, given the answer.
    pub open spec fn on_fetched_spec(
        self,
        s: StoreView,
        response: Result<Seq<char>, Seq<char>>,
        now: i64,
        now_ms: i64,
    ) -> (StoreView, FeedSyncView) {
        let (s2, r) = match response {
            Ok(body) => apply_body_spec(s, self.feed_id, self.fetch_target(), body, now, now_ms),
            Err(m) => (s, Err(SyncErrorView::Fetch(m))),
        };
        self.after_fetch(s, s2, r)
    }

    /// What `on_fetched` does with the store and the sync, given what storing the
    /// answer gave.
    pub open spec fn after_fetch(self, s: StoreView, s2: StoreView, r: Result<(nat, nat), SyncErrorView>) -> (
        StoreView,
        FeedSyncView,
    ) {
        if self.first_error.is_none() {
            match r {
                Ok(x) => (s2, FeedSyncView { outcome: Some(Ok(x)), ..self }),
                Err(e) => if !is_web_url(self.feed_url) {
                    (s2, FeedSyncView { outcome: Some(Err(e)), ..self })
                } else {
                    match normalize_url_spec(self.feed_url) {
                        Some(b) => (
                            s2,
                            FeedSyncView {
                                first_error: Some(e),
                                discovery: Some(DiscoveryView::fresh(self.feed_url, b)),
                                ..self
                            },
                        ),
                        None => (s2, FeedSyncView { first_error: Some(e), outcome: Some(Err(e)), ..self }),
                    }
                },
            }
        } else {
            match r {
                Ok(x) => (
                    s2.update_feed_source(self.feed_id, self.fetch_target(), canonical_site_url_spec(self.feed_url)).0,
                    FeedSyncView { outcome: Some(Ok(x)), ..self },
                ),
                Err(_) => (s2, self.try_from(self.next + 1)),
            }
        }
    }
}

proof fn lemma_next_other_range(cands: Seq<Seq<char>>, k: int, url: Seq<char>)
    requires
        0 <= k <= cands.len(),
    ensures
        k <= next_other(cands, k, url) <= cands.len(),
        next_other(cands, k, url) < cands.len() ==> cands[next_other(cands, k, url)] != url,
    decreases cands.len() - k,
{
    if k < cands.len() && cands[k] == url {
        lemma_next_other_range(cands, k + 1, url);
    }
}

impl FeedSync {
    pub open spec fn wf(&self) -> bool {
        self@.wf()
    }

    /// Starts syncing the feed with the given id and URL.
    pub fn start(feed_id: i64, feed_url: &str) -> (r: FeedSync)
        ensures
            r.wf(),
            r@ == FeedSyncView::fresh(feed_id, feed_url@),
    {
        let r = FeedSync {
            feed_id,
            feed_url: String::from_str(feed_url),
            first_error: None,
            discovery: None,
            candidates: Vec::new(),
            next: 0,
            outcome: None,
        };
        assert(r@.candidates =~= Seq::<Seq<char>>::empty());
        r
    }

    /// Starts syncing a stored feed; fails where no feed has the id.
    pub fn for_feed(store: &Store, feed_id: i64) -> (r: Result<FeedSync, SyncError>)
        requires
            store.wf(),
        ensures
            match r {
                Ok(s) => s.wf() && (store@.get_feed(feed_id) matches Some(f) && s@ == FeedSyncView::fresh(feed_id, f.url)),
                Err(e) => store@.get_feed(feed_id).is_none() && e@ == SyncErrorView::MissingFeed(feed_id),
            },
    {
        match store.get_feed(feed_id) {
            Some(f) => Ok(FeedSync::start(feed_id, f.url.as_str())),
            None => Err(SyncError::MissingFeed(feed_id)),
        }
    }

    /// What to do next.
    pub fn step(&self) -> (r: SyncStep)
        requires
            self.wf(),
        ensures
            match r {
                SyncStep::Fetch(u) => self@.awaits_fetch() && u@ == self@.fetch_target(),
                SyncStep::Verify(u) => self@.discovery matches Some(d) && d.next < d.queue.len() && u@
                    == d.queue[d.next],
                SyncStep::FetchPage(u) => self@.discovery matches Some(d) && d.next == d.queue.len()
                    && !d.page_fetched && u@ == d.base,
                SyncStep::Done => self@.outcome.is_some(),
            },
    {
        if self.outcome.is_some() {
            return SyncStep::Done;
        }
        match &self.discovery {
            Some(d) => match d.step() {
                DiscoveryStep::Verify(u) => SyncStep::Verify(u),
                DiscoveryStep::FetchPage(u) => SyncStep::FetchPage(u),
                DiscoveryStep::Done => SyncStep::Done,
            },
            None => {
                if self.first_error.is_none() {
                    SyncStep::Fetch(self.feed_url.clone())
                } else {
                    SyncStep::Fetch(self.candidates[self.next].clone())
                }
            },
        }
    }

    /// The result, once the sync is done: the entries in the document and those
    /// stored, or why it failed.
    pub fn outcome(&self) -> (r: Option<Result<(usize, usize), SyncError>>)
        ensures
            opt_outcome_view(r) == self@.outcome,
    {
        match &self.outcome {
            Some(Ok((n, k))) => Some(Ok((*n, *k))),
            Some(Err(e)) => Some(Err(e.clone())),
            None => None,
        }
    }

    fn fail_over(&mut self, k: usize)
        requires
            old(self).wf() || old(self)@.discovery.is_none(),
            old(self)@.outcome.is_none(),
            old(self)@.first_error.is_some(),
            old(self)@.discovery.is_none(),
            k <= old(self)@.candidates.len(),
        ensures
            final(self)@ == old(self)@.try_from(k as int),
            final(self).wf(),
    {
        let ghost v = self@;
        let mut j = k;
        while j < self.candidates.len() && self.candidates[j] == self.feed_url
            invariant
                self@ == v,
                k <= j <= self.candidates.len(),
                next_other(v.candidates, k as int, v.feed_url) == next_other(v.candidates, j as int, v.feed_url),
            decreases self.candidates.len() - j,
        {
            j = j + 1;
        }
        proof {
            lemma_next_other_range(v.candidates, j as int, v.feed_url);
        }
        if j == self.candidates.len() {
            self.next = j;
            if let Some(e) = &self.first_error {
                self.outcome = Some(Err(e.clone()));
            }
        } else {
            self.next = j;
        }
    }

    fn take_discovery(&mut self, d: Discovery)
        requires
            d.wf(),
            old(self)@.outcome.is_none(),
            old(self)@.first_error.is_some(),
            0 <= old(self)@.next <= old(self)@.candidates.len(),
        ensures
            final(self)@ == (FeedSyncView { discovery: None, ..old(self)@ }).with_discovery(d@),
            final(self).wf(),
    {
        self.discovery = None;
        let done = match d.step() {
            DiscoveryStep::Done => true,
            _ => false,
        };
        if !done {
            self.discovery = Some(d);
            return;
        }
        match d.finish() {
            Ok(res) => {
                self.candidates = res.feeds;
                self.next = 0;
                self.fail_over(0);
            },
            Err(_) => {
                if let Some(e) = &self.first_error {
                    self.outcome = Some(Err(e.clone()));
                }
            },
        }
    }

    /// Takes the fetched feed asked for (`SyncStep::Fetch`): its body, or why the
    /// fetch failed. The body is stored at time `now` (`now_ms` for made-up ids).
    pub fn on_fetched_at(&mut self, store: &mut Store, response: Result<String, String>, now: i64, now_ms: i64)
        requires
            old(self).wf(),
            old(self)@.awaits_fetch(),
            old(store).wf(),
        ensures
            final(self).wf(),
            final(store).wf(),
            (final(store)@, final(self)@) == old(self)@.on_fetched_spec(old(store)@, response_view(response), now, now_ms),
    {
        let ghost v = self@;
        assert(self.first_error.is_some() ==> self.next < self.candidates.len());
        let target = if self.first_error.is_none() {
            self.feed_url.clone()
        } else {
            self.candidates[self.next].clone()
        };
        let r = match response {
            Ok(body) => apply_feed_body_at(store, self.feed_id, target.as_str(), body.as_str(), now, now_ms),
            Err(m) => Err(SyncError::Fetch(m)),
        };
        if self.first_error.is_none() {
            match r {
                Ok(x) => {
                    self.outcome = Some(Ok(x));
                },
                Err(e) => {
                    let url = chars_of(self.feed_url.as_str());
                    let web = starts_with_chars(&url, &chars_of("http://")) || starts_with_chars(
                        &url,
                        &chars_of("https://"),
                    );
                    if !web {
                        self.outcome = Some(Err(e));
                    } else {
                        let e2 = e.clone();
                        self.first_error = Some(e);
                        match Discovery::start(self.feed_url.as_str()) {
                            Ok(d) => {
                                proof {
                                    let b = choose|b: Seq<char>|
                                        normalize_url_spec(v.feed_url) == Some(b) && d@ == DiscoveryView::fresh(
                                            v.feed_url,
                                            b,
                                        );
                                    assert(d@.queue.len() > 0);
                                }
                                self.discovery = Some(d);
                            },
                            Err(_) => {
                                self.outcome = Some(Err(e2));
                            },
                        }
                    }
                },
            }
        } else {
            match r {
                Ok(x) => {
                    let site = canonical_site_url(self.feed_url.as_str());
                    store.update_feed_source(self.feed_id, target.as_str(), site.as_str());
                    self.outcome = Some(Ok(x));
                },
                Err(_) => {
                    let k = self.next + 1;
                    self.fail_over(k);
                },
            }
        }
    }

    /// `on_fetched_at` at the current time.
    pub fn on_fetched(&mut self, store: &mut Store, response: Result<String, String>)
        requires
            old(self).wf(),
            old(self)@.awaits_fetch(),
            old(store).wf(),
        ensures
            final(self).wf(),
            final(store).wf(),
            exists|now: i64, now_ms: i64|
                (final(store)@, final(self)@) == #[trigger] old(self)@.on_fetched_spec(
                    old(store)@,
                    response_view(response),
                    now,
                    now_ms,
                ),
    {
        let (now, now_ms) = utc_now();
        self.on_fetched_at(store, response, now, now_ms);
    }

    /// Reports whether the URL asked for (`SyncStep::Verify`) answered with a feed.
    pub fn on_verified(&mut self, is_feed: bool)
        requires
            old(self).wf(),
            old(self)@.discovery matches Some(d) && d.next < d.queue.len(),
        ensures
            final(self).wf(),
            exists|d: DiscoveryView|
                old(self)@.discovery.unwrap().verified_next(d, is_feed) && final(self)@ == (FeedSyncView {
                    discovery: None,
                    ..old(self)@
                }).with_discovery(d),
    {
        let mut d = match self.discovery.take() {
            Some(d) => d,
            None => {
                return;
            },
        };
        d.on_verified(is_feed);
        self.take_discovery(d);
    }

    /// Takes the page asked for (`SyncStep::FetchPage`), or `None` where the fetch
    /// failed.
    pub fn on_page(&mut self, page: Option<String>)
        requires
            old(self).wf(),
            old(self)@.discovery matches Some(d) && d.next == d.queue.len() && !d.page_fetched,
        ensures
            final(self).wf(),
            final(self)@ == (FeedSyncView { discovery: None, ..old(self)@ }).with_discovery(
                old(self)@.discovery.unwrap().with_page(
                    match page {
                        Some(p) => Some(p@),
                        None => None,
                    },
                ),
            ),
    {
        let mut d = match self.discovery.take() {
            Some(d) => d,
            None => {
                return;
            },
        };
        d.on_page(page);
        self.take_discovery(d);
    }
}

} // verus!

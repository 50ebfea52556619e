use vstd::prelude::*;

use crate::like::{like, like_match, utf8_len, utf8_len_capped};
use crate::sorting::{
    insert_by, lemma_insert_by_step, lemma_insert_by_stop, lemma_stable_sort, sorted_by, stable_sort,
    strict_order,
};
use crate::text::{chars_of, extend_chars, trim_seq, trimmed};
use crate::time::{chrono_utc_civil, spec_utc_civil, utc_now};
use crate::urls::{
    canonical_host_chars, canonical_host_spec, feed_title_from_url, feed_title_from_url_spec, opt_view, same_host,
    same_host_spec,
};

verus! {

/// A subscribed feed, as the `feeds` table holds it.
#[derive(Debug)]
pub struct Feed {
    pub id: i64,
    pub url: String,
    pub title: Option<String>,
    pub site_url: Option<String>,
    pub added_at: i64,
}

pub struct FeedView {
    pub id: i64,
    pub url: Seq<char>,
    pub title: Option<Seq<char>>,
    pub site_url: Option<Seq<char>>,
    pub added_at: i64,
}

impl View for Feed {
    type V = FeedView;

    open spec fn view(&self) -> FeedView {
        FeedView {
            id: self.id,
            url: self.url@,
            title: opt_view(self.title),
            site_url: opt_view(self.site_url),
            added_at: self.added_at,
        }
    }
}

/// A stored entry of a feed, as the `entries` table holds it.
#[derive(Debug)]
pub struct EntryRow {
    pub id: i64,
    pub feed_id: i64,
    pub external_id: String,
    pub link: String,
    pub title: String,
    pub summary: String,
    pub content: String,
    pub published_at: Option<i64>,
    pub inserted_at: i64,
    pub read_at: Option<i64>,
}

pub struct EntryRowView {
    pub id: i64,
    pub feed_id: i64,
    pub external_id: Seq<char>,
    pub link: Seq<char>,
    pub title: Seq<char>,
    pub summary: Seq<char>,
    pub content: Seq<char>,
    pub published_at: Option<i64>,
    pub inserted_at: i64,
    pub read_at: Option<i64>,
}

impl View for EntryRow {
    type V = EntryRowView;

    open spec fn view(&self) -> EntryRowView {
        EntryRowView {
            id: self.id,
            feed_id: self.feed_id,
            external_id: self.external_id@,
            link: self.link@,
            title: self.title@,
            summary: self.summary@,
            content: self.content@,
            published_at: self.published_at,
            inserted_at: self.inserted_at,
            read_at: self.read_at,
        }
    }
}

/// An entry as the entry listings show it, joined with its feed.
#[derive(Debug)]
pub struct FeedEntry {
    pub id: i64,
    pub feed_id: i64,
    pub feed_title: Option<String>,
    pub feed_url: Option<String>,
    pub external_id: String,
    pub link: String,
    pub title: String,
    pub summary: String,
    pub content: String,
    pub published_at: Option<i64>,
    pub inserted_at: i64,
    pub read: bool,
}

pub struct FeedEntryView {
    pub id: i64,
    pub feed_id: i64,
    pub feed_title: Option<Seq<char>>,
    pub feed_url: Option<Seq<char>>,
    pub external_id: Seq<char>,
    pub link: Seq<char>,
    pub title: Seq<char>,
    pub summary: Seq<char>,
    pub content: Seq<char>,
    pub published_at: Option<i64>,
    pub inserted_at: i64,
    pub read: bool,
}

impl View for FeedEntry {
    type V = FeedEntryView;

    open spec fn view(&self) -> FeedEntryView {
        FeedEntryView {
            id: self.id,
            feed_id: self.feed_id,
            feed_title: opt_view(self.feed_title),
            feed_url: opt_view(self.feed_url),
            external_id: self.external_id@,
            link: self.link@,
            title: self.title@,
            summary: self.summary@,
            content: self.content@,
            published_at: self.published_at,
            inserted_at: self.inserted_at,
            read: self.read,
        }
    }
}

pub fn clone_opt_string(o: &Option<String>) -> (r: Option<String>)
    ensures
        r == *o,
{
    match o {
        Some(s) => Some(s.clone()),
        None => None,
    }
}

impl Clone for Feed {
    fn clone(&self) -> (r: Self)
        ensures
            r == *self,
    {
        Feed {
            id: self.id,
            url: self.url.clone(),
            title: clone_opt_string(&self.title),
            site_url: clone_opt_string(&self.site_url),
            added_at: self.added_at,
        }
    }
}

impl Clone for EntryRow {
    fn clone(&self) -> (r: Self)
        ensures
            r == *self,
    {
        EntryRow {
            id: self.id,
            feed_id: self.feed_id,
            external_id: self.external_id.clone(),
            link: self.link.clone(),
            title: self.title.clone(),
            summary: self.summary.clone(),
            content: self.content.clone(),
            published_at: self.published_at,
            inserted_at: self.inserted_at,
            read_at: self.read_at,
        }
    }
}

impl Clone for FeedEntry {
    fn clone(&self) -> (r: Self)
        ensures
            r == *self,
    {
        FeedEntry {
            id: self.id,
            feed_id: self.feed_id,
            feed_title: clone_opt_string(&self.feed_title),
            feed_url: clone_opt_string(&self.feed_url),
            external_id: self.external_id.clone(),
            link: self.link.clone(),
            title: self.title.clone(),
            summary: self.summary.clone(),
            content: self.content.clone(),
            published_at: self.published_at,
            inserted_at: self.inserted_at,
            read: self.read,
        }
    }
}

/// Why a store operation failed.
#[derive(Debug, Clone, Copy, PartialEq, Eq, Structural)]
pub enum StoreError {
    /// The largest row id has been used: no row can be inserted (SQLite's `SQLITE_FULL`
    /// for an `AUTOINCREMENT` table).
    Full,
    /// Rows handed to `Store::from_rows` break the store's invariant.
    InvalidRows,
    /// A search pattern longer than SQLite's limit for `LIKE` patterns.
    PatternTooComplex,
    /// An entry for a feed that the store does not hold (SQLite's failed `FOREIGN
    /// KEY` constraint).
    ForeignKey,
}

/// The local database of feeds and entries.
#[derive(Debug)]
pub struct Store {
    feeds: Vec<Feed>,
    entries: Vec<EntryRow>,
    feed_seq: i64,
    entry_seq: i64,
}

pub struct StoreView {
    pub feeds: Seq<FeedView>,
    pub entries: Seq<EntryRowView>,
    /// The largest feed id ever handed out.
    pub feed_seq: i64,
    /// The largest entry id ever handed out.
    pub entry_seq: i64,
}

/// Entries that do not belong to feed `id`.
pub open spec fn not_of_feed(id: i64) -> spec_fn(EntryRowView) -> bool {
    |e: EntryRowView| e.feed_id != id
}

pub open spec fn feeds_view(v: Seq<Feed>) -> Seq<FeedView> {
    v.map_values(|f: Feed| f@)
}

pub open spec fn entries_view(v: Seq<EntryRow>) -> Seq<EntryRowView> {
    v.map_values(|e: EntryRow| e@)
}

impl View for Store {
    type V = StoreView;

    closed spec fn view(&self) -> StoreView {
        StoreView {
            feeds: feeds_view(self.feeds@),
            entries: entries_view(self.entries@),
            feed_seq: self.feed_seq,
            entry_seq: self.entry_seq,
        }
    }
}

/// Feed ids are positive, at most the last id handed out, and increase along the
/// table (rowid order); no two feeds share a URL.
pub open spec fn feeds_wf(fs: Seq<FeedView>, seq: i64) -> bool {
    &&& forall|i: int| 0 <= i < fs.len() ==> 1 <= #[trigger] fs[i].id <= seq
    &&& forall|i: int, j: int| 0 <= i < j < fs.len() ==> fs[i].id < fs[j].id
    &&& forall|i: int, j: int|
        0 <= i < fs.len() && 0 <= j < fs.len() && i != j ==> fs[i].url != fs[j].url
}

/// Entry ids are positive, at most the last id handed out, and increase along the
/// table; no two entries of one feed share an external id.
pub open spec fn entries_wf(es: Seq<EntryRowView>, seq: i64) -> bool {
    &&& forall|i: int| 0 <= i < es.len() ==> 1 <= #[trigger] es[i].id <= seq
    &&& forall|i: int, j: int| 0 <= i < j < es.len() ==> es[i].id < es[j].id
    &&& forall|i: int, j: int|
        0 <= i < es.len() && 0 <= j < es.len() && i != j ==> !(es[i].feed_id == es[j].feed_id
            && es[i].external_id == es[j].external_id)
}

impl StoreView {
    pub open spec fn wf(self) -> bool {
        &&& self.feed_seq >= 0
        &&& self.entry_seq >= 0
        &&& feeds_wf(self.feeds, self.feed_seq)
        &&& entries_wf(self.entries, self.entry_seq)
    }

    pub open spec fn has_feed(self, id: i64) -> bool {
        exists|i: int| 0 <= i < self.feeds.len() && self.feeds[i].id == id
    }

    /// The position of the feed with the given id.
    pub open spec fn feed_pos(self, id: i64) -> int {
        choose|i: int| 0 <= i < self.feeds.len() && self.feeds[i].id == id
    }

    pub open spec fn get_feed(self, id: i64) -> Option<FeedView> {
        if self.has_feed(id) {
            Some(self.feeds[self.feed_pos(id)])
        } else {
            None
        }
    }

    pub open spec fn has_url(self, url: Seq<char>) -> bool {
        exists|i: int| 0 <= i < self.feeds.len() && self.feeds[i].url == url
    }

    pub open spec fn url_pos(self, url: Seq<char>) -> int {
        choose|i: int| 0 <= i < self.feeds.len() && self.feeds[i].url == url
    }

    pub open spec fn with_feeds(self, feeds: Seq<FeedView>) -> StoreView {
        StoreView { feeds, ..self }
    }

    /// `remove_feed`: deletes the feed row and, as its foreign key cascades, the
    /// feed's entries; counts the deleted feed rows.
    pub open spec fn remove_feed(self, id: i64) -> (StoreView, usize) {
        if self.has_feed(id) {
            (
                StoreView {
                    feeds: self.feeds.remove(self.feed_pos(id)),
                    entries: self.entries.filter(not_of_feed(id)),
                    ..self
                },
                1,
            )
        } else {
            (self, 0)
        }
    }

    /// `set_feed_title`: sets the trimmed title where it is not empty.
    pub open spec fn set_feed_title(self, id: i64, title: Seq<char>) -> (StoreView, usize) {
        let t = trim_seq(title);
        if t.len() == 0 || !self.has_feed(id) {
            (self, 0)
        } else {
            let p = self.feed_pos(id);
            (self.with_feeds(self.feeds.update(p, FeedView { title: Some(t), ..self.feeds[p] })), 1)
        }
    }

    /// `update_feed_source`: moves a feed to another URL and site, unless another feed
    /// already has that URL (the unique constraint refuses it, and nothing changes).
    pub open spec fn update_feed_source(self, id: i64, feed_url: Seq<char>, site_url: Seq<char>) -> (
        StoreView,
        usize,
    ) {
        if !self.has_feed(id) {
            (self, 0)
        } else {
            let p = self.feed_pos(id);
            if exists|j: int| 0 <= j < self.feeds.len() && j != p && self.feeds[j].url == feed_url {
                (self, 0)
            } else {
                (
                    self.with_feeds(
                        self.feeds.update(
                            p,
                            FeedView { url: feed_url, site_url: Some(site_url), ..self.feeds[p] },
                        ),
                    ),
                    1,
                )
            }
        }
    }
    /// Whether an existing feed `e` belongs to the same site as a feed being added
    /// with URL `url` from site `site`.
    pub open spec fn same_channel(e: FeedView, url: Seq<char>, site: Seq<char>) -> bool {
        ||| same_host_spec(e.url, url)
        ||| same_host_spec(e.url, site)
        ||| match e.site_url {
            Some(x) => same_host_spec(x, url) || same_host_spec(x, site),
            None => false,
        }
    }

    pub open spec fn has_channel(self, url: Seq<char>, site: Seq<char>) -> bool {
        exists|k: int|
            0 <= k < self.feeds.len() && #[trigger] StoreView::same_channel(self.feeds[k], url, site)
    }

    /// The first feed (in table order) of the same site.
    pub open spec fn channel_pos(self, url: Seq<char>, site: Seq<char>) -> int {
        choose|k: int|
            0 <= k < self.feeds.len() && StoreView::same_channel(self.feeds[k], url, site) && forall|
                j: int,
            | 0 <= j < k ==> !#[trigger] StoreView::same_channel(self.feeds[j], url, site)
    }

    /// The title `add_feed` stores: the sanitized title, else one made from the URL.
    pub open spec fn add_feed_title(url: Seq<char>, title_in: Option<Seq<char>>) -> Seq<char> {
        match sanitize_title_spec(title_in) {
            Some(t) => t,
            None => feed_title_from_url_spec(url),
        }
    }

    /// `add_feed` for an URL that the feed at `p` has already: its title is filled
    /// in where it has none.
    #[verifier::opaque]
    pub open spec fn add_existing(self, p: int, title: Seq<char>, site: Option<Seq<char>>) -> (
        StoreView,
        FeedView,
    ) {
        let f = self.feeds[p];
        if f.title.is_none() {
            (
                self.with_feeds(
                    self.feeds.update(
                        p,
                        FeedView { title: Some(title), site_url: coalesce(site, f.site_url), ..f },
                    ),
                ),
                FeedView { title: Some(title), site_url: site, ..f },
            )
        } else {
            (self, f)
        }
    }

    /// `add_feed` for a new URL of the site of the feed at `k`: that feed moves to
    /// the URL.
    #[verifier::opaque]
    pub open spec fn add_moved(self, k: int, url: Seq<char>, title: Seq<char>, ns: Seq<char>) -> (
        StoreView,
        FeedView,
    ) {
        let e = self.feeds[k];
        (
            self.with_feeds(
                self.feeds.update(k, FeedView { url, title: Some(title), site_url: Some(ns), ..e }),
            ),
            FeedView {
                url,
                title: Some(title),
                site_url: if e.site_url.is_none() {
                    Some(ns)
                } else {
                    e.site_url
                },
                ..e
            },
        )
    }

    /// `add_feed` inserting a new feed row with the next id.
    #[verifier::opaque]
    pub open spec fn add_inserted(self, url: Seq<char>, title: Option<Seq<char>>, site: Option<Seq<char>>, now: i64) -> Result<
        (StoreView, FeedView),
        StoreError,
    > {
        if self.feed_seq == i64::MAX {
            Err(StoreError::Full)
        } else {
            let f = FeedView { id: (self.feed_seq + 1) as i64, url, title, site_url: site, added_at: now };
            Ok((StoreView { feeds: self.feeds.push(f), feed_seq: f.id, ..self }, f))
        }
    }

    /// `add_feed`: the URL exists already (its title is filled in where it has
    /// none); or, given a site, the first feed of the same site moves to the URL;
    /// or a new feed is inserted. Returns the new state and the feed as `add_feed`
    /// reports it.
    pub open spec fn add_feed(
        self,
        url: Seq<char>,
        title_in: Option<Seq<char>>,
        site: Option<Seq<char>>,
        now: i64,
    ) -> Result<(StoreView, FeedView), StoreError> {
        let title = StoreView::add_feed_title(url, title_in);
        if self.has_url(url) {
            Ok(self.add_existing(self.url_pos(url), title, site))
        } else if site.is_some() && self.has_channel(url, site.unwrap()) {
            Ok(self.add_moved(self.channel_pos(url, site.unwrap()), url, title, site.unwrap()))
        } else {
            self.add_inserted(url, Some(title), site, now)
        }
    }
}

/// `sanitize_title`: the trimmed title, or none where it is empty.
pub open spec fn sanitize_title_spec(v: Option<Seq<char>>) -> Option<Seq<char>> {
    match v {
        Some(t) => if trim_seq(t).len() == 0 {
            None
        } else {
            Some(trim_seq(t))
        },
        None => None,
    }
}

/// SQL's `COALESCE` of two optional texts.
pub open spec fn coalesce(a: Option<Seq<char>>, b: Option<Seq<char>>) -> Option<Seq<char>> {
    if a.is_some() {
        a
    } else {
        b
    }
}

/// Whether a result of `Store::add_feed` is what `StoreView::add_feed` gives, with
/// the store left unchanged on an error.
pub open spec fn add_feed_result(
    before: StoreView,
    after: StoreView,
    r: Result<Feed, StoreError>,
    expected: Result<(StoreView, FeedView), StoreError>,
) -> bool {
    match (r, expected) {
        (Ok(f), Ok(x)) => after == x.0 && f@ == x.1,
        (Err(e), Err(e2)) => e == e2 && after == before,
        _ => false,
    }
}

pub fn sanitize_title(value: Option<String>) -> (r: Option<String>)
    ensures
        opt_view(r) == sanitize_title_spec(opt_view(value)),
{
    match value {
        Some(v) => {
            let t = trimmed(v.as_str());
            if t.as_str().unicode_len() == 0 {
                None
            } else {
                Some(t)
            }
        },
        None => None,
    }
}

pub proof fn lemma_feed_pos_unique(s: StoreView, id: i64, i: int)
    requires
        s.wf(),
        0 <= i < s.feeds.len(),
        s.feeds[i].id == id,
    ensures
        s.has_feed(id),
        s.feed_pos(id) == i,
{
    let p = s.feed_pos(id);
    if p != i {
        if p < i {
            assert(s.feeds[p].id < s.feeds[i].id);
        } else {
            assert(s.feeds[i].id < s.feeds[p].id);
        }
    }
}

pub proof fn lemma_url_pos_unique(s: StoreView, url: Seq<char>, i: int)
    requires
        s.wf(),
        0 <= i < s.feeds.len(),
        s.feeds[i].url == url,
    ensures
        s.has_url(url),
        s.url_pos(url) == i,
{
}

impl Store {
    pub open spec fn wf(&self) -> bool {
        self@.wf()
    }

    /// An empty store.
    pub fn new() -> (r: Store)
        ensures
            r.wf(),
            r@.feeds.len() == 0,
            r@.entries.len() == 0,
            r@.feed_seq == 0,
            r@.entry_seq == 0,
    {
        let r = Store { feeds: Vec::new(), entries: Vec::new(), feed_seq: 0, entry_seq: 0 };
        assert(r@.feeds =~= Seq::<FeedView>::empty());
        assert(r@.entries =~= Seq::<EntryRowView>::empty());
        r
    }

    /// A store holding the given rows, where they meet the store's invariant.
    pub fn from_rows(feeds: Vec<Feed>, entries: Vec<EntryRow>, feed_seq: i64, entry_seq: i64) -> (r:
        Result<Store, StoreError>)
        ensures
            match r {
                Ok(s) => {
                    &&& s.wf()
                    &&& s@ == (StoreView {
                        feeds: feeds_view(feeds@),
                        entries: entries_view(entries@),
                        feed_seq,
                        entry_seq,
                    })
                },
                Err(e) => e is InvalidRows && !(StoreView {
                    feeds: feeds_view(feeds@),
                    entries: entries_view(entries@),
                    feed_seq,
                    entry_seq,
                }).wf(),
            },
    {
        let s = Store { feeds, entries, feed_seq, entry_seq };
        if s.check_wf() {
            Ok(s)
        } else {
            Err(StoreError::InvalidRows)
        }
    }

    fn check_wf(&self) -> (r: bool)
        ensures
            r == self.wf(),
    {
        if self.feed_seq < 0 || self.entry_seq < 0 {
            return false;
        }
        let ghost fs = self@.feeds;
        let n = self.feeds.len();
        let mut i: usize = 0;
        while i < n
            invariant
                n == self.feeds.len(),
                fs == self@.feeds,
                i <= n,
                forall|k: int| 0 <= k < i ==> 1 <= #[trigger] fs[k].id <= self.feed_seq,
                forall|a: int, b: int| 0 <= a < b < i ==> fs[a].id < fs[b].id,
                forall|a: int, b: int| 0 <= a < i && 0 <= b < i && a != b ==> fs[a].url != fs[b].url,
            decreases n - i,
        {
            let f = &self.feeds[i];
            if f.id < 1 || f.id > self.feed_seq {
                return false;
            }
            if i > 0 && self.feeds[i - 1].id >= f.id {
                assert(fs[i - 1].id >= fs[i as int].id);
                return false;
            }
            let mut j: usize = 0;
            while j < i
                invariant
                    n == self.feeds.len(),
                    fs == self@.feeds,
                    j <= i < n,
                    forall|b: int| 0 <= b < j ==> fs[b].url != fs[i as int].url,
                decreases i - j,
            {
                if self.feeds[j].url == self.feeds[i].url {
                    assert(fs[j as int].url == fs[i as int].url);
                    return false;
                }
                j = j + 1;
            }
            proof {
                assert forall|a: int, b: int| 0 <= a < b < i + 1 implies fs[a].id < fs[b].id by {
                    if b == i && a < i - 1 {
                        assert(fs[a].id < fs[i - 1].id);
                    }
                }
            }
            i = i + 1;
        }
        let ghost es = self@.entries;
        let m = self.entries.len();
        let mut i: usize = 0;
        while i < m
            invariant
                m == self.entries.len(),
                es == self@.entries,
                fs == self@.feeds,
                self.feed_seq >= 0 && self.entry_seq >= 0,
                feeds_wf(fs, self.feed_seq),
                i <= m,
                forall|k: int| 0 <= k < i ==> 1 <= #[trigger] es[k].id <= self.entry_seq,
                forall|a: int, b: int| 0 <= a < b < i ==> es[a].id < es[b].id,
                forall|a: int, b: int|
                    0 <= a < i && 0 <= b < i && a != b ==> !(es[a].feed_id == es[b].feed_id
                        && es[a].external_id == es[b].external_id),
            decreases m - i,
        {
            let e = &self.entries[i];
            if e.id < 1 || e.id > self.entry_seq {
                return false;
            }
            if i > 0 && self.entries[i - 1].id >= e.id {
                assert(es[i - 1].id >= es[i as int].id);
                return false;
            }
            let mut j: usize = 0;
            while j < i
                invariant
                    m == self.entries.len(),
                    es == self@.entries,
                    j <= i < m,
                    forall|b: int|
                        0 <= b < j ==> !(es[b].feed_id == es[i as int].feed_id && es[b].external_id
                            == es[i as int].external_id),
                decreases i - j,
            {
                if self.entries[j].feed_id == self.entries[i].feed_id
                    && self.entries[j].external_id == self.entries[i].external_id {
                    assert(es[j as int].feed_id == es[i as int].feed_id && es[j as int].external_id
                        == es[i as int].external_id);
                    return false;
                }
                j = j + 1;
            }
            proof {
                assert forall|a: int, b: int| 0 <= a < b < i + 1 implies es[a].id < es[b].id by {
                    if b == i && a < i - 1 {
                        assert(es[a].id < es[i - 1].id);
                    }
                }
            }
            i = i + 1;
        }
        true
    }

    /// The feed rows, in table order.
    pub fn feed_rows(&self) -> (r: &Vec<Feed>)
        ensures
            feeds_view(r@) == self@.feeds,
    {
        &self.feeds
    }

    /// The entry rows, in table order.
    pub fn entry_rows(&self) -> (r: &Vec<EntryRow>)
        ensures
            entries_view(r@) == self@.entries,
    {
        &self.entries
    }

    /// The largest feed id handed out so far.
    pub fn feed_seq(&self) -> (r: i64)
        ensures
            r == self@.feed_seq,
    {
        self.feed_seq
    }

    /// The largest entry id handed out so far.
    pub fn entry_seq(&self) -> (r: i64)
        ensures
            r == self@.entry_seq,
    {
        self.entry_seq
    }

    pub(crate) fn find_feed(&self, id: i64) -> (r: Option<usize>)
        requires
            self.wf(),
        ensures
            match r {
                Some(i) => i < self@.feeds.len() && self@.has_feed(id) && self@.feed_pos(id) == i,
                None => !self@.has_feed(id),
            },
    {
        let mut i: usize = 0;
        while i < self.feeds.len()
            invariant
                i <= self.feeds.len(),
                self.wf(),
                forall|k: int| 0 <= k < i ==> self@.feeds[k].id != id,
            decreases self.feeds.len() - i,
        {
            if self.feeds[i].id == id {
                proof {
                    lemma_feed_pos_unique(self@, id, i as int);
                }
                return Some(i);
            }
            i = i + 1;
        }
        None
    }

    /// The feed with the given id.
    pub fn get_feed(&self, id: i64) -> (r: Option<Feed>)
        requires
            self.wf(),
        ensures
            match r {
                Some(f) => self@.get_feed(id) == Some(f@),
                None => self@.get_feed(id).is_none(),
            },
    {
        match self.find_feed(id) {
            Some(i) => Some(self.feeds[i].clone()),
            None => None,
        }
    }

    /// Deletes the feed with the given id and its entries; returns how many feeds
    /// were deleted.
    pub fn remove_feed(&mut self, id: i64) -> (r: usize)
        requires
            old(self).wf(),
        ensures
            final(self).wf(),
            (final(self)@, r) == old(self)@.remove_feed(id),
    {
        match self.find_feed(id) {
            Some(i) => {
                let ghost old_view = self@;
                self.feeds.remove(i);
                proof {
                    assert(self@.feeds =~= old_view.feeds.remove(i as int));
                    assert(self@ == old_view.with_feeds(old_view.feeds.remove(i as int)));
                    let fs = self@.feeds;
                    assert forall|a: int, b: int| 0 <= a < b < fs.len() implies fs[a].id < fs[b].id by {
                        let a0 = if a < i { a } else { a + 1 };
                        let b0 = if b < i { b } else { b + 1 };
                        assert(old_view.feeds[a0].id < old_view.feeds[b0].id);
                    }
                    assert forall|a: int, b: int|
                        0 <= a < fs.len() && 0 <= b < fs.len() && a != b implies fs[a].url
                        != fs[b].url by {
                        let a0 = if a < i { a } else { a + 1 };
                        let b0 = if b < i { b } else { b + 1 };
                        assert(old_view.feeds[a0].url != old_view.feeds[b0].url);
                    }
                    assert forall|a: int| 0 <= a < fs.len() implies 1 <= #[trigger] fs[a].id
                        <= self.feed_seq by {
                        let a0 = if a < i { a } else { a + 1 };
                        assert(1 <= old_view.feeds[a0].id);
                    }
                }
                self.drop_entries_of(id);
                1
            },
            None => 0,
        }
    }

    /// Deletes the entries of feed `id`.
    fn drop_entries_of(&mut self, id: i64)
        requires
            old(self).wf(),
        ensures
            final(self).wf(),
            final(self)@ == old(self)@.with_entries(old(self)@.entries.filter(not_of_feed(id))),
    {
        let ghost pred = not_of_feed(id);
        let ghost before = self@;
        let mut kept: Vec<EntryRow> = Vec::new();
        let n = self.entries.len();
        let mut i: usize = 0;
        while i < n
            invariant
                n == self.entries.len(),
                self@ == before,
                i <= n,
                pred == not_of_feed(id),
                entries_view(kept@) == before.entries.take(i as int).filter(pred),
            decreases n - i,
        {
            let e = &self.entries[i];
            proof {
                let t = before.entries.take(i + 1);
                assert(t.drop_last() =~= before.entries.take(i as int));
                assert(t.last() == before.entries[i as int]);
                assert(e@ == before.entries[i as int]);
                reveal_with_fuel(Seq::filter, 1);
                assert(t.filter(pred) == if pred(t.last()) {
                    t.drop_last().filter(pred).push(t.last())
                } else {
                    t.drop_last().filter(pred)
                });
            }
            if e.feed_id != id {
                kept.push(e.clone());
                proof {
                    assert(entries_view(kept@) =~= before.entries.take(i as int).filter(pred).push(
                        before.entries[i as int],
                    ));
                }
            }
            i = i + 1;
        }
        proof {
            assert(before.entries.take(n as int) =~= before.entries);
            lemma_filter_entries_wf(before.entries, before.entry_seq, pred);
        }
        self.entries = kept;
        assert(self@ == before.with_entries(before.entries.filter(pred)));
    }

    fn find_url(&self, url: &String) -> (r: Option<usize>)
        requires
            self.wf(),
        ensures
            match r {
                Some(i) => i < self@.feeds.len() && self@.has_url(url@) && self@.url_pos(url@) == i,
                None => !self@.has_url(url@),
            },
    {
        let mut i: usize = 0;
        while i < self.feeds.len()
            invariant
                i <= self.feeds.len(),
                self.wf(),
                forall|k: int| 0 <= k < i ==> self@.feeds[k].url != url@,
            decreases self.feeds.len() - i,
        {
            if self.feeds[i].url == *url {
                proof {
                    assert(self@.feeds[i as int].url == url@);
                    lemma_url_pos_unique(self@, url@, i as int);
                }
                return Some(i);
            }
            i = i + 1;
        }
        None
    }

    fn same_channel_exec(e: &Feed, url: &str, site: &str) -> (r: bool)
        ensures
            r == StoreView::same_channel(e@, url@, site@),
    {
        if same_host(e.url.as_str(), url) || same_host(e.url.as_str(), site) {
            return true;
        }
        match &e.site_url {
            Some(x) => same_host(x.as_str(), url) || same_host(x.as_str(), site),
            None => false,
        }
    }

    fn find_channel(&self, url: &str, site: &str) -> (r: Option<usize>)
        requires
            self.wf(),
        ensures
            match r {
                Some(k) => k < self@.feeds.len() && self@.has_channel(url@, site@) && self@.channel_pos(
                    url@,
                    site@,
                ) == k,
                None => !self@.has_channel(url@, site@),
            },
    {
        let mut i: usize = 0;
        while i < self.feeds.len()
            invariant
                i <= self.feeds.len(),
                self.wf(),
                forall|j: int|
                    0 <= j < i ==> !#[trigger] StoreView::same_channel(self@.feeds[j], url@, site@),
            decreases self.feeds.len() - i,
        {
            if Self::same_channel_exec(&self.feeds[i], url, site) {
                proof {
                    let k = self@.channel_pos(url@, site@);
                    assert(StoreView::same_channel(self@.feeds[i as int], url@, site@));
                    if k != i {
                        if k < i {
                        } else {
                            assert(!StoreView::same_channel(self@.feeds[i as int], url@, site@));
                        }
                    }
                }
                return Some(i);
            }
            i = i + 1;
        }
        None
    }

    /// Fills in the title of the feed at `p` (which has none), as `add_feed` does for
    /// an URL that exists already.
    fn fill_title(&mut self, p: usize, title_s: String, site_url: Option<String>) -> (r: Feed)
        requires
            old(self).wf(),
            p < old(self)@.feeds.len(),
            old(self)@.feeds[p as int].title.is_none(),
        ensures
            final(self).wf(),
            (final(self)@, r@) == old(self)@.add_existing(p as int, title_s@, opt_view(site_url)),
    {
        reveal(StoreView::add_existing);
        let ghost before = self@;
        let old_f = self.feeds[p].clone();
        let db_site = match &site_url {
            Some(x) => Some(x.clone()),
            None => clone_opt_string(&old_f.site_url),
        };
        let row = Feed {
            id: old_f.id,
            url: old_f.url.clone(),
            title: Some(title_s.clone()),
            site_url: db_site,
            added_at: old_f.added_at,
        };
        self.feeds.set(p, row);
        proof {
            assert(self@.feeds =~= before.feeds.update(p as int, self@.feeds[p as int]));
            lemma_update_keeps_wf(before, p as int, self@.feeds[p as int]);
        }
        Feed {
            id: old_f.id,
            url: old_f.url,
            title: Some(title_s),
            site_url: site_url,
            added_at: old_f.added_at,
        }
    }

    /// Moves the feed at `k` to `url`, as `add_feed` does for a feed of the same site.
    fn move_to_url(&mut self, k: usize, url_s: String, title_s: String, ns: &String) -> (r: Feed)
        requires
            old(self).wf(),
            k < old(self)@.feeds.len(),
            !old(self)@.has_url(url_s@),
        ensures
            final(self).wf(),
            (final(self)@, r@) == old(self)@.add_moved(k as int, url_s@, title_s@, ns@),
    {
        reveal(StoreView::add_moved);
        let ghost before = self@;
        let e = self.feeds[k].clone();
        let row = Feed {
            id: e.id,
            url: url_s.clone(),
            title: Some(title_s.clone()),
            site_url: Some(ns.clone()),
            added_at: e.added_at,
        };
        self.feeds.set(k, row);
        proof {
            assert(self@.feeds =~= before.feeds.update(k as int, self@.feeds[k as int]));
            lemma_update_keeps_wf(before, k as int, self@.feeds[k as int]);
        }
        let returned_site = match &e.site_url {
            Some(x) => Some(x.clone()),
            None => Some(ns.clone()),
        };
        Feed { id: e.id, url: url_s, title: Some(title_s), site_url: returned_site, added_at: e.added_at }
    }

    /// Inserts a new feed row with the next id.
    fn insert_feed(&mut self, url_s: String, title: Option<String>, site_url: Option<String>, now: i64) -> (r:
        Result<Feed, StoreError>)
        requires
            old(self).wf(),
            !old(self)@.has_url(url_s@),
        ensures
            final(self).wf(),
            add_feed_result(
                old(self)@,
                final(self)@,
                r,
                old(self)@.add_inserted(url_s@, opt_view(title), opt_view(site_url), now),
            ),
    {
        reveal(StoreView::add_inserted);
        let ghost before = self@;
        if self.feed_seq == i64::MAX {
            return Err(StoreError::Full);
        }
        let id = self.feed_seq + 1;
        let f = Feed { id, url: url_s, title, site_url, added_at: now };
        let ret = f.clone();
        self.feeds.push(f);
        self.feed_seq = id;
        proof {
            assert(self@.feeds =~= before.feeds.push(ret@));
            let fs = self@.feeds;
            assert forall|a: int, b: int| 0 <= a < b < fs.len() implies fs[a].id < fs[b].id by {
                if b == fs.len() - 1 {
                    assert(1 <= before.feeds[a].id <= before.feed_seq);
                }
            }
            assert forall|a: int, b: int|
                0 <= a < fs.len() && 0 <= b < fs.len() && a != b implies fs[a].url != fs[b].url by {
                if b == fs.len() - 1 {
                    assert(!(before.feeds[a].url == url_s@));
                }
                if a == fs.len() - 1 {
                    assert(!(before.feeds[b].url == url_s@));
                }
            }
            assert forall|a: int| 0 <= a < fs.len() implies 1 <= #[trigger] fs[a].id <= self.feed_seq by {
                if a < fs.len() - 1 {
                    assert(1 <= before.feeds[a].id <= before.feed_seq);
                }
            }
        }
        Ok(ret)
    }

    /// Adds a feed (see `StoreView::add_feed`) at time `now`.
    #[verifier::rlimit(100)]
    #[verifier::spinoff_prover]
    pub fn add_feed_at(&mut self, url: &str, title: Option<String>, site_url: Option<String>, now: i64) -> (r:
        Result<Feed, StoreError>)
        requires
            old(self).wf(),
        ensures
            final(self).wf(),
            add_feed_result(
                old(self)@,
                final(self)@,
                r,
                old(self)@.add_feed(url@, opt_view(title), opt_view(site_url), now),
            ),
    {
        let ghost before = self@;
        let title_s = match sanitize_title(title) {
            Some(t) => t,
            None => feed_title_from_url(url),
        };
        let url_s = String::from_str(url);
        if let Some(p) = self.find_url(&url_s) {
            if self.feeds[p].title.is_none() {
                return Ok(self.fill_title(p, title_s, site_url));
            }
            proof {
                reveal(StoreView::add_existing);
            }
            return Ok(self.feeds[p].clone());
        }
        if let Some(ns) = &site_url {
            if let Some(k) = self.find_channel(url, ns.as_str()) {
                return Ok(self.move_to_url(k, url_s, title_s, ns));
            }
        }
        self.insert_feed(url_s, Some(title_s), site_url, now)
    }

    /// Adds a feed at the current time. The store changes as
    /// `StoreView::add_feed` says for some `now` read from the clock.
    pub fn add_feed(&mut self, url: &str, title: Option<String>, site_url: Option<String>) -> (r:
        Result<Feed, StoreError>)
        requires
            old(self).wf(),
        ensures
            final(self).wf(),
            exists|now: i64|
                add_feed_result(
                    old(self)@,
                    final(self)@,
                    r,
                    old(self)@.add_feed(url@, opt_view(title), opt_view(site_url), now),
                ),
    {
        let (now, _) = utc_now();
        self.add_feed_at(url, title, site_url, now)
    }

    /// Sets a feed's title to the trimmed text, where that is not empty; returns
    /// how many feeds changed.
    pub fn set_feed_title(&mut self, feed_id: i64, title: &str) -> (r: usize)
        requires
            old(self).wf(),
        ensures
            final(self).wf(),
            (final(self)@, r) == old(self)@.set_feed_title(feed_id, title@),
    {
        let t = trimmed(title);
        if t.as_str().unicode_len() == 0 {
            return 0;
        }
        match self.find_feed(feed_id) {
            Some(p) => {
                let ghost before = self@;
                let f = self.feeds[p].clone();
                let row = Feed { id: f.id, url: f.url, title: Some(t), site_url: f.site_url, added_at: f.added_at };
                self.feeds.set(p, row);
                proof {
                    assert(self@.feeds =~= before.feeds.update(p as int, self@.feeds[p as int]));
                    lemma_update_keeps_wf(before, p as int, self@.feeds[p as int]);
                }
                1
            },
            None => 0,
        }
    }

    /// Moves a feed to another feed URL and site URL; returns 0 where the feed does
    /// not exist or another feed has that URL already, 1 otherwise.
    pub fn update_feed_source(&mut self, feed_id: i64, feed_url: &str, site_url: &str) -> (r: usize)
        requires
            old(self).wf(),
        ensures
            final(self).wf(),
            (final(self)@, r) == old(self)@.update_feed_source(feed_id, feed_url@, site_url@),
    {
        let p = match self.find_feed(feed_id) {
            Some(p) => p,
            None => return 0,
        };
        let url_s = String::from_str(feed_url);
        let mut j: usize = 0;
        while j < self.feeds.len()
            invariant
                self.wf(),
                p < self.feeds.len(),
                self@.has_feed(feed_id),
                self@.feed_pos(feed_id) == p,
                url_s@ == feed_url@,
                self@ == old(self)@,
                j <= self.feeds.len(),
                forall|k: int| 0 <= k < j && k != p ==> self@.feeds[k].url != url_s@,
            decreases self.feeds.len() - j,
        {
            if j != p && self.feeds[j].url == url_s {
                assert(self@.feeds[j as int].url == feed_url@);
                return 0;
            }
            j = j + 1;
        }
        let ghost before = self@;
        let f = self.feeds[p].clone();
        let row = Feed {
            id: f.id,
            url: url_s,
            title: f.title,
            site_url: Some(String::from_str(site_url)),
            added_at: f.added_at,
        };
        self.feeds.set(p, row);
        proof {
            assert(self@.feeds =~= before.feeds.update(p as int, self@.feeds[p as int]));
            if before.has_url(feed_url@) {
                let w = choose|w: int| 0 <= w < before.feeds.len() && before.feeds[w].url == feed_url@;
                assert(w == p);
            }
            lemma_update_keeps_wf(before, p as int, self@.feeds[p as int]);
        }
        1
    }

    /// The number of feeds.
    pub fn count_feeds(&self) -> (r: i64)
        requires
            self.wf(),
        ensures
            r == self@.feeds.len(),
    {
        proof {
            lemma_feeds_len_bound(self@.feeds, self.feed_seq);
        }
        self.feeds.len() as i64
    }
}

/// Changing one feed row keeps the invariant when its id stays and its URL is
/// either the old one or used by no feed.
proof fn lemma_update_keeps_wf(s: StoreView, p: int, f: FeedView)
    requires
        s.wf(),
        0 <= p < s.feeds.len(),
        f.id == s.feeds[p].id,
        f.url == s.feeds[p].url || !s.has_url(f.url),
    ensures
        s.with_feeds(s.feeds.update(p, f)).wf(),
{
    let fs = s.feeds.update(p, f);
    assert forall|a: int, b: int| 0 <= a < b < fs.len() implies fs[a].id < fs[b].id by {
        assert(s.feeds[a].id < s.feeds[b].id);
    }
    assert forall|a: int, b: int|
        0 <= a < fs.len() && 0 <= b < fs.len() && a != b implies fs[a].url != fs[b].url by {
        if a == p && f.url != s.feeds[p].url {
            assert(!(s.feeds[b].url == f.url));
        } else if b == p && f.url != s.feeds[p].url {
            assert(!(s.feeds[a].url == f.url));
        } else {
            assert(s.feeds[a].url != s.feeds[b].url);
        }
    }
    assert forall|a: int| 0 <= a < fs.len() implies 1 <= #[trigger] fs[a].id <= s.feed_seq by {
        assert(1 <= s.feeds[a].id <= s.feed_seq);
    }
}

/// Positive, strictly increasing ids up to `seq` number at most `seq`.
pub proof fn lemma_feeds_len_bound(fs: Seq<FeedView>, seq: i64)
    requires
        feeds_wf(fs, seq),
        seq >= 0,
    ensures
        fs.len() <= seq,
{
    if fs.len() > 0 {
        assert forall|k: int| 0 <= k < fs.len() implies fs[k].id >= k + 1 by {
            lemma_ids_grow(fs, seq, k);
        }
        assert(fs[fs.len() - 1].id >= fs.len());
        assert(fs[fs.len() - 1].id <= seq);
    }
}

proof fn lemma_ids_grow(fs: Seq<FeedView>, seq: i64, k: int)
    requires
        feeds_wf(fs, seq),
        0 <= k < fs.len(),
    ensures
        fs[k].id >= k + 1,
    decreases k,
{
    if k > 0 {
        lemma_ids_grow(fs, seq, k - 1);
        assert(fs[k - 1].id < fs[k].id);
    }
}

// ---------------------------------------------------------------------------
// Entries
// ---------------------------------------------------------------------------


/// `x` clamped to the range of `i64` (what saturating arithmetic gives).
pub open spec fn clamp_i64(x: int) -> i64 {
    if x > i64::MAX {
        i64::MAX
    } else if x < i64::MIN {
        i64::MIN
    } else {
        x as i64
    }
}

pub fn saturating_sub_i64(a: i64, b: i64) -> (r: i64)
    ensures
        r == clamp_i64(a - b),
{
    let x: i128 = (a as i128) - (b as i128);
    if x > (i64::MAX as i128) {
        i64::MAX
    } else if x < (i64::MIN as i128) {
        i64::MIN
    } else {
        x as i64
    }
}

pub fn saturating_mul_i64(a: i64, b: i64) -> (r: i64)
    ensures
        r == clamp_i64(a * b),
{
    assert(-0x4000_0000_0000_0000_0000_0000_0000_0000 <= (a as int) * (b as int)
        <= 0x4000_0000_0000_0000_0000_0000_0000_0000) by (nonlinear_arith)
        requires
            -0x8000_0000_0000_0000 <= a <= 0x7fff_ffff_ffff_ffff,
            -0x8000_0000_0000_0000 <= b <= 0x7fff_ffff_ffff_ffff,
    ;
    let x: i128 = (a as i128) * (b as i128);
    if x > (i64::MAX as i128) {
        i64::MAX
    } else if x < (i64::MIN as i128) {
        i64::MIN
    } else {
        x as i64
    }
}

/// The cut-off of `prune_read_entries_older_than_hours`: `max_age_hours` before `now`,
/// with saturating arithmetic.
pub open spec fn prune_cutoff(now: i64, max_age_hours: i64) -> i64 {
    clamp_i64(now - clamp_i64(max_age_hours * 3600))
}

/// Whether `prune_read_entries_older_than_hours` deletes the entry.
pub open spec fn pruned(e: EntryRowView, cutoff: i64) -> bool {
    match e.read_at {
        Some(r) => r < cutoff,
        None => false,
    }
}

pub open spec fn kept_by_prune(cutoff: i64) -> spec_fn(EntryRowView) -> bool {
    |e: EntryRowView| !pruned(e, cutoff)
}

pub open spec fn unread_pred(feed_id: Option<i64>) -> spec_fn(EntryRowView) -> bool {
    |e: EntryRowView| counted_unread(e, feed_id)
}

/// Whether `unread_count` counts the entry.
pub open spec fn counted_unread(e: EntryRowView, feed_id: Option<i64>) -> bool {
    e.read_at.is_none() && match feed_id {
        Some(f) => e.feed_id == f,
        None => true,
    }
}

impl StoreView {
    pub open spec fn with_entries(self, entries: Seq<EntryRowView>) -> StoreView {
        StoreView { entries, ..self }
    }

    pub open spec fn has_entry_key(self, feed_id: i64, external_id: Seq<char>) -> bool {
        exists|i: int|
            0 <= i < self.entries.len() && self.entries[i].feed_id == feed_id
                && self.entries[i].external_id == external_id
    }

    pub open spec fn entry_key_pos(self, feed_id: i64, external_id: Seq<char>) -> int {
        choose|i: int|
            0 <= i < self.entries.len() && self.entries[i].feed_id == feed_id
                && self.entries[i].external_id == external_id
    }

    pub open spec fn has_entry(self, id: i64) -> bool {
        exists|i: int| 0 <= i < self.entries.len() && self.entries[i].id == id
    }

    pub open spec fn entry_pos(self, id: i64) -> int {
        choose|i: int| 0 <= i < self.entries.len() && self.entries[i].id == id
    }

    /// The row that an insert into `entries` adds.
    pub open spec fn new_entry(
        self,
        feed_id: i64,
        external_id: Seq<char>,
        link: Seq<char>,
        title: Seq<char>,
        summary: Seq<char>,
        content: Seq<char>,
        published_at: Option<i64>,
        now: i64,
    ) -> EntryRowView {
        EntryRowView {
            id: (self.entry_seq + 1) as i64,
            feed_id,
            external_id,
            link,
            title,
            summary,
            content,
            published_at,
            inserted_at: now,
            read_at: None,
        }
    }

    pub open spec fn insert_entry(self, e: EntryRowView) -> StoreView {
        StoreView { entries: self.entries.push(e), entry_seq: e.id, ..self }
    }

    /// `upsert_entry`: inserts the entry unless the feed has one with that external
    /// id already; reports whether it inserted.
    pub open spec fn upsert_entry(
        self,
        feed_id: i64,
        external_id: Seq<char>,
        link: Seq<char>,
        title: Seq<char>,
        summary: Seq<char>,
        content: Seq<char>,
        published_at: Option<i64>,
        now: i64,
    ) -> (StoreView, Result<bool, StoreError>) {
        if self.has_entry_key(feed_id, external_id) {
            (self, Ok(false))
        } else if self.entry_seq == i64::MAX {
            (self, Err(StoreError::Full))
        } else if !self.has_feed(feed_id) {
            (self, Err(StoreError::ForeignKey))
        } else {
            (
                self.insert_entry(
                    self.new_entry(feed_id, external_id, link, title, summary, content, published_at, now),
                ),
                Ok(true),
            )
        }
    }

    /// `upsert_or_update_entry`: inserts the entry, or overwrites link, title,
    /// summary, content and publication time of the feed's entry with that external
    /// id. Either way one row changes, and the result is `true`.
    pub open spec fn upsert_or_update_entry(
        self,
        feed_id: i64,
        external_id: Seq<char>,
        link: Seq<char>,
        title: Seq<char>,
        summary: Seq<char>,
        content: Seq<char>,
        published_at: Option<i64>,
        now: i64,
    ) -> (StoreView, Result<bool, StoreError>) {
        if self.has_entry_key(feed_id, external_id) {
            let p = self.entry_key_pos(feed_id, external_id);
            (
                self.with_entries(
                    self.entries.update(
                        p,
                        EntryRowView { link, title, summary, content, published_at, ..self.entries[p] },
                    ),
                ),
                Ok(true),
            )
        } else if self.entry_seq == i64::MAX {
            (self, Err(StoreError::Full))
        } else if !self.has_feed(feed_id) {
            (self, Err(StoreError::ForeignKey))
        } else {
            (
                self.insert_entry(
                    self.new_entry(feed_id, external_id, link, title, summary, content, published_at, now),
                ),
                Ok(true),
            )
        }
    }

    /// `mark_read`: sets or clears the read time of one entry; counts changed rows.
    pub open spec fn mark_read(self, entry_id: i64, read: bool, now: i64) -> (StoreView, usize) {
        if self.has_entry(entry_id) {
            let p = self.entry_pos(entry_id);
            (
                self.with_entries(
                    self.entries.update(
                        p,
                        EntryRowView {
                            read_at: if read {
                                Some(now)
                            } else {
                                None
                            },
                            ..self.entries[p]
                        },
                    ),
                ),
                1,
            )
        } else {
            (self, 0)
        }
    }

    /// `prune_read_entries_older_than_hours`: deletes the entries read before the
    /// cut-off; counts them.
    pub open spec fn prune(self, cutoff: i64) -> (StoreView, usize) {
        let kept = self.entries.filter(kept_by_prune(cutoff));
        (self.with_entries(kept), (self.entries.len() - kept.len()) as usize)
    }

    /// `unread_count`: the number of unread entries, of one feed or of all.
    pub open spec fn unread_count(self, feed_id: Option<i64>) -> int {
        self.entries.filter(unread_pred(feed_id)).len() as int
    }
}

pub proof fn lemma_entry_pos_unique(s: StoreView, id: i64, i: int)
    requires
        s.wf(),
        0 <= i < s.entries.len(),
        s.entries[i].id == id,
    ensures
        s.has_entry(id),
        s.entry_pos(id) == i,
{
    let p = s.entry_pos(id);
    if p != i {
        if p < i {
            assert(s.entries[p].id < s.entries[i].id);
        } else {
            assert(s.entries[i].id < s.entries[p].id);
        }
    }
}

pub proof fn lemma_entry_key_pos_unique(s: StoreView, feed_id: i64, external_id: Seq<char>, i: int)
    requires
        s.wf(),
        0 <= i < s.entries.len(),
        s.entries[i].feed_id == feed_id,
        s.entries[i].external_id == external_id,
    ensures
        s.has_entry_key(feed_id, external_id),
        s.entry_key_pos(feed_id, external_id) == i,
{
}

/// Changing one entry row keeps the invariant when its id, feed and external id stay.
pub proof fn lemma_entry_update_keeps_wf(s: StoreView, p: int, e: EntryRowView)
    requires
        s.wf(),
        0 <= p < s.entries.len(),
        e.id == s.entries[p].id,
        e.feed_id == s.entries[p].feed_id,
        e.external_id == s.entries[p].external_id,
    ensures
        s.with_entries(s.entries.update(p, e)).wf(),
{
    let es = s.entries.update(p, e);
    assert forall|a: int, b: int| 0 <= a < b < es.len() implies es[a].id < es[b].id by {
        assert(s.entries[a].id < s.entries[b].id);
    }
    assert forall|a: int, b: int|
        0 <= a < es.len() && 0 <= b < es.len() && a != b implies !(es[a].feed_id == es[b].feed_id
        && es[a].external_id == es[b].external_id) by {
        assert(!(s.entries[a].feed_id == s.entries[b].feed_id && s.entries[a].external_id
            == s.entries[b].external_id));
    }
    assert forall|a: int| 0 <= a < es.len() implies 1 <= #[trigger] es[a].id <= s.entry_seq by {
        assert(1 <= s.entries[a].id <= s.entry_seq);
    }
}

/// Keeping some of the entries (in order) keeps the invariant.
pub proof fn lemma_filter_entries_wf(es: Seq<EntryRowView>, seq: i64, pred: spec_fn(EntryRowView) -> bool)
    requires
        entries_wf(es, seq),
    ensures
        entries_wf(es.filter(pred), seq),
    decreases es.len(),
{
    reveal(Seq::filter);
    if es.len() > 0 {
        let d = es.drop_last();
        assert(entries_wf(d, seq)) by {
            assert forall|a: int| 0 <= a < d.len() implies 1 <= #[trigger] d[a].id <= seq by {
                assert(1 <= es[a].id <= seq);
            }
            assert forall|a: int, b: int| 0 <= a < b < d.len() implies d[a].id < d[b].id by {
                assert(es[a].id < es[b].id);
            }
            assert forall|a: int, b: int|
                0 <= a < d.len() && 0 <= b < d.len() && a != b implies !(d[a].feed_id
                == d[b].feed_id && d[a].external_id == d[b].external_id) by {
                assert(!(es[a].feed_id == es[b].feed_id && es[a].external_id == es[b].external_id));
            }
        }
        lemma_filter_entries_wf(d, seq, pred);
        let sub = d.filter(pred);
        if pred(es.last()) {
            let r = sub.push(es.last());
            #[allow(deprecated)]
            d.filter_lemma(pred);
            assert forall|a: int| 0 <= a < sub.len() implies exists|j: int|
                0 <= j < d.len() && d[j] == #[trigger] sub[a] by {
                assert(d.contains(sub[a])) by {
                    lemma_filter_subset(d, pred, a);
                }
            }
            assert forall|a: int| 0 <= a < r.len() implies 1 <= #[trigger] r[a].id <= seq by {
                if a < sub.len() {
                    assert(1 <= sub[a].id <= seq);
                } else {
                    assert(1 <= es[es.len() - 1].id <= seq);
                }
            }
            assert forall|a: int, b: int| 0 <= a < b < r.len() implies r[a].id < r[b].id by {
                if b == r.len() - 1 {
                    let j = choose|j: int| 0 <= j < d.len() && d[j] == sub[a];
                    assert(es[j].id < es[es.len() - 1].id);
                } else {
                    assert(sub[a].id < sub[b].id);
                }
            }
            assert forall|a: int, b: int|
                0 <= a < r.len() && 0 <= b < r.len() && a != b implies !(r[a].feed_id
                == r[b].feed_id && r[a].external_id == r[b].external_id) by {
                if b == r.len() - 1 {
                    let j = choose|j: int| 0 <= j < d.len() && d[j] == sub[a];
                    assert(!(es[j].feed_id == es[es.len() - 1].feed_id && es[j].external_id
                        == es[es.len() - 1].external_id));
                } else if a == r.len() - 1 {
                    let j = choose|j: int| 0 <= j < d.len() && d[j] == sub[b];
                    assert(!(es[j].feed_id == es[es.len() - 1].feed_id && es[j].external_id
                        == es[es.len() - 1].external_id));
                } else {
                    assert(!(sub[a].feed_id == sub[b].feed_id && sub[a].external_id
                        == sub[b].external_id));
                }
            }
        }
    }
}

/// Every element that a filter keeps comes from the filtered sequence.
pub proof fn lemma_filter_subset<A>(s: Seq<A>, pred: spec_fn(A) -> bool, i: int)
    requires
        0 <= i < s.filter(pred).len(),
    ensures
        s.contains(s.filter(pred)[i]),
    decreases s.len(),
{
    reveal(Seq::filter);
    if s.len() > 0 {
        let d = s.drop_last();
        let sub = d.filter(pred);
        if pred(s.last()) && i == sub.len() {
            assert(s[s.len() - 1] == s.filter(pred)[i]);
        } else {
            lemma_filter_subset(d, pred, i);
            let j = choose|j: int| 0 <= j < d.len() && d[j] == sub[i];
            assert(s[j] == sub[i]);
        }
    }
}

impl Store {
    fn find_entry(&self, id: i64) -> (r: Option<usize>)
        requires
            self.wf(),
        ensures
            match r {
                Some(i) => i < self@.entries.len() && self@.has_entry(id) && self@.entry_pos(id) == i,
                None => !self@.has_entry(id),
            },
    {
        let mut i: usize = 0;
        while i < self.entries.len()
            invariant
                i <= self.entries.len(),
                self.wf(),
                forall|k: int| 0 <= k < i ==> self@.entries[k].id != id,
            decreases self.entries.len() - i,
        {
            if self.entries[i].id == id {
                proof {
                    lemma_entry_pos_unique(self@, id, i as int);
                }
                return Some(i);
            }
            i = i + 1;
        }
        None
    }

    fn find_entry_key(&self, feed_id: i64, external_id: &String) -> (r: Option<usize>)
        requires
            self.wf(),
        ensures
            match r {
                Some(i) => i < self@.entries.len() && self@.has_entry_key(feed_id, external_id@)
                    && self@.entry_key_pos(feed_id, external_id@) == i,
                None => !self@.has_entry_key(feed_id, external_id@),
            },
    {
        let mut i: usize = 0;
        while i < self.entries.len()
            invariant
                i <= self.entries.len(),
                self.wf(),
                forall|k: int|
                    0 <= k < i ==> !(self@.entries[k].feed_id == feed_id && self@.entries[k].external_id
                        == external_id@),
            decreases self.entries.len() - i,
        {
            if self.entries[i].feed_id == feed_id && self.entries[i].external_id == *external_id {
                proof {
                    assert(self@.entries[i as int].external_id == external_id@);
                    lemma_entry_key_pos_unique(self@, feed_id, external_id@, i as int);
                }
                return Some(i);
            }
            i = i + 1;
        }
        None
    }

    fn insert_entry_row(
        &mut self,
        feed_id: i64,
        external_id: String,
        link: &str,
        title: &str,
        summary: &str,
        content: &str,
        published_at: Option<i64>,
        now: i64,
    ) -> (r: Result<bool, StoreError>)
        requires
            old(self).wf(),
            !old(self)@.has_entry_key(feed_id, external_id@),
        ensures
            final(self).wf(),
            old(self)@.entry_seq == i64::MAX ==> final(self)@ == old(self)@ && r == Err::<bool, StoreError>(StoreError::Full),
            old(self)@.entry_seq < i64::MAX && !old(self)@.has_feed(feed_id) ==> final(self)@ == old(self)@ && r
                == Err::<bool, StoreError>(StoreError::ForeignKey),
            old(self)@.entry_seq < i64::MAX && old(self)@.has_feed(feed_id) ==> r == Ok::<bool, StoreError>(true)
                && final(self)@ == old(self)@.insert_entry(
                old(self)@.new_entry(feed_id, external_id@, link@, title@, summary@, content@, published_at, now),
            ),
    {
        let ghost before = self@;
        if self.entry_seq == i64::MAX {
            return Err(StoreError::Full);
        }
        if self.find_feed(feed_id).is_none() {
            return Err(StoreError::ForeignKey);
        }
        let id = self.entry_seq + 1;
        let row = EntryRow {
            id,
            feed_id,
            external_id,
            link: String::from_str(link),
            title: String::from_str(title),
            summary: String::from_str(summary),
            content: String::from_str(content),
            published_at,
            inserted_at: now,
            read_at: None,
        };
        let ghost rv = row@;
        self.entries.push(row);
        self.entry_seq = id;
        proof {
            assert(self@.entries =~= before.entries.push(rv));
            let es = self@.entries;
            assert forall|a: int, b: int| 0 <= a < b < es.len() implies es[a].id < es[b].id by {
                if b == es.len() - 1 {
                    assert(1 <= before.entries[a].id <= before.entry_seq);
                }
            }
            assert forall|a: int, b: int|
                0 <= a < es.len() && 0 <= b < es.len() && a != b implies !(es[a].feed_id
                == es[b].feed_id && es[a].external_id == es[b].external_id) by {
                if b == es.len() - 1 {
                    assert(!(before.entries[a].feed_id == feed_id && before.entries[a].external_id
                        == rv.external_id));
                } else if a == es.len() - 1 {
                    assert(!(before.entries[b].feed_id == feed_id && before.entries[b].external_id
                        == rv.external_id));
                }
            }
            assert forall|a: int| 0 <= a < es.len() implies 1 <= #[trigger] es[a].id <= self.entry_seq by {
                if a < es.len() - 1 {
                    assert(1 <= before.entries[a].id <= before.entry_seq);
                }
            }
        }
        Ok(true)
    }

    /// Inserts an entry at time `now` unless the feed already has one with that
    /// external id (see `StoreView::upsert_entry`).
    pub fn upsert_entry_at(
        &mut self,
        feed_id: i64,
        external_id: &str,
        link: &str,
        title: &str,
        summary: &str,
        content: &str,
        published_at: Option<i64>,
        now: i64,
    ) -> (r: Result<bool, StoreError>)
        requires
            old(self).wf(),
        ensures
            final(self).wf(),
            (final(self)@, r) == old(self)@.upsert_entry(
                feed_id,
                external_id@,
                link@,
                title@,
                summary@,
                content@,
                published_at,
                now,
            ),
    {
        let ext = String::from_str(external_id);
        if self.find_entry_key(feed_id, &ext).is_some() {
            return Ok(false);
        }
        self.insert_entry_row(feed_id, ext, link, title, summary, content, published_at, now)
    }

    /// `upsert_entry` at the current time.
    pub fn upsert_entry(
        &mut self,
        feed_id: i64,
        external_id: &str,
        link: &str,
        title: &str,
        summary: &str,
        content: &str,
        published_at: Option<i64>,
    ) -> (r: Result<bool, StoreError>)
        requires
            old(self).wf(),
        ensures
            final(self).wf(),
            exists|now: i64|
                (final(self)@, r) == old(self)@.upsert_entry(
                    feed_id,
                    external_id@,
                    link@,
                    title@,
                    summary@,
                    content@,
                    published_at,
                    now,
                ),
    {
        let (now, _) = utc_now();
        self.upsert_entry_at(feed_id, external_id, link, title, summary, content, published_at, now)
    }

    /// Inserts an entry at time `now`, or updates the feed's entry with that external id
    /// (see `StoreView::upsert_or_update_entry`).
    pub fn upsert_or_update_entry_at(
        &mut self,
        feed_id: i64,
        external_id: &str,
        link: &str,
        title: &str,
        summary: &str,
        content: &str,
        published_at: Option<i64>,
        now: i64,
    ) -> (r: Result<bool, StoreError>)
        requires
            old(self).wf(),
        ensures
            final(self).wf(),
            (final(self)@, r) == old(self)@.upsert_or_update_entry(
                feed_id,
                external_id@,
                link@,
                title@,
                summary@,
                content@,
                published_at,
                now,
            ),
    {
        let ext = String::from_str(external_id);
        match self.find_entry_key(feed_id, &ext) {
            Some(p) => {
                let ghost before = self@;
                let e = self.entries[p].clone();
                let row = EntryRow {
                    id: e.id,
                    feed_id: e.feed_id,
                    external_id: e.external_id,
                    link: String::from_str(link),
                    title: String::from_str(title),
                    summary: String::from_str(summary),
                    content: String::from_str(content),
                    published_at,
                    inserted_at: e.inserted_at,
                    read_at: e.read_at,
                };
                self.entries.set(p, row);
                proof {
                    assert(self@.entries =~= before.entries.update(p as int, self@.entries[p as int]));
                    lemma_entry_update_keeps_wf(before, p as int, self@.entries[p as int]);
                }
                Ok(true)
            },
            None => self.insert_entry_row(feed_id, ext, link, title, summary, content, published_at, now),
        }
    }

    /// `upsert_or_update_entry` at the current time.
    pub fn upsert_or_update_entry(
        &mut self,
        feed_id: i64,
        external_id: &str,
        link: &str,
        title: &str,
        summary: &str,
        content: &str,
        published_at: Option<i64>,
    ) -> (r: Result<bool, StoreError>)
        requires
            old(self).wf(),
        ensures
            final(self).wf(),
            exists|now: i64|
                (final(self)@, r) == old(self)@.upsert_or_update_entry(
                    feed_id,
                    external_id@,
                    link@,
                    title@,
                    summary@,
                    content@,
                    published_at,
                    now,
                ),
    {
        let (now, _) = utc_now();
        self.upsert_or_update_entry_at(feed_id, external_id, link, title, summary, content, published_at, now)
    }

    /// Marks an entry read at `now`, or unread; returns how many entries changed.
    pub fn mark_read_at(&mut self, entry_id: i64, read: bool, now: i64) -> (r: usize)
        requires
            old(self).wf(),
        ensures
            final(self).wf(),
            (final(self)@, r) == old(self)@.mark_read(entry_id, read, now),
    {
        match self.find_entry(entry_id) {
            Some(p) => {
                let ghost before = self@;
                let e = self.entries[p].clone();
                let row = EntryRow {
                    read_at: if read {
                        Some(now)
                    } else {
                        None
                    },
                    ..e
                };
                self.entries.set(p, row);
                proof {
                    assert(self@.entries =~= before.entries.update(p as int, self@.entries[p as int]));
                    lemma_entry_update_keeps_wf(before, p as int, self@.entries[p as int]);
                }
                1
            },
            None => 0,
        }
    }

    /// `mark_read_at` at the current time.
    pub fn mark_read(&mut self, entry_id: i64, read: bool) -> (r: usize)
        requires
            old(self).wf(),
        ensures
            final(self).wf(),
            exists|now: i64| (final(self)@, r) == old(self)@.mark_read(entry_id, read, now),
    {
        let (now, _) = utc_now();
        self.mark_read_at(entry_id, read, now)
    }

    /// Deletes the entries read before `max_age_hours` ago (counted from `now`);
    /// returns how many were deleted.
    pub fn prune_read_entries_older_than_hours_at(&mut self, max_age_hours: i64, now: i64) -> (r: usize)
        requires
            old(self).wf(),
        ensures
            final(self).wf(),
            (final(self)@, r) == old(self)@.prune(prune_cutoff(now, max_age_hours)),
    {
        let cutoff = saturating_sub_i64(now, saturating_mul_i64(max_age_hours, 3600));
        let ghost pred = kept_by_prune(cutoff);
        let ghost before = self@;
        let mut kept: Vec<EntryRow> = Vec::new();
        let n = self.entries.len();
        let mut i: usize = 0;
        while i < n
            invariant
                n == self.entries.len(),
                self@ == before,
                i <= n,
                pred == kept_by_prune(cutoff),
                entries_view(kept@) == before.entries.take(i as int).filter(pred),
            decreases n - i,
        {
            let e = &self.entries[i];
            let drop = match e.read_at {
                Some(r) => r < cutoff,
                None => false,
            };
            proof {
                let t = before.entries.take(i + 1);
                assert(t.drop_last() =~= before.entries.take(i as int));
                assert(t.last() == before.entries[i as int]);
                assert(e@ == before.entries[i as int]);
                assert(drop == pruned(e@, cutoff));
                assert(pred(t.last()) == !drop);
                reveal_with_fuel(Seq::filter, 1);
                assert(t.filter(pred) == if pred(t.last()) {
                    t.drop_last().filter(pred).push(t.last())
                } else {
                    t.drop_last().filter(pred)
                });
            }
            if !drop {
                kept.push(e.clone());
                proof {
                    assert(entries_view(kept@) =~= before.entries.take(i as int).filter(pred).push(
                        before.entries[i as int],
                    ));
                }
            }
            i = i + 1;
        }
        proof {
            assert(before.entries.take(n as int) =~= before.entries);
            lemma_filter_entries_wf(before.entries, before.entry_seq, pred);
            #[allow(deprecated)]
            before.entries.filter_lemma(pred);
        }
        let removed = n - kept.len();
        self.entries = kept;
        assert(self@ == before.with_entries(before.entries.filter(pred)));
        removed
    }

    /// `prune_read_entries_older_than_hours_at` at the current time.
    pub fn prune_read_entries_older_than_hours(&mut self, max_age_hours: i64) -> (r: usize)
        requires
            old(self).wf(),
        ensures
            final(self).wf(),
            exists|now: i64| (final(self)@, r) == old(self)@.prune(prune_cutoff(now, max_age_hours)),
    {
        let (now, _) = utc_now();
        self.prune_read_entries_older_than_hours_at(max_age_hours, now)
    }

    /// The number of unread entries, of one feed or of all.
    pub fn unread_count(&self, feed_id: Option<i64>) -> (r: i64)
        requires
            self.wf(),
        ensures
            r as int == self@.unread_count(feed_id),
    {
        let ghost pred = unread_pred(feed_id);
        let ghost es = self@.entries;
        let n = self.entries.len();
        let mut count: usize = 0;
        let mut i: usize = 0;
        while i < n
            invariant
                n == self.entries.len(),
                es == self@.entries,
                i <= n,
                pred == unread_pred(feed_id),
                count == es.take(i as int).filter(pred).len(),
            decreases n - i,
        {
            let e = &self.entries[i];
            let counts = e.read_at.is_none() && match feed_id {
                Some(f) => e.feed_id == f,
                None => true,
            };
            proof {
                let t = es.take(i + 1);
                assert(t.drop_last() =~= es.take(i as int));
                assert(t.last() == es[i as int]);
                assert(e@ == es[i as int]);
                assert(counts == counted_unread(e@, feed_id));
                assert(pred(t.last()) == counts);
                reveal_with_fuel(Seq::filter, 1);
                assert(t.filter(pred) == if pred(t.last()) {
                    t.drop_last().filter(pred).push(t.last())
                } else {
                    t.drop_last().filter(pred)
                });
                es.take(i as int).lemma_filter_len(pred);
            }
            if counts {
                count = count + 1;
            }
            i = i + 1;
        }
        proof {
            assert(es.take(n as int) =~= es);
            es.lemma_filter_len(pred);
            lemma_entries_len_bound(es, self@.entry_seq);
        }
        count as i64
    }
}

/// Positive, strictly increasing entry ids up to `seq` number at most `seq`.
pub proof fn lemma_entries_len_bound(es: Seq<EntryRowView>, seq: i64)
    requires
        entries_wf(es, seq),
        seq >= 0,
    ensures
        es.len() <= seq,
{
    if es.len() > 0 {
        assert forall|k: int| 0 <= k < es.len() implies es[k].id >= k + 1 by {
            lemma_entry_ids_grow(es, seq, k);
        }
        assert(es[es.len() - 1].id >= es.len());
        assert(es[es.len() - 1].id <= seq);
    }
}

proof fn lemma_entry_ids_grow(es: Seq<EntryRowView>, seq: i64, k: int)
    requires
        entries_wf(es, seq),
        0 <= k < es.len(),
    ensures
        es[k].id >= k + 1,
    decreases k,
{
    if k > 0 {
        lemma_entry_ids_grow(es, seq, k - 1);
        assert(es[k - 1].id < es[k].id);
    }
}


// ---------------------------------------------------------------------------
// Listings
// ---------------------------------------------------------------------------

/// Text order as SQLite's `BINARY` collation gives it (UTF-8 bytes compared
/// as `memcmp` does, which orders by code point).
pub open spec fn text_lt(a: Seq<char>, b: Seq<char>) -> bool
    decreases a.len(),
{
    if a.len() == 0 {
        b.len() > 0
    } else if b.len() == 0 {
        false
    } else if a[0] != b[0] {
        (a[0] as u32) < (b[0] as u32)
    } else {
        text_lt(a.drop_first(), b.drop_first())
    }
}

pub proof fn lemma_text_lt_irreflexive(a: Seq<char>)
    ensures
        !text_lt(a, a),
    decreases a.len(),
{
    if a.len() > 0 {
        lemma_text_lt_irreflexive(a.drop_first());
    }
}

pub proof fn lemma_text_lt_transitive(a: Seq<char>, b: Seq<char>, c: Seq<char>)
    requires
        text_lt(a, b),
        text_lt(b, c),
    ensures
        text_lt(a, c),
    decreases a.len(),
{
    if a.len() > 0 && b.len() > 0 && c.len() > 0 && a[0] == b[0] && b[0] == c[0] {
        lemma_text_lt_transitive(a.drop_first(), b.drop_first(), c.drop_first());
    }
}

/// Of two different texts, one comes before the other.
pub proof fn lemma_text_lt_total(a: Seq<char>, b: Seq<char>)
    requires
        a != b,
    ensures
        text_lt(a, b) || text_lt(b, a),
    decreases a.len(),
{
    if a.len() > 0 && b.len() > 0 && a[0] == b[0] {
        if a.drop_first() == b.drop_first() {
            assert(a =~= seq![a[0]] + a.drop_first());
            assert(b =~= seq![b[0]] + b.drop_first());
        }
        lemma_text_lt_total(a.drop_first(), b.drop_first());
    } else if a.len() > 0 && b.len() > 0 {
        let x = a[0];
        let y = b[0];
        vstd::utf8::char_u32_cast(x, x as u32);
        vstd::utf8::char_u32_cast(y, y as u32);
        assert((x as u32) != (y as u32));
    } else if a.len() == 0 && b.len() == 0 {
        assert(a =~= b);
    }
}

/// `ORDER BY title IS NULL, title, added_at DESC`.
pub open spec fn feed_before(a: FeedView, b: FeedView) -> bool {
    match (a.title, b.title) {
        (Some(x), Some(y)) => text_lt(x, y) || (x == y && a.added_at > b.added_at),
        (Some(_), None) => true,
        (None, Some(_)) => false,
        (None, None) => a.added_at > b.added_at,
    }
}

pub open spec fn feed_order() -> spec_fn(FeedView, FeedView) -> bool {
    |a: FeedView, b: FeedView| feed_before(a, b)
}

/// The time an entry is listed by: its publication time, else when it was stored.
pub open spec fn entry_time(e: FeedEntryView) -> i64 {
    match e.published_at {
        Some(t) => t,
        None => e.inserted_at,
    }
}

/// `ORDER BY COALESCE(published_at, inserted_at) DESC`.
pub open spec fn entry_before(a: FeedEntryView, b: FeedEntryView) -> bool {
    entry_time(a) > entry_time(b)
}

pub open spec fn entry_order() -> spec_fn(FeedEntryView, FeedEntryView) -> bool {
    |a: FeedEntryView, b: FeedEntryView| entry_before(a, b)
}

pub proof fn lemma_feed_order_strict()
    ensures
        strict_order(feed_order()),
{
    assert forall|a: FeedView| !#[trigger] feed_order()(a, a) by {
        if a.title.is_some() {
            lemma_text_lt_irreflexive(a.title.unwrap());
        }
    }
    assert forall|a: FeedView, b: FeedView, c: FeedView|
        #[trigger] feed_order()(a, b) && #[trigger] feed_order()(b, c) implies feed_order()(a, c) by {
        if a.title.is_some() && b.title.is_some() && c.title.is_some() {
            let (x, y, z) = (a.title.unwrap(), b.title.unwrap(), c.title.unwrap());
            if text_lt(x, y) && text_lt(y, z) {
                lemma_text_lt_transitive(x, y, z);
            }
        }
    }
}

pub proof fn lemma_entry_order_strict()
    ensures
        strict_order(entry_order()),
{
}

/// The page that `LIMIT limit OFFSET offset` keeps, with both bound as `i64`: an
/// offset that turns negative counts as none, and a limit that turns negative as no
/// limit.
pub open spec fn page<T>(s: Seq<T>, offset: usize, limit: usize) -> Seq<T> {
    let start: int = if offset > i64::MAX {
        0
    } else if offset > s.len() {
        s.len() as int
    } else {
        offset as int
    };
    if limit > i64::MAX {
        s.skip(start)
    } else {
        let end: int = if start + limit > s.len() {
            s.len() as int
        } else {
            start + limit
        };
        s.subrange(start, end)
    }
}

/// `%term%`, the pattern the search binds.
pub open spec fn search_pattern(term: Seq<char>) -> Seq<char> {
    seq!['%'] + term + seq!['%']
}

/// The longest `LIKE` pattern SQLite accepts, in bytes.
pub open spec fn max_like_pattern() -> nat {
    50000
}

impl StoreView {
    /// `list_feeds`: the feeds in `ORDER BY title IS NULL, title, added_at DESC`
    /// (ties in table order).
    pub open spec fn list_feeds(self) -> Seq<FeedView> {
        stable_sort(self.feeds, feed_order())
    }

    /// Whether an entry matches a search term (title, summary, link or feed title).
    pub open spec fn search_hits(self, e: EntryRowView, term: Seq<char>) -> bool {
        let pat = search_pattern(term);
        ||| like(pat, e.title)
        ||| like(pat, e.summary)
        ||| like(pat, e.link)
        ||| match self.get_feed(e.feed_id) {
            Some(f) => match f.title {
                Some(t) => like(pat, t),
                None => false,
            },
            None => false,
        }
    }

    /// The conditions of `list_entries` before the search: the entry's feed exists
    /// (the join), the feed filter and the unread filter.
    pub open spec fn prelisted(self, e: EntryRowView, feed_id: Option<i64>, unread_only: bool) -> bool {
        &&& self.has_feed(e.feed_id)
        &&& match feed_id {
            Some(f) => e.feed_id == f,
            None => true,
        }
        &&& (unread_only ==> e.read_at.is_none())
    }

    pub open spec fn listed(
        self,
        e: EntryRowView,
        feed_id: Option<i64>,
        unread_only: bool,
        search: Option<Seq<char>>,
    ) -> bool {
        &&& self.prelisted(e, feed_id, unread_only)
        &&& match search {
            Some(t) => self.search_hits(e, t),
            None => true,
        }
    }

    pub open spec fn listed_pred(self, feed_id: Option<i64>, unread_only: bool, search: Option<Seq<char>>) -> spec_fn(
        EntryRowView,
    ) -> bool {
        |e: EntryRowView| self.listed(e, feed_id, unread_only, search)
    }

    /// An entry joined with its feed, as a listing shows it.
    pub open spec fn joined(self, e: EntryRowView) -> FeedEntryView {
        let f = self.get_feed(e.feed_id).unwrap();
        FeedEntryView {
            id: e.id,
            feed_id: e.feed_id,
            feed_title: f.title,
            feed_url: Some(
                match f.site_url {
                    Some(x) => x,
                    None => f.url,
                },
            ),
            external_id: e.external_id,
            link: e.link,
            title: e.title,
            summary: e.summary,
            content: e.content,
            published_at: e.published_at,
            inserted_at: e.inserted_at,
            read: e.read_at.is_some(),
        }
    }

    pub open spec fn joined_fn(self) -> spec_fn(EntryRowView) -> FeedEntryView {
        |e: EntryRowView| self.joined(e)
    }

    /// `list_entries`: the matching entries, newest first (ties in table order),
    /// paged. SQLite refuses a search pattern longer than its limit as soon as it
    /// has a row to test it on.
    pub open spec fn list_entries(
        self,
        feed_id: Option<i64>,
        unread_only: bool,
        search: Option<Seq<char>>,
        limit: usize,
        offset: usize,
    ) -> Result<Seq<FeedEntryView>, StoreError> {
        if search.is_some() && utf8_len(search_pattern(search.unwrap())) > max_like_pattern()
            && exists|i: int|
            0 <= i < self.entries.len() && #[trigger] self.prelisted(self.entries[i], feed_id, unread_only) {
            Err(StoreError::PatternTooComplex)
        } else {
            Ok(
                page(
                    stable_sort(
                        self.entries.filter(self.listed_pred(feed_id, unread_only, search)).map_values(
                            self.joined_fn(),
                        ),
                        entry_order(),
                    ),
                    offset,
                    limit,
                ),
            )
        }
    }
}

pub open spec fn feed_entries_view(v: Seq<FeedEntry>) -> Seq<FeedEntryView> {
    v.map_values(|e: FeedEntry| e@)
}

pub proof fn lemma_feeds_view_push(v: Seq<Feed>, x: Feed)
    ensures
        feeds_view(v.push(x)) == feeds_view(v).push(x@),
{
    assert forall|k: int| 0 <= k < v.len() + 1 implies feeds_view(v.push(x))[k] == feeds_view(v).push(
        x@,
    )[k] by {
        if k < v.len() {
            assert(v.push(x)[k] == v[k]);
        }
    }
    assert(feeds_view(v.push(x)) =~= feeds_view(v).push(x@));
}

pub proof fn lemma_feed_entries_view_push(v: Seq<FeedEntry>, x: FeedEntry)
    ensures
        feed_entries_view(v.push(x)) == feed_entries_view(v).push(x@),
{
    assert forall|k: int| 0 <= k < v.len() + 1 implies feed_entries_view(v.push(x))[k]
        == feed_entries_view(v).push(x@)[k] by {
        if k < v.len() {
            assert(v.push(x)[k] == v[k]);
        }
    }
    assert(feed_entries_view(v.push(x)) =~= feed_entries_view(v).push(x@));
}

/// Compares two texts in `text_lt` order.
pub fn text_lt_exec(a: &Vec<char>, b: &Vec<char>) -> (r: bool)
    ensures
        r == text_lt(a@, b@),
{
    let mut i: usize = 0;
    assert(a@.skip(0) =~= a@ && b@.skip(0) =~= b@);
    loop
        invariant
            i <= a.len(),
            i <= b.len(),
            text_lt(a@, b@) == text_lt(a@.skip(i as int), b@.skip(i as int)),
        decreases a.len() - i,
    {
        if i == a.len() {
            return i < b.len();
        }
        if i == b.len() {
            return false;
        }
        if a[i] != b[i] {
            return (a[i] as u32) < (b[i] as u32);
        }
        assert(a@.skip(i as int).drop_first() =~= a@.skip(i + 1));
        assert(b@.skip(i as int).drop_first() =~= b@.skip(i + 1));
        i = i + 1;
    }
}

fn feed_before_exec(a: &Feed, b: &Feed) -> (r: bool)
    ensures
        r == feed_before(a@, b@),
{
    match (&a.title, &b.title) {
        (Some(x), Some(y)) => {
            let xv = chars_of(x.as_str());
            let yv = chars_of(y.as_str());
            text_lt_exec(&xv, &yv) || (*x == *y && a.added_at > b.added_at)
        },
        (Some(_), None) => true,
        (None, Some(_)) => false,
        (None, None) => a.added_at > b.added_at,
    }
}

fn entry_time_exec(e: &FeedEntry) -> (r: i64)
    ensures
        r == entry_time(e@),
{
    match e.published_at {
        Some(t) => t,
        None => e.inserted_at,
    }
}

fn sort_feeds(v: Vec<Feed>) -> (r: Vec<Feed>)
    ensures
        feeds_view(r@) == stable_sort(feeds_view(v@), feed_order()),
{
    let ghost order = feed_order();
    let ghost vs = feeds_view(v@);
    let mut r: Vec<Feed> = Vec::new();
    let mut i: usize = 0;
    while i < v.len()
        invariant
            i <= v.len(),
            order == feed_order(),
            vs == feeds_view(v@),
            feeds_view(r@) == stable_sort(vs.take(i as int), order),
        decreases v.len() - i,
    {
        let x = v[i].clone();
        let ghost rs = feeds_view(r@);
        proof {
            assert(vs.take(i + 1).drop_last() =~= vs.take(i as int));
            assert(vs.take(i + 1).last() == x@);
            assert(stable_sort(vs.take(i + 1), order) == insert_by(rs, x@, order));
            assert(rs.skip(0) =~= rs);
            assert(rs.take(0) + insert_by(rs.skip(0), x@, order) =~= insert_by(rs, x@, order));
        }
        let mut p: usize = 0;
        while p < r.len() && !feed_before_exec(&x, &r[p])
            invariant
                p <= r.len(),
                rs == feeds_view(r@),
                order == feed_order(),
                insert_by(rs, x@, order) == rs.take(p as int) + insert_by(rs.skip(p as int), x@, order),
            decreases r.len() - p,
        {
            proof {
                lemma_insert_by_step(rs, x@, order, p as int);
            }
            p = p + 1;
        }
        proof {
            lemma_insert_by_stop(rs, x@, order, p as int);
        }
        r.insert(p, x);
        proof {
            assert(feeds_view(r@) =~= rs.insert(p as int, x@));
        }
        i = i + 1;
    }
    proof {
        assert(vs.take(v.len() as int) =~= vs);
    }
    r
}

fn sort_entries(v: Vec<FeedEntry>) -> (r: Vec<FeedEntry>)
    ensures
        feed_entries_view(r@) == stable_sort(feed_entries_view(v@), entry_order()),
{
    let ghost order = entry_order();
    let ghost vs = feed_entries_view(v@);
    let mut r: Vec<FeedEntry> = Vec::new();
    let mut i: usize = 0;
    while i < v.len()
        invariant
            i <= v.len(),
            order == entry_order(),
            vs == feed_entries_view(v@),
            feed_entries_view(r@) == stable_sort(vs.take(i as int), order),
        decreases v.len() - i,
    {
        let x = v[i].clone();
        let ghost rs = feed_entries_view(r@);
        proof {
            assert(vs.take(i + 1).drop_last() =~= vs.take(i as int));
            assert(vs.take(i + 1).last() == x@);
            assert(stable_sort(vs.take(i + 1), order) == insert_by(rs, x@, order));
            assert(rs.skip(0) =~= rs);
            assert(rs.take(0) + insert_by(rs.skip(0), x@, order) =~= insert_by(rs, x@, order));
        }
        let xt = entry_time_exec(&x);
        let mut p: usize = 0;
        while p < r.len() && !(xt > entry_time_exec(&r[p]))
            invariant
                p <= r.len(),
                rs == feed_entries_view(r@),
                order == entry_order(),
                xt == entry_time(x@),
                insert_by(rs, x@, order) == rs.take(p as int) + insert_by(rs.skip(p as int), x@, order),
            decreases r.len() - p,
        {
            proof {
                lemma_insert_by_step(rs, x@, order, p as int);
            }
            p = p + 1;
        }
        proof {
            lemma_insert_by_stop(rs, x@, order, p as int);
        }
        r.insert(p, x);
        proof {
            assert(feed_entries_view(r@) =~= rs.insert(p as int, x@));
        }
        i = i + 1;
    }
    proof {
        assert(vs.take(v.len() as int) =~= vs);
    }
    r
}

fn page_entries(v: Vec<FeedEntry>, offset: usize, limit: usize) -> (r: Vec<FeedEntry>)
    ensures
        feed_entries_view(r@) == page(feed_entries_view(v@), offset, limit),
{
    let ghost vs = feed_entries_view(v@);
    let n = v.len();
    let start: usize = if (offset as u64) > (i64::MAX as u64) {
        0
    } else if offset > n {
        n
    } else {
        offset
    };
    let end: usize = if (limit as u64) > (i64::MAX as u64) {
        n
    } else if limit > n - start {
        n
    } else {
        start + limit
    };
    let mut r: Vec<FeedEntry> = Vec::new();
    let mut i = start;
    while i < end
        invariant
            start <= i <= end <= n,
            n == v.len(),
            vs == feed_entries_view(v@),
            feed_entries_view(r@) == vs.subrange(start as int, i as int),
        decreases end - i,
    {
        let x = v[i].clone();
        assert(vs[i as int] == x@);
        proof {
            lemma_feed_entries_view_push(r@, x);
        }
        r.push(x);
        assert(feed_entries_view(r@) =~= vs.subrange(start as int, i + 1));
        i = i + 1;
    }
    assert(feed_entries_view(r@) =~= page(vs, offset, limit));
    r
}

impl Store {
    /// All feeds, ordered as `ORDER BY title IS NULL, title, added_at DESC`.
    pub fn list_feeds(&self) -> (r: Vec<Feed>)
        requires
            self.wf(),
        ensures
            feeds_view(r@) == self@.list_feeds(),
    {
        let mut all: Vec<Feed> = Vec::new();
        let mut i: usize = 0;
        while i < self.feeds.len()
            invariant
                i <= self.feeds.len(),
                feeds_view(all@) == self@.feeds.take(i as int),
            decreases self.feeds.len() - i,
        {
            let x = self.feeds[i].clone();
            assert(self@.feeds[i as int] == x@);
            proof {
                lemma_feeds_view_push(all@, x);
            }
            all.push(x);
            assert(feeds_view(all@) =~= self@.feeds.take(i + 1));
            i = i + 1;
        }
        assert(self@.feeds.take(self.feeds.len() as int) =~= self@.feeds);
        sort_feeds(all)
    }

    fn joined_entry(&self, e: &EntryRow, f: &Feed) -> (r: FeedEntry)
        requires
            self.wf(),
            self@.has_feed(e.feed_id),
            f@ == self@.feeds[self@.feed_pos(e.feed_id)],
        ensures
            r@ == self@.joined(e@),
    {
        FeedEntry {
            id: e.id,
            feed_id: e.feed_id,
            feed_title: clone_opt_string(&f.title),
            feed_url: Some(
                match &f.site_url {
                    Some(x) => x.clone(),
                    None => f.url.clone(),
                },
            ),
            external_id: e.external_id.clone(),
            link: e.link.clone(),
            title: e.title.clone(),
            summary: e.summary.clone(),
            content: e.content.clone(),
            published_at: e.published_at,
            inserted_at: e.inserted_at,
            read: e.read_at.is_some(),
        }
    }

    fn hits(&self, e: &EntryRow, f: &Feed, pat: &Vec<char>, Ghost(term): Ghost<Seq<char>>) -> (r: bool)
        requires
            self.wf(),
            self@.has_feed(e.feed_id),
            f@ == self@.feeds[self@.feed_pos(e.feed_id)],
            pat@ == search_pattern(term),
        ensures
            r == self@.search_hits(e@, term),
    {
        if like_match(pat, &chars_of(e.title.as_str())) || like_match(pat, &chars_of(e.summary.as_str()))
            || like_match(pat, &chars_of(e.link.as_str())) {
            return true;
        }
        match &f.title {
            Some(t) => like_match(pat, &chars_of(t.as_str())),
            None => false,
        }
    }

    /// Entries joined with their feeds, filtered, newest first, paged (see
    /// `StoreView::list_entries`).
    #[verifier::rlimit(50)]
    pub fn list_entries(
        &self,
        feed_id: Option<i64>,
        unread_only: bool,
        search: Option<&str>,
        limit: usize,
        offset: usize,
    ) -> (r: Result<Vec<FeedEntry>, StoreError>)
        requires
            self.wf(),
        ensures
            match (r, self@.list_entries(
                feed_id,
                unread_only,
                match search {
                    Some(t) => Some(t@),
                    None => None,
                },
                limit,
                offset,
            )) {
                (Ok(v), Ok(x)) => feed_entries_view(v@) == x,
                (Err(e), Err(e2)) => e == e2,
                _ => false,
            },
    {
        let ghost sv = match search {
            Some(t) => Some(t@),
            None => None,
        };
        let ghost pred = self@.listed_pred(feed_id, unread_only, sv);
        let ghost jf = self@.joined_fn();
        let ghost es = self@.entries;
        let mut pat: Vec<char> = Vec::new();
        let mut too_long = false;
        if let Some(t) = search {
            pat.push('%');
            extend_chars(&mut pat, &chars_of(t));
            pat.push('%');
            assert(pat@ =~= search_pattern(t@));
            too_long = utf8_len_capped(&pat, 50000) > 50000;
        }
        let mut out: Vec<FeedEntry> = Vec::new();
        let n = self.entries.len();
        let mut i: usize = 0;
        while i < n
            invariant
                self.wf(),
                n == self.entries.len(),
                es == self@.entries,
                i <= n,
                pred == self@.listed_pred(feed_id, unread_only, sv),
                jf == self@.joined_fn(),
                sv == match search {
                    Some(t) => Some(t@),
                    None => None::<Seq<char>>,
                },
                search.is_some() ==> pat@ == search_pattern(sv.unwrap()),
                too_long == (search.is_some() && utf8_len(search_pattern(sv.unwrap())) > max_like_pattern()),
                too_long ==> forall|k: int| 0 <= k < i ==> !self@.prelisted(es[k], feed_id, unread_only),
                feed_entries_view(out@) == es.take(i as int).filter(pred).map_values(jf),
            decreases n - i,
        {
            let e = &self.entries[i];
            let mut keep = false;
            if let Some(fp) = self.find_feed(e.feed_id) {
                let f = &self.feeds[fp];
                let feed_ok = match feed_id {
                    Some(x) => e.feed_id == x,
                    None => true,
                };
                let unread_ok = !unread_only || e.read_at.is_none();
                if feed_ok && unread_ok {
                    assert(self@.prelisted(es[i as int], feed_id, unread_only));
                    if too_long {
                        return Err(StoreError::PatternTooComplex);
                    }
                    keep = match search {
                        Some(t) => self.hits(e, f, &pat, Ghost(t@)),
                        None => true,
                    };
                    if keep {
                        out.push(self.joined_entry(e, f));
                    }
                }
            }
            proof {
                let t = es.take(i + 1);
                assert(t.drop_last() =~= es.take(i as int));
                assert(t.last() == es[i as int]);
                assert(e@ == es[i as int]);
                assert(pred(t.last()) == keep);
                reveal_with_fuel(Seq::filter, 1);
                assert(t.filter(pred) == if pred(t.last()) {
                    t.drop_last().filter(pred).push(t.last())
                } else {
                    t.drop_last().filter(pred)
                });
                assert(es.take(i as int).filter(pred).push(es[i as int]).map_values(jf) =~= es.take(
                    i as int,
                ).filter(pred).map_values(jf).push(jf(es[i as int])));
                assert(feed_entries_view(out@) =~= t.filter(pred).map_values(jf));
            }
            i = i + 1;
        }
        proof {
            assert(es.take(n as int) =~= es);
        }
        let sorted = sort_entries(out);
        Ok(page_entries(sorted, offset, limit))
    }
}


impl StoreView {
    /// One default feed: added (with its title) unless its URL, or a feed of the
    /// same site (such as the feed that a sync discovered for it), is there already.
    pub open spec fn seed_one(self, url: Seq<char>, title: Seq<char>, now: i64) -> (StoreView, Result<usize, StoreError>) {
        if self.has_url(url) || self.has_channel(url, url) {
            (self, Ok(0))
        } else {
            match self.add_feed(url, Some(title), None, now) {
                Ok(x) => (x.0, Ok(1)),
                Err(e) => (self, Err(e)),
            }
        }
    }

    /// `seed_default_feeds`: the two default feeds, in order; counts the added ones.
    pub open spec fn seed_default_feeds(self, now: i64) -> (StoreView, Result<usize, StoreError>) {
        let (s1, r1) = self.seed_one("https://atlas21.com/feed/"@, "Atlas21"@, now);
        match r1 {
            Err(e) => (s1, Err(e)),
            Ok(n1) => {
                let (s2, r2) = s1.seed_one("https://www.theblock.co/"@, "The Block"@, now);
                match r2 {
                    Ok(n2) => (s2, Ok((n1 + n2) as usize)),
                    Err(e) => (s2, Err(e)),
                }
            },
        }
    }
}

impl Store {
    fn seed_one(&mut self, url: &str, title: &str, now: i64) -> (r: Result<usize, StoreError>)
        requires
            old(self).wf(),
        ensures
            final(self).wf(),
            (final(self)@, r) == old(self)@.seed_one(url@, title@, now),
    {
        let url_s = String::from_str(url);
        if self.find_url(&url_s).is_some() || self.find_channel(url, url).is_some() {
            return Ok(0);
        }
        match self.add_feed_at(url, Some(String::from_str(title)), None, now) {
            Ok(_) => Ok(1),
            Err(e) => Err(e),
        }
    }

    /// Adds the default feeds whose sites are missing, at time `now`; returns how many
    /// were added.
    pub fn seed_default_feeds_at(&mut self, now: i64) -> (r: Result<usize, StoreError>)
        requires
            old(self).wf(),
        ensures
            final(self).wf(),
            (final(self)@, r) == old(self)@.seed_default_feeds(now),
    {
        let n1 = match self.seed_one("https://atlas21.com/feed/", "Atlas21", now) {
            Ok(n) => n,
            Err(e) => return Err(e),
        };
        match self.seed_one("https://www.theblock.co/", "The Block", now) {
            Ok(n2) => Ok(n1 + n2),
            Err(e) => Err(e),
        }
    }

    /// `seed_default_feeds_at` at the current time.
    pub fn seed_default_feeds(&mut self) -> (r: Result<usize, StoreError>)
        requires
            old(self).wf(),
        ensures
            final(self).wf(),
            exists|now: i64| (final(self)@, r) == old(self)@.seed_default_feeds(now),
    {
        let (now, _) = utc_now();
        self.seed_default_feeds_at(now)
    }

    /// The timestamp, where chrono can represent it as a UTC date and time.
    pub fn latest_readable_timestamp(&self, ts: Option<i64>) -> (r: Option<i64>)
        ensures
            r == match ts {
                Some(v) => if spec_utc_civil(v).is_some() {
                    Some(v)
                } else {
                    None
                },
                None => None,
            },
    {
        match ts {
            Some(v) => if chrono_utc_civil(v).is_some() {
                Some(v)
            } else {
                None
            },
            None => None,
        }
    }
}

// ---------------------------------------------------------------------------
// Merging feeds of one site
// ---------------------------------------------------------------------------

/// The key under which feeds count as one site: the canonical host of the feed URL.
pub open spec fn site_key(f: FeedView) -> Seq<char> {
    canonical_host_spec(f.url)
}

pub open spec fn has_site_key(k: Seq<char>) -> spec_fn(FeedView) -> bool {
    |f: FeedView| site_key(f) == k
}

/// Newer first: the later `added_at`, then the larger id.
pub open spec fn newer_first(a: FeedView, b: FeedView) -> bool {
    a.added_at > b.added_at || (a.added_at == b.added_at && a.id > b.id)
}

pub open spec fn newer_order() -> spec_fn(FeedView, FeedView) -> bool {
    |a: FeedView, b: FeedView| newer_first(a, b)
}

/// A title, unless it is empty.
pub open spec fn nonempty(t: Option<Seq<char>>) -> Option<Seq<char>> {
    match t {
        Some(x) => if x.len() > 0 {
            Some(x)
        } else {
            None
        },
        None => None,
    }
}

/// The title and site that the kept feed carries after taking in `dup`: its own
/// where it has them (an empty title counts as none), else the duplicate's.
pub open spec fn carry(kt: (Option<Seq<char>>, Option<Seq<char>>), dup: FeedView) -> (
    Option<Seq<char>>,
    Option<Seq<char>>,
) {
    (
        match nonempty(kt.0) {
            Some(t) => Some(t),
            None => dup.title,
        },
        match kt.1 {
            Some(x) => Some(x),
            None => dup.site_url,
        },
    )
}

/// The external ids of the entries of feed `did`.
pub open spec fn ids_of_feed(es: Seq<EntryRowView>, did: i64) -> Set<Seq<char>> {
    Set::new(|x: Seq<char>| exists|i: int| 0 <= i < es.len() && es[i].feed_id == did && es[i].external_id == x)
}

/// Entries of the kept feed survive unless the duplicate has one with the same
/// external id.
pub open spec fn survives_merge(kid: i64, dup_ids: Set<Seq<char>>) -> spec_fn(EntryRowView) -> bool {
    |e: EntryRowView| !(e.feed_id == kid && dup_ids.contains(e.external_id))
}

pub open spec fn repoint(e: EntryRowView, did: i64, kid: i64) -> EntryRowView {
    if e.feed_id == did {
        EntryRowView { feed_id: kid, ..e }
    } else {
        e
    }
}

/// The entries after merging feed `did` into feed `kid`: the kept feed's entries
/// that the duplicate also has go, and the duplicate's entries move to the kept feed.
pub open spec fn merged_entries(es: Seq<EntryRowView>, kid: i64, did: i64) -> Seq<EntryRowView> {
    es.filter(survives_merge(kid, ids_of_feed(es, did))).map_values(|e: EntryRowView| repoint(e, did, kid))
}

impl StoreView {
    /// Sets title and site of a feed where the given values are present.
    pub open spec fn coalesce_feed(self, id: i64, title: Option<Seq<char>>, site: Option<Seq<char>>) -> StoreView {
        if self.has_feed(id) {
            let p = self.feed_pos(id);
            self.with_feeds(
                self.feeds.update(
                    p,
                    FeedView {
                        title: coalesce(title, self.feeds[p].title),
                        site_url: coalesce(site, self.feeds[p].site_url),
                        ..self.feeds[p]
                    },
                ),
            )
        } else {
            self
        }
    }

    /// Merges the duplicate `dup` into the kept feed `kid`, which carries `kt`.
    pub open spec fn merge_dup(self, kid: i64, kt: (Option<Seq<char>>, Option<Seq<char>>), dup: FeedView) -> (
        StoreView,
        (Option<Seq<char>>, Option<Seq<char>>),
    ) {
        let kt2 = carry(kt, dup);
        let s1 = self.with_entries(merged_entries(self.entries, kid, dup.id));
        (s1.coalesce_feed(kid, kt2.0, kt2.1).remove_feed(dup.id).0, kt2)
    }

    /// Merges the duplicates one after the other.
    pub open spec fn merge_dups(self, kid: i64, kt: (Option<Seq<char>>, Option<Seq<char>>), dups: Seq<FeedView>) -> (
        StoreView,
        (Option<Seq<char>>, Option<Seq<char>>),
    )
        decreases dups.len(),
    {
        if dups.len() == 0 {
            (self, kt)
        } else {
            let (s1, kt1) = self.merge_dups(kid, kt, dups.drop_last());
            s1.merge_dup(kid, kt1, dups.last())
        }
    }

    /// Merges the feeds of `snap` with site key `k`: the newest is kept, the others,
    /// newest first, are merged into it. Gives the number of feeds merged away.
    pub open spec fn merge_cluster(self, snap: Seq<FeedView>, k: Seq<char>) -> (StoreView, nat) {
        let members = snap.filter(has_site_key(k));
        if members.len() < 2 {
            (self, 0)
        } else {
            let sorted = stable_sort(members, newer_order());
            ((self.merge_dups(sorted[0].id, (sorted[0].title, sorted[0].site_url), sorted.drop_first())).0, (
            members.len() - 1) as nat)
        }
    }

    /// Merges the sites of the first `i` feeds of `snap`, each site once (at its
    /// first feed), sites with an empty key left alone.
    pub open spec fn dedupe_from(self, snap: Seq<FeedView>, i: int) -> (StoreView, nat)
        decreases i,
    {
        if i <= 0 {
            (self, 0)
        } else {
            let (s1, n1) = self.dedupe_from(snap, i - 1);
            let k = site_key(snap[i - 1]);
            if k.len() > 0 && first_with_key(snap, i - 1) {
                let (s2, n2) = s1.merge_cluster(snap, k);
                (s2, n1 + n2)
            } else {
                (s1, n1)
            }
        }
    }

    /// `dedupe_same_site_feeds`: merges each set of feeds of one site into its
    /// newest feed; gives the store and the number of feeds merged away.
    pub open spec fn dedupe(self) -> (StoreView, nat) {
        self.dedupe_from(self.feeds, self.feeds.len() as int)
    }
}

/// No feed before position `i` has the site key of the feed at `i`.
pub open spec fn first_with_key(snap: Seq<FeedView>, i: int) -> bool {
    forall|j: int| 0 <= j < i ==> site_key(snap[j]) != site_key(snap[i])
}

pub open spec fn sat_usize(n: nat) -> usize {
    if n > usize::MAX {
        usize::MAX
    } else {
        n as usize
    }
}

/// Merging two feeds' entries keeps the store's invariant on entries.
pub proof fn lemma_merged_entries_wf(es: Seq<EntryRowView>, seq: i64, kid: i64, did: i64)
    requires
        entries_wf(es, seq),
    ensures
        entries_wf(merged_entries(es, kid, did), seq),
{
    let d = ids_of_feed(es, did);
    let pred = survives_merge(kid, d);
    let f = es.filter(pred);
    lemma_filter_entries_wf(es, seq, pred);
    #[allow(deprecated)]
    es.filter_lemma(pred);
    let m = merged_entries(es, kid, did);
    assert(m.len() == f.len());
    assert forall|a: int| 0 <= a < m.len() implies m[a] == repoint(f[a], did, kid) by {}
    assert forall|a: int| 0 <= a < f.len() && f[a].feed_id == did implies d.contains(f[a].external_id) by {
        lemma_filter_subset(es, pred, a);
        assert(es.contains(f[a]));
        let j = choose|j: int| 0 <= j < es.len() && es[j] == f[a];
        assert(es[j].feed_id == did && es[j].external_id == f[a].external_id);
    }
    assert forall|a: int| 0 <= a < m.len() implies 1 <= #[trigger] m[a].id <= seq by {
        assert(1 <= f[a].id <= seq);
    }
    assert forall|a: int, b: int| 0 <= a < b < m.len() implies m[a].id < m[b].id by {
        assert(f[a].id < f[b].id);
    }
    assert forall|a: int, b: int|
        0 <= a < m.len() && 0 <= b < m.len() && a != b implies !(m[a].feed_id == m[b].feed_id
        && m[a].external_id == m[b].external_id) by {
        assert(!(f[a].feed_id == f[b].feed_id && f[a].external_id == f[b].external_id));
        assert(pred(f[a]) && pred(f[b]));
        if f[a].feed_id == did && f[b].feed_id != did && m[a].feed_id == m[b].feed_id {
            assert(d.contains(f[a].external_id));
            assert(f[b].feed_id == kid);
        }
        if f[b].feed_id == did && f[a].feed_id != did && m[a].feed_id == m[b].feed_id {
            assert(d.contains(f[b].external_id));
            assert(f[a].feed_id == kid);
        }
    }
}

fn newer_first_exec(a: &Feed, b: &Feed) -> (r: bool)
    ensures
        r == newer_first(a@, b@),
{
    a.added_at > b.added_at || (a.added_at == b.added_at && a.id > b.id)
}

fn sort_newer_first(v: Vec<Feed>) -> (r: Vec<Feed>)
    ensures
        feeds_view(r@) == stable_sort(feeds_view(v@), newer_order()),
{
    let ghost order = newer_order();
    let ghost vs = feeds_view(v@);
    let mut r: Vec<Feed> = Vec::new();
    let mut i: usize = 0;
    while i < v.len()
        invariant
            i <= v.len(),
            order == newer_order(),
            vs == feeds_view(v@),
            feeds_view(r@) == stable_sort(vs.take(i as int), order),
        decreases v.len() - i,
    {
        let x = v[i].clone();
        let ghost rs = feeds_view(r@);
        proof {
            assert(vs.take(i + 1).drop_last() =~= vs.take(i as int));
            assert(vs.take(i + 1).last() == x@);
            assert(stable_sort(vs.take(i + 1), order) == insert_by(rs, x@, order));
            assert(rs.skip(0) =~= rs);
            assert(rs.take(0) + insert_by(rs.skip(0), x@, order) =~= insert_by(rs, x@, order));
        }
        let mut p: usize = 0;
        while p < r.len() && !newer_first_exec(&x, &r[p])
            invariant
                p <= r.len(),
                rs == feeds_view(r@),
                order == newer_order(),
                insert_by(rs, x@, order) == rs.take(p as int) + insert_by(rs.skip(p as int), x@, order),
            decreases r.len() - p,
        {
            proof {
                lemma_insert_by_step(rs, x@, order, p as int);
            }
            p = p + 1;
        }
        proof {
            lemma_insert_by_stop(rs, x@, order, p as int);
        }
        r.insert(p, x);
        proof {
            assert(feeds_view(r@) =~= rs.insert(p as int, x@));
        }
        i = i + 1;
    }
    proof {
        assert(vs.take(v.len() as int) =~= vs);
    }
    r
}

/// The feeds of `snap` with site key `k`, in order.
fn feeds_with_key(snap: &Vec<Feed>, k: &Vec<char>) -> (r: Vec<Feed>)
    ensures
        feeds_view(r@) == feeds_view(snap@).filter(has_site_key(k@)),
{
    let ghost pred = has_site_key(k@);
    let ghost sv = feeds_view(snap@);
    let mut r: Vec<Feed> = Vec::new();
    let mut i: usize = 0;
    while i < snap.len()
        invariant
            i <= snap.len(),
            pred == has_site_key(k@),
            sv == feeds_view(snap@),
            feeds_view(r@) == sv.take(i as int).filter(pred),
        decreases snap.len() - i,
    {
        let key = canonical_host_chars(snap[i].url.as_str());
        let same = seq_eq_chars(&key, k);
        proof {
            let t = sv.take(i + 1);
            assert(t.drop_last() =~= sv.take(i as int));
            assert(t.last() == snap@[i as int]@);
            reveal_with_fuel(Seq::filter, 1);
            assert(t.filter(pred) == if pred(t.last()) {
                t.drop_last().filter(pred).push(t.last())
            } else {
                t.drop_last().filter(pred)
            });
            assert(same == pred(t.last()));
        }
        if same {
            let x = snap[i].clone();
            proof {
                lemma_feeds_view_push(r@, x);
            }
            r.push(x);
        }
        i = i + 1;
    }
    assert(sv.take(snap.len() as int) =~= sv);
    r
}

fn seq_eq_chars(a: &Vec<char>, b: &Vec<char>) -> (r: bool)
    ensures
        r == (a@ == b@),
{
    if a.len() != b.len() {
        return false;
    }
    let mut i: usize = 0;
    while i < a.len()
        invariant
            a.len() == b.len(),
            i <= a.len(),
            forall|j: int| 0 <= j < i ==> a@[j] == b@[j],
        decreases a.len() - i,
    {
        if a[i] != b[i] {
            return false;
        }
        i = i + 1;
    }
    assert(a@ =~= b@);
    true
}

pub open spec fn holds_text(v: Seq<String>, x: Seq<char>) -> bool {
    exists|k: int| 0 <= k < v.len() && v[k]@ == x
}

/// Some entry before position `i` belongs to feed `did` and has external id `x`.
pub open spec fn id_of_feed_before(es: Seq<EntryRowView>, i: int, did: i64, x: Seq<char>) -> bool {
    exists|j: int| 0 <= j < i && es[j].feed_id == did && es[j].external_id == x
}

fn contains_text(v: &Vec<String>, s: &String) -> (r: bool)
    ensures
        r == holds_text(v@, s@),
{
    let mut i: usize = 0;
    while i < v.len()
        invariant
            i <= v.len(),
            forall|k: int| 0 <= k < i ==> v@[k]@ != s@,
        decreases v.len() - i,
    {
        if v[i] == *s {
            return true;
        }
        i = i + 1;
    }
    false
}

impl Store {
    /// Replaces the entries by `merged_entries`.
    fn merge_entries(&mut self, kid: i64, did: i64)
        requires
            old(self).wf(),
        ensures
            final(self).wf(),
            final(self)@ == old(self)@.with_entries(merged_entries(old(self)@.entries, kid, did)),
    {
        let ghost es = self@.entries;
        let ghost d = ids_of_feed(es, did);
        let n = self.entries.len();
        let mut dup_ids: Vec<String> = Vec::new();
        let mut i: usize = 0;
        while i < n
            invariant
                n == self.entries.len(),
                es == self@.entries,
                i <= n,
                forall|x: Seq<char>| #[trigger] holds_text(dup_ids@, x) <==> id_of_feed_before(es, i as int, did, x),
            decreases n - i,
        {
            if self.entries[i].feed_id == did {
                let ghost before = dup_ids@;
                let ext = self.entries[i].external_id.clone();
                dup_ids.push(ext);
                proof {
                    assert(dup_ids@ == before.push(ext));
                    assert(ext@ == es[i as int].external_id);
                    assert forall|x: Seq<char>| #[trigger] holds_text(dup_ids@, x) <==> id_of_feed_before(es, i + 1, did, x) by {
                        if holds_text(dup_ids@, x) {
                            let k = choose|k: int| 0 <= k < dup_ids@.len() && dup_ids@[k]@ == x;
                            if k < before.len() {
                                assert(dup_ids@[k] == before[k]);
                                assert(holds_text(before, x));
                            } else {
                                assert(es[i as int].feed_id == did && es[i as int].external_id == x);
                            }
                        }
                        if id_of_feed_before(es, i + 1, did, x) {
                            let j = choose|j: int| 0 <= j < i + 1 && es[j].feed_id == did && es[j].external_id == x;
                            if j < i {
                                assert(id_of_feed_before(es, i as int, did, x));
                                assert(holds_text(before, x));
                                let k = choose|k: int| 0 <= k < before.len() && before[k]@ == x;
                                assert(dup_ids@[k] == before[k]);
                                assert(dup_ids@[k]@ == x);
                            } else {
                                assert(dup_ids@[before.len() as int]@ == x);
                            }
                        }
                    }
                }
            } else {
                proof {
                    assert forall|x: Seq<char>| #[trigger] holds_text(dup_ids@, x) <==> id_of_feed_before(es, i + 1, did, x) by {
                        if id_of_feed_before(es, i + 1, did, x) {
                            let j = choose|j: int| 0 <= j < i + 1 && es[j].feed_id == did && es[j].external_id == x;
                            assert(j < i);
                            assert(id_of_feed_before(es, i as int, did, x));
                        }
                        if holds_text(dup_ids@, x) {
                            assert(id_of_feed_before(es, i as int, did, x));
                            let j = choose|j: int| 0 <= j < i && es[j].feed_id == did && es[j].external_id == x;
                            assert(id_of_feed_before(es, i + 1, did, x));
                        }
                    }
                }
            }
            i = i + 1;
        }
        proof {
            assert forall|x: Seq<char>| #[trigger] holds_text(dup_ids@, x) <==> d.contains(x) by {
                if d.contains(x) {
                    assert(id_of_feed_before(es, n as int, did, x));
                }
                if holds_text(dup_ids@, x) {
                    assert(id_of_feed_before(es, n as int, did, x));
                    let j = choose|j: int| 0 <= j < n && es[j].feed_id == did && es[j].external_id == x;
                    assert(d.contains(x));
                }
            }
        }
        let ghost pred = survives_merge(kid, d);
        let mut kept: Vec<EntryRow> = Vec::new();
        let mut i: usize = 0;
        while i < n
            invariant
                n == self.entries.len(),
                es == self@.entries,
                i <= n,
                pred == survives_merge(kid, d),
                d == ids_of_feed(es, did),
                forall|x: Seq<char>| #[trigger] holds_text(dup_ids@, x) <==> d.contains(x),
                entries_view(kept@) == es.take(i as int).filter(pred).map_values(
                    |e: EntryRowView| repoint(e, did, kid),
                ),
            decreases n - i,
        {
            let e = &self.entries[i];
            let hit = e.feed_id == kid && contains_text(&dup_ids, &e.external_id);
            proof {
                let t = es.take(i + 1);
                assert(t.drop_last() =~= es.take(i as int));
                assert(t.last() == es[i as int]);
                assert(e@ == es[i as int]);
                assert(hit == !pred(e@));
                reveal_with_fuel(Seq::filter, 1);
                assert(t.filter(pred) == if pred(t.last()) {
                    t.drop_last().filter(pred).push(t.last())
                } else {
                    t.drop_last().filter(pred)
                });
            }
            if !hit {
                let c = e.clone();
                let row = if c.feed_id == did {
                    EntryRow { feed_id: kid, ..c }
                } else {
                    c
                };
                let ghost before = entries_view(kept@);
                kept.push(row);
                proof {
                    assert(row@ == repoint(es[i as int], did, kid));
                    assert(entries_view(kept@) =~= before.push(row@));
                    let f0 = es.take(i as int).filter(pred);
                    assert(f0.push(es[i as int]).map_values(|e: EntryRowView| repoint(e, did, kid)) =~= f0.map_values(
                        |e: EntryRowView| repoint(e, did, kid),
                    ).push(repoint(es[i as int], did, kid)));
                }
            }
            i = i + 1;
        }
        proof {
            assert(es.take(n as int) =~= es);
            lemma_merged_entries_wf(es, self.entry_seq, kid, did);
        }
        self.entries = kept;
    }

    /// Sets title and site of a feed where the given values are present.
    fn coalesce_feed(&mut self, id: i64, title: &Option<String>, site: &Option<String>)
        requires
            old(self).wf(),
        ensures
            final(self).wf(),
            final(self)@ == old(self)@.coalesce_feed(id, opt_view(*title), opt_view(*site)),
    {
        match self.find_feed(id) {
            Some(p) => {
                let ghost before = self@;
                let f = self.feeds[p].clone();
                let t = match title {
                    Some(x) => Some(x.clone()),
                    None => f.title,
                };
                let st = match site {
                    Some(x) => Some(x.clone()),
                    None => f.site_url,
                };
                let row = Feed { id: f.id, url: f.url, title: t, site_url: st, added_at: f.added_at };
                self.feeds.set(p, row);
                proof {
                    assert(self@.feeds =~= before.feeds.update(p as int, self@.feeds[p as int]));
                    lemma_update_keeps_wf(before, p as int, self@.feeds[p as int]);
                }
            },
            None => {},
        }
    }

    /// Merges the duplicate `dup` into the kept feed `kid`, which carries `title`
    /// and `site`; gives what the kept feed carries afterwards.
    fn merge_dup(&mut self, kid: i64, title: Option<String>, site: Option<String>, dup: &Feed) -> (r: (
        Option<String>,
        Option<String>,
    ))
        requires
            old(self).wf(),
        ensures
            final(self).wf(),
            (final(self)@, (opt_view(r.0), opt_view(r.1))) == old(self)@.merge_dup(
                kid,
                (opt_view(title), opt_view(site)),
                dup@,
            ),
    {
        self.merge_entries(kid, dup.id);
        let t = match title {
            Some(x) => if x.as_str().unicode_len() > 0 {
                Some(x)
            } else {
                clone_opt_string(&dup.title)
            },
            None => clone_opt_string(&dup.title),
        };
        let st = match site {
            Some(x) => Some(x),
            None => clone_opt_string(&dup.site_url),
        };
        self.coalesce_feed(kid, &t, &st);
        self.remove_feed(dup.id);
        (t, st)
    }

    /// Merges the feeds of `snap` with site key `k` into the newest of them; gives
    /// how many were merged away.
    fn merge_cluster(&mut self, snap: &Vec<Feed>, k: &Vec<char>) -> (r: usize)
        requires
            old(self).wf(),
        ensures
            final(self).wf(),
            (final(self)@, r as nat) == old(self)@.merge_cluster(feeds_view(snap@), k@),
    {
        let members = feeds_with_key(snap, k);
        if members.len() < 2 {
            return 0;
        }
        let count = members.len() - 1;
        let ghost mv = feeds_view(members@);
        let sorted = sort_newer_first(members);
        proof {
            lemma_stable_sort(mv, newer_order());
        }
        let ghost sv = feeds_view(sorted@);
        let ghost dups = sv.drop_first();
        let kid = sorted[0].id;
        let mut title = clone_opt_string(&sorted[0].title);
        let mut site = clone_opt_string(&sorted[0].site_url);
        let ghost kt0 = (opt_view(title), opt_view(site));
        let ghost s0 = self@;
        let mut j: usize = 1;
        assert(dups.take(0) =~= Seq::<FeedView>::empty());
        while j < sorted.len()
            invariant
                1 <= j <= sorted.len(),
                sv == feeds_view(sorted@),
                dups == sv.drop_first(),
                kid == sv[0].id,
                self.wf(),
                (self@, (opt_view(title), opt_view(site))) == s0.merge_dups(kid, kt0, dups.take(j - 1)),
            decreases sorted.len() - j,
        {
            let ghost kt = (opt_view(title), opt_view(site));
            let ghost s1 = self@;
            let (t2, st2) = self.merge_dup(kid, title, site, &sorted[j]);
            title = t2;
            site = st2;
            proof {
                let t = dups.take(j as int);
                assert(t.drop_last() =~= dups.take(j - 1));
                assert(t.last() == sorted@[j as int]@);
            }
            j = j + 1;
        }
        assert(dups.take(sorted.len() - 1) =~= dups);
        count
    }

    /// Merges each set of feeds of one site (same canonical host) into its newest
    /// feed: the others' entries move to it (where both have an entry with the same
    /// external id, the other's copy stays), it takes their title and site where it
    /// has none, and they are deleted. Returns how many feeds were merged away (at
    /// most `usize::MAX`).
    pub fn dedupe_same_site_feeds(&mut self) -> (r: usize)
        requires
            old(self).wf(),
        ensures
            final(self).wf(),
            final(self)@ == old(self)@.dedupe().0,
            r == sat_usize(old(self)@.dedupe().1),
            !final(self)@.has_site_twice(),
    {
        proof {
            law_dedupe_one_feed_per_site(self@);
        }
        let snap = self.feeds.clone();
        let ghost sv = feeds_view(snap@);
        let ghost s0 = self@;
        assert(sv == s0.feeds);
        let mut removed: usize = 0;
        let mut i: usize = 0;
        while i < snap.len()
            invariant
                i <= snap.len(),
                sv == feeds_view(snap@),
                self.wf(),
                self@ == s0.dedupe_from(sv, i as int).0,
                removed == sat_usize(s0.dedupe_from(sv, i as int).1),
            decreases snap.len() - i,
        {
            let k = canonical_host_chars(snap[i].url.as_str());
            assert(k@ == site_key(sv[i as int]));
            let mut first = true;
            let mut j: usize = 0;
            while j < i
                invariant
                    j <= i < snap.len(),
                    sv == feeds_view(snap@),
                    k@ == site_key(sv[i as int]),
                    first == forall|m: int| 0 <= m < j ==> site_key(sv[m]) != site_key(sv[i as int]),
                decreases i - j,
            {
                let kj = canonical_host_chars(snap[j].url.as_str());
                if seq_eq_chars(&kj, &k) {
                    first = false;
                }
                proof {
                    assert(kj@ == site_key(sv[j as int]));
                }
                j = j + 1;
            }
            if k.len() > 0 && first {
                let n = self.merge_cluster(&snap, &k);
                removed = removed.saturating_add(n);
            }
            i = i + 1;
        }
        removed
    }
}

impl StoreView {
    /// What opening the database does once its rows are read: the default feeds
    /// that are missing are added (at time `now`), then feeds of one site merged.
    pub open spec fn prepare(self, now: i64) -> (StoreView, Result<(), StoreError>) {
        let (s1, r1) = self.seed_default_feeds(now);
        match r1 {
            Ok(_) => (s1.dedupe().0, Ok(())),
            Err(e) => (s1, Err(e)),
        }
    }
}

impl Store {
    /// Adds the missing default feeds at time `now`, then merges feeds of one site.
    pub fn prepare_at(&mut self, now: i64) -> (r: Result<(), StoreError>)
        requires
            old(self).wf(),
        ensures
            final(self).wf(),
            (final(self)@, r) == old(self)@.prepare(now),
    {
        match self.seed_default_feeds_at(now) {
            Ok(_) => {
                self.dedupe_same_site_feeds();
                Ok(())
            },
            Err(e) => Err(e),
        }
    }

    /// A store over the rows read from the database (see `from_rows`), prepared as
    /// opening the database does (see `StoreView::prepare`) at the current time.
    pub fn open(feeds: Vec<Feed>, entries: Vec<EntryRow>, feed_seq: i64, entry_seq: i64) -> (r: Result<
        Store,
        StoreError,
    >)
        ensures
            match r {
                Ok(s) => s.wf() && exists|now: i64|
                    #[trigger] (StoreView {
                        feeds: feeds_view(feeds@),
                        entries: entries_view(entries@),
                        feed_seq,
                        entry_seq,
                    }).prepare(now) == (s@, Ok::<(), StoreError>(())),
                Err(e) => !(StoreView {
                    feeds: feeds_view(feeds@),
                    entries: entries_view(entries@),
                    feed_seq,
                    entry_seq,
                }).wf() && e is InvalidRows || exists|now: i64|
                    #[trigger] (StoreView {
                        feeds: feeds_view(feeds@),
                        entries: entries_view(entries@),
                        feed_seq,
                        entry_seq,
                    }).prepare(now).1 == Err::<(), StoreError>(e),
            },
    {
        let mut s = match Store::from_rows(feeds, entries, feed_seq, entry_seq) {
            Ok(s) => s,
            Err(e) => return Err(e),
        };
        let (now, _) = utc_now();
        match s.prepare_at(now) {
            Ok(()) => Ok(s),
            Err(e) => Err(e),
        }
    }
}

// ---------------------------------------------------------------------------
// What merging feeds of one site keeps
// ---------------------------------------------------------------------------

/// Two feed rows with the same id and URL.
pub open spec fn same_row(f: FeedView, g: FeedView) -> bool {
    f.id == g.id && f.url == g.url
}

/// `b` has a feed with the id and URL of `f`.
pub open spec fn row_in(f: FeedView, b: Seq<FeedView>) -> bool {
    exists|j: int| 0 <= j < b.len() && #[trigger] same_row(f, b[j])
}

/// Every feed of `a` is a feed of `b`, with the same id and URL.
pub open spec fn feeds_within(a: Seq<FeedView>, b: Seq<FeedView>) -> bool {
    forall|i: int| 0 <= i < a.len() ==> #[trigger] row_in(a[i], b)
}

/// Two different feeds of `fs` have site key `k`.
pub open spec fn two_with_key(fs: Seq<FeedView>, k: Seq<char>) -> bool {
    exists|a: int, b: int|
        0 <= a < fs.len() && 0 <= b < fs.len() && a != b && #[trigger] site_key(fs[a]) == k && #[trigger] site_key(
            fs[b],
        ) == k
}

proof fn lemma_within_refl(a: Seq<FeedView>)
    ensures
        feeds_within(a, a),
{
    assert forall|i: int| 0 <= i < a.len() implies #[trigger] row_in(a[i], a) by {
        assert(same_row(a[i], a[i]));
    }
}

proof fn lemma_within_trans(a: Seq<FeedView>, b: Seq<FeedView>, c: Seq<FeedView>)
    requires
        feeds_within(a, b),
        feeds_within(b, c),
    ensures
        feeds_within(a, c),
{
    assert forall|i: int| 0 <= i < a.len() implies #[trigger] row_in(a[i], c) by {
        assert(row_in(a[i], b));
        let j = choose|j: int| 0 <= j < b.len() && #[trigger] same_row(a[i], b[j]);
        assert(row_in(b[j], c));
        let k = choose|k: int| 0 <= k < c.len() && #[trigger] same_row(b[j], c[k]);
        assert(same_row(a[i], c[k]));
    }
}

proof fn lemma_within_has_feed(s: StoreView, t: StoreView, id: i64)
    requires
        feeds_within(t.feeds, s.feeds),
        t.has_feed(id),
    ensures
        s.has_feed(id),
{
    let i = choose|i: int| 0 <= i < t.feeds.len() && t.feeds[i].id == id;
    assert(row_in(t.feeds[i], s.feeds));
    let j = choose|j: int| 0 <= j < s.feeds.len() && #[trigger] same_row(t.feeds[i], s.feeds[j]);
    assert(s.feeds[j].id == id);
}

/// Removing a feed keeps the invariant; the feed is gone and the others stay.
proof fn lemma_remove_feed_frame(s: StoreView, id: i64)
    requires
        s.wf(),
    ensures
        s.remove_feed(id).0.wf(),
        !s.remove_feed(id).0.has_feed(id),
        feeds_within(s.remove_feed(id).0.feeds, s.feeds),
{
    let t = s.remove_feed(id).0;
    if s.has_feed(id) {
        lemma_filter_entries_wf(s.entries, s.entry_seq, not_of_feed(id));
        let i = s.feed_pos(id);
        let fs = t.feeds;
        assert(fs == s.feeds.remove(i));
        assert forall|a: int, b: int| 0 <= a < b < fs.len() implies fs[a].id < fs[b].id by {
            let a0 = if a < i { a } else { a + 1 };
            let b0 = if b < i { b } else { b + 1 };
            assert(s.feeds[a0].id < s.feeds[b0].id);
        }
        assert forall|a: int, b: int| 0 <= a < fs.len() && 0 <= b < fs.len() && a != b implies fs[a].url != fs[b].url by {
            let a0 = if a < i { a } else { a + 1 };
            let b0 = if b < i { b } else { b + 1 };
            assert(s.feeds[a0].url != s.feeds[b0].url);
        }
        assert forall|a: int| 0 <= a < fs.len() implies 1 <= #[trigger] fs[a].id <= s.feed_seq by {
            let a0 = if a < i { a } else { a + 1 };
            assert(1 <= s.feeds[a0].id <= s.feed_seq);
        }
        assert forall|a: int| 0 <= a < fs.len() implies #[trigger] row_in(fs[a], s.feeds) by {
            let a0 = if a < i { a } else { a + 1 };
            assert(same_row(fs[a], s.feeds[a0]));
        }
        if t.has_feed(id) {
            let q = choose|q: int| 0 <= q < fs.len() && fs[q].id == id;
            let q0 = if q < i { q } else { q + 1 };
            assert(s.feeds[q0].id == id);
            lemma_feed_pos_unique(s, id, q0);
        }
    } else {
        lemma_within_refl(s.feeds);
    }
}

/// Setting title and site keeps the invariant and the feeds' ids and URLs.
proof fn lemma_coalesce_frame(s: StoreView, id: i64, title: Option<Seq<char>>, site: Option<Seq<char>>)
    requires
        s.wf(),
    ensures
        s.coalesce_feed(id, title, site).wf(),
        feeds_within(s.coalesce_feed(id, title, site).feeds, s.feeds),
        s.coalesce_feed(id, title, site).feeds.len() == s.feeds.len(),
{
    let t = s.coalesce_feed(id, title, site);
    if s.has_feed(id) {
        let p = s.feed_pos(id);
        lemma_update_keeps_wf(s, p, t.feeds[p]);
        assert forall|a: int| 0 <= a < t.feeds.len() implies #[trigger] row_in(t.feeds[a], s.feeds) by {
            assert(same_row(t.feeds[a], s.feeds[a]));
        }
    } else {
        lemma_within_refl(s.feeds);
    }
}

/// Merging one duplicate keeps the invariant, adds no feed and removes the duplicate.
proof fn lemma_merge_dup_frame(s: StoreView, kid: i64, kt: (Option<Seq<char>>, Option<Seq<char>>), dup: FeedView)
    requires
        s.wf(),
    ensures
        s.merge_dup(kid, kt, dup).0.wf(),
        feeds_within(s.merge_dup(kid, kt, dup).0.feeds, s.feeds),
        !s.merge_dup(kid, kt, dup).0.has_feed(dup.id),
{
    let kt2 = carry(kt, dup);
    let s1 = s.with_entries(merged_entries(s.entries, kid, dup.id));
    lemma_merged_entries_wf(s.entries, s.entry_seq, kid, dup.id);
    assert(s1.wf());
    let s2 = s1.coalesce_feed(kid, kt2.0, kt2.1);
    lemma_coalesce_frame(s1, kid, kt2.0, kt2.1);
    lemma_remove_feed_frame(s2, dup.id);
    lemma_within_trans(s2.remove_feed(dup.id).0.feeds, s2.feeds, s1.feeds);
}

/// Merging duplicates keeps the invariant, adds no feed and removes each duplicate.
proof fn lemma_merge_dups_frame(
    s: StoreView,
    kid: i64,
    kt: (Option<Seq<char>>, Option<Seq<char>>),
    dups: Seq<FeedView>,
)
    requires
        s.wf(),
    ensures
        s.merge_dups(kid, kt, dups).0.wf(),
        feeds_within(s.merge_dups(kid, kt, dups).0.feeds, s.feeds),
        forall|m: int| 0 <= m < dups.len() ==> !s.merge_dups(kid, kt, dups).0.has_feed(#[trigger] dups[m].id),
    decreases dups.len(),
{
    if dups.len() == 0 {
        lemma_within_refl(s.feeds);
    } else {
        let d = dups.drop_last();
        lemma_merge_dups_frame(s, kid, kt, d);
        let (s1, kt1) = s.merge_dups(kid, kt, d);
        lemma_merge_dup_frame(s1, kid, kt1, dups.last());
        let t = s1.merge_dup(kid, kt1, dups.last()).0;
        lemma_within_trans(t.feeds, s1.feeds, s.feeds);
        assert forall|m: int| 0 <= m < dups.len() implies !t.has_feed(#[trigger] dups[m].id) by {
            if m < d.len() {
                assert(d[m] == dups[m]);
                assert(!s1.has_feed(d[m].id));
                if t.has_feed(dups[m].id) {
                    lemma_within_has_feed(s1, t, dups[m].id);
                }
            }
        }
    }
}

/// After merging the site `k` of `snap`, at most one feed has that site key; no
/// feed is added.
proof fn lemma_merge_cluster_unique(s: StoreView, snap: Seq<FeedView>, k: Seq<char>)
    requires
        s.wf(),
        forall|i: int| 0 <= i < s.feeds.len() && site_key(s.feeds[i]) == k ==> #[trigger] row_in(s.feeds[i], snap),
    ensures
        s.merge_cluster(snap, k).0.wf(),
        feeds_within(s.merge_cluster(snap, k).0.feeds, s.feeds),
        !two_with_key(s.merge_cluster(snap, k).0.feeds, k),
{
    broadcast use vstd::seq_lib::group_to_multiset_ensures;
    let members = snap.filter(has_site_key(k));
    #[allow(deprecated)]
    snap.filter_lemma(has_site_key(k));
    let t = s.merge_cluster(snap, k).0;
    // every feed with key k has the id of a member
    assert forall|i: int| #![trigger s.feeds[i]] 0 <= i < s.feeds.len() && site_key(s.feeds[i]) == k implies exists|m: int|
        0 <= m < members.len() && #[trigger] members[m].id == s.feeds[i].id by {
        assert(row_in(s.feeds[i], snap));
        let j = choose|j: int| 0 <= j < snap.len() && #[trigger] same_row(s.feeds[i], snap[j]);
        assert(has_site_key(k)(snap[j]));
        snap.lemma_filter_contains_rev(has_site_key(k), snap[j]);
        assert(members.contains(snap[j]));
        let m = choose|m: int| 0 <= m < members.len() && members[m] == snap[j];
        assert(members[m].id == s.feeds[i].id);
    }
    if members.len() < 2 {
        lemma_within_refl(s.feeds);
        if two_with_key(t.feeds, k) {
            let (a, b) = choose|a: int, b: int|
                0 <= a < t.feeds.len() && 0 <= b < t.feeds.len() && a != b && #[trigger] site_key(t.feeds[a]) == k
                    && #[trigger] site_key(t.feeds[b]) == k;
            let ma = choose|m: int| 0 <= m < members.len() && #[trigger] members[m].id == s.feeds[a].id;
            let mb = choose|m: int| 0 <= m < members.len() && #[trigger] members[m].id == s.feeds[b].id;
            assert(ma == mb);
            if a < b {
                assert(s.feeds[a].id < s.feeds[b].id);
            } else {
                assert(s.feeds[b].id < s.feeds[a].id);
            }
        }
    } else {
        let sorted = stable_sort(members, newer_order());
        lemma_stable_sort(members, newer_order());
        let dups = sorted.drop_first();
        lemma_merge_dups_frame(s, sorted[0].id, (sorted[0].title, sorted[0].site_url), dups);
        // a feed of the result with key k carries the kept feed's id
        assert forall|a: int| 0 <= a < t.feeds.len() && site_key(t.feeds[a]) == k implies t.feeds[a].id
            == sorted[0].id by {
            assert(row_in(t.feeds[a], s.feeds));
            let j = choose|j: int| 0 <= j < s.feeds.len() && #[trigger] same_row(t.feeds[a], s.feeds[j]);
            assert(site_key(s.feeds[j]) == k);
            let m = choose|m: int| 0 <= m < members.len() && #[trigger] members[m].id == s.feeds[j].id;
            assert(members.contains(members[m]));
            assert(members.to_multiset().count(members[m]) > 0);
            assert(sorted.to_multiset().count(members[m]) > 0);
            assert(sorted.contains(members[m]));
            let q = choose|q: int| 0 <= q < sorted.len() && sorted[q] == members[m];
            if q > 0 {
                assert(dups[q - 1] == sorted[q]);
                assert(!t.has_feed(dups[q - 1].id));
                assert(t.feeds[a].id == dups[q - 1].id);
            }
        }
        if two_with_key(t.feeds, k) {
            let (a, b) = choose|a: int, b: int|
                0 <= a < t.feeds.len() && 0 <= b < t.feeds.len() && a != b && #[trigger] site_key(t.feeds[a]) == k
                    && #[trigger] site_key(t.feeds[b]) == k;
            assert(t.feeds[a].id == sorted[0].id && t.feeds[b].id == sorted[0].id);
            if a < b {
                assert(t.feeds[a].id < t.feeds[b].id);
            } else {
                assert(t.feeds[b].id < t.feeds[a].id);
            }
        }
    }
}

/// After merging the sites of the first `i` feeds of `snap`, each of their
/// non-empty site keys belongs to at most one feed, and every feed left is one of
/// `snap`'s.
proof fn lemma_dedupe_from(s: StoreView, snap: Seq<FeedView>, i: int)
    requires
        s.wf(),
        feeds_within(s.feeds, snap),
        0 <= i <= snap.len(),
    ensures
        s.dedupe_from(snap, i).0.wf(),
        feeds_within(s.dedupe_from(snap, i).0.feeds, snap),
        forall|j: int|
            0 <= j < i && #[trigger] site_key(snap[j]).len() > 0 ==> !two_with_key(
                s.dedupe_from(snap, i).0.feeds,
                site_key(snap[j]),
            ),
    decreases i,
{
    if i > 0 {
        lemma_dedupe_from(s, snap, i - 1);
        let s1 = s.dedupe_from(snap, i - 1).0;
        let k = site_key(snap[i - 1]);
        if k.len() > 0 && first_with_key(snap, i - 1) {
            assert forall|x: int| 0 <= x < s1.feeds.len() && site_key(s1.feeds[x]) == k implies #[trigger] row_in(
                s1.feeds[x],
                snap,
            ) by {
                assert(row_in(s1.feeds[x], snap));
            }
            lemma_merge_cluster_unique(s1, snap, k);
            let t = s1.merge_cluster(snap, k).0;
            lemma_within_trans(t.feeds, s1.feeds, snap);
            assert forall|j: int| 0 <= j < i && #[trigger] site_key(snap[j]).len() > 0 implies !two_with_key(
                t.feeds,
                site_key(snap[j]),
            ) by {
                if j < i - 1 {
                    let kj = site_key(snap[j]);
                    assert(!two_with_key(s1.feeds, kj));
                    if two_with_key(t.feeds, kj) {
                        let (a, b) = choose|a: int, b: int|
                            0 <= a < t.feeds.len() && 0 <= b < t.feeds.len() && a != b && #[trigger] site_key(
                                t.feeds[a],
                            ) == kj && #[trigger] site_key(t.feeds[b]) == kj;
                        assert(row_in(t.feeds[a], s1.feeds) && row_in(t.feeds[b], s1.feeds));
                        let a0 = choose|x: int| 0 <= x < s1.feeds.len() && #[trigger] same_row(t.feeds[a], s1.feeds[x]);
                        let b0 = choose|x: int| 0 <= x < s1.feeds.len() && #[trigger] same_row(t.feeds[b], s1.feeds[x]);
                        if a < b {
                            assert(t.feeds[a].id < t.feeds[b].id);
                        } else {
                            assert(t.feeds[b].id < t.feeds[a].id);
                        }
                        assert(a0 != b0);
                        assert(site_key(s1.feeds[a0]) == kj && site_key(s1.feeds[b0]) == kj);
                    }
                }
            }
        } else {
            assert forall|j: int| 0 <= j < i && #[trigger] site_key(snap[j]).len() > 0 implies !two_with_key(
                s1.feeds,
                site_key(snap[j]),
            ) by {
                if j == i - 1 {
                    let j0 = choose|j0: int| 0 <= j0 < i - 1 && #[trigger] site_key(snap[j0]) == site_key(snap[i - 1]);
                    assert(site_key(snap[j0]).len() > 0);
                }
            }
        }
    }
}

/// Feed ids increase along the sequence.
pub open spec fn ids_increasing(fs: Seq<FeedView>) -> bool {
    forall|a: int, b: int| 0 <= a < b < fs.len() ==> fs[a].id < fs[b].id
}

/// Removing a feed removes one row where the feed is there, and keeps the others.
proof fn lemma_remove_feed_count(s: StoreView, id: i64, x: i64)
    ensures
        s.remove_feed(id).0.feeds.len() == s.feeds.len() - (if s.has_feed(id) {
            1int
        } else {
            0int
        }),
        s.has_feed(x) && x != id ==> s.remove_feed(id).0.has_feed(x),
{
    if s.has_feed(id) {
        let p = s.feed_pos(id);
        if s.has_feed(x) && x != id {
            let q = choose|q: int| 0 <= q < s.feeds.len() && s.feeds[q].id == x;
            assert(q != p);
            let q2 = if q < p {
                q
            } else {
                q - 1
            };
            assert(s.remove_feed(id).0.feeds[q2].id == x);
        }
    }
}

/// Merging one duplicate removes one row where the duplicate is there, and keeps the
/// other feeds.
proof fn lemma_merge_dup_count(s: StoreView, kid: i64, kt: (Option<Seq<char>>, Option<Seq<char>>), dup: FeedView, x: i64)
    ensures
        s.merge_dup(kid, kt, dup).0.feeds.len() == s.feeds.len() - (if s.has_feed(dup.id) {
            1int
        } else {
            0int
        }),
        s.has_feed(x) && x != dup.id ==> s.merge_dup(kid, kt, dup).0.has_feed(x),
{
    let kt2 = carry(kt, dup);
    let s1 = s.with_entries(merged_entries(s.entries, kid, dup.id));
    let s2 = s1.coalesce_feed(kid, kt2.0, kt2.1);
    assert(s2.feeds.len() == s.feeds.len());
    assert forall|i: int| 0 <= i < s.feeds.len() implies #[trigger] s2.feeds[i].id == s.feeds[i].id by {}
    assert(s2.has_feed(dup.id) == s.has_feed(dup.id)) by {
        if s.has_feed(dup.id) {
            let q = choose|q: int| 0 <= q < s.feeds.len() && s.feeds[q].id == dup.id;
            assert(s2.feeds[q].id == dup.id);
        }
        if s2.has_feed(dup.id) {
            let q = choose|q: int| 0 <= q < s2.feeds.len() && s2.feeds[q].id == dup.id;
            assert(s.feeds[q].id == dup.id);
        }
    }
    if s.has_feed(x) {
        let q = choose|q: int| 0 <= q < s.feeds.len() && s.feeds[q].id == x;
        assert(s2.feeds[q].id == x);
    }
    lemma_remove_feed_count(s2, dup.id, x);
}

/// Merging duplicates that are all there, with distinct ids, removes one row each
/// and keeps every other feed.
proof fn lemma_merge_dups_count(
    s: StoreView,
    kid: i64,
    kt: (Option<Seq<char>>, Option<Seq<char>>),
    dups: Seq<FeedView>,
    x: i64,
)
    requires
        forall|m: int| 0 <= m < dups.len() ==> s.has_feed(#[trigger] dups[m].id),
        forall|a: int, b: int| 0 <= a < dups.len() && 0 <= b < dups.len() && a != b ==> dups[a].id != dups[b].id,
    ensures
        s.merge_dups(kid, kt, dups).0.feeds.len() == s.feeds.len() - dups.len(),
        s.has_feed(x) && (forall|m: int| 0 <= m < dups.len() ==> #[trigger] dups[m].id != x) ==> s.merge_dups(
            kid,
            kt,
            dups,
        ).0.has_feed(x),
    decreases dups.len(),
{
    if dups.len() > 0 {
        let d = dups.drop_last();
        let l = dups.last();
        assert forall|m: int| 0 <= m < d.len() implies s.has_feed(#[trigger] d[m].id) by {
            assert(d[m] == dups[m]);
        }
        lemma_merge_dups_count(s, kid, kt, d, l.id);
        lemma_merge_dups_count(s, kid, kt, d, x);
        assert forall|m: int| 0 <= m < d.len() implies #[trigger] d[m].id != l.id by {
            assert(dups[m].id != dups[dups.len() - 1].id);
        }
        assert(s.has_feed(dups[dups.len() - 1].id));
        let (s1, kt1) = s.merge_dups(kid, kt, d);
        lemma_merge_dup_count(s1, kid, kt1, l, x);
        if s.has_feed(x) && (forall|m: int| 0 <= m < dups.len() ==> #[trigger] dups[m].id != x) {
            assert forall|m: int| 0 <= m < d.len() implies #[trigger] d[m].id != x by {
                assert(dups[m].id != x);
            }
            assert(dups[dups.len() - 1].id != x);
        }
    }
}

/// A filter keeps ids increasing.
proof fn lemma_filter_ids_increasing(fs: Seq<FeedView>, pred: spec_fn(FeedView) -> bool)
    requires
        ids_increasing(fs),
    ensures
        ids_increasing(fs.filter(pred)),
        forall|i: int| 0 <= i < fs.filter(pred).len() ==> fs.contains(#[trigger] fs.filter(pred)[i]),
    decreases fs.len(),
{
    reveal(Seq::filter);
    if fs.len() > 0 {
        let d = fs.drop_last();
        assert(ids_increasing(d)) by {
            assert forall|a: int, b: int| 0 <= a < b < d.len() implies d[a].id < d[b].id by {
                assert(fs[a].id < fs[b].id);
            }
        }
        lemma_filter_ids_increasing(d, pred);
        let sub = d.filter(pred);
        assert forall|i: int| 0 <= i < sub.len() implies fs.contains(#[trigger] sub[i]) by {
            let j = choose|j: int| 0 <= j < d.len() && d[j] == sub[i];
            assert(fs[j] == sub[i]);
        }
        if pred(fs.last()) {
            let r = sub.push(fs.last());
            assert(fs[fs.len() - 1] == fs.last());
            assert forall|a: int, b: int| 0 <= a < b < r.len() implies r[a].id < r[b].id by {
                if b == r.len() - 1 {
                    let j = choose|j: int| 0 <= j < d.len() && d[j] == sub[a];
                    assert(fs[j].id < fs[fs.len() - 1].id);
                } else {
                    assert(sub[a].id < sub[b].id);
                }
            }
            assert forall|i: int| 0 <= i < r.len() implies fs.contains(#[trigger] r[i]) by {
                if i < sub.len() {
                    assert(fs.contains(sub[i]));
                } else {
                    assert(fs[fs.len() - 1] == r[i]);
                }
            }
        }
    }
}

/// Merging a site whose feeds are all there removes all but one of them, as many
/// as it reports, and keeps every feed of another site.
proof fn lemma_merge_cluster_count(s: StoreView, snap: Seq<FeedView>, k: Seq<char>, x: i64)
    requires
        ids_increasing(snap),
        forall|j: int| 0 <= j < snap.len() && site_key(snap[j]) == k ==> s.has_feed(#[trigger] snap[j].id),
    ensures
        s.merge_cluster(snap, k).0.feeds.len() + s.merge_cluster(snap, k).1 == s.feeds.len(),
        s.has_feed(x) && (forall|j: int| 0 <= j < snap.len() && #[trigger] snap[j].id == x ==> site_key(snap[j]) != k)
            ==> s.merge_cluster(snap, k).0.has_feed(x),
{
    broadcast use vstd::seq_lib::group_to_multiset_ensures;
    let members = snap.filter(has_site_key(k));
    if members.len() >= 2 {
        #[allow(deprecated)]
        snap.filter_lemma(has_site_key(k));
        lemma_filter_ids_increasing(snap, has_site_key(k));
        let sorted = stable_sort(members, newer_order());
        lemma_stable_sort(members, newer_order());
        let dups = sorted.drop_first();
        // every sorted feed is a member, so a feed of `snap` with key k
        assert forall|q: int| 0 <= q < sorted.len() implies exists|j: int|
            0 <= j < snap.len() && snap[j] == #[trigger] sorted[q] && site_key(snap[j]) == k by {
            assert(sorted.to_multiset().count(sorted[q]) > 0);
            assert(members.to_multiset().count(sorted[q]) > 0);
            assert(members.contains(sorted[q]));
            let m = choose|m: int| 0 <= m < members.len() && members[m] == sorted[q];
            assert(has_site_key(k)(members[m]));
            assert(snap.contains(members[m]));
        }
        // members have distinct values, hence so do the sorted feeds
        assert(members.no_duplicates()) by {
            assert forall|a: int, b: int| 0 <= a < members.len() && 0 <= b < members.len() && a != b implies members[a]
                != members[b] by {
                if a < b {
                    assert(members[a].id < members[b].id);
                } else {
                    assert(members[b].id < members[a].id);
                }
            }
        }
        members.lemma_multiset_has_no_duplicates();
        assert forall|v: FeedView| sorted.to_multiset().contains(v) implies sorted.to_multiset().count(v) == 1 by {
            assert(members.to_multiset().contains(v));
        }
        sorted.lemma_multiset_has_no_duplicates_conv();
        assert forall|m: int| 0 <= m < dups.len() implies s.has_feed(#[trigger] dups[m].id) by {
            assert(dups[m] == sorted[m + 1]);
            let j = choose|j: int| 0 <= j < snap.len() && snap[j] == sorted[m + 1] && site_key(snap[j]) == k;
        }
        assert forall|a: int, b: int| 0 <= a < dups.len() && 0 <= b < dups.len() && a != b implies dups[a].id
            != dups[b].id by {
            assert(dups[a] == sorted[a + 1] && dups[b] == sorted[b + 1]);
            assert(sorted[a + 1] != sorted[b + 1]);
            let ja = choose|j: int| 0 <= j < snap.len() && snap[j] == sorted[a + 1] && site_key(snap[j]) == k;
            let jb = choose|j: int| 0 <= j < snap.len() && snap[j] == sorted[b + 1] && site_key(snap[j]) == k;
            if ja < jb {
                assert(snap[ja].id < snap[jb].id);
            } else if jb < ja {
                assert(snap[jb].id < snap[ja].id);
            }
        }
        lemma_merge_dups_count(s, sorted[0].id, (sorted[0].title, sorted[0].site_url), dups, x);
        if s.has_feed(x) && (forall|j: int| 0 <= j < snap.len() && #[trigger] snap[j].id == x ==> site_key(snap[j])
            != k) {
            assert forall|m: int| 0 <= m < dups.len() implies #[trigger] dups[m].id != x by {
                assert(dups[m] == sorted[m + 1]);
                let j = choose|j: int| 0 <= j < snap.len() && snap[j] == sorted[m + 1] && site_key(snap[j]) == k;
                assert(snap[j].id == dups[m].id);
            }
        }
    }
}

/// A feed of `snap` whose site was merged by the first `i` steps.
pub open spec fn site_done(snap: Seq<FeedView>, i: int, f: FeedView) -> bool {
    site_key(f).len() > 0 && exists|j0: int| 0 <= j0 < i && #[trigger] site_key(snap[j0]) == site_key(f)
}

/// The steps of the merge report as many feeds as they remove, and keep every feed
/// of a site not merged yet.
proof fn lemma_dedupe_from_count(s: StoreView, snap: Seq<FeedView>, i: int)
    requires
        ids_increasing(snap),
        forall|j: int| 0 <= j < snap.len() ==> s.has_feed(#[trigger] snap[j].id),
        0 <= i <= snap.len(),
    ensures
        s.dedupe_from(snap, i).0.feeds.len() + s.dedupe_from(snap, i).1 == s.feeds.len(),
        forall|j: int|
            0 <= j < snap.len() && !site_done(snap, i, #[trigger] snap[j]) ==> s.dedupe_from(snap, i).0.has_feed(
                snap[j].id,
            ),
    decreases i,
{
    if i > 0 {
        lemma_dedupe_from_count(s, snap, i - 1);
        let s1 = s.dedupe_from(snap, i - 1).0;
        let k = site_key(snap[i - 1]);
        if k.len() > 0 && first_with_key(snap, i - 1) {
            assert forall|j: int| 0 <= j < snap.len() && site_key(snap[j]) == k implies s1.has_feed(
                #[trigger] snap[j].id,
            ) by {
                if site_done(snap, i - 1, snap[j]) {
                    let j0 = choose|j0: int| 0 <= j0 < i - 1 && #[trigger] site_key(snap[j0]) == site_key(snap[j]);
                    assert(site_key(snap[j0]) != site_key(snap[i - 1]));
                }
            }
            lemma_merge_cluster_count(s1, snap, k, 0);
            assert forall|j: int|
                0 <= j < snap.len() && !site_done(snap, i, #[trigger] snap[j]) implies s.dedupe_from(snap, i).0.has_feed(
                snap[j].id,
            ) by {
                assert(site_key(snap[j]) != k) by {
                    if site_key(snap[j]) == k {
                        assert(site_key(snap[i - 1]) == site_key(snap[j]));
                    }
                }
                assert(!site_done(snap, i - 1, snap[j])) by {
                    if site_done(snap, i - 1, snap[j]) {
                        let j0 = choose|j0: int| 0 <= j0 < i - 1 && #[trigger] site_key(snap[j0]) == site_key(snap[j]);
                        assert(0 <= j0 < i && site_key(snap[j0]) == site_key(snap[j]));
                    }
                }
                assert forall|j2: int| 0 <= j2 < snap.len() && #[trigger] snap[j2].id == snap[j].id implies site_key(
                    snap[j2],
                ) != k by {
                    if j2 < j {
                        assert(snap[j2].id < snap[j].id);
                    } else if j < j2 {
                        assert(snap[j].id < snap[j2].id);
                    }
                }
                lemma_merge_cluster_count(s1, snap, k, snap[j].id);
            }
        } else {
            assert forall|j: int|
                0 <= j < snap.len() && !site_done(snap, i, #[trigger] snap[j]) implies s1.has_feed(snap[j].id) by {
                if site_done(snap, i - 1, snap[j]) {
                    let j0 = choose|j0: int| 0 <= j0 < i - 1 && #[trigger] site_key(snap[j0]) == site_key(snap[j]);
                    assert(0 <= j0 < i && site_key(snap[j0]) == site_key(snap[j]));
                }
            }
        }
    }
}

/// The feed at `j` is the newest of the feeds of `snap` with its site key.
pub open spec fn newest_of_site(snap: Seq<FeedView>, j: int) -> bool {
    forall|i: int|
        0 <= i < snap.len() && i != j && #[trigger] site_key(snap[i]) == site_key(snap[j]) ==> !newer_first(
            snap[i],
            snap[j],
        )
}

/// Merging the site of the newest feed of a site keeps that feed.
proof fn lemma_merge_cluster_keeps_newest(s: StoreView, snap: Seq<FeedView>, k: Seq<char>, j: int)
    requires
        ids_increasing(snap),
        forall|i: int| 0 <= i < snap.len() && site_key(snap[i]) == k ==> s.has_feed(#[trigger] snap[i].id),
        0 <= j < snap.len(),
        site_key(snap[j]) == k,
        newest_of_site(snap, j),
    ensures
        s.merge_cluster(snap, k).0.has_feed(snap[j].id),
{
    broadcast use vstd::seq_lib::group_to_multiset_ensures;
    let members = snap.filter(has_site_key(k));
    if members.len() >= 2 {
        #[allow(deprecated)]
        snap.filter_lemma(has_site_key(k));
        lemma_filter_ids_increasing(snap, has_site_key(k));
        let sorted = stable_sort(members, newer_order());
        lemma_stable_sort(members, newer_order());
        lemma_newer_strict();
        let dups = sorted.drop_first();
        assert forall|q: int| 0 <= q < sorted.len() implies exists|i: int|
            0 <= i < snap.len() && snap[i] == #[trigger] sorted[q] && site_key(snap[i]) == k by {
            assert(sorted.to_multiset().count(sorted[q]) > 0);
            assert(members.to_multiset().count(sorted[q]) > 0);
            assert(members.contains(sorted[q]));
            let m = choose|m: int| 0 <= m < members.len() && members[m] == sorted[q];
            assert(has_site_key(k)(members[m]));
            assert(snap.contains(members[m]));
        }
        assert(members.no_duplicates()) by {
            assert forall|a: int, b: int| 0 <= a < members.len() && 0 <= b < members.len() && a != b implies members[a]
                != members[b] by {
                if a < b {
                    assert(members[a].id < members[b].id);
                } else {
                    assert(members[b].id < members[a].id);
                }
            }
        }
        members.lemma_multiset_has_no_duplicates();
        assert forall|v: FeedView| sorted.to_multiset().contains(v) implies sorted.to_multiset().count(v) == 1 by {
            assert(members.to_multiset().contains(v));
        }
        sorted.lemma_multiset_has_no_duplicates_conv();
        // the newest feed comes first
        snap.lemma_filter_contains_rev(has_site_key(k), snap[j]);
        assert(members.to_multiset().count(snap[j]) > 0);
        assert(sorted.to_multiset().count(snap[j]) > 0);
        let q = choose|q: int| 0 <= q < sorted.len() && sorted[q] == snap[j];
        let i0 = choose|i: int| 0 <= i < snap.len() && snap[i] == sorted[0] && site_key(snap[i]) == k;
        if q != 0 {
            assert(sorted[0] != sorted[q]);
            assert(i0 != j);
            assert(!newer_first(snap[i0], snap[j]));
            assert(!newer_first(sorted[q], sorted[0]));
            if i0 < j {
                assert(snap[i0].id < snap[j].id);
            } else {
                assert(snap[j].id < snap[i0].id);
            }
        }
        assert forall|m: int| 0 <= m < dups.len() implies s.has_feed(#[trigger] dups[m].id) by {
            assert(dups[m] == sorted[m + 1]);
            let i = choose|i: int| 0 <= i < snap.len() && snap[i] == sorted[m + 1] && site_key(snap[i]) == k;
        }
        assert forall|a: int, b: int| 0 <= a < sorted.len() && 0 <= b < sorted.len() && a != b implies sorted[a].id
            != sorted[b].id by {
            assert(sorted[a] != sorted[b]);
            let ia = choose|i: int| 0 <= i < snap.len() && snap[i] == sorted[a] && site_key(snap[i]) == k;
            let ib = choose|i: int| 0 <= i < snap.len() && snap[i] == sorted[b] && site_key(snap[i]) == k;
            if ia < ib {
                assert(snap[ia].id < snap[ib].id);
            } else if ib < ia {
                assert(snap[ib].id < snap[ia].id);
            }
        }
        assert forall|a: int, b: int| 0 <= a < dups.len() && 0 <= b < dups.len() && a != b implies dups[a].id
            != dups[b].id by {
            assert(sorted[a + 1].id != sorted[b + 1].id);
        }
        assert forall|m: int| 0 <= m < dups.len() implies #[trigger] dups[m].id != snap[j].id by {
            assert(sorted[m + 1].id != sorted[0].id);
        }
        assert(s.has_feed(snap[j].id));
        lemma_merge_dups_count(s, sorted[0].id, (sorted[0].title, sorted[0].site_url), dups, snap[j].id);
    }
}

/// Newer-first is a strict order.
proof fn lemma_newer_strict()
    ensures
        strict_order(newer_order()),
{
}

/// The merge steps keep the newest feed of each site.
proof fn lemma_dedupe_from_keeps_newest(s: StoreView, snap: Seq<FeedView>, i: int, j: int)
    requires
        ids_increasing(snap),
        forall|x: int| 0 <= x < snap.len() ==> s.has_feed(#[trigger] snap[x].id),
        0 <= i <= snap.len(),
        0 <= j < snap.len(),
        newest_of_site(snap, j),
    ensures
        s.dedupe_from(snap, i).0.has_feed(snap[j].id),
    decreases i,
{
    if i == 0 {
        assert(s.has_feed(snap[j].id));
    } else {
        lemma_dedupe_from_keeps_newest(s, snap, i - 1, j);
        lemma_dedupe_from_count(s, snap, i - 1);
        let s1 = s.dedupe_from(snap, i - 1).0;
        let k = site_key(snap[i - 1]);
        if k.len() > 0 && first_with_key(snap, i - 1) {
            assert forall|x: int| 0 <= x < snap.len() && site_key(snap[x]) == k implies s1.has_feed(
                #[trigger] snap[x].id,
            ) by {
                if site_done(snap, i - 1, snap[x]) {
                    let j0 = choose|j0: int| 0 <= j0 < i - 1 && #[trigger] site_key(snap[j0]) == site_key(snap[x]);
                    assert(site_key(snap[j0]) != site_key(snap[i - 1]));
                }
            }
            if site_key(snap[j]) == k {
                lemma_merge_cluster_keeps_newest(s1, snap, k, j);
            } else {
                assert forall|x: int| 0 <= x < snap.len() && #[trigger] snap[x].id == snap[j].id implies site_key(
                    snap[x],
                ) != k by {
                    if x < j {
                        assert(snap[x].id < snap[j].id);
                    } else if j < x {
                        assert(snap[j].id < snap[x].id);
                    }
                }
                lemma_merge_cluster_count(s1, snap, k, snap[j].id);
            }
        }
    }
}

/// Merging feeds of one site keeps the newest feed of each site (the latest added,
/// the larger id among those added at once); with `law_dedupe_one_feed_per_site`,
/// it is the one feed left of its site.
pub proof fn law_dedupe_keeps_newest(s: StoreView, j: int)
    requires
        s.wf(),
        0 <= j < s.feeds.len(),
        newest_of_site(s.feeds, j),
    ensures
        s.dedupe().0.has_feed(s.feeds[j].id),
{
    assert forall|x: int| 0 <= x < s.feeds.len() implies s.has_feed(#[trigger] s.feeds[x].id) by {}
    lemma_dedupe_from_keeps_newest(s, s.feeds, s.feeds.len() as int, j);
}

/// Merging one feed into another: the kept feed then holds the external ids of the
/// entries of both, and the merged feed holds none.
pub proof fn law_merge_dup_entry_ids(
    s: StoreView,
    kid: i64,
    kt: (Option<Seq<char>>, Option<Seq<char>>),
    dup: FeedView,
)
    requires
        kid != dup.id,
    ensures
        ids_of_feed(s.merge_dup(kid, kt, dup).0.entries, kid) == ids_of_feed(s.entries, kid).union(
            ids_of_feed(s.entries, dup.id),
        ),
        ids_of_feed(s.merge_dup(kid, kt, dup).0.entries, dup.id) == Set::<Seq<char>>::empty(),
{
    let es = s.entries;
    let did = dup.id;
    let pred = survives_merge(kid, ids_of_feed(es, did));
    let kept = es.filter(pred);
    let rp = |e: EntryRowView| repoint(e, did, kid);
    let m = merged_entries(es, kid, did);
    assert(m == kept.map_values(rp));
    #[allow(deprecated)]
    es.filter_lemma(pred);
    let kt2 = carry(kt, dup);
    let s2 = s.with_entries(m).coalesce_feed(kid, kt2.0, kt2.1);
    assert(s2.entries == m);
    let t = s.merge_dup(kid, kt, dup).0;
    assert(t == s2.remove_feed(did).0);
    // no merged entry belongs to the merged feed, so removing it keeps them all
    assert forall|i: int| 0 <= i < m.len() implies #[trigger] m[i].feed_id != did by {}
    assert(t.entries == m) by {
        if s2.has_feed(did) {
            #[allow(deprecated)]
            m.filter_lemma(not_of_feed(did));
            lemma_filter_all(m, not_of_feed(did));
        }
    }
    let a = ids_of_feed(m, kid);
    let b = ids_of_feed(es, kid).union(ids_of_feed(es, did));
    assert forall|x: Seq<char>| a.contains(x) implies b.contains(x) by {
        let i = choose|i: int| 0 <= i < m.len() && m[i].feed_id == kid && m[i].external_id == x;
        lemma_filter_subset(es, pred, i);
        let j = choose|j: int| 0 <= j < es.len() && es[j] == kept[i];
        assert(m[i] == repoint(kept[i], did, kid));
        if es[j].feed_id == did {
            assert(ids_of_feed(es, did).contains(x));
        } else {
            assert(ids_of_feed(es, kid).contains(x));
        }
    }
    assert forall|x: Seq<char>| b.contains(x) implies a.contains(x) by {
        let (j, f) = if ids_of_feed(es, did).contains(x) {
            (choose|j: int| 0 <= j < es.len() && es[j].feed_id == did && es[j].external_id == x, did)
        } else {
            (choose|j: int| 0 <= j < es.len() && es[j].feed_id == kid && es[j].external_id == x, kid)
        };
        assert(pred(es[j]));
        assert(kept.contains(es[j]));
        let i = choose|i: int| 0 <= i < kept.len() && kept[i] == es[j];
        assert(m[i] == repoint(es[j], did, kid));
        assert(m[i].feed_id == kid && m[i].external_id == x);
    }
    assert(a =~= b);
    assert(ids_of_feed(m, did) =~= Set::<Seq<char>>::empty()) by {
        assert forall|x: Seq<char>| !ids_of_feed(m, did).contains(x) by {
            if ids_of_feed(m, did).contains(x) {
                let i = choose|i: int| 0 <= i < m.len() && m[i].feed_id == did && m[i].external_id == x;
                assert(m[i].feed_id != did);
            }
        }
    }
}

/// A filter that every item passes keeps the sequence.
proof fn lemma_filter_all<A>(s: Seq<A>, pred: spec_fn(A) -> bool)
    requires
        forall|i: int| 0 <= i < s.len() ==> pred(#[trigger] s[i]),
    ensures
        s.filter(pred) == s,
    decreases s.len(),
{
    reveal(Seq::filter);
    if s.len() > 0 {
        let d = s.drop_last();
        assert forall|i: int| 0 <= i < d.len() implies pred(#[trigger] d[i]) by {
            assert(pred(s[i]));
        }
        lemma_filter_all(d, pred);
        assert(pred(s[s.len() - 1]));
        assert(d.push(s.last()) =~= s);
    } else {
        assert(s =~= Seq::<A>::empty());
    }
}

/// Merging feeds of one site reports exactly the number of feeds it removed.
pub proof fn law_dedupe_count(s: StoreView)
    requires
        s.wf(),
    ensures
        s.dedupe().1 == s.feeds.len() - s.dedupe().0.feeds.len(),
{
    assert forall|j: int| 0 <= j < s.feeds.len() implies s.has_feed(#[trigger] s.feeds[j].id) by {}
    lemma_dedupe_from_count(s, s.feeds, s.feeds.len() as int);
}

impl StoreView {
    /// Whether two different feeds share a non-empty site key.
    pub open spec fn has_site_twice(self) -> bool {
        exists|a: int, b: int|
            0 <= a < self.feeds.len() && 0 <= b < self.feeds.len() && a != b && #[trigger] site_key(self.feeds[a])
                == #[trigger] site_key(self.feeds[b]) && site_key(self.feeds[a]).len() > 0
    }
}

/// After merging feeds of one site, no two feeds share a site (a non-empty canonical
/// host); every feed left was there before, with its id and URL.
pub proof fn law_dedupe_one_feed_per_site(s: StoreView)
    requires
        s.wf(),
    ensures
        s.dedupe().0.wf(),
        !s.dedupe().0.has_site_twice(),
        feeds_within(s.dedupe().0.feeds, s.feeds),
{
    lemma_within_refl(s.feeds);
    lemma_dedupe_from(s, s.feeds, s.feeds.len() as int);
    let t = s.dedupe().0;
    if t.has_site_twice() {
        let (a, b) = choose|a: int, b: int|
            0 <= a < t.feeds.len() && 0 <= b < t.feeds.len() && a != b && #[trigger] site_key(t.feeds[a])
                == #[trigger] site_key(t.feeds[b]) && site_key(t.feeds[a]).len() > 0;
        assert(row_in(t.feeds[a], s.feeds));
        let j = choose|j: int| 0 <= j < s.feeds.len() && #[trigger] same_row(t.feeds[a], s.feeds[j]);
        assert(site_key(s.feeds[j]) == site_key(t.feeds[a]));
        assert(two_with_key(t.feeds, site_key(s.feeds[j])));
    }
}

} // verus!

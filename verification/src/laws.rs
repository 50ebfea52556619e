use vstd::prelude::*;

use crate::discovery::normalize_url_spec;
use crate::display::{
    bytes_prefix, export_acc, export_lines_spec, export_site, import_sources_spec, is_newline, join_lines_spec,
    kept_pieces, pieces_from, short_url_spec, spec_to_lowercase, split_feed_input_spec,
};
use crate::like::{like, utf8_char_len, utf8_len};
use crate::feed_parser::{lemma_entry_count_clock_free, looks_like_feed_spec, parse_feed_spec};
use crate::sorting::{lemma_stable_sort, sorted_by, stable_sort};
use crate::storage::{
    counted_unread, not_of_feed, unread_pred, EntryRowView,
    entry_order, feed_order, lemma_entries_len_bound, lemma_entry_key_pos_unique, lemma_entry_order_strict,
    lemma_entry_pos_unique, lemma_feed_order_strict, lemma_feed_pos_unique, lemma_url_pos_unique, page, pruned, FeedEntryView, FeedView,
    StoreError, StoreView, law_dedupe_one_feed_per_site, search_pattern,
};
use crate::syncer::{apply_body_spec, is_web_url, published_secs, store_entries, FeedSyncView, SyncErrorView};
use crate::feed_parser::ParsedEntryView;
use crate::text::{ends_with_seq, is_ws, starts_with_seq, trim_end_seq, trim_seq, trim_start_seq};
use crate::config::{defaulted, location_view, ConfigError, DbLocation};
use crate::feed_parser::fallback_entry_id_spec;
use crate::xml::{spec_xml_nodes, XmlNodeView};
use crate::feed_parser::{atom_entry, rss_entry, tag_text};
use crate::urls::same_host_spec;

verus! {

// ---------------------------------------------------------------------------
// Feeds
// ---------------------------------------------------------------------------

/// Where some feed is of the same site, `channel_pos` is the first such feed.
proof fn lemma_channel_pos(s: StoreView, url: Seq<char>, site: Seq<char>, k0: int)
    requires
        0 <= k0 < s.feeds.len(),
        StoreView::same_channel(s.feeds[k0], url, site),
    ensures
        0 <= s.channel_pos(url, site) < s.feeds.len(),
        StoreView::same_channel(s.feeds[s.channel_pos(url, site)], url, site),
    decreases k0,
{
    if exists|j: int| 0 <= j < k0 && #[trigger] StoreView::same_channel(s.feeds[j], url, site) {
        let j = choose|j: int| 0 <= j < k0 && #[trigger] StoreView::same_channel(s.feeds[j], url, site);
        lemma_channel_pos(s, url, site, j);
    } else {
        assert(0 <= k0 < s.feeds.len() && StoreView::same_channel(s.feeds[k0], url, site) && forall|j: int|
            0 <= j < k0 ==> !#[trigger] StoreView::same_channel(s.feeds[j], url, site));
    }
}

/// A feed that `add_feed` returns has the URL asked for, and the store then holds a
/// feed with that URL and that id. `add_feed` fails only where no id is left.
#[verifier::rlimit(100)]
#[verifier::spinoff_prover]
pub proof fn law_add_feed_stores_url(s: StoreView, url: Seq<char>, title: Option<Seq<char>>, site: Option<Seq<char>>, now: i64)
    requires
        s.wf(),
    ensures
        match s.add_feed(url, title, site, now) {
            Ok((s2, f)) => f.url == url && s2.has_url(url) && s2.has_feed(f.id) && exists|k: int|
                0 <= k < s2.feeds.len() && #[trigger] s2.feeds[k].url == url && s2.feeds[k].id == f.id,
            Err(e) => e == StoreError::Full && s.feed_seq == i64::MAX,
        },
{
    reveal(StoreView::add_moved);
    reveal(StoreView::add_inserted);
    let t = StoreView::add_feed_title(url, title);
    if s.has_url(url) {
        let p = s.url_pos(url);
        assert(s.add_existing(p, t, site).0.feeds[p].url == url && s.add_existing(p, t, site).0.feeds[p].id == s.add_existing(p, t, site).1.id && s.add_existing(p, t, site).1.url == url) by {
            reveal(StoreView::add_existing);
        }
        assert(s.add_existing(p, t, site).0.feeds.len() == s.feeds.len()) by {
            reveal(StoreView::add_existing);
        }
    } else if site.is_some() && s.has_channel(url, site.unwrap()) {
        let k0 = choose|k: int| 0 <= k < s.feeds.len() && #[trigger] StoreView::same_channel(s.feeds[k], url, site.unwrap());
        lemma_channel_pos(s, url, site.unwrap(), k0);
        let k = s.channel_pos(url, site.unwrap());
        let (s2, f) = s.add_moved(k, url, t, site.unwrap());
        assert(s2.feeds[k].url == url && s2.feeds[k].id == f.id);
    } else {
        match s.add_inserted(url, Some(t), site, now) {
            Ok((s2, f)) => {
                assert(s2.feeds[s2.feeds.len() - 1] == f);
            },
            Err(_) => {},
        }
    }
}

/// Where the feed at `k` alone has id `id`, it is the one `get_feed` finds.
proof fn lemma_pos_of_unique_id(s: StoreView, id: i64, k: int)
    requires
        0 <= k < s.feeds.len(),
        s.feeds[k].id == id,
        forall|j: int| 0 <= j < s.feeds.len() && j != k ==> #[trigger] s.feeds[j].id != id,
    ensures
        s.get_feed(id) == Some(s.feeds[k]),
{
    assert(s.has_feed(id));
}

/// The record whose title `add_existing` fills in (or finds) is the stored one.
proof fn lemma_add_existing_row(s: StoreView, p: int, t: Seq<char>, site: Option<Seq<char>>)
    requires
        s.wf(),
        0 <= p < s.feeds.len(),
    ensures
        ({
            let (s2, f) = s.add_existing(p, t, site);
            f.title.is_some() && (s2.get_feed(f.id) matches Some(g) && g.url == f.url && g.title == f.title)
        }),
{
    reveal(StoreView::add_existing);
    let (s2, f) = s.add_existing(p, t, site);
    assert forall|j: int| 0 <= j < s2.feeds.len() && j != p implies #[trigger] s2.feeds[j].id != f.id by {
        if j < p {
            assert(s.feeds[j].id < s.feeds[p].id);
        } else {
            assert(s.feeds[p].id < s.feeds[j].id);
        }
    }
    lemma_pos_of_unique_id(s2, f.id, p);
}

/// The record of the feed that `add_moved` moves is the stored one.
proof fn lemma_add_moved_row(s: StoreView, k: int, url: Seq<char>, t: Seq<char>, ns: Seq<char>)
    requires
        s.wf(),
        0 <= k < s.feeds.len(),
    ensures
        ({
            let (s2, f) = s.add_moved(k, url, t, ns);
            f.title.is_some() && (s2.get_feed(f.id) matches Some(g) && g.url == f.url && g.title == f.title)
        }),
{
    reveal(StoreView::add_moved);
    let (s2, f) = s.add_moved(k, url, t, ns);
    assert forall|j: int| 0 <= j < s2.feeds.len() && j != k implies #[trigger] s2.feeds[j].id != f.id by {
        if j < k {
            assert(s.feeds[j].id < s.feeds[k].id);
        } else {
            assert(s.feeds[k].id < s.feeds[j].id);
        }
    }
    lemma_pos_of_unique_id(s2, f.id, k);
}

/// The record of a feed that `add_inserted` inserts is the stored one.
proof fn lemma_add_inserted_row(s: StoreView, url: Seq<char>, t: Seq<char>, site: Option<Seq<char>>, now: i64)
    requires
        s.wf(),
    ensures
        s.add_inserted(url, Some(t), site, now) matches Ok((s2, f)) ==> f.title.is_some() && s2.get_feed(
            f.id,
        ) == Some(f),
{
    reveal(StoreView::add_inserted);
    if let Ok((s2, f)) = s.add_inserted(url, Some(t), site, now) {
        let n = s.feeds.len() as int;
        assert forall|j: int| 0 <= j < s2.feeds.len() && j != n implies #[trigger] s2.feeds[j].id != f.id by {
            assert(s.feeds[j].id <= s.feed_seq);
        }
        lemma_pos_of_unique_id(s2, f.id, n);
    }
}

/// The feed that `add_feed` returns has a title, and the store then holds a feed
/// with its id, its URL and its title.
pub proof fn law_add_feed_returns_stored_row(
    s: StoreView,
    url: Seq<char>,
    title: Option<Seq<char>>,
    site: Option<Seq<char>>,
    now: i64,
)
    requires
        s.wf(),
    ensures
        s.add_feed(url, title, site, now) matches Ok((s2, f)) ==> f.title.is_some() && (s2.get_feed(
            f.id,
        ) matches Some(g) && g.url == f.url && g.title == f.title),
{
    let t = StoreView::add_feed_title(url, title);
    if s.has_url(url) {
        lemma_add_existing_row(s, s.url_pos(url), t, site);
    } else if site.is_some() && s.has_channel(url, site.unwrap()) {
        let k0 = choose|k: int| 0 <= k < s.feeds.len() && #[trigger] StoreView::same_channel(s.feeds[k], url, site.unwrap());
        lemma_channel_pos(s, url, site.unwrap(), k0);
        lemma_add_moved_row(s, s.channel_pos(url, site.unwrap()), url, t, site.unwrap());
    } else {
        lemma_add_inserted_row(s, url, t, site, now);
    }
}

/// Adding a URL with a site, where a stored feed is of the same site (its URL or
/// its site address has the host of the new URL or of the site), inserts no feed:
/// the URL is already stored, or that site's feed moves to it.
pub proof fn law_add_feed_reuses_a_site_feed(
    s: StoreView,
    url: Seq<char>,
    title: Option<Seq<char>>,
    site: Seq<char>,
    now: i64,
    k: int,
)
    requires
        s.wf(),
        0 <= k < s.feeds.len(),
        same_host_spec(s.feeds[k].url, url) || same_host_spec(s.feeds[k].url, site) || (s.feeds[k].site_url matches Some(
            x,
        ) && (same_host_spec(x, url) || same_host_spec(x, site))),
    ensures
        s.add_feed(url, title, Some(site), now) matches Ok((s2, f)) && s2.feeds.len() == s.feeds.len() && f.url
            == url,
{
    let t = StoreView::add_feed_title(url, title);
    law_add_feed_stores_url(s, url, title, Some(site), now);
    if s.has_url(url) {
        reveal(StoreView::add_existing);
    } else {
        assert(StoreView::same_channel(s.feeds[k], url, site));
        lemma_channel_pos(s, url, site, k);
        reveal(StoreView::add_moved);
    }
}

/// Seeding leaves a feed of each default site in the store (the default URL
/// itself, or a feed of the same site already there); it fails only where no id is
/// left.
pub proof fn law_seed_defaults_present(s: StoreView, now: i64)
    requires
        s.wf(),
    ensures
        match s.seed_default_feeds(now) {
            (s2, Ok(_)) => s2.has_channel("https://atlas21.com/feed/"@, "https://atlas21.com/feed/"@)
                && s2.has_channel("https://www.theblock.co/"@, "https://www.theblock.co/"@),
            (_, Err(e)) => e == StoreError::Full,
        },
{
    let a = "https://atlas21.com/feed/"@;
    let b = "https://www.theblock.co/"@;
    let (s1, r1) = s.seed_one(a, "Atlas21"@, now);
    if !s.has_url(a) && !s.has_channel(a, a) {
        law_add_feed_stores_url(s, a, Some("Atlas21"@), None, now);
    }
    if let Ok(_) = r1 {
        lemma_url_is_channel(s1, a);
        assert(s1.has_channel(a, a));
        if !s1.has_url(b) && !s1.has_channel(b, b) {
            assert(s1.wf()) by {
                if !s.has_url(a) && !s.has_channel(a, a) {
                    lemma_add_feed_inserted_wf(s, a, Some("Atlas21"@), now);
                }
            }
            law_add_feed_stores_url(s1, b, Some("The Block"@), None, now);
            lemma_add_feed_keeps_channel(s1, b, Some("The Block"@), now, a);
        }
        let s2 = s1.seed_one(b, "The Block"@, now).0;
        lemma_url_is_channel(s2, b);
    }
}

/// Seeding keeps the store's invariant.
proof fn lemma_seed_wf(s: StoreView, now: i64)
    requires
        s.wf(),
    ensures
        s.seed_default_feeds(now).0.wf(),
{
    let a = "https://atlas21.com/feed/"@;
    let b = "https://www.theblock.co/"@;
    let s1 = s.seed_one(a, "Atlas21"@, now).0;
    if !s.has_url(a) && !s.has_channel(a, a) {
        lemma_add_feed_inserted_wf(s, a, Some("Atlas21"@), now);
    }
    assert(s1.wf());
    if !s1.has_url(b) && !s1.has_channel(b, b) {
        lemma_add_feed_inserted_wf(s1, b, Some("The Block"@), now);
    }
}

/// Once the store is opened, no two feeds share a site.
pub proof fn law_open_one_feed_per_site(s: StoreView, now: i64)
    requires
        s.wf(),
    ensures
        s.prepare(now) matches (t, Ok(_)) ==> t.wf() && !t.has_site_twice(),
{
    lemma_seed_wf(s, now);
    law_dedupe_one_feed_per_site(s.seed_default_feeds(now).0);
}

/// A stored URL is a feed of its own site.
proof fn lemma_url_is_channel(s: StoreView, url: Seq<char>)
    ensures
        s.has_url(url) ==> s.has_channel(url, url),
{
    if s.has_url(url) {
        let i = choose|i: int| 0 <= i < s.feeds.len() && s.feeds[i].url == url;
        assert(StoreView::same_channel(s.feeds[i], url, url));
    }
}

/// Adding a feed whose URL is new, without a site, keeps every site the store had.
proof fn lemma_add_feed_keeps_channel(s: StoreView, url: Seq<char>, title: Option<Seq<char>>, now: i64, other: Seq<char>)
    requires
        !s.has_url(url),
        s.has_channel(other, other),
    ensures
        s.add_feed(url, title, None, now) matches Ok((s2, _)) ==> s2.has_channel(other, other),
{
    reveal(StoreView::add_inserted);
    let k = choose|k: int| 0 <= k < s.feeds.len() && #[trigger] StoreView::same_channel(s.feeds[k], other, other);
    if let Ok((s2, _)) = s.add_feed(url, title, None, now) {
        assert(s2.feeds[k] == s.feeds[k]);
        assert(StoreView::same_channel(s2.feeds[k], other, other));
    }
}

/// Adding a feed whose URL is new, without a site, keeps the invariant.
proof fn lemma_add_feed_inserted_wf(s: StoreView, url: Seq<char>, title: Option<Seq<char>>, now: i64)
    requires
        s.wf(),
        !s.has_url(url),
    ensures
        s.add_feed(url, title, None, now) matches Ok((s2, _)) ==> s2.wf(),
{
    reveal(StoreView::add_inserted);
    if let Ok((s2, f)) = s.add_feed(url, title, None, now) {
        let fs = s2.feeds;
        assert(fs == s.feeds.push(f));
        assert forall|x: int, y: int| 0 <= x < y < fs.len() implies fs[x].id < fs[y].id by {
            if y == fs.len() - 1 {
                assert(1 <= s.feeds[x].id <= s.feed_seq);
            }
        }
        assert forall|x: int, y: int| 0 <= x < fs.len() && 0 <= y < fs.len() && x != y implies fs[x].url != fs[y].url by {
            if y == fs.len() - 1 {
                assert(s.feeds[x].url != url);
            } else if x == fs.len() - 1 {
                assert(s.feeds[y].url != url);
            }
        }
        assert forall|x: int| 0 <= x < fs.len() implies 1 <= #[trigger] fs[x].id <= s2.feed_seq by {
            if x < fs.len() - 1 {
                assert(1 <= s.feeds[x].id <= s.feed_seq);
            }
        }
    }
}

/// Adding a URL that the store holds already adds no feed: the feed with that URL
/// is returned.
pub proof fn law_add_feed_existing_url(s: StoreView, url: Seq<char>, title: Option<Seq<char>>, site: Option<Seq<char>>, now: i64)
    requires
        s.wf(),
        s.has_url(url),
    ensures
        s.add_feed(url, title, site, now) matches Ok((s2, f)) && s2.feeds.len() == s.feeds.len() && f.id
            == s.feeds[s.url_pos(url)].id && f.url == url,
{
    reveal(StoreView::add_existing);
}

/// Adding the same URL twice gives the same feed, and the second time no feed is
/// added.
pub proof fn law_add_feed_twice(
    s: StoreView,
    s2: StoreView,
    f: FeedView,
    url: Seq<char>,
    title: Option<Seq<char>>,
    site: Option<Seq<char>>,
    now: i64,
    title2: Option<Seq<char>>,
    site2: Option<Seq<char>>,
    now2: i64,
)
    requires
        s.wf(),
        s2.wf(),
        s.add_feed(url, title, site, now) == Ok::<(StoreView, FeedView), StoreError>((s2, f)),
    ensures
        s2.add_feed(url, title2, site2, now2) matches Ok((s3, g)) && g.id == f.id && s3.feeds.len() == s2.feeds.len(),
{
    law_add_feed_stores_url(s, url, title, site, now);
    law_add_feed_existing_url(s2, url, title2, site2, now2);
    // the feed with id `f.id` is the one with URL `url`
    let k = choose|k: int| 0 <= k < s2.feeds.len() && #[trigger] s2.feeds[k].url == url && s2.feeds[k].id == f.id;
    lemma_url_pos_unique(s2, url, k);
}

/// A removed feed is gone.
pub proof fn law_remove_feed_gone(s: StoreView, id: i64)
    requires
        s.wf(),
    ensures
        s.remove_feed(id).0.get_feed(id).is_none(),
        s.remove_feed(id).1 == (if s.has_feed(id) {
            1usize
        } else {
            0usize
        }),
        s.has_feed(id) ==> forall|i: int|
            0 <= i < s.remove_feed(id).0.entries.len() ==> #[trigger] s.remove_feed(id).0.entries[i].feed_id
                != id,
        forall|i: int|
            0 <= i < s.entries.len() && #[trigger] s.entries[i].feed_id != id ==> s.remove_feed(
                id,
            ).0.entries.contains(s.entries[i]),
        s.has_feed(id) ==> s.remove_feed(id).0.unread_count(None) == s.unread_count(None) - s.unread_count(
            Some(id),
        ),
{
    if s.has_feed(id) {
        let p = s.feed_pos(id);
        let s2 = s.remove_feed(id).0;
        if s2.has_feed(id) {
            let q = choose|q: int| 0 <= q < s2.feeds.len() && s2.feeds[q].id == id;
            let q0 = if q < p {
                q
            } else {
                q + 1
            };
            assert(s.feeds[q0].id == id);
            lemma_feed_pos_unique(s, id, q0);
        }
        #[allow(deprecated)]
        s.entries.filter_lemma(not_of_feed(id));
        lemma_unread_without_feed(s.entries, id);
    }
}

/// Unread entries of all feeds are those of one feed and those of the others.
proof fn lemma_unread_without_feed(es: Seq<EntryRowView>, id: i64)
    ensures
        es.filter(not_of_feed(id)).filter(unread_pred(None)).len() + es.filter(unread_pred(Some(id))).len()
            == es.filter(unread_pred(None)).len(),
    decreases es.len(),
{
    reveal(Seq::filter);
    if es.len() > 0 {
        let d = es.drop_last();
        let l = es.last();
        lemma_unread_without_feed(d, id);
        let f1 = d.filter(not_of_feed(id));
        if l.feed_id != id {
            assert(es.filter(not_of_feed(id)) == f1.push(l));
            assert(f1.push(l).drop_last() =~= f1);
        } else {
            assert(es.filter(not_of_feed(id)) == f1);
        }
    }
}

/// An entry is inserted only for a feed the store holds; for any other feed the
/// store is left as it was.
pub proof fn law_entries_need_feed(
    s: StoreView,
    feed_id: i64,
    external_id: Seq<char>,
    link: Seq<char>,
    title: Seq<char>,
    summary: Seq<char>,
    content: Seq<char>,
    published_at: Option<i64>,
    now: i64,
)
    ensures
        !s.has_feed(feed_id) ==> s.upsert_entry(feed_id, external_id, link, title, summary, content, published_at, now).0
            == s,
        !s.has_feed(feed_id) && !s.has_entry_key(feed_id, external_id) ==> s.upsert_or_update_entry(
            feed_id,
            external_id,
            link,
            title,
            summary,
            content,
            published_at,
            now,
        ).0 == s,
{
}

/// A feed's title reads back as set, trimmed.
pub proof fn law_set_feed_title_reads_back(s: StoreView, id: i64, title: Seq<char>)
    requires
        s.wf(),
        s.has_feed(id),
        trim_seq(title).len() > 0,
    ensures
        s.set_feed_title(id, title).1 == 1,
        s.set_feed_title(id, title).0.get_feed(id) matches Some(f) && f.title == Some(trim_seq(title)),
{
    let p = s.feed_pos(id);
    let s2 = s.set_feed_title(id, title).0;
    assert(s2.feeds[p].id == id);
    assert forall|a: int, b: int| 0 <= a < b < s2.feeds.len() implies s2.feeds[a].id < s2.feeds[b].id by {
        assert(s.feeds[a].id < s.feeds[b].id);
    }
    if s2.feed_pos(id) != p {
        let q = s2.feed_pos(id);
        assert(s.feeds[q].id == id);
        lemma_feed_pos_unique(s, id, q);
    }
}

/// `list_feeds` lists every feed once, ordered by title (feeds without one last),
/// then newest first.
pub proof fn law_list_feeds_ordered(s: StoreView)
    ensures
        sorted_by(s.list_feeds(), feed_order()),
        s.list_feeds().to_multiset() == s.feeds.to_multiset(),
{
    lemma_feed_order_strict();
    lemma_stable_sort(s.feeds, feed_order());
}

// ---------------------------------------------------------------------------
// Entries
// ---------------------------------------------------------------------------

/// Upserting the same entry twice: the second time nothing changes and nothing is
/// reported inserted.
pub proof fn law_upsert_entry_twice(
    s: StoreView,
    s2: StoreView,
    feed_id: i64,
    external_id: Seq<char>,
    link: Seq<char>,
    title: Seq<char>,
    summary: Seq<char>,
    content: Seq<char>,
    published_at: Option<i64>,
    now: i64,
    now2: i64,
    b: bool,
)
    requires
        s.wf(),
        s.upsert_entry(feed_id, external_id, link, title, summary, content, published_at, now) == (
            s2,
            Ok::<bool, StoreError>(b),
        ),
    ensures
        s2.upsert_entry(feed_id, external_id, link, title, summary, content, published_at, now2) == (
            s2,
            Ok::<bool, StoreError>(false),
        ),
{
    if !s.has_entry_key(feed_id, external_id) {
        let last = s2.entries.len() - 1;
        assert(s2.entries[last].feed_id == feed_id && s2.entries[last].external_id == external_id);
    }
}

/// After `upsert_or_update_entry` succeeds, the feed's entry with that external id
/// holds the link, title, summary, content and publication time given.
pub proof fn law_upsert_or_update_reads_back(
    s: StoreView,
    s2: StoreView,
    feed_id: i64,
    external_id: Seq<char>,
    link: Seq<char>,
    title: Seq<char>,
    summary: Seq<char>,
    content: Seq<char>,
    published_at: Option<i64>,
    now: i64,
    b: bool,
)
    requires
        s.wf(),
        s2.wf(),
        s.upsert_or_update_entry(feed_id, external_id, link, title, summary, content, published_at, now) == (
            s2,
            Ok::<bool, StoreError>(b),
        ),
    ensures
        b,
        s2.has_entry_key(feed_id, external_id),
        ({
            let e = s2.entries[s2.entry_key_pos(feed_id, external_id)];
            e.link == link && e.title == title && e.summary == summary && e.content == content && e.published_at
                == published_at
        }),
{
    if s.has_entry_key(feed_id, external_id) {
        let p = s.entry_key_pos(feed_id, external_id);
        lemma_entry_key_pos_unique(s2, feed_id, external_id, p);
    } else {
        let last = s2.entries.len() - 1;
        lemma_entry_key_pos_unique(s2, feed_id, external_id, last);
    }
}

/// An entry marked read (or unread) reads back so.
pub proof fn law_mark_read_reads_back(s: StoreView, id: i64, read: bool, now: i64)
    requires
        s.wf(),
        s.has_entry(id),
    ensures
        s.mark_read(id, read, now).1 == 1,
        ({
            let s2 = s.mark_read(id, read, now).0;
            s2.has_entry(id) && s2.entries[s2.entry_pos(id)].read_at.is_some() == read
        }),
{
    let p = s.entry_pos(id);
    let s2 = s.mark_read(id, read, now).0;
    assert(s2.entries[p].id == id);
    assert forall|a: int, b: int| 0 <= a < b < s2.entries.len() implies s2.entries[a].id < s2.entries[b].id by {
        assert(s.entries[a].id < s.entries[b].id);
    }
    if s2.entry_pos(id) != p {
        let q = s2.entry_pos(id);
        assert(s.entries[q].id == id);
        lemma_entry_pos_unique(s, id, q);
    }
}

/// Pruning leaves no entry read before the cut-off and keeps every unread entry.
pub proof fn law_prune_keeps_unread(s: StoreView, cutoff: i64)
    ensures
        forall|i: int|
            0 <= i < s.prune(cutoff).0.entries.len() ==> !pruned(#[trigger] s.prune(cutoff).0.entries[i], cutoff),
        forall|i: int|
            0 <= i < s.entries.len() && s.entries[i].read_at.is_none() ==> s.prune(cutoff).0.entries.contains(
                #[trigger] s.entries[i],
            ),
{
    let pred = crate::storage::kept_by_prune(cutoff);
    #[allow(deprecated)]
    s.entries.filter_lemma(pred);
    assert forall|i: int| 0 <= i < s.entries.len() && s.entries[i].read_at.is_none() implies s.prune(
        cutoff,
    ).0.entries.contains(#[trigger] s.entries[i]) by {
        s.entries.lemma_filter_contains_rev(pred, s.entries[i]);
    }
}

/// `list_entries` lists newest first, at most `limit` entries.
pub proof fn law_list_entries_ordered(
    s: StoreView,
    feed_id: Option<i64>,
    unread_only: bool,
    search: Option<Seq<char>>,
    limit: usize,
    offset: usize,
)
    requires
        s.wf(),
    ensures
        s.list_entries(feed_id, unread_only, search, limit, offset) matches Ok(es) ==> sorted_by(es, entry_order())
            && es.len() <= limit,
{
    if let Ok(es) = s.list_entries(feed_id, unread_only, search, limit, offset) {
        let all = s.entries.filter(s.listed_pred(feed_id, unread_only, search)).map_values(s.joined_fn());
        let sorted = stable_sort(all, entry_order());
        lemma_entry_order_strict();
        lemma_stable_sort(all, entry_order());
        lemma_entries_len_bound(s.entries, s.entry_seq);
        #[allow(deprecated)]
        s.entries.filter_lemma(s.listed_pred(feed_id, unread_only, search));
        assert(es == page(sorted, offset, limit));
        let start: int = if offset > i64::MAX {
            0
        } else if offset > sorted.len() {
            sorted.len() as int
        } else {
            offset as int
        };
        assert forall|i: int, j: int| 0 <= i < j < es.len() implies !entry_order()(es[j], es[i]) by {
            assert(es[i] == sorted[start + i]);
            assert(es[j] == sorted[start + j]);
        }
    }
}

/// Entries are listed newest first by `COALESCE(published_at, inserted_at)`: an
/// entry's publication time where it has one, else the time it was stored.
pub proof fn law_list_entries_newest_first(
    s: StoreView,
    feed_id: Option<i64>,
    unread_only: bool,
    search: Option<Seq<char>>,
    limit: usize,
    offset: usize,
)
    requires
        s.wf(),
    ensures
        s.list_entries(feed_id, unread_only, search, limit, offset) matches Ok(es) ==> forall|a: int, b: int|
            #![trigger es[a], es[b]]
            0 <= a < b < es.len() ==> (match es[b].published_at {
                Some(t) => t,
                None => es[b].inserted_at,
            }) <= (match es[a].published_at {
                Some(t) => t,
                None => es[a].inserted_at,
            }),
{
    law_list_entries_ordered(s, feed_id, unread_only, search, limit, offset);
    if let Ok(es) = s.list_entries(feed_id, unread_only, search, limit, offset) {
        assert forall|a: int, b: int| #![trigger es[a], es[b]] 0 <= a < b < es.len() implies (match es[b].published_at {
            Some(t) => t,
            None => es[b].inserted_at,
        }) <= (match es[a].published_at {
            Some(t) => t,
            None => es[a].inserted_at,
        }) by {
            assert(!entry_order()(es[b], es[a]));
        }
    }
}

/// A search lists every entry (of an existing feed, meeting the feed and unread
/// filters) whose title, summary, link or feed title contains the term, ignoring
/// ASCII case (`LIKE '%term%'`): a first page that can hold all entries holds it.
pub proof fn law_search_lists_matches(
    s: StoreView,
    feed_id: Option<i64>,
    unread_only: bool,
    term: Seq<char>,
    limit: usize,
    i: int,
)
    requires
        s.wf(),
        0 <= i < s.entries.len(),
        s.has_feed(s.entries[i].feed_id),
        feed_id matches Some(f) ==> s.entries[i].feed_id == f,
        unread_only ==> s.entries[i].read_at.is_none(),
        limit >= s.entries.len(),
        like(search_pattern(term), s.entries[i].title) || like(search_pattern(term), s.entries[i].summary) || like(
            search_pattern(term),
            s.entries[i].link,
        ) || (s.get_feed(s.entries[i].feed_id) matches Some(fd) && fd.title matches Some(ft) && like(
            search_pattern(term),
            ft,
        )),
    ensures
        s.list_entries(feed_id, unread_only, Some(term), limit, 0) matches Ok(es) ==> es.contains(
            s.joined(s.entries[i]),
        ),
{
    broadcast use vstd::seq_lib::group_to_multiset_ensures;
    let search = Some(term);
    let e = s.entries[i];
    let pred = s.listed_pred(feed_id, unread_only, search);
    assert(pred(e));
    #[allow(deprecated)]
    s.entries.filter_lemma(pred);
    let f = s.entries.filter(pred);
    assert(f.contains(e));
    let q = choose|q: int| 0 <= q < f.len() && f[q] == e;
    let all = f.map_values(s.joined_fn());
    assert(all[q] == s.joined(e));
    assert(all.contains(s.joined(e)));
    let sorted = stable_sort(all, entry_order());
    lemma_entry_order_strict();
    lemma_stable_sort(all, entry_order());
    assert(all.to_multiset().count(s.joined(e)) > 0);
    assert(sorted.to_multiset().count(s.joined(e)) > 0);
    assert(sorted.contains(s.joined(e)));
    assert(sorted.len() <= limit);
    if let Ok(es) = s.list_entries(feed_id, unread_only, search, limit, 0) {
        assert(es == page(sorted, 0, limit));
        if limit > i64::MAX {
            assert(sorted.skip(0) =~= sorted);
        } else {
            assert(sorted.subrange(0, sorted.len() as int) =~= sorted);
        }
        assert(es == sorted);
    }
}

// ---------------------------------------------------------------------------
// Addresses and documents
// ---------------------------------------------------------------------------

/// A normalized address is a web address: it starts with `http://` or `https://`.
pub proof fn law_normalized_is_web_url(input: Seq<char>)
    ensures
        normalize_url_spec(input) matches Some(u) ==> is_web_url(u) && u.len() > 0,
{
    let t = trim_seq(input);
    if let Some(u) = normalize_url_spec(input) {
        if !(starts_with_seq(t, "http://"@) || starts_with_seq(t, "https://"@)) {
            assert(("https://"@ + t).take("https://"@.len() as int) =~= "https://"@);
        }
    }
}

/// What `trim_end_seq` leaves is a prefix of its input.
proof fn lemma_trim_end_prefix(x: Seq<char>)
    ensures
        trim_end_seq(x).len() <= x.len(),
        trim_end_seq(x) == x.take(trim_end_seq(x).len() as int),
    decreases x.len(),
{
    if x.len() > 0 && is_ws(x.last()) {
        lemma_trim_end_prefix(x.drop_last());
        assert(x.drop_last().take(trim_end_seq(x).len() as int) =~= x.take(trim_end_seq(x).len() as int));
    } else {
        assert(x.take(x.len() as int) =~= x);
    }
}

/// What `trim_end_seq` leaves does not end in white space.
proof fn lemma_trim_end_last(x: Seq<char>)
    ensures
        trim_end_seq(x).len() > 0 ==> !is_ws(trim_end_seq(x).last()),
    decreases x.len(),
{
    if x.len() > 0 && is_ws(x.last()) {
        lemma_trim_end_last(x.drop_last());
    }
}

/// What `trim_start_seq` leaves does not start with white space.
proof fn lemma_trim_start_first(x: Seq<char>)
    ensures
        trim_start_seq(x).len() > 0 ==> !is_ws(trim_start_seq(x)[0]),
    decreases x.len(),
{
    if x.len() > 0 && is_ws(x[0]) {
        lemma_trim_start_first(x.drop_first());
    }
}

/// A text that neither starts nor ends with white space is its own trim.
proof fn lemma_trim_of_unpadded(t: Seq<char>)
    requires
        t.len() > 0 ==> !is_ws(t[0]) && !is_ws(t.last()),
    ensures
        trim_seq(t) == t,
{
}

/// The trimmed text starts and ends with no white space.
proof fn lemma_trim_unpadded(x: Seq<char>)
    ensures
        trim_seq(x).len() > 0 ==> !is_ws(trim_seq(x)[0]) && !is_ws(trim_seq(x).last()),
{
    let u = trim_start_seq(x);
    lemma_trim_start_first(x);
    lemma_trim_end_prefix(u);
    lemma_trim_end_last(u);
    if trim_seq(x).len() > 0 {
        assert(trim_seq(x)[0] == u[0]);
    }
}

/// Trimming twice trims once.
pub proof fn law_trim_idempotent(x: Seq<char>)
    ensures
        trim_seq(trim_seq(x)) == trim_seq(x),
{
    lemma_trim_unpadded(x);
    lemma_trim_of_unpadded(trim_seq(x));
}

/// Normalizing a normalized URL gives it back; it ends with the trimmed input.
pub proof fn law_normalize_url_idempotent(input: Seq<char>)
    ensures
        normalize_url_spec(input) matches Some(r) ==> normalize_url_spec(r) == Some(r) && ends_with_seq(
            r,
            trim_seq(input),
        ),
{
    let t = trim_seq(input);
    if let Some(r) = normalize_url_spec(input) {
        lemma_trim_unpadded(input);
        law_normalized_is_web_url(input);
        if starts_with_seq(t, "http://"@) || starts_with_seq(t, "https://"@) {
            lemma_trim_of_unpadded(t);
            assert(t.skip(0) =~= t);
        } else {
            let p = "https://"@;
            reveal_strlit("https://");
            assert(r == p + t);
            assert(r[0] == 'h');
            assert(r.last() == t.last());
            lemma_trim_of_unpadded(r);
            assert(r.skip(r.len() - t.len()) =~= t);
        }
    }
}

/// The fallback id of an entry with a link ignores the title and the white space
/// round the link.
pub proof fn law_fallback_id_ignores_title(
    link: Seq<char>,
    t1: Seq<char>,
    t2: Seq<char>,
    published: Option<Seq<char>>,
    ms1: i64,
    ms2: i64,
)
    requires
        trim_seq(link).len() > 0,
    ensures
        fallback_entry_id_spec(link, t1, published, ms1) == fallback_entry_id_spec(
            trim_seq(link),
            t2,
            published,
            ms2,
        ),
{
    law_trim_idempotent(link);
}

/// Two readings of the default database location from the same directory lookups
/// agree: both give the same directory and file, or both fail alike.
pub proof fn law_default_location_agrees(
    r1: Result<DbLocation, ConfigError>,
    r2: Result<DbLocation, ConfigError>,
    data: Option<Option<Seq<char>>>,
    home: Option<Option<Seq<char>>>,
)
    requires
        defaulted(r1, data, home),
        defaulted(r2, data, home),
    ensures
        r1 is Ok <==> r2 is Ok,
        (r1, r2) matches (Ok(l1), Ok(l2)) ==> location_view(l1) == location_view(l2),
        (r1, r2) matches (Err(e1), Err(e2)) ==> e1 == e2,
{
}

/// What an Atom entry holds: the trimmed text of its `content`, else its summary;
/// of its `summary`, else nothing; of its `title`; of its `id`.
pub proof fn law_atom_entry_fields(n: Seq<XmlNodeView>, i: int, now_ms: i64)
    ensures
        tag_text(n, i, "content"@) matches Some(c) ==> atom_entry(n, i, now_ms).content == c,
        tag_text(n, i, "content"@) is None ==> atom_entry(n, i, now_ms).content == atom_entry(n, i, now_ms).summary,
        tag_text(n, i, "summary"@) matches Some(x) ==> atom_entry(n, i, now_ms).summary == x,
        tag_text(n, i, "summary"@) is None ==> atom_entry(n, i, now_ms).summary.len() == 0,
        tag_text(n, i, "title"@) matches Some(x) ==> atom_entry(n, i, now_ms).title == x,
        tag_text(n, i, "id"@) matches Some(x) ==> atom_entry(n, i, now_ms).id == x,
{
}

/// What an RSS item holds: the trimmed text of its `content:encoded`, else of its
/// `content`, else its summary; of its `description`, else nothing; of its
/// `title`; of its `link`; of its `guid`, else its link.
pub proof fn law_rss_entry_fields(n: Seq<XmlNodeView>, i: int)
    ensures
        tag_text(n, i, "content:encoded"@) matches Some(c) ==> rss_entry(n, i).content == c,
        tag_text(n, i, "content:encoded"@) is None ==> (tag_text(n, i, "content"@) matches Some(c) ==> rss_entry(
            n,
            i,
        ).content == c),
        tag_text(n, i, "content:encoded"@) is None && tag_text(n, i, "content"@) is None ==> rss_entry(n, i).content
            == rss_entry(n, i).summary,
        tag_text(n, i, "description"@) matches Some(x) ==> rss_entry(n, i).summary == x,
        tag_text(n, i, "description"@) is None ==> rss_entry(n, i).summary.len() == 0,
        tag_text(n, i, "title"@) matches Some(x) ==> rss_entry(n, i).title == x,
        tag_text(n, i, "link"@) matches Some(x) ==> rss_entry(n, i).link == x,
        tag_text(n, i, "guid"@) matches Some(x) ==> rss_entry(n, i).id == x,
        tag_text(n, i, "guid"@) is None ==> rss_entry(n, i).id == rss_entry(n, i).link,
{
}

/// Trimming the end keeps a first character that is no white space.
proof fn lemma_trim_end_keeps_first(x: Seq<char>)
    requires
        x.len() > 0,
        !is_ws(x[0]),
    ensures
        trim_end_seq(x).len() > 0,
    decreases x.len(),
{
    if is_ws(x.last()) {
        assert(x.len() > 1);
        lemma_trim_end_keeps_first(x.drop_last());
    }
}

/// A web address normalizes to something (it is not blank).
proof fn lemma_web_url_normalizes(u: Seq<char>)
    requires
        is_web_url(u),
    ensures
        normalize_url_spec(u).is_some(),
{
    reveal_strlit("http://");
    reveal_strlit("https://");
    if starts_with_seq(u, "http://"@) {
        assert(u[0] == u.take(7)[0]);
    } else {
        assert(u[0] == u.take(8)[0]);
    }
    assert(u[0] == 'h');
    assert(trim_start_seq(u) == u);
    lemma_trim_end_keeps_first(u);
}

/// When the first fetch of a feed with a web address fails for any reason (the
/// fetch itself, a body that is no XML or has no entries, or the store refusing
/// it), the sync neither ends nor gives up: it keeps the error and starts a fresh
/// search for feeds of the feed's own address.
pub proof fn law_first_failure_starts_discovery(
    v: FeedSyncView,
    s: StoreView,
    response: Result<Seq<char>, Seq<char>>,
    now: i64,
    now_ms: i64,
)
    requires
        v.first_error.is_none(),
        v.awaits_fetch(),
        is_web_url(v.feed_url),
        match response {
            Err(_) => true,
            Ok(body) => apply_body_spec(s, v.feed_id, v.feed_url, body, now, now_ms).1 is Err,
        },
    ensures
        ({
            let w = v.on_fetched_spec(s, response, now, now_ms).1;
            &&& w.outcome.is_none()
            &&& w.first_error.is_some()
            &&& w.discovery matches Some(d) && d.site == v.feed_url && d.next == 0 && !d.page_fetched
                && d.found.len() == 0
        }),
{
    lemma_web_url_normalizes(v.feed_url);
}

/// In particular, a first body that is not XML (such as a site's HTML home page
/// that does not parse) starts the search rather than ending the sync.
pub proof fn law_unparsable_body_starts_discovery(
    v: FeedSyncView,
    s: StoreView,
    body: Seq<char>,
    now: i64,
    now_ms: i64,
)
    requires
        v.first_error.is_none(),
        v.awaits_fetch(),
        is_web_url(v.feed_url),
        spec_xml_nodes(body) is Err,
    ensures
        v.on_fetched_spec(s, Ok(body), now, now_ms).1.discovery is Some,
        v.on_fetched_spec(s, Ok(body), now, now_ms).1.outcome.is_none(),
{
    law_first_failure_starts_discovery(v, s, Ok(body), now, now_ms);
}

/// And so does a first body that parses but holds no entries.
pub proof fn law_empty_feed_starts_discovery(
    v: FeedSyncView,
    s: StoreView,
    body: Seq<char>,
    now: i64,
    now_ms: i64,
)
    requires
        v.first_error.is_none(),
        v.awaits_fetch(),
        is_web_url(v.feed_url),
        parse_feed_spec(body, now_ms) matches Ok(f) && f.entries.len() == 0,
    ensures
        v.on_fetched_spec(s, Ok(body), now, now_ms).1.discovery is Some,
        v.on_fetched_spec(s, Ok(body), now, now_ms).1.outcome.is_none(),
{
    law_first_failure_starts_discovery(v, s, Ok(body), now, now_ms);
}

/// Whether a text looks like a feed does not depend on the clock: it parses, and
/// the feed has entries.
pub proof fn law_looks_like_feed_iff_entries(xml: Seq<char>, now_ms: i64)
    ensures
        looks_like_feed_spec(xml) <==> (parse_feed_spec(xml, now_ms) matches Ok(f) && f.entries.len() > 0),
{
    if let Ok(n) = spec_xml_nodes(xml) {
        lemma_entry_count_clock_free(n, now_ms);
    }
}

// ---------------------------------------------------------------------------
// Text shown and exported
// ---------------------------------------------------------------------------

proof fn lemma_utf8_len_concat(a: Seq<char>, b: Seq<char>)
    ensures
        utf8_len(a + b) == utf8_len(a) + utf8_len(b),
    decreases b.len(),
{
    if b.len() == 0 {
        assert(a + b =~= a);
    } else {
        lemma_utf8_len_concat(a, b.drop_last());
        assert((a + b).drop_last() =~= a + b.drop_last());
        assert((a + b).last() == b.last());
    }
}

proof fn lemma_bytes_prefix_fits(s: Seq<char>, b: nat)
    ensures
        utf8_len(bytes_prefix(s, b)) <= b,
    decreases s.len(),
{
    if !(s.len() == 0 || utf8_char_len(s[0]) > b) {
        let rest = (b - utf8_char_len(s[0])) as nat;
        lemma_bytes_prefix_fits(s.drop_first(), rest);
        lemma_utf8_len_concat(seq![s[0]], bytes_prefix(s.drop_first(), rest));
        let one = seq![s[0]];
        assert(one.drop_last() =~= Seq::<char>::empty());
        assert(one.last() == s[0]);
        assert(utf8_len(Seq::<char>::empty()) == 0);
        assert(utf8_len(one) == utf8_char_len(s[0]));
        assert(bytes_prefix(s, b) == one + bytes_prefix(s.drop_first(), rest));
    } else {
        assert(bytes_prefix(s, b) =~= Seq::<char>::empty());
    }
}

/// A shortened URL takes at most 72 bytes.
pub proof fn law_short_url_fits(value: Seq<char>)
    ensures
        utf8_len(short_url_spec(value)) <= 72,
{
    let t = trim_seq(value);
    if utf8_len(t) > 72 {
        lemma_bytes_prefix_fits(t, 69);
        lemma_utf8_len_concat(bytes_prefix(t, 69), seq!['\u{2026}']);
        let e = seq!['\u{2026}'];
        assert(e.drop_last() =~= Seq::<char>::empty());
        assert(e.last() == '\u{2026}');
        assert(utf8_len(Seq::<char>::empty()) == 0);
        assert(('\u{2026}' as u32) == 0x2026u32);
        assert(utf8_char_len('\u{2026}') == 3);
        assert(utf8_len(e) == 3);
    }
}

proof fn lemma_export_acc(fs: Seq<FeedView>)
    ensures
        forall|x: Seq<char>|
            export_acc(fs).1.contains(x) <==> exists|i: int|
                0 <= i < export_acc(fs).0.len() && #[trigger] spec_to_lowercase(export_acc(fs).0[i]) == x,
        forall|i: int, j: int|
            0 <= i < j < export_acc(fs).0.len() ==> spec_to_lowercase(#[trigger] export_acc(fs).0[i])
                != spec_to_lowercase(#[trigger] export_acc(fs).0[j]),
        forall|k: int|
            0 <= k < fs.len() ==> export_acc(fs).1.contains(spec_to_lowercase(export_site(#[trigger] fs[k]))),
    decreases fs.len(),
{
    if fs.len() > 0 {
        let d = fs.drop_last();
        lemma_export_acc(d);
        let (lines, seen) = export_acc(d);
        let site = export_site(fs.last());
        let key = spec_to_lowercase(site);
        assert forall|k: int| 0 <= k < fs.len() implies export_acc(fs).1.contains(
            spec_to_lowercase(export_site(#[trigger] fs[k])),
        ) by {
            if k < d.len() {
                assert(fs[k] == d[k]);
                assert(seen.contains(spec_to_lowercase(export_site(d[k]))));
            }
        }
        if !seen.contains(key) {
            let l2 = lines.push(site);
            assert forall|x: Seq<char>| export_acc(fs).1.contains(x) <==> exists|i: int|
                0 <= i < l2.len() && #[trigger] spec_to_lowercase(l2[i]) == x by {
                if x == key {
                    assert(spec_to_lowercase(l2[lines.len() as int]) == x);
                } else if seen.contains(x) {
                    let i = choose|i: int| 0 <= i < lines.len() && #[trigger] spec_to_lowercase(lines[i]) == x;
                    assert(spec_to_lowercase(l2[i]) == x);
                } else {
                    if exists|i: int| 0 <= i < l2.len() && #[trigger] spec_to_lowercase(l2[i]) == x {
                        let i = choose|i: int| 0 <= i < l2.len() && #[trigger] spec_to_lowercase(l2[i]) == x;
                        assert(i < lines.len());
                        assert(spec_to_lowercase(lines[i]) == x);
                    }
                }
            }
            assert forall|i: int, j: int| 0 <= i < j < l2.len() implies spec_to_lowercase(#[trigger] l2[i])
                != spec_to_lowercase(#[trigger] l2[j]) by {
                if j == lines.len() {
                    assert(l2[i] == lines[i]);
                    assert(seen.contains(spec_to_lowercase(lines[i])));
                } else {
                    assert(l2[i] == lines[i] && l2[j] == lines[j]);
                }
            }
        }
    }
}

/// Some exported line is the site of `f`, up to case.
pub open spec fn site_exported(lines: Seq<Seq<char>>, f: FeedView) -> bool {
    exists|i: int| 0 <= i < lines.len() && spec_to_lowercase(lines[i]) == spec_to_lowercase(export_site(f))
}

/// The exported sites differ pairwise even ignoring case, and every feed's site is
/// among them (up to case).
pub proof fn law_export_lines_distinct(fs: Seq<FeedView>)
    ensures
        forall|i: int, j: int|
            0 <= i < j < export_lines_spec(fs).len() ==> spec_to_lowercase(#[trigger] export_lines_spec(fs)[i])
                != spec_to_lowercase(#[trigger] export_lines_spec(fs)[j]),
        forall|k: int| 0 <= k < fs.len() ==> site_exported(export_lines_spec(fs), #[trigger] fs[k]),
{
    lemma_export_acc(fs);
    assert forall|k: int| 0 <= k < fs.len() implies site_exported(export_lines_spec(fs), #[trigger] fs[k]) by {
        let x = spec_to_lowercase(export_site(fs[k]));
        assert(export_acc(fs).1.contains(x));
        let i = choose|i: int| 0 <= i < export_acc(fs).0.len() && #[trigger] spec_to_lowercase(export_acc(fs).0[i]) == x;
        assert(spec_to_lowercase(export_lines_spec(fs)[i]) == x);
    }
}

proof fn lemma_kept_pieces(ps: Seq<Seq<char>>, skip_comments: bool)
    ensures
        forall|i: int|
            0 <= i < kept_pieces(ps, skip_comments).len() ==> #[trigger] kept_pieces(ps, skip_comments)[i].len() > 0
                && (skip_comments ==> kept_pieces(ps, skip_comments)[i][0] != '#'),
    decreases ps.len(),
{
    if ps.len() > 0 {
        lemma_kept_pieces(ps.drop_first(), skip_comments);
        let t = trim_seq(ps[0]);
        let rest = kept_pieces(ps.drop_first(), skip_comments);
        if !(t.len() == 0 || (skip_comments && t[0] == '#')) {
            assert forall|i: int| 0 <= i < kept_pieces(ps, skip_comments).len() implies #[trigger] kept_pieces(
                ps,
                skip_comments,
            )[i].len() > 0 && (skip_comments ==> kept_pieces(ps, skip_comments)[i][0] != '#') by {
                if i > 0 {
                    assert(kept_pieces(ps, skip_comments)[i] == rest[i - 1]);
                }
            }
        }
    }
}

/// An import reads no empty source and no comment.
pub proof fn law_import_sources_kept(raw: Seq<char>)
    ensures
        forall|i: int|
            0 <= i < import_sources_spec(raw).len() ==> #[trigger] import_sources_spec(raw)[i].len() > 0
                && import_sources_spec(raw)[i][0] != '#',
{
    lemma_kept_pieces(crate::display::pieces_from(raw, |c: char| crate::display::is_newline(c), Seq::empty()), true);
}

/// A line that an import reads back as it is: not empty, not starting with `#`,
/// with no line break and no white space at either end.
pub open spec fn clean_line(l: Seq<char>) -> bool {
    &&& l.len() > 0
    &&& l[0] != '#'
    &&& trim_seq(l) == l
    &&& forall|i: int| 0 <= i < l.len() ==> l[i] != '\n'
}

/// Reading past text with no line break adds it to the piece read so far.
proof fn lemma_pieces_no_break(a: Seq<char>, b: Seq<char>, cur: Seq<char>)
    requires
        forall|i: int| 0 <= i < a.len() ==> a[i] != '\n',
    ensures
        pieces_from(a + b, |c: char| is_newline(c), cur) == pieces_from(b, |c: char| is_newline(c), cur + a),
    decreases a.len(),
{
    if a.len() == 0 {
        assert(a + b =~= b);
        assert(cur + a =~= cur);
    } else {
        assert((a + b)[0] == a[0]);
        assert((a + b).drop_first() =~= a.drop_first() + b);
        lemma_pieces_no_break(a.drop_first(), b, cur.push(a[0]));
        assert(cur.push(a[0]) + a.drop_first() =~= cur + a);
    }
}

/// A line break ends the piece read so far.
proof fn lemma_pieces_break(b: Seq<char>, cur: Seq<char>)
    ensures
        pieces_from(seq!['\n'] + b, |c: char| is_newline(c), cur) == seq![cur] + pieces_from(
            b,
            |c: char| is_newline(c),
            Seq::empty(),
        ),
{
    assert((seq!['\n'] + b).drop_first() =~= b);
}

/// Joining at least two lines puts the first, a line break and the join of the rest.
proof fn lemma_join_front(ls: Seq<Seq<char>>)
    requires
        ls.len() >= 2,
    ensures
        join_lines_spec(ls) == ls[0] + seq!['\n'] + join_lines_spec(ls.drop_first()),
    decreases ls.len(),
{
    if ls.len() == 2 {
        assert(ls.drop_last() =~= seq![ls[0]]);
        assert(ls.drop_first() =~= seq![ls[1]]);
        assert(join_lines_spec(seq![ls[0]]) == ls[0]);
        assert(join_lines_spec(seq![ls[1]]) == ls[1]);
    } else {
        lemma_join_front(ls.drop_last());
        assert(ls.drop_last()[0] == ls[0]);
        assert(ls.drop_last().drop_first() =~= ls.drop_first().drop_last());
        assert(ls.drop_first().last() == ls.last());
        let j = join_lines_spec(ls.drop_first().drop_last());
        assert(join_lines_spec(ls.drop_first()) == j + seq!['\n'] + ls.last());
        assert(join_lines_spec(ls) == join_lines_spec(ls.drop_last()) + seq!['\n'] + ls.last());
        assert(ls[0] + seq!['\n'] + j + seq!['\n'] + ls.last() =~= ls[0] + seq!['\n'] + (j + seq!['\n']
            + ls.last()));
    }
}

/// Splitting the join of lines without breaks at line breaks gives the lines back,
/// the last one continued by what follows.
proof fn lemma_pieces_of_join(ls: Seq<Seq<char>>, t: Seq<char>)
    requires
        ls.len() >= 1,
        forall|k: int, i: int| 0 <= k < ls.len() && 0 <= i < ls[k].len() ==> ls[k][i] != '\n',
    ensures
        pieces_from(join_lines_spec(ls) + t, |c: char| is_newline(c), Seq::empty()) == ls.drop_last()
            + pieces_from(t, |c: char| is_newline(c), ls.last()),
    decreases ls.len(),
{
    let e = Seq::<char>::empty();
    if ls.len() == 1 {
        lemma_pieces_no_break(ls[0], t, e);
        assert(e + ls[0] =~= ls[0]);
        assert(ls.drop_last() =~= Seq::<Seq<char>>::empty());
    } else {
        lemma_join_front(ls);
        let rest = ls.drop_first();
        let y = join_lines_spec(rest) + t;
        assert(join_lines_spec(ls) + t =~= ls[0] + (seq!['\n'] + y));
        assert(forall|i: int| 0 <= i < ls[0].len() ==> ls[0][i] != '\n');
        lemma_pieces_no_break(ls[0], seq!['\n'] + y, e);
        assert(e + ls[0] =~= ls[0]);
        lemma_pieces_break(y, ls[0]);
        assert forall|k: int, i: int| 0 <= k < rest.len() && 0 <= i < rest[k].len() implies rest[k][i] != '\n' by {
            assert(rest[k] == ls[k + 1]);
        }
        lemma_pieces_of_join(rest, t);
        assert(seq![ls[0]] + rest.drop_last() =~= ls.drop_last());
        assert(rest.last() == ls.last());
    }
}

/// Clean lines, then nothing or an empty piece, are kept as the clean lines.
proof fn lemma_kept_clean(ls: Seq<Seq<char>>, extra: Seq<Seq<char>>)
    requires
        forall|i: int| 0 <= i < ls.len() ==> clean_line(#[trigger] ls[i]),
        extra.len() == 0 || extra == seq![Seq::<char>::empty()],
    ensures
        kept_pieces(ls + extra, true) == ls,
    decreases ls.len(),
{
    if ls.len() == 0 {
        assert(ls + extra =~= extra);
        assert(ls =~= Seq::<Seq<char>>::empty());
        assert(kept_pieces(Seq::<Seq<char>>::empty(), true) == Seq::<Seq<char>>::empty());
        if extra.len() > 0 {
            assert(extra.drop_first() =~= Seq::<Seq<char>>::empty());
            assert(trim_seq(Seq::<char>::empty()) =~= Seq::<char>::empty());
            assert(kept_pieces(extra, true) == kept_pieces(extra.drop_first(), true));
        }
    } else {
        assert(clean_line(ls[0]));
        assert((ls + extra)[0] == ls[0]);
        assert((ls + extra).drop_first() =~= ls.drop_first() + extra);
        assert forall|i: int| 0 <= i < ls.drop_first().len() implies clean_line(#[trigger] ls.drop_first()[i]) by {
            assert(clean_line(ls[i + 1]));
        }
        lemma_kept_clean(ls.drop_first(), extra);
        assert(seq![ls[0]] + ls.drop_first() =~= ls);
    }
}

/// Importing what an export wrote gives its lines back, where each is clean: the
/// file the command writes (the lines joined, and a line break), the file the
/// window writes (nothing where there are no lines), and what the command prints.
pub proof fn law_export_import_roundtrip(ls: Seq<Seq<char>>)
    requires
        forall|i: int| 0 <= i < ls.len() ==> clean_line(#[trigger] ls[i]),
    ensures
        import_sources_spec(join_lines_spec(ls) + seq!['\n']) == ls,
        import_sources_spec(
            if ls.len() == 0 {
                Seq::<char>::empty()
            } else {
                join_lines_spec(ls) + seq!['\n']
            },
        ) == ls,
        import_sources_spec(
            if ls.len() == 0 {
                "# no feeds configured\n"@
            } else {
                join_lines_spec(ls)
            },
        ) == ls,
{
    let e = Seq::<char>::empty();
    let nl = |c: char| is_newline(c);
    if ls.len() == 0 {
        let c = "# no feeds configured"@;
        reveal_strlit("# no feeds configured");
        reveal_strlit("# no feeds configured\n");
        assert("# no feeds configured\n"@ =~= c + (seq!['\n'] + e));
        assert(forall|i: int| 0 <= i < c.len() ==> c[i] != '\n');
        lemma_pieces_no_break(c, seq!['\n'] + e, e);
        assert(e + c =~= c);
        lemma_pieces_break(e, c);
        assert(trim_seq(c) == c) by {
            lemma_trim_of_unpadded(c);
        }
        assert(seq![c] + seq![e] =~= seq![c, e]);
        assert(kept_pieces(seq![c, e], true) == kept_pieces(seq![e], true)) by {
            assert(seq![c, e].drop_first() =~= seq![e]);
        }
        assert(ls =~= Seq::<Seq<char>>::empty());
        assert(join_lines_spec(ls) + seq!['\n'] =~= seq!['\n'] + e);
        lemma_pieces_break(e, e);
        assert(pieces_from(e, nl, e) == seq![e]);
        lemma_kept_clean(Seq::empty(), seq![e]);
        assert(Seq::<Seq<char>>::empty() + seq![e] =~= seq![e]);
        assert(kept_pieces(seq![e], true) == Seq::<Seq<char>>::empty());
        assert(seq![e] + seq![e] =~= seq![e, e]);
        assert(kept_pieces(seq![e, e], true) == kept_pieces(seq![e], true)) by {
            assert(seq![e, e].drop_first() =~= seq![e]);
            assert(trim_seq(e) =~= e);
        }
    } else {
        assert forall|k: int, i: int| 0 <= k < ls.len() && 0 <= i < ls[k].len() implies ls[k][i] != '\n' by {
            assert(clean_line(ls[k]));
        }
        lemma_pieces_of_join(ls, seq!['\n']);
        assert(seq!['\n'] =~= seq!['\n'] + e);
        lemma_pieces_break(e, ls.last());
        assert(ls.drop_last() + (seq![ls.last()] + seq![e]) =~= ls + seq![e]);
        lemma_kept_clean(ls, seq![e]);
        lemma_pieces_of_join(ls, e);
        assert(join_lines_spec(ls) + e =~= join_lines_spec(ls));
        assert(ls.drop_last() + seq![ls.last()] =~= ls + Seq::<Seq<char>>::empty());
        lemma_kept_clean(ls, Seq::empty());
    }
}

/// Importing an export of the store's feeds gives back its sites, where each site
/// line is clean (see `law_export_import_roundtrip`).
pub proof fn law_export_feeds_roundtrip(fs: Seq<FeedView>)
    requires
        forall|i: int| 0 <= i < export_lines_spec(fs).len() ==> clean_line(#[trigger] export_lines_spec(fs)[i]),
    ensures
        import_sources_spec(join_lines_spec(export_lines_spec(fs)) + seq!['\n']) == export_lines_spec(fs),
{
    law_export_import_roundtrip(export_lines_spec(fs));
}

/// The add box yields no empty URL.
pub proof fn law_split_feed_input_nonempty(raw: Seq<char>)
    ensures
        forall|i: int| 0 <= i < split_feed_input_spec(raw).len() ==> #[trigger] split_feed_input_spec(raw)[i].len() > 0,
{
    lemma_kept_pieces(
        crate::display::pieces_from(trim_seq(raw), |c: char| crate::display::is_list_sep(c), Seq::empty()),
        false,
    );
}

/// Changing one element changes the size of a filter by at most that element.
proof fn lemma_filter_len_update(s: Seq<EntryRowView>, pred: spec_fn(EntryRowView) -> bool, p: int, e: EntryRowView)
    requires
        0 <= p < s.len(),
    ensures
        s.update(p, e).filter(pred).len() + (if pred(s[p]) {
            1int
        } else {
            0int
        }) == s.filter(pred).len() + (if pred(e) {
            1int
        } else {
            0int
        }),
    decreases s.len(),
{
    reveal_with_fuel(Seq::filter, 1);
    let t = s.update(p, e);
    if p == s.len() - 1 {
        assert(t.drop_last() =~= s.drop_last());
    } else {
        lemma_filter_len_update(s.drop_last(), pred, p, e);
        assert(t.drop_last() =~= s.drop_last().update(p, e));
        assert(t.last() == s.last());
    }
}

/// Marking an unread entry read lowers the unread count by one, and marking a
/// read entry unread raises it by one, for all feeds and for the entry's feed.
pub proof fn law_mark_read_counts(s: StoreView, id: i64, read: bool, now: i64, feed_id: Option<i64>)
    requires
        s.wf(),
        s.has_entry(id),
        match feed_id {
            Some(f) => s.entries[s.entry_pos(id)].feed_id == f,
            None => true,
        },
    ensures
        ({
            let e = s.entries[s.entry_pos(id)];
            let s2 = s.mark_read(id, read, now).0;
            &&& (read && e.read_at.is_none()) ==> s2.unread_count(feed_id) == s.unread_count(feed_id) - 1
            &&& (!read && e.read_at.is_some()) ==> s2.unread_count(feed_id) == s.unread_count(feed_id) + 1
            &&& (read == e.read_at.is_some()) ==> s2.unread_count(feed_id) == s.unread_count(feed_id)
        }),
{
    let p = s.entry_pos(id);
    let e = s.entries[p];
    let e2 = crate::storage::EntryRowView {
        read_at: if read {
            Some(now)
        } else {
            None
        },
        ..e
    };
    lemma_filter_len_update(s.entries, unread_pred(feed_id), p, e2);
    assert(unread_pred(feed_id)(e) == counted_unread(e, feed_id));
    assert(unread_pred(feed_id)(e2) == counted_unread(e2, feed_id));
}

/// Every entry that `list_entries` lists is a stored entry of an existing feed that
/// meets the filters: the feed asked for, unread where asked, and the search term.
pub proof fn law_list_entries_filters(
    s: StoreView,
    feed_id: Option<i64>,
    unread_only: bool,
    search: Option<Seq<char>>,
    limit: usize,
    offset: usize,
)
    requires
        s.wf(),
    ensures
        s.list_entries(feed_id, unread_only, search, limit, offset) matches Ok(es) ==> forall|x: int|
            0 <= x < es.len() ==> exists|i: int|
                0 <= i < s.entries.len() && s.listed(s.entries[i], feed_id, unread_only, search)
                    && #[trigger] es[x] == s.joined(s.entries[i]),
{
    broadcast use vstd::seq_lib::group_to_multiset_ensures;
    if let Ok(es) = s.list_entries(feed_id, unread_only, search, limit, offset) {
        let pred = s.listed_pred(feed_id, unread_only, search);
        let f = s.entries.filter(pred);
        let all = f.map_values(s.joined_fn());
        let sorted = stable_sort(all, entry_order());
        lemma_stable_sort(all, entry_order());
        #[allow(deprecated)]
        s.entries.filter_lemma(pred);
        assert(es == page(sorted, offset, limit));
        let start: int = if offset > i64::MAX {
            0
        } else if offset > sorted.len() {
            sorted.len() as int
        } else {
            offset as int
        };
        assert forall|x: int| 0 <= x < es.len() implies exists|i: int|
            0 <= i < s.entries.len() && s.listed(s.entries[i], feed_id, unread_only, search)
                && #[trigger] es[x] == s.joined(s.entries[i]) by {
            assert(es[x] == sorted[start + x]);
            assert(sorted.contains(es[x]));
            assert(sorted.to_multiset().count(es[x]) > 0);
            assert(all.to_multiset().count(es[x]) > 0);
            assert(all.contains(es[x]));
            let q = choose|q: int| 0 <= q < all.len() && all[q] == es[x];
            assert(all[q] == s.joined(f[q]));
            assert(pred(f[q]));
            crate::storage::lemma_filter_subset(s.entries, pred, q);
            assert(s.entries.contains(f[q]));
            let i = choose|i: int| 0 <= i < s.entries.len() && s.entries[i] == f[q];
            assert(s.listed(s.entries[i], feed_id, unread_only, search));
        }
    }
}

/// Upserting keeps every entry key and stores the key it was given.
proof fn lemma_upsert_keys(
    s: StoreView,
    feed_id: i64,
    e: ParsedEntryView,
    now: i64,
)
    ensures
        ({
            let (s2, r) = s.upsert_or_update_entry(
                feed_id,
                e.id,
                e.link,
                e.title,
                e.summary,
                e.content,
                published_secs(e.published),
                now,
            );
            &&& forall|f: i64, x: Seq<char>| s.has_entry_key(f, x) ==> #[trigger] s2.has_entry_key(f, x)
            &&& r is Ok ==> s2.has_entry_key(feed_id, e.id)
            &&& s.has_entry_key(feed_id, e.id) ==> r is Ok && s2.entries.len() == s.entries.len()
        }),
{
    let (s2, r) = s.upsert_or_update_entry(
        feed_id,
        e.id,
        e.link,
        e.title,
        e.summary,
        e.content,
        published_secs(e.published),
        now,
    );
    if s.has_entry_key(feed_id, e.id) {
        let p = s.entry_key_pos(feed_id, e.id);
        assert forall|f: i64, x: Seq<char>| s.has_entry_key(f, x) implies #[trigger] s2.has_entry_key(f, x) by {
            let i = choose|i: int| 0 <= i < s.entries.len() && s.entries[i].feed_id == f && s.entries[i].external_id == x;
            assert(s2.entries[i].feed_id == f && s2.entries[i].external_id == x);
        }
        assert(s2.entries[p].feed_id == feed_id && s2.entries[p].external_id == e.id);
    } else if r is Ok {
        assert forall|f: i64, x: Seq<char>| s.has_entry_key(f, x) implies #[trigger] s2.has_entry_key(f, x) by {
            let i = choose|i: int| 0 <= i < s.entries.len() && s.entries[i].feed_id == f && s.entries[i].external_id == x;
            assert(s2.entries[i] == s.entries[i]);
        }
        let last = s2.entries.len() - 1;
        assert(s2.entries[last].feed_id == feed_id && s2.entries[last].external_id == e.id);
    }
}

/// Whether storing `e` skips it (it has neither id nor link).
pub open spec fn skipped(e: ParsedEntryView) -> bool {
    e.id.len() == 0 && e.link.len() == 0
}

/// Storing entries that succeeds leaves every stored key present, and keeps the
/// keys that were there.
proof fn lemma_store_entries_keys(s: StoreView, feed_id: i64, es: Seq<ParsedEntryView>, now: i64)
    ensures
        forall|f: i64, x: Seq<char>|
            s.has_entry_key(f, x) ==> #[trigger] store_entries(s, feed_id, es, now).0.has_entry_key(f, x),
        store_entries(s, feed_id, es, now).1 is Ok ==> forall|i: int|
            0 <= i < es.len() && !skipped(es[i]) ==> store_entries(s, feed_id, es, now).0.has_entry_key(
                feed_id,
                #[trigger] es[i].id,
            ),
    decreases es.len(),
{
    if es.len() > 0 {
        let d = es.drop_last();
        lemma_store_entries_keys(s, feed_id, d, now);
        let (s1, r1) = store_entries(s, feed_id, d, now);
        if r1 is Ok && !skipped(es.last()) {
            lemma_upsert_keys(s1, feed_id, es.last(), now);
            let t = store_entries(s, feed_id, es, now).0;
            assert forall|i: int| 0 <= i < es.len() && !skipped(es[i]) && store_entries(s, feed_id, es, now).1 is Ok implies t.has_entry_key(
                feed_id,
                #[trigger] es[i].id,
            ) by {
                if i < d.len() {
                    assert(d[i] == es[i]);
                    assert(s1.has_entry_key(feed_id, d[i].id));
                }
            }
        } else if r1 is Ok {
            assert forall|i: int| 0 <= i < es.len() && !skipped(es[i]) && store_entries(s, feed_id, es, now).1 is Ok implies store_entries(s, feed_id, es, now).0.has_entry_key(
                feed_id,
                #[trigger] es[i].id,
            ) by {
                if i < d.len() {
                    assert(d[i] == es[i]);
                }
            }
        }
    }
}

/// Storing entries whose keys are all present succeeds and adds no entry.
proof fn lemma_store_entries_present(s: StoreView, feed_id: i64, es: Seq<ParsedEntryView>, now: i64)
    requires
        forall|i: int| 0 <= i < es.len() && !skipped(es[i]) ==> s.has_entry_key(feed_id, #[trigger] es[i].id),
    ensures
        store_entries(s, feed_id, es, now).1 is Ok,
        store_entries(s, feed_id, es, now).0.entries.len() == s.entries.len(),
        forall|f: i64, x: Seq<char>|
            s.has_entry_key(f, x) ==> #[trigger] store_entries(s, feed_id, es, now).0.has_entry_key(f, x),
    decreases es.len(),
{
    if es.len() > 0 {
        let d = es.drop_last();
        assert forall|i: int| 0 <= i < d.len() && !skipped(d[i]) implies s.has_entry_key(feed_id, #[trigger] d[i].id) by {
            assert(d[i] == es[i]);
        }
        lemma_store_entries_present(s, feed_id, d, now);
        let (s1, r1) = store_entries(s, feed_id, d, now);
        if !skipped(es.last()) {
            assert(s.has_entry_key(feed_id, es[es.len() - 1].id));
            assert(s1.has_entry_key(feed_id, es.last().id));
            lemma_upsert_keys(s1, feed_id, es.last(), now);
        }
    }
}

/// Storing the same fetched body again adds no entry: every entry of the document
/// is already stored under its id, so it is updated in place.
pub proof fn law_resync_adds_nothing(
    s: StoreView,
    feed_id: i64,
    feed_url: Seq<char>,
    body: Seq<char>,
    now: i64,
    now2: i64,
    now_ms: i64,
    x: (nat, nat),
)
    requires
        apply_body_spec(s, feed_id, feed_url, body, now, now_ms).1 == Ok::<(nat, nat), SyncErrorView>(x),
    ensures
        ({
            let s2 = apply_body_spec(s, feed_id, feed_url, body, now, now_ms).0;
            let (s3, r) = apply_body_spec(s2, feed_id, feed_url, body, now2, now_ms);
            r is Ok && s3.entries.len() == s2.entries.len()
        }),
{
    let f = parse_feed_spec(body, now_ms)->Ok_0;
    let s1 = match f.title {
        Some(t) => s.set_feed_title(feed_id, t).0,
        None => s,
    };
    lemma_store_entries_keys(s1, feed_id, f.entries, now);
    let s2 = apply_body_spec(s, feed_id, feed_url, body, now, now_ms).0;
    let s2b = match f.title {
        Some(t) => s2.set_feed_title(feed_id, t).0,
        None => s2,
    };
    assert(s2b.entries == s2.entries);
    assert forall|f2: i64, k: Seq<char>| s2.has_entry_key(f2, k) implies s2b.has_entry_key(f2, k) by {}
    assert forall|i: int| 0 <= i < f.entries.len() && !skipped(f.entries[i]) implies s2b.has_entry_key(
        feed_id,
        #[trigger] f.entries[i].id,
    ) by {
        assert(s2.has_entry_key(feed_id, f.entries[i].id));
    }
    lemma_store_entries_present(s2b, feed_id, f.entries, now2);
}

/// Every entry of `s` is still in `t`, under the same id.
pub open spec fn keeps_entries(s: StoreView, t: StoreView) -> bool {
    forall|i: int| 0 <= i < s.entries.len() ==> #[trigger] t.has_entry(s.entries[i].id)
}

proof fn lemma_keeps_trans(a: StoreView, b: StoreView, c: StoreView)
    requires
        keeps_entries(a, b),
        keeps_entries(b, c),
    ensures
        keeps_entries(a, c),
{
    assert forall|i: int| 0 <= i < a.entries.len() implies #[trigger] c.has_entry(a.entries[i].id) by {
        assert(b.has_entry(a.entries[i].id));
        let j = choose|j: int| 0 <= j < b.entries.len() && b.entries[j].id == a.entries[i].id;
        assert(c.has_entry(b.entries[j].id));
    }
}

proof fn lemma_keeps_same_entries(a: StoreView, b: StoreView)
    requires
        a.entries == b.entries,
    ensures
        keeps_entries(a, b),
{
    assert forall|i: int| 0 <= i < a.entries.len() implies #[trigger] b.has_entry(a.entries[i].id) by {
        assert(b.entries[i].id == a.entries[i].id);
    }
}

proof fn lemma_store_entries_keeps(s: StoreView, feed_id: i64, es: Seq<ParsedEntryView>, now: i64)
    ensures
        keeps_entries(s, store_entries(s, feed_id, es, now).0),
    decreases es.len(),
{
    if es.len() == 0 {
        lemma_keeps_same_entries(s, s);
    } else {
        let d = es.drop_last();
        lemma_store_entries_keeps(s, feed_id, d, now);
        let (s1, r1) = store_entries(s, feed_id, d, now);
        let t = store_entries(s, feed_id, es, now).0;
        if r1 is Ok && !skipped(es.last()) {
            let e = es.last();
            assert forall|i: int| 0 <= i < s1.entries.len() implies #[trigger] t.has_entry(s1.entries[i].id) by {
                assert(t.entries[i].id == s1.entries[i].id);
            }
            lemma_keeps_trans(s, s1, t);
        }
    }
}

/// Syncing deletes no entry: whatever a fetch answers, every entry stored before is
/// still stored afterwards, under the same id.
pub proof fn law_sync_keeps_entries(
    v: FeedSyncView,
    s: StoreView,
    response: Result<Seq<char>, Seq<char>>,
    now: i64,
    now_ms: i64,
)
    ensures
        keeps_entries(s, v.on_fetched_spec(s, response, now, now_ms).0),
{
    let target = v.fetch_target();
    match response {
        Ok(body) => {
            match parse_feed_spec(body, now_ms) {
                Ok(f) => {
                    let s1 = match f.title {
                        Some(t) => s.set_feed_title(v.feed_id, t).0,
                        None => s,
                    };
                    lemma_keeps_same_entries(s, s1);
                    lemma_store_entries_keeps(s1, v.feed_id, f.entries, now);
                    let s2 = store_entries(s1, v.feed_id, f.entries, now).0;
                    lemma_keeps_trans(s, s1, s2);
                    let moved = s2.update_feed_source(v.feed_id, target, crate::urls::canonical_site_url_spec(v.feed_url)).0;
                    lemma_keeps_same_entries(s2, moved);
                    lemma_keeps_trans(s, s2, moved);
                },
                Err(_) => {
                    lemma_keeps_same_entries(s, s);
                },
            }
        },
        Err(_) => {
            lemma_keeps_same_entries(s, s);
        },
    }
}

} // verus!

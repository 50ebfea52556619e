use nimbus::cli::{add_done_message, export_file_text, export_stdout_text, feed_targets, CliArgs, Commands, ImportTally};
use nimbus::window::{add_feeds_status, export_file_payload, marked_read_status, sync_status, WindowImport};
use nimbus::config::{default_db_path, default_location, resolve_db_path, ConfigError, DirLookup};
use nimbus::discovery::{
    normalize_url, page_feed_links, probe_urls, verify_feed_body, Discovery, DiscoveryError, DiscoveryResult,
    DiscoveryStep,
};
use nimbus::display::{
    entry_card, export_site_lines, feed_label, feed_source, footer_text, format_entry_console, format_feed_line,
    import_sources, join_lines, short_url, split_feed_input, unread_ids,
};
use nimbus::feed_parser::{fallback_entry_id, fallback_entry_id_at, looks_like_feed, parse_feed_xml, random_id, FeedError};
use nimbus::html::strip_html_tags;
use nimbus::like::like_match;
use nimbus::storage::{sanitize_title, EntryRow, Feed, FeedEntry, Store, StoreError};
use nimbus::syncer::{apply_feed_body_at, FeedSync, SyncError, SyncReport, SyncStep};
use nimbus::text::{chars_of, trimmed};
use nimbus::time::{format_time, parse_datetime, rfc3339_text, Timestamp};
use nimbus::urls::{
    canonical_host, canonical_site_url, feed_display_title, feed_fallback_title, feed_title_from_url, looks_like_url,
    same_host,
};

const RSS: &str = "<?xml version=\"1.0\"?><rss version=\"2.0\"><channel><title> Example Feed </title>\
<item><title>First</title><link>https://example.com/1</link><guid>id-1</guid><description>Hello</description>\
<pubDate>Mon, 02 Jan 2006 15:04:05 +0000</pubDate></item>\
<item><title>Second</title><link>https://example.com/2</link></item></channel></rss>";

const ATOM: &str = "<feed xmlns=\"http://www.w3.org/2005/Atom\"><title>Atom Site</title>\
<entry><title>A1</title><link href=\"https://a.example/1\"/><id>urn:1</id><updated>2020-01-01T00:00:00Z</updated>\
<summary>S1</summary></entry><entry><title>A2</title><link href=\"https://a.example/2\"/></entry></feed>";

fn feed(id: i64, url: &str, title: Option<&str>, site: Option<&str>, added_at: i64) -> Feed {
    Feed {
        id,
        url: url.to_string(),
        title: title.map(|t| t.to_string()),
        site_url: site.map(|s| s.to_string()),
        added_at,
    }
}

fn row(id: i64, feed_id: i64, ext: &str, published_at: Option<i64>, inserted_at: i64, read_at: Option<i64>) -> EntryRow {
    EntryRow {
        id,
        feed_id,
        external_id: ext.to_string(),
        link: format!("https://example.com/{ext}"),
        title: format!("title {ext}"),
        summary: format!("summary {ext}"),
        content: String::new(),
        published_at,
        inserted_at,
        read_at,
    }
}

// ---------------------------------------------------------------------------
// Addresses
// ---------------------------------------------------------------------------

#[test]
fn normalize_url_adds_scheme_and_trims() {
    assert_eq!(normalize_url("  example.com  ").unwrap(), "https://example.com");
    assert_eq!(normalize_url("http://example.com/feed").unwrap(), "http://example.com/feed");
    assert_eq!(normalize_url("https://example.com").unwrap(), "https://example.com");
}

#[test]
fn normalize_url_twice_changes_nothing() {
    for raw in ["  example.com/a  ", "http://x.example", " https://y.example/feed "] {
        let once = normalize_url(raw).unwrap();
        assert_eq!(normalize_url(&once).unwrap(), once);
        assert!(once.ends_with(raw.trim()));
        assert!(once.starts_with("http://") || once.starts_with("https://"));
    }
}

#[test]
fn normalize_url_refuses_empty_input() {
    let e = normalize_url("   ").unwrap_err();
    assert!(matches!(e, DiscoveryError::EmptyUrl));
    assert_eq!(e.message(), "empty URL provided");
}

#[test]
fn canonical_host_strips_www_and_keeps_port() {
    assert_eq!(canonical_host("https://WWW.Example.com:8080/path/"), "example.com:8080");
    assert_eq!(canonical_host("https://www.example.com/feed"), "example.com");
    assert_eq!(canonical_host("  not a url/ "), "not a url");
}

#[test]
fn same_host_ignores_www_and_case() {
    assert!(same_host("https://www.example.com/feed", "http://EXAMPLE.com/"));
    assert!(!same_host("https://example.com/feed", "https://example.org/feed"));
}

#[test]
fn canonical_site_url_is_the_root() {
    assert_eq!(canonical_site_url("https://example.com/blog/feed/"), "https://example.com");
    assert_eq!(canonical_site_url("http://example.com:8080/rss"), "http://example.com:8080");
    assert_eq!(canonical_site_url(" plain text/ "), "plain text");
}

#[test]
fn titles_from_urls() {
    assert_eq!(feed_title_from_url("https://www.example.com/rss/"), "example.com");
    assert_eq!(feed_fallback_title("https://www.theblock.co/"), "theblock.co");
    assert_eq!(feed_fallback_title("nonsense"), "nonsense");
    let t = "  My Feed ".to_string();
    assert_eq!(feed_display_title("https://x.example/", Some(&t)), "My Feed");
    let blank = "   ".to_string();
    assert_eq!(feed_display_title("https://x.example/", Some(&blank)), "x.example");
    assert_eq!(feed_display_title("https://x.example/", None), "x.example");
}

#[test]
fn looks_like_url_uses_the_url_parser() {
    assert!(looks_like_url("https://example.com"));
    assert!(!looks_like_url("example.com"));
}

#[test]
fn sanitize_title_trims_and_drops_empty() {
    assert_eq!(sanitize_title(Some("  Title ".to_string())), Some("Title".to_string()));
    assert_eq!(sanitize_title(Some("   ".to_string())), None);
    assert_eq!(sanitize_title(None), None);
}

// ---------------------------------------------------------------------------
// Text
// ---------------------------------------------------------------------------

#[test]
fn strip_html_tags_decodes_and_collapses() {
    assert_eq!(strip_html_tags("<p>Hello&nbsp;<b>world</b></p>"), "Hello world");
    assert_eq!(strip_html_tags("a &amp; b &lt;c&gt; &#8230;"), "a & b <c> …");
    assert_eq!(strip_html_tags("x > y"), "x > y");
    assert_eq!(strip_html_tags("  \n "), "");
}

#[test]
fn short_url_keeps_short_text() {
    assert_eq!(short_url("  https://example.com/a  "), "https://example.com/a");
}

#[test]
fn short_url_cuts_long_text() {
    let long = format!("https://example.com/{}", "a".repeat(80));
    let s = short_url(&long);
    assert_eq!(s, format!("{}…", &long[..69]));
    assert!(s.len() <= 72);
}

#[test]
fn like_matches_sql_wildcards() {
    let p = chars_of("%rust%");
    assert!(like_match(&p, &chars_of("I like RUST a lot")));
    assert!(!like_match(&p, &chars_of("nothing here")));
    assert!(like_match(&chars_of("a_c"), &chars_of("abc")));
    assert!(!like_match(&chars_of("a_c"), &chars_of("abbc")));
}

#[test]
fn format_time_renders_utc_minutes() {
    assert_eq!(format_time(Some(1136214245)), "2006-01-02 15:04");
    assert_eq!(format_time(Some(0)), "1970-01-01 00:00");
    assert_eq!(format_time(Some(951782400)), "2000-02-29 00:00");
    assert_eq!(format_time(Some(-60)), "1969-12-31 23:59");
    assert_eq!(format_time(None), "unknown");
    assert_eq!(format_time(Some(i64::MAX)), "unknown");
}

#[test]
fn parse_datetime_reads_both_formats() {
    let a = parse_datetime("Mon, 02 Jan 2006 15:04:05 +0000").unwrap();
    assert_eq!(a.secs, 1136214245);
    let b = parse_datetime("2020-01-01T01:00:00+01:00").unwrap();
    assert_eq!(b.secs, 1577836800);
    assert!(parse_datetime("yesterday").is_none());
}

#[test]
fn split_feed_input_splits_on_separators() {
    let v = split_feed_input("  https://a.example\nhttps://b.example, https://c.example;; \n ");
    assert_eq!(v, vec!["https://a.example", "https://b.example", "https://c.example"]);
    assert!(split_feed_input("  , ;\n").is_empty());
}

#[test]
fn import_sources_skips_blank_and_comment_lines() {
    let v = import_sources("# backup\n\n  https://a.example  \r\n#x\nb.example\n");
    assert_eq!(v, vec!["https://a.example", "b.example"]);
}

#[test]
fn export_lines_skip_sites_that_differ_in_case() {
    let feeds = vec![
        feed(1, "https://a.example/feed", None, Some("https://A.example"), 1),
        feed(2, "https://b.example/rss/", None, None, 2),
        feed(3, "https://a.example/other", None, Some("https://a.EXAMPLE"), 3),
    ];
    let lines = export_site_lines(&feeds);
    assert_eq!(lines, vec!["https://A.example", "https://b.example"]);
    assert_eq!(join_lines(&lines), "https://A.example\nhttps://b.example");
    assert_eq!(join_lines(&Vec::new()), "");
}

#[test]
fn format_entry_console_lines() {
    let e = FeedEntry {
        id: 7,
        feed_id: 1,
        feed_title: Some("Blog".to_string()),
        feed_url: None,
        external_id: "x".to_string(),
        link: "https://example.com/x".to_string(),
        title: "Hello".to_string(),
        summary: "Body".to_string(),
        content: String::new(),
        published_at: Some(0),
        inserted_at: 99,
        read: false,
    };
    assert_eq!(
        format_entry_console(&e, true),
        "[unread] #7 [Blog] Hello\n  1970-01-01 00:00 | https://example.com/x\n  Body"
    );
    let e2 = FeedEntry { feed_title: None, read: true, published_at: None, inserted_at: 60, ..e };
    assert_eq!(
        format_entry_console(&e2, false),
        "[read] #7 [unknown feed] Hello\n  1970-01-01 00:01 | https://example.com/x\n  "
    );
}

#[test]
fn format_feed_line_shows_untitled() {
    assert_eq!(format_feed_line(&feed(3, "https://a.example/feed", Some("A"), None, 0)), "3 | https://a.example/feed | A");
    assert_eq!(format_feed_line(&feed(-2, "u", None, None, 0)), "-2 | u | (untitled)");
}

// ---------------------------------------------------------------------------
// Feeds documents
// ---------------------------------------------------------------------------

#[test]
fn parse_rss_feed() {
    let f = parse_feed_xml(RSS).unwrap();
    assert_eq!(f.title.as_deref(), Some("Example Feed"));
    assert_eq!(f.entries.len(), 2);
    let a = &f.entries[0];
    assert_eq!(a.id, "id-1");
    assert_eq!(a.title, "First");
    assert_eq!(a.link, "https://example.com/1");
    assert_eq!(a.summary, "Hello");
    assert_eq!(a.content, "Hello");
    assert_eq!(a.published.as_ref().unwrap().secs, 1136214245);
    let b = &f.entries[1];
    assert_eq!(b.id, "https://example.com/2");
    assert_eq!(b.summary, "");
    assert!(b.published.is_none());
}

#[test]
fn parse_rss_prefers_content_encoded() {
    let xml = "<rss xmlns:content='http://purl.org/rss/1.0/modules/content/'><channel><item><guid> g1 </guid>\
<link>L</link><description>D</description><content:encoded>C</content:encoded></item></channel></rss>";
    let f = parse_feed_xml(xml).unwrap();
    assert_eq!(f.entries.len(), 1);
    let e = &f.entries[0];
    assert_eq!(e.id, "g1");
    assert_eq!(e.link, "L");
    assert_eq!(e.summary, "D");
    assert_eq!(e.content, "C");
}

#[test]
fn parse_atom_feed() {
    let f = parse_feed_xml(ATOM).unwrap();
    assert_eq!(f.title.as_deref(), Some("Atom Site"));
    assert_eq!(f.entries.len(), 2);
    assert_eq!(f.entries[0].id, "urn:1");
    assert_eq!(f.entries[0].link, "https://a.example/1");
    assert_eq!(f.entries[0].content, "S1");
    assert_eq!(f.entries[0].published.as_ref().unwrap().secs, 1577836800);
    let id2 = &f.entries[1].id;
    assert!(id2.starts_with("entry-"));
    assert_eq!(id2.len(), 22);
    assert_eq!(*id2, fallback_entry_id_at("https://a.example/2", "A2", None, 0));
}

#[test]
fn parse_refuses_broken_xml() {
    let expected = roxmltree::Document::parse("<rss><channel>").unwrap_err().to_string();
    match parse_feed_xml("<rss><channel>") {
        Err(FeedError::InvalidXml(m)) => assert_eq!(m, expected),
        Ok(_) => panic!("broken XML parsed"),
    }
    assert!(!looks_like_feed("<rss><channel>"));
}

#[test]
fn looks_like_feed_needs_entries() {
    assert!(looks_like_feed(RSS));
    assert!(looks_like_feed(ATOM));
    assert!(!looks_like_feed("<rss><channel><title>x</title></channel></rss>"));
}

#[test]
fn fallback_ids_hash_the_seed() {
    let a = fallback_entry_id("https://x.example/1", "T", None);
    let b = fallback_entry_id("  https://x.example/1 ", "other", None);
    assert_eq!(a, b);
    assert!(a.starts_with("entry-") && a.len() == 22);
    assert_ne!(a, "https://x.example/1");
    let c = fallback_entry_id("https://x.example/1", "T", Some("2020-01-01T00:00:00+00:00".to_string()));
    assert_ne!(a, c);
    let r = random_id();
    assert!(r.starts_with("entry-") && r.len() == 22);
}

// ---------------------------------------------------------------------------
// The store
// ---------------------------------------------------------------------------

#[test]
fn add_feed_inserts_and_reuses_urls() {
    let mut s = Store::new();
    let f = s.add_feed_at("https://a.example/feed", None, None, 10).unwrap();
    assert_eq!(f.id, 1);
    assert_eq!(f.title.as_deref(), Some("a.example"));
    let g = s.add_feed_at("https://a.example/feed", Some("Other".to_string()), None, 20).unwrap();
    assert_eq!(g.id, 1);
    assert_eq!(s.count_feeds(), 1);
    let h = s.add_feed_at("https://b.example/rss", Some("  B  ".to_string()), None, 30).unwrap();
    assert_eq!(h.id, 2);
    assert_eq!(h.title.as_deref(), Some("B"));
}

#[test]
fn add_feed_moves_a_feed_of_the_same_site() {
    let mut s = Store::new();
    let f = s.add_feed_at("https://www.site.example/", None, None, 10).unwrap();
    let g = s
        .add_feed_at("https://site.example/feed.xml", None, Some("https://site.example".to_string()), 20)
        .unwrap();
    assert_eq!(g.id, f.id);
    assert_eq!(g.url, "https://site.example/feed.xml");
    assert_eq!(s.count_feeds(), 1);
    let stored = s.get_feed(f.id).unwrap();
    assert_eq!(stored.url, "https://site.example/feed.xml");
    assert_eq!(stored.site_url.as_deref(), Some("https://site.example"));
}

#[test]
fn add_feed_returns_the_stored_row() {
    let mut s = Store::new();
    let inserted = s.add_feed_at("https://www.site.example/", None, None, 10).unwrap();
    let existing = s.add_feed_at("https://www.site.example/", Some("T".to_string()), None, 11).unwrap();
    let moved = s
        .add_feed_at("https://site.example/feed.xml", Some("M".to_string()), Some("https://site.example".to_string()), 12)
        .unwrap();
    for f in [inserted, existing] {
        assert!(f.title.is_some());
        assert_eq!(f.id, 1);
    }
    assert!(moved.title.is_some());
    let g = s.get_feed(moved.id).unwrap();
    assert_eq!(g.url, moved.url);
    assert_eq!(g.title, moved.title);
    assert_eq!(g.title.as_deref(), Some("M"));
}

#[test]
fn remove_feed_then_get_is_none() {
    let mut s = Store::new();
    let f = s.add_feed_at("https://a.example/feed", None, None, 10).unwrap();
    let g = s.add_feed_at("https://b.example/feed", None, None, 10).unwrap();
    s.upsert_entry_at(f.id, "1", "l", "t", "s", "c", None, 100).unwrap();
    s.upsert_entry_at(f.id, "2", "l", "t", "s", "c", None, 100).unwrap();
    s.upsert_entry_at(g.id, "3", "l", "t", "s", "c", None, 100).unwrap();
    let k = s.unread_count(Some(f.id));
    assert_eq!(k, 2);
    assert_eq!(s.unread_count(None), 3);
    assert_eq!(s.remove_feed(f.id), 1);
    assert!(s.get_feed(f.id).is_none());
    assert_eq!(s.unread_count(None), 3 - k);
    assert_eq!(s.unread_count(Some(f.id)), 0);
    assert_eq!(s.unread_count(Some(g.id)), 1);
    assert_eq!(s.remove_feed(f.id), 0);
}

#[test]
fn set_feed_title_reads_back_trimmed() {
    let mut s = Store::new();
    let f = s.add_feed_at("https://a.example/feed", None, None, 10).unwrap();
    assert_eq!(s.set_feed_title(f.id, "  New  "), 1);
    assert_eq!(s.get_feed(f.id).unwrap().title.as_deref(), Some("New"));
    assert_eq!(s.set_feed_title(f.id, "   "), 0);
    assert_eq!(s.set_feed_title(99, "x"), 0);
}

#[test]
fn update_feed_source_refuses_a_taken_url() {
    let mut s = Store::new();
    let a = s.add_feed_at("https://a.example/feed", None, None, 10).unwrap();
    let b = s.add_feed_at("https://b.example/feed", None, None, 10).unwrap();
    assert_eq!(s.update_feed_source(a.id, "https://b.example/feed", "https://b.example"), 0);
    assert_eq!(s.update_feed_source(a.id, "https://a.example/rss", "https://a.example"), 1);
    let a2 = s.get_feed(a.id).unwrap();
    assert_eq!(a2.url, "https://a.example/rss");
    assert_eq!(a2.site_url.as_deref(), Some("https://a.example"));
    assert_eq!(s.get_feed(b.id).unwrap().url, "https://b.example/feed");
}

#[test]
fn list_feeds_orders_by_title_then_newest() {
    let mut s = Store::new();
    s.add_feed_at("https://c.example/", Some("Zed".to_string()), None, 1).unwrap();
    s.add_feed_at("https://a.example/", Some("Alpha".to_string()), None, 2).unwrap();
    s.add_feed_at("https://b.example/", Some("Alpha".to_string()), None, 3).unwrap();
    let urls: Vec<String> = s.list_feeds().into_iter().map(|f| f.url).collect();
    assert_eq!(urls, vec!["https://b.example/", "https://a.example/", "https://c.example/"]);
}

#[test]
fn upsert_entry_twice_inserts_once() {
    let mut s = Store::new();
    let f = s.add_feed_at("https://a.example/feed", None, None, 10).unwrap();
    assert_eq!(s.upsert_entry_at(f.id, "e1", "l", "t", "s", "c", Some(5), 100), Ok(true));
    assert_eq!(s.upsert_entry_at(f.id, "e1", "l2", "t2", "s2", "c2", None, 200), Ok(false));
    let rows = s.entry_rows();
    assert_eq!(rows.len(), 1);
    assert_eq!(rows[0].link, "l");
}

#[test]
fn upsert_or_update_overwrites_fields() {
    let mut s = Store::new();
    let f = s.add_feed_at("https://a.example/feed", None, None, 10).unwrap();
    assert_eq!(s.upsert_or_update_entry_at(f.id, "e1", "l", "t", "s", "c", Some(5), 100), Ok(true));
    assert_eq!(s.upsert_or_update_entry_at(f.id, "e1", "l2", "t2", "s2", "c2", None, 200), Ok(true));
    let rows = s.entry_rows();
    assert_eq!(rows.len(), 1);
    assert_eq!(rows[0].link, "l2");
    assert_eq!(rows[0].title, "t2");
    assert_eq!(rows[0].published_at, None);
    assert_eq!(rows[0].inserted_at, 100);
}

#[test]
fn mark_read_and_unread_count() {
    let mut s = Store::new();
    let f = s.add_feed_at("https://a.example/feed", None, None, 10).unwrap();
    let g = s.add_feed_at("https://b.example/feed", None, None, 10).unwrap();
    s.upsert_entry_at(f.id, "1", "l", "t", "s", "c", None, 100).unwrap();
    s.upsert_entry_at(f.id, "2", "l", "t", "s", "c", None, 100).unwrap();
    s.upsert_entry_at(g.id, "3", "l", "t", "s", "c", None, 100).unwrap();
    assert_eq!(s.unread_count(None), 3);
    assert_eq!(s.mark_read_at(1, true, 500), 1);
    assert_eq!(s.unread_count(None), 2);
    assert_eq!(s.unread_count(Some(f.id)), 1);
    assert_eq!(s.mark_read_at(1, false, 600), 1);
    assert_eq!(s.unread_count(Some(f.id)), 2);
    assert_eq!(s.mark_read_at(42, true, 600), 0);
}

#[test]
fn prune_deletes_only_old_read_entries() {
    let mut s = Store::new();
    let f = s.add_feed_at("https://a.example/feed", None, None, 10).unwrap();
    s.upsert_entry_at(f.id, "1", "l", "t", "s", "c", None, 100).unwrap();
    s.upsert_entry_at(f.id, "2", "l", "t", "s", "c", None, 100).unwrap();
    s.upsert_entry_at(f.id, "3", "l", "t", "s", "c", None, 100).unwrap();
    s.mark_read_at(1, true, 1_000);
    s.mark_read_at(2, true, 100_000);
    let now = 100_000 + 3_600;
    assert_eq!(s.prune_read_entries_older_than_hours_at(24, now), 1);
    let ids: Vec<i64> = s.entry_rows().iter().map(|e| e.id).collect();
    assert_eq!(ids, vec![2, 3]);
}

#[test]
fn list_entries_filters_sorts_and_pages() {
    let feeds = vec![feed(1, "https://a.example/feed", Some("Alpha"), None, 1), feed(2, "https://b.example/feed", None, Some("https://b.example"), 1)];
    let entries = vec![
        row(1, 1, "x", Some(50), 10, None),
        row(2, 1, "y", None, 70, Some(80)),
        row(3, 2, "z", Some(60), 10, None),
        row(4, 9, "orphan", Some(99), 10, None),
    ];
    let s = Store::from_rows(feeds, entries, 2, 4).unwrap();
    let all = s.list_entries(None, false, None, 25, 0).unwrap();
    let ids: Vec<i64> = all.iter().map(|e| e.id).collect();
    assert_eq!(ids, vec![2, 3, 1]);
    assert_eq!(all[1].feed_url.as_deref(), Some("https://b.example"));
    assert_eq!(all[2].feed_title.as_deref(), Some("Alpha"));
    assert!(all[0].read);
    let unread = s.list_entries(None, true, None, 25, 0).unwrap();
    assert_eq!(unread.iter().map(|e| e.id).collect::<Vec<_>>(), vec![3, 1]);
    let one_feed = s.list_entries(Some(2), false, None, 25, 0).unwrap();
    assert_eq!(one_feed.len(), 1);
    let paged = s.list_entries(None, false, None, 1, 1).unwrap();
    assert_eq!(paged.iter().map(|e| e.id).collect::<Vec<_>>(), vec![3]);
    let found = s.list_entries(None, false, Some("ALPHA"), 25, 0).unwrap();
    assert_eq!(found.iter().map(|e| e.id).collect::<Vec<_>>(), vec![2, 1]);
    let found2 = s.list_entries(None, false, Some("summary z"), 25, 0).unwrap();
    assert_eq!(found2.iter().map(|e| e.id).collect::<Vec<_>>(), vec![3]);
}

#[test]
fn list_entries_refuses_an_oversized_pattern() {
    let feeds = vec![feed(1, "https://a.example/feed", None, None, 1)];
    let s = Store::from_rows(feeds, vec![row(1, 1, "x", None, 1, None)], 1, 1).unwrap();
    let huge = "a".repeat(60_000);
    assert_eq!(s.list_entries(None, false, Some(&huge), 25, 0).unwrap_err(), StoreError::PatternTooComplex);
}

#[test]
fn from_rows_refuses_broken_rows() {
    let feeds = vec![feed(2, "https://a.example/", None, None, 1), feed(1, "https://b.example/", None, None, 1)];
    assert_eq!(Store::from_rows(feeds, Vec::new(), 2, 0).unwrap_err(), StoreError::InvalidRows);
}

#[test]
fn seed_default_feeds_adds_missing_ones() {
    let mut s = Store::new();
    assert_eq!(s.seed_default_feeds_at(5), Ok(2));
    assert_eq!(s.seed_default_feeds_at(6), Ok(0));
    let urls: Vec<String> = s.feed_rows().iter().map(|f| f.url.clone()).collect();
    assert_eq!(urls, vec!["https://atlas21.com/feed/", "https://www.theblock.co/"]);
}

#[test]
fn dedupe_merges_feeds_of_one_site_into_the_newest() {
    let feeds = vec![
        feed(1, "https://www.site.example/", Some("Old"), Some("https://site.example"), 10),
        feed(2, "https://other.example/feed", None, None, 10),
        feed(3, "https://site.example/feed.xml", Some(""), None, 20),
    ];
    let entries = vec![row(1, 1, "a", None, 1, None), row(2, 1, "b", None, 1, None), row(3, 3, "a", None, 1, None)];
    let mut s = Store::from_rows(feeds, entries, 3, 3).unwrap();
    assert_eq!(s.dedupe_same_site_feeds(), 1);
    let fs = s.feed_rows();
    assert_eq!(fs.len(), 2);
    assert_eq!(fs[0].id, 2);
    assert_eq!(fs[1].id, 3);
    assert_eq!(fs[1].title.as_deref(), Some("Old"));
    assert_eq!(fs[1].site_url.as_deref(), Some("https://site.example"));
    let es: Vec<(i64, i64)> = s.entry_rows().iter().map(|e| (e.id, e.feed_id)).collect();
    assert_eq!(es, vec![(1, 3), (2, 3)]);
}

#[test]
fn open_seeds_and_dedupes() {
    let s = Store::open(vec![feed(1, "https://atlas21.com/", None, None, 100)], Vec::new(), 1, 0).unwrap();
    let urls: Vec<String> = s.feed_rows().iter().map(|f| f.url.clone()).collect();
    // a feed of the first default site is there already, so only the second is added
    assert_eq!(urls, vec!["https://atlas21.com/", "https://www.theblock.co/"]);
    assert_eq!(s.feed_seq(), 2);
}

#[test]
fn open_keeps_a_rediscovered_default_feed() {
    let feeds = vec![feed(1, "https://www.theblock.co/rss.xml", Some("The Block"), Some("https://www.theblock.co/"), 100)];
    let entries = vec![row(1, 1, "a", None, 1, None)];
    let s = Store::open(feeds, entries, 1, 1).unwrap();
    let fs = s.feed_rows();
    assert_eq!(fs.len(), 2);
    assert_eq!(fs[0].id, 1);
    assert_eq!(fs[0].url, "https://www.theblock.co/rss.xml");
    assert_eq!(fs[1].url, "https://atlas21.com/feed/");
    let es: Vec<(i64, i64)> = s.entry_rows().iter().map(|e| (e.id, e.feed_id)).collect();
    assert_eq!(es, vec![(1, 1)]);
}

#[test]
fn latest_readable_timestamp_checks_range() {
    let s = Store::new();
    assert_eq!(s.latest_readable_timestamp(Some(0)), Some(0));
    assert_eq!(s.latest_readable_timestamp(Some(i64::MAX)), None);
    assert_eq!(s.latest_readable_timestamp(None), None);
    // chrono's last and first representable seconds (years 262142 and -262143)
    assert_eq!(s.latest_readable_timestamp(Some(8210266876799)), Some(8210266876799));
    assert_eq!(s.latest_readable_timestamp(Some(8210266876800)), None);
    assert_eq!(s.latest_readable_timestamp(Some(-8334601228800)), Some(-8334601228800));
    assert_eq!(s.latest_readable_timestamp(Some(-8334601228801)), None);
}

// ---------------------------------------------------------------------------
// Discovery
// ---------------------------------------------------------------------------

#[test]
fn probe_urls_lists_common_paths() {
    let v = probe_urls("https://example.com/");
    assert_eq!(v.len(), 8);
    assert_eq!(v[0], "https://example.com/");
    assert_eq!(v[1], "https://example.com/feed");
    assert_eq!(v[7], "https://example.com/feed.xml");
    let w = probe_urls("not a url");
    assert_eq!(w.len(), 7);
    assert_eq!(w[0], "not a url/feed");
}

#[test]
fn page_feed_links_reads_alternate_links() {
    let html = "<html><head>\
<link rel=\"alternate\" type=\"application/rss+xml\" href=\"/feed.xml\">\
<link rel=\"alternate\" type=\"text/html\" href=\"/fr/\">\
<link rel=\"stylesheet\" type=\"text/css\" href=\"/s.css\">\
<link rel=\"alternate\" type=\"application/atom+xml\" href=\"https://cdn.example/atom\">\
</head></html>";
    let v = page_feed_links("https://example.com/blog/", html);
    assert_eq!(v, vec!["https://example.com/feed.xml", "https://cdn.example/atom"]);
}

#[test]
fn verify_feed_body_needs_success_and_entries() {
    assert!(verify_feed_body(true, RSS));
    assert!(!verify_feed_body(false, RSS));
    assert!(!verify_feed_body(true, "<html></html>"));
}

#[test]
fn discovery_runs_through_candidates_and_page() {
    let mut d = Discovery::start("example.com").unwrap();
    let mut verified = Vec::new();
    loop {
        match d.step() {
            DiscoveryStep::Verify(u) => {
                let ok = u.ends_with("/rss.xml") || u.ends_with("/feed") || u.ends_with("/atom.xml");
                verified.push(u);
                d.on_verified(ok);
            }
            DiscoveryStep::FetchPage(u) => {
                assert_eq!(u, "https://example.com");
                d.on_page(Some("<link rel=\"alternate\" type=\"application/atom+xml\" href=\"/atom.xml\">".to_string()));
            }
            DiscoveryStep::Done => break,
        }
    }
    assert_eq!(verified[0], "https://example.com");
    assert_eq!(verified.len(), 9);
    let res = d.finish().unwrap();
    assert_eq!(
        res.feeds,
        vec!["https://example.com/atom.xml", "https://example.com/feed", "https://example.com/rss.xml"]
    );
}

#[test]
fn discovery_without_feeds_fails() {
    let mut d = Discovery::start("https://nothing.example").unwrap();
    loop {
        match d.step() {
            DiscoveryStep::Verify(_) => d.on_verified(false),
            DiscoveryStep::FetchPage(_) => d.on_page(None),
            DiscoveryStep::Done => break,
        }
    }
    let e = d.finish().unwrap_err();
    assert_eq!(e.message(), "no feed endpoint found for https://nothing.example");
    assert!(matches!(Discovery::start(""), Err(DiscoveryError::EmptyUrl)));
}

// ---------------------------------------------------------------------------
// Syncing
// ---------------------------------------------------------------------------

#[test]
fn apply_feed_body_stores_entries_and_title() {
    let mut s = Store::new();
    let f = s.add_feed_at("https://example.com/feed", None, None, 1).unwrap();
    assert_eq!(apply_feed_body_at(&mut s, f.id, "https://example.com/feed", RSS, 50, 50_000).unwrap(), (2, 2));
    assert_eq!(s.get_feed(f.id).unwrap().title.as_deref(), Some("Example Feed"));
    assert_eq!(s.entry_rows().len(), 2);
    assert_eq!(s.entry_rows()[0].published_at, Some(1136214245));
    // a second run updates the same rows
    assert_eq!(apply_feed_body_at(&mut s, f.id, "https://example.com/feed", RSS, 60, 60_000).unwrap(), (2, 2));
    assert_eq!(s.entry_rows().len(), 2);
}

#[test]
fn apply_feed_body_errors() {
    let mut s = Store::new();
    let f = s.add_feed_at("https://example.com/feed", None, None, 1).unwrap();
    let e = apply_feed_body_at(&mut s, f.id, "https://example.com/feed", "not xml", 1, 1).unwrap_err();
    let expected = roxmltree::Document::parse("not xml").unwrap_err().to_string();
    assert!(matches!(&e, SyncError::InvalidXml(m) if *m == expected));
    assert_eq!(e.message(), expected);
    let e2 = apply_feed_body_at(&mut s, f.id, "https://example.com/feed", "<rss><channel><title>T</title></channel></rss>", 1, 1)
        .unwrap_err();
    assert_eq!(e2.message(), "https://example.com/feed: no entries found");
    assert_eq!(s.get_feed(f.id).unwrap().title.as_deref(), Some("T"));
}

#[test]
fn feed_sync_succeeds_on_first_fetch() {
    let mut s = Store::new();
    let f = s.add_feed_at("https://example.com/feed", None, None, 1).unwrap();
    let mut sync = FeedSync::for_feed(&s, f.id).unwrap();
    match sync.step() {
        SyncStep::Fetch(u) => assert_eq!(u, "https://example.com/feed"),
        other => panic!("unexpected step {:?}", other),
    }
    sync.on_fetched_at(&mut s, Ok(RSS.to_string()), 10, 10_000);
    assert!(matches!(sync.step(), SyncStep::Done));
    assert!(matches!(sync.outcome(), Some(Ok((2, 2)))));
}

#[test]
fn feed_sync_falls_back_to_a_discovered_feed() {
    let mut s = Store::new();
    let f = s.add_feed_at("https://old.example/", None, None, 1).unwrap();
    let mut sync = FeedSync::start(f.id, "https://old.example/");
    let mut fetches = 0;
    loop {
        match sync.step() {
            SyncStep::Fetch(u) => {
                fetches += 1;
                if u == "https://old.example/" {
                    sync.on_fetched_at(&mut s, Err("https://old.example/: 404 Not Found".to_string()), 5, 5_000);
                } else {
                    assert_eq!(u, "https://old.example/feed");
                    sync.on_fetched_at(&mut s, Ok(RSS.to_string()), 6, 6_000);
                }
            }
            SyncStep::Verify(u) => sync.on_verified(u == "https://old.example/feed"),
            SyncStep::FetchPage(_) => sync.on_page(None),
            SyncStep::Done => break,
        }
    }
    assert_eq!(fetches, 2);
    assert!(matches!(sync.outcome(), Some(Ok((2, 2)))));
    let moved = s.get_feed(f.id).unwrap();
    assert_eq!(moved.url, "https://old.example/feed");
    assert_eq!(moved.site_url.as_deref(), Some("https://old.example"));
}

#[test]
fn feed_sync_gives_up_with_the_first_error() {
    let mut s = Store::new();
    let f = s.add_feed_at("https://gone.example/feed", None, None, 1).unwrap();
    let mut sync = FeedSync::start(f.id, "https://gone.example/feed");
    loop {
        match sync.step() {
            SyncStep::Fetch(_) => sync.on_fetched_at(&mut s, Err("first failure".to_string()), 5, 5_000),
            SyncStep::Verify(_) => sync.on_verified(false),
            SyncStep::FetchPage(_) => sync.on_page(None),
            SyncStep::Done => break,
        }
    }
    match sync.outcome() {
        Some(Err(e)) => assert_eq!(e.message(), "first failure"),
        other => panic!("unexpected outcome {:?}", other),
    }
}

#[test]
fn feed_sync_without_web_url_does_not_discover() {
    let mut s = Store::new();
    let mut sync = FeedSync::start(1, "ftp://files.example/feed");
    sync.on_fetched_at(&mut s, Err("unsupported".to_string()), 5, 5_000);
    assert!(matches!(sync.step(), SyncStep::Done));
    assert!(matches!(sync.outcome(), Some(Err(SyncError::Fetch(_)))));
}

#[test]
fn feed_sync_for_missing_feed() {
    let s = Store::new();
    let e = FeedSync::for_feed(&s, 4).unwrap_err();
    assert_eq!(e.message(), "missing feed 4");
}

#[test]
fn sync_report_counts() {
    let mut r = SyncReport::new();
    r.record(&Ok((3, 1)));
    r.record(&Err(SyncError::InvalidXml("unknown token at 1:1".to_string())));
    r.record_feed(usize::MAX, 1);
    assert_eq!(r.processed_feeds, 2);
    assert_eq!(r.processed_entries, usize::MAX);
    assert_eq!(r.new_entries, 2);
    assert_eq!(r.errors, vec!["unknown token at 1:1".to_string()]);
}

// ---------------------------------------------------------------------------
// Command line helpers
// ---------------------------------------------------------------------------

#[test]
fn cli_args_helpers() {
    let a = CliArgs { command: None, interval_minutes: 15, start_minimized: false, db: String::new(), json: false };
    assert!(a.runs_gui());
    assert_eq!(a.db_path(), None);
    assert_eq!(a.daemon_sleep_secs(), 900);
    let b = CliArgs { command: Some(Commands::Sync), interval_minutes: 1, start_minimized: false, db: "x.db".to_string(), json: true };
    assert!(!b.runs_gui());
    assert_eq!(b.db_path(), Some("x.db".to_string()));
}

#[test]
fn feed_targets_fall_back_to_the_source() {
    let found = Ok(DiscoveryResult { feeds: vec!["https://a.example/feed".to_string()] });
    assert_eq!(feed_targets("a.example", found), vec!["https://a.example/feed"]);
    assert_eq!(feed_targets("a.example", Err(DiscoveryError::EmptyUrl)), vec!["https://a.example"]);
    assert!(feed_targets("  ", Err(DiscoveryError::EmptyUrl)).is_empty());
}

#[test]
fn import_tally_summary() {
    let mut t = ImportTally::new();
    assert_eq!(t.summary(), "no import sites found");
    let v = t.record("a.example", Ok(DiscoveryResult { feeds: vec!["https://a.example/rss".to_string(), "https://a.example/atom".to_string()] }));
    assert_eq!(v.len(), 2);
    t.record("b.example", Err(DiscoveryError::NoFeedFound("b.example".to_string())));
    t.record(" ", Err(DiscoveryError::EmptyUrl));
    assert_eq!(t.attempted, 3);
    assert_eq!(t.discovered, 3);
    assert_eq!(t.fallback, 2);
    assert_eq!(t.summary(), "import complete: 3 site(s) processed, 3 feed URL(s) added/updated, 2 fallback/skipped, 0 failed");
}

#[test]
fn window_import_summary() {
    let mut t = WindowImport::new();
    assert_eq!(t.summary(), "no import sites found");
    let v = t.record("a.example", Ok(DiscoveryResult { feeds: vec!["https://a.example/rss".to_string()] }));
    assert_eq!(v, vec!["https://a.example/rss".to_string()]);
    t.record_added();
    let w = t.record("b.example", Err(DiscoveryError::NoFeedFound("b.example".to_string())));
    assert_eq!(w, vec!["https://b.example".to_string()]);
    let x = t.record(" ", Err(DiscoveryError::EmptyUrl));
    assert!(x.is_empty());
    let y = t.record("c.example", Ok(DiscoveryResult { feeds: Vec::new() }));
    assert!(y.is_empty());
    assert_eq!((t.attempted, t.added, t.fallback), (4, 1, 2));
    assert_eq!(t.summary(), "import complete: 4 site(s) processed, 1 feed URL(s) added/updated, 2 fallback URLs, 3 failed");
}

#[test]
fn add_feeds_status_messages() {
    assert_eq!(add_feeds_status(0, 0), Err("enter at least one url".to_string()));
    assert_eq!(add_feeds_status(2, 0), Ok("no new feeds added".to_string()));
    assert_eq!(add_feeds_status(2, 3), Ok("3 feed(s) added/updated".to_string()));
    assert_eq!(add_done_message(0).as_deref(), Some("No new feeds added."));
    assert_eq!(add_done_message(1), None);
}

#[test]
fn export_then_import_gives_the_sites_back() {
    let none: Vec<String> = Vec::new();
    let two = vec!["https://a.example".to_string(), "https://b.example".to_string()];
    for lines in [none, two] {
        assert_eq!(import_sources(&export_file_text(&lines)), lines);
        assert_eq!(import_sources(&export_file_payload(&lines)), lines);
        assert_eq!(import_sources(&export_stdout_text(&lines)), lines);
    }
}

#[test]
fn window_status_lines() {
    assert_eq!(marked_read_status(0), "0 entries marked read");
    assert_eq!(marked_read_status(12), "12 entries marked read");
    assert_eq!(sync_status(0), "last sync: no new items");
    assert_eq!(sync_status(3), "last sync: 3 new item(s)");
}

#[test]
fn export_payloads() {
    let none: Vec<String> = Vec::new();
    let two = vec!["https://a.example".to_string(), "https://b.example".to_string()];
    assert_eq!(export_file_payload(&none), "");
    assert_eq!(export_file_payload(&two), "https://a.example\nhttps://b.example\n");
    assert_eq!(export_file_text(&none), "\n");
    assert_eq!(export_file_text(&two), "https://a.example\nhttps://b.example\n");
    assert_eq!(export_stdout_text(&none), "# no feeds configured\n");
    assert_eq!(export_stdout_text(&two), "https://a.example\nhttps://b.example");
}

#[test]
fn resolve_db_path_defaults_as_default_db_path() {
    match (resolve_db_path(None), default_db_path()) {
        (Ok(a), Ok(b)) => {
            assert_eq!(a.file, b.file);
            assert_eq!(a.create_dir, b.create_dir);
        }
        (Err(_), Err(_)) => {}
        _ => panic!("the two readings of the default path disagree"),
    }
}

#[test]
fn resolve_db_path_prefers_the_given_path() {
    let l = resolve_db_path(Some("/tmp/x.sqlite")).unwrap();
    assert_eq!(l.file, "/tmp/x.sqlite");
    assert!(l.create_dir.is_none());
    assert_eq!(ConfigError::NoDataDir.message(), "unable to resolve data dir");
}

#[test]
fn dedupe_leaves_one_feed_per_site() {
    let feeds = vec![
        feed(1, "https://a.example/one", None, None, 5),
        feed(2, "https://b.example/feed", Some("B old"), None, 7),
        feed(3, "http://www.a.example/two", Some("A"), None, 5),
        feed(4, "https://b.example/rss", None, Some("https://b.example"), 6),
        feed(5, "", None, None, 1),
        feed(6, "https://a.example/three", None, None, 4),
    ];
    let mut s = Store::from_rows(feeds, Vec::new(), 6, 0).unwrap();
    assert_eq!(s.dedupe_same_site_feeds(), 3);
    let kept: Vec<(i64, Option<String>, Option<String>)> =
        s.feed_rows().iter().map(|f| (f.id, f.title.clone(), f.site_url.clone())).collect();
    // a.example: 3 is newest (same time as 1, larger id); b.example: 2 is newest
    assert_eq!(
        kept,
        vec![
            (2, Some("B old".to_string()), Some("https://b.example".to_string())),
            (3, Some("A".to_string()), None),
            (5, None, None),
        ]
    );
    let mut hosts: Vec<String> = s.feed_rows().iter().map(|f| canonical_host(&f.url)).collect();
    hosts.sort();
    hosts.dedup();
    assert_eq!(hosts.len(), 3);
}

fn entry(id: i64, read: bool, feed_title: Option<&str>, feed_url: Option<&str>, summary: &str, content: &str) -> FeedEntry {
    FeedEntry {
        id,
        feed_id: 1,
        feed_title: feed_title.map(|t| t.to_string()),
        feed_url: feed_url.map(|u| u.to_string()),
        external_id: format!("x{id}"),
        link: "https://www.link.example/post/1".to_string(),
        title: "T".to_string(),
        summary: summary.to_string(),
        content: content.to_string(),
        published_at: None,
        inserted_at: 120,
        read,
    }
}

#[test]
fn feed_labels_show_unread_counts() {
    let f = feed(1, "https://www.example.com/feed/", Some(" Blog "), None, 0);
    assert_eq!(feed_label(&f, 3), "Blog (3)");
    assert_eq!(feed_label(&f, 0), "Blog");
    let g = feed(2, "https://www.example.com/feed/", None, None, 0);
    assert_eq!(feed_label(&g, -1), "example.com");
    assert_eq!(feed_source(&g), "https://www.example.com");
    let h = feed(3, "https://x.example/rss", None, Some("https://site.example"), 0);
    assert_eq!(feed_source(&h), "https://site.example");
}

#[test]
fn entry_cards_fall_back_to_content_and_link() {
    let a = entry(1, false, None, None, "", "<p>Body &amp; more</p>");
    let c = entry_card(&a);
    assert!(c.unread);
    assert_eq!(c.time, "1970-01-01 00:02");
    assert_eq!(c.source, "link.example");
    assert_eq!(c.source_url, "https://www.link.example");
    assert_eq!(c.summary, "Body & more");
    let b = entry(2, true, Some("Feed"), Some("https://feed.example/x"), "<b>Sum</b>", "ignored");
    let d = entry_card(&b);
    assert!(!d.unread);
    assert_eq!(d.source, "Feed");
    assert_eq!(d.source_url, "https://feed.example");
    assert_eq!(d.summary, "Sum");
}

#[test]
fn footer_and_unread_ids() {
    assert_eq!(footer_text(3, true), "3 entries shown | unread only");
    assert_eq!(footer_text(0, false), "0 entries shown | all entries");
    let es = vec![entry(5, false, None, None, "", ""), entry(6, true, None, None, "", ""), entry(7, false, None, None, "", "")];
    assert_eq!(unread_ids(&es), vec![5, 7]);
}

#[test]
fn trimmed_drops_outer_white_space() {
    assert_eq!(trimmed("  a b \t\n"), "a b");
    assert_eq!(trimmed(""), "");
}

#[test]
fn rfc3339_text_formats_instants() {
    assert_eq!(rfc3339_text(&Timestamp { secs: 0, nanos: 0 }).unwrap(), "1970-01-01T00:00:00+00:00");
    assert_eq!(rfc3339_text(&Timestamp { secs: 1577836800, nanos: 0 }).unwrap(), "2020-01-01T00:00:00+00:00");
}

#[test]
fn page_links_compare_attributes_lower_cased() {
    let html = "<link rel=\"Alternate\" type=\"APPLICATION/RSS+XML\" href=\"feed\">";
    let v = page_feed_links("https://example.com/blog/", html);
    // whether the selector matches the capitalized value is scraper's call; a match resolves the link
    assert!(v.is_empty() || v == vec!["https://example.com/blog/feed"]);
    let html2 = "<link rel=\"alternate\" type=\"APPLICATION/ATOM+XML\" href=\"feed\">";
    assert_eq!(page_feed_links("https://example.com/blog/", html2), vec!["https://example.com/blog/feed"]);
}

#[test]
fn default_location_joins_paths() {
    let l = default_location(DirLookup::Found("/data".to_string()), DirLookup::Found("/home/u".to_string())).unwrap();
    assert_eq!(l.create_dir.as_deref(), Some("/data/nimbus"));
    assert_eq!(l.file, "/data/nimbus/feeds.sqlite");
    let h = default_location(DirLookup::Missing, DirLookup::Found("/home/u/".to_string())).unwrap();
    assert_eq!(h.file, "/home/u/nimbus/feeds.sqlite");
    assert!(matches!(default_location(DirLookup::Missing, DirLookup::Missing), Err(ConfigError::NoDataDir)));
    let e = default_location(DirLookup::NotUnicode, DirLookup::Found("/home/u".to_string())).unwrap_err();
    assert!(matches!(e, ConfigError::DirNotUnicode));
    assert_eq!(e.message(), "data dir is not valid unicode");
    let k = default_location(DirLookup::Missing, DirLookup::NotUnicode).unwrap_err();
    assert!(matches!(k, ConfigError::DirNotUnicode));
}

#[test]
fn entries_need_a_stored_feed() {
    let mut s = Store::new();
    assert_eq!(s.upsert_entry_at(7, "e", "l", "t", "s", "c", None, 3), Err(StoreError::ForeignKey));
    assert_eq!(s.upsert_or_update_entry_at(7, "e", "l", "t", "s", "c", None, 3), Err(StoreError::ForeignKey));
    assert_eq!(s.entry_rows().len(), 0);
    assert_eq!(SyncError::Store(StoreError::ForeignKey).message(), "FOREIGN KEY constraint failed");
}

#[test]
fn store_reports_full_when_ids_run_out() {
    let mut s = Store::from_rows(vec![feed(i64::MAX, "https://a.example/", None, None, 1)], Vec::new(), i64::MAX, i64::MAX).unwrap();
    assert_eq!(s.add_feed_at("https://b.example/", None, None, 2).unwrap_err(), StoreError::Full);
    assert_eq!(s.upsert_entry_at(i64::MAX, "e", "l", "t", "s", "c", None, 3), Err(StoreError::Full));
    let e = apply_feed_body_at(&mut s, i64::MAX, "https://a.example/", RSS, 4, 4).unwrap_err();
    assert!(matches!(e, SyncError::Store(StoreError::Full)));
    assert_eq!(e.message(), "database or disk is full");
    assert_eq!(s.count_feeds(), 1);
}

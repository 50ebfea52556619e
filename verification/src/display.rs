use vstd::prelude::*;

use crate::like::{utf8_char_len, utf8_char_len_exec, utf8_len};
use crate::storage::{Feed, FeedEntry, FeedEntryView, FeedView};
use crate::text::{chars_of, decimal_i64, decimal_int, decimal_u64, extend_chars, starts_with_seq, string_of, sub_chars, trim_chars, trim_seq};
use crate::time::{format_time, format_time_spec};
use crate::html::{strip_html_tags, strip_html_tags_spec};
use crate::urls::{
    canonical_site_url, canonical_site_url_spec, feed_display_title, feed_display_title_spec, feed_fallback_title,
    feed_fallback_title_spec, opt_view,
};

verus! {

// ---------------------------------------------------------------------------
// Short URLs
// ---------------------------------------------------------------------------

/// The longest prefix of `s` whose UTF-8 encoding has at most `b` bytes.
pub open spec fn bytes_prefix(s: Seq<char>, b: nat) -> Seq<char>
    decreases s.len(),
{
    if s.len() == 0 || utf8_char_len(s[0]) > b {
        Seq::empty()
    } else {
        seq![s[0]] + bytes_prefix(s.drop_first(), (b - utf8_char_len(s[0])) as nat)
    }
}

/// `short_url`: the trimmed text, or its first 69 bytes and `…` where it has more
/// than 72 bytes.
pub open spec fn short_url_spec(value: Seq<char>) -> Seq<char> {
    let t = trim_seq(value);
    if utf8_len(t) <= 72 {
        t
    } else {
        bytes_prefix(t, 69) + seq!['\u{2026}']
    }
}

/// Shortens a URL for display. Where it is longer than 72 bytes, byte 69 must fall
/// on a character boundary, where the text is cut.
pub fn short_url(value: &str) -> (r: String)
    requires
        utf8_len(trim_seq(value@)) > 72 ==> utf8_len(bytes_prefix(trim_seq(value@), 69)) == 69,
    ensures
        r@ == short_url_spec(value@),
{
    let t = trim_chars(&chars_of(value));
    // count bytes up to 73 and find the 69-byte prefix
    let mut total: usize = 0;
    let mut cut: usize = 0;
    let mut i: usize = 0;
    let ghost mut budget: nat = 69;
    assert(t@.skip(0) =~= t@);
    while i < t.len() && total <= 72
        invariant
            i <= t.len(),
            total == utf8_len(t@.take(i as int)),
            cut <= i,
            total <= 76,
            bytes_prefix(t@, 69) == t@.take(cut as int) + bytes_prefix(t@.skip(cut as int), (69 - utf8_len(t@.take(cut as int))) as nat),
            utf8_len(t@.take(cut as int)) <= 69,
            cut < i ==> utf8_len(t@.take(cut as int)) + utf8_char_len(t@[cut as int]) > 69,
        decreases t.len() - i,
    {
        let l = utf8_char_len_exec(t[i]);
        proof {
            assert(t@.take(i + 1).drop_last() =~= t@.take(i as int));
        }
        if cut == i && total + l <= 69 {
            proof {
                let rest = t@.skip(i as int);
                assert(rest[0] == t@[i as int]);
                assert(rest.drop_first() =~= t@.skip(i + 1));
                assert(t@.take(i + 1) =~= t@.take(i as int) + seq![t@[i as int]]);
            }
            cut = i + 1;
        } else if cut == i {
            proof {
                let rest = t@.skip(i as int);
                assert(rest[0] == t@[i as int]);
            }
        }
        total = total + l;
        i = i + 1;
    }
    proof {
        if total <= 72 {
            assert(t@.take(i as int) =~= t@);
        } else {
            crate::like::lemma_utf8_len_prefix(t@, i as int);
        }
    }
    if total <= 72 {
        return string_of(&t);
    }
    proof {
        let rest = t@.skip(cut as int);
        let b = (69 - utf8_len(t@.take(cut as int))) as nat;
        if cut < i {
            assert(rest[0] == t@[cut as int]);
            assert(bytes_prefix(rest, b) =~= Seq::<char>::empty());
        } else {
            // cut == i: the loop stopped with total > 72 while still fitting: impossible
            assert(total == utf8_len(t@.take(i as int)));
        }
    }
    let mut r = sub_chars(&t, 0, cut);
    r.push('\u{2026}');
    assert(t@.take(cut as int) + Seq::<char>::empty() =~= t@.take(cut as int));
    string_of(&r)
}

// ---------------------------------------------------------------------------
// Console lines
// ---------------------------------------------------------------------------

/// `format_entry_console`.
pub open spec fn format_entry_console_spec(e: FeedEntryView, include_body: bool) -> Seq<char> {
    let state = if e.read {
        "read"@
    } else {
        "unread"@
    };
    let t = format_time_spec(
        Some(
            match e.published_at {
                Some(p) => p,
                None => e.inserted_at,
            },
        ),
    );
    let body = if include_body {
        e.summary
    } else {
        Seq::empty()
    };
    let feed = match e.feed_title {
        Some(x) => x,
        None => "unknown feed"@,
    };
    seq!['['] + state + "] #"@ + decimal_int(e.id as int) + " ["@ + feed + "] "@ + e.title + "\n  "@ + t
        + " | "@ + e.link + "\n  "@ + body
}

/// One entry as the console listing prints it.
pub fn format_entry_console(entry: &FeedEntry, include_body: bool) -> (r: String)
    ensures
        r@ == format_entry_console_spec(entry@, include_body),
{
    let state = if entry.read {
        "read"
    } else {
        "unread"
    };
    let t = format_time(
        Some(
            match entry.published_at {
                Some(p) => p,
                None => entry.inserted_at,
            },
        ),
    );
    let mut v: Vec<char> = Vec::new();
    v.push('[');
    extend_chars(&mut v, &chars_of(state));
    extend_chars(&mut v, &chars_of("] #"));
    extend_chars(&mut v, &decimal_i64(entry.id));
    extend_chars(&mut v, &chars_of(" ["));
    match &entry.feed_title {
        Some(x) => extend_chars(&mut v, &chars_of(x.as_str())),
        None => extend_chars(&mut v, &chars_of("unknown feed")),
    }
    extend_chars(&mut v, &chars_of("] "));
    extend_chars(&mut v, &chars_of(entry.title.as_str()));
    extend_chars(&mut v, &chars_of("\n  "));
    extend_chars(&mut v, &chars_of(t.as_str()));
    extend_chars(&mut v, &chars_of(" | "));
    extend_chars(&mut v, &chars_of(entry.link.as_str()));
    extend_chars(&mut v, &chars_of("\n  "));
    if include_body {
        extend_chars(&mut v, &chars_of(entry.summary.as_str()));
    }
    let ghost e = entry@;
    assert(v@ =~= format_entry_console_spec(e, include_body));
    string_of(&v)
}

/// A feed as the console listing prints it.
pub open spec fn format_feed_line_spec(f: FeedView) -> Seq<char> {
    decimal_int(f.id as int) + " | "@ + f.url + " | "@ + match f.title {
        Some(t) => t,
        None => "(untitled)"@,
    }
}

/// One feed as the console listing prints it: id, URL and title.
pub fn format_feed_line(feed: &Feed) -> (r: String)
    ensures
        r@ == format_feed_line_spec(feed@),
{
    let mut v = decimal_i64(feed.id);
    extend_chars(&mut v, &chars_of(" | "));
    extend_chars(&mut v, &chars_of(feed.url.as_str()));
    extend_chars(&mut v, &chars_of(" | "));
    match &feed.title {
        Some(t) => extend_chars(&mut v, &chars_of(t.as_str())),
        None => extend_chars(&mut v, &chars_of("(untitled)")),
    }
    string_of(&v)
}

// ---------------------------------------------------------------------------
// The desktop window's lists
// ---------------------------------------------------------------------------

/// A feed's label in the feed list: its display title, and the unread count in
/// brackets where there are unread entries.
pub open spec fn feed_label_spec(f: FeedView, unread: i64) -> Seq<char> {
    feed_display_title_spec(f.url, f.title) + if unread > 0 {
        " ("@ + decimal_int(unread as int) + ")"@
    } else {
        Seq::empty()
    }
}

/// A feed's label in the feed list.
pub fn feed_label(feed: &Feed, unread: i64) -> (r: String)
    ensures
        r@ == feed_label_spec(feed@, unread),
{
    let t = feed_display_title(feed.url.as_str(), feed.title.as_ref());
    let mut v = chars_of(t.as_str());
    if unread > 0 {
        extend_chars(&mut v, &chars_of(" ("));
        extend_chars(&mut v, &decimal_i64(unread));
        extend_chars(&mut v, &chars_of(")"));
    } else {
        assert(v@ + Seq::<char>::empty() =~= v@);
    }
    string_of(&v)
}

/// The site a feed links to in the feed list: its site URL, else the root of its
/// feed URL.
pub fn feed_source(feed: &Feed) -> (r: String)
    ensures
        r@ == export_site(feed@),
{
    match &feed.site_url {
        Some(s) => s.clone(),
        None => canonical_site_url(feed.url.as_str()),
    }
}

/// What the entry list shows of an entry besides its title and link.
#[derive(Debug)]
pub struct EntryCard {
    pub unread: bool,
    /// When it was published, else stored.
    pub time: String,
    /// Its feed's title, else a title made from the feed's (or the entry's) URL.
    pub source: String,
    /// The root of the feed's (or the entry's) URL.
    pub source_url: String,
    /// The summary (the content where the summary is empty) as plain text.
    pub summary: String,
}

pub open spec fn card_target(e: FeedEntryView) -> Seq<char> {
    match e.feed_url {
        Some(u) => u,
        None => e.link,
    }
}

/// The entry card's fields: unread, time, source, source URL, summary.
pub open spec fn entry_card_spec(e: FeedEntryView) -> (bool, Seq<char>, Seq<char>, Seq<char>, Seq<char>) {
    (
        !e.read,
        format_time_spec(
            Some(
                match e.published_at {
                    Some(p) => p,
                    None => e.inserted_at,
                },
            ),
        ),
        match e.feed_title {
            Some(t) => t,
            None => feed_fallback_title_spec(card_target(e)),
        },
        canonical_site_url_spec(card_target(e)),
        strip_html_tags_spec(
            if e.summary.len() == 0 {
                e.content
            } else {
                e.summary
            },
        ),
    )
}

impl EntryCard {
    pub open spec fn card_view(&self) -> (bool, Seq<char>, Seq<char>, Seq<char>, Seq<char>) {
        (self.unread, self.time@, self.source@, self.source_url@, self.summary@)
    }
}

/// The card of an entry in the entry list.
pub fn entry_card(entry: &FeedEntry) -> (r: EntryCard)
    ensures
        r.card_view() == entry_card_spec(entry@),
{
    let target = match &entry.feed_url {
        Some(u) => u.clone(),
        None => entry.link.clone(),
    };
    let time = format_time(
        Some(
            match entry.published_at {
                Some(p) => p,
                None => entry.inserted_at,
            },
        ),
    );
    let source = match &entry.feed_title {
        Some(t) => t.clone(),
        None => feed_fallback_title(target.as_str()),
    };
    let source_url = canonical_site_url(target.as_str());
    let summary = if entry.summary.as_str().unicode_len() == 0 {
        strip_html_tags(entry.content.as_str())
    } else {
        strip_html_tags(entry.summary.as_str())
    };
    EntryCard { unread: !entry.read, time, source, source_url, summary }
}

/// The line under the entry list.
pub open spec fn footer_text_spec(shown: usize, unread_only: bool) -> Seq<char> {
    decimal_int(shown as int) + " entries shown | "@ + if unread_only {
        "unread only"@
    } else {
        "all entries"@
    }
}

/// The line under the entry list: how many entries are shown, and which.
pub fn footer_text(shown: usize, unread_only: bool) -> (r: String)
    ensures
        r@ == footer_text_spec(shown, unread_only),
{
    let mut v = decimal_u64(shown as u64);
    extend_chars(&mut v, &chars_of(" entries shown | "));
    if unread_only {
        extend_chars(&mut v, &chars_of("unread only"));
    } else {
        extend_chars(&mut v, &chars_of("all entries"));
    }
    string_of(&v)
}

/// The ids of the unread entries among those shown, in order ("mark visible as
/// read").
pub fn unread_ids(entries: &Vec<FeedEntry>) -> (r: Vec<i64>)
    ensures
        r@ == entries@.filter(|e: FeedEntry| !e.read).map_values(|e: FeedEntry| e.id),
{
    let ghost pred = |e: FeedEntry| !e.read;
    let mut r: Vec<i64> = Vec::new();
    let mut i: usize = 0;
    while i < entries.len()
        invariant
            i <= entries.len(),
            pred == (|e: FeedEntry| !e.read),
            r@ == entries@.take(i as int).filter(pred).map_values(|e: FeedEntry| e.id),
        decreases entries.len() - i,
    {
        proof {
            let t = entries@.take(i + 1);
            assert(t.drop_last() =~= entries@.take(i as int));
            assert(t.last() == entries@[i as int]);
            reveal_with_fuel(Seq::filter, 1);
            assert(t.filter(pred) == if pred(t.last()) {
                t.drop_last().filter(pred).push(t.last())
            } else {
                t.drop_last().filter(pred)
            });
        }
        if !entries[i].read {
            let ghost f0 = entries@.take(i as int).filter(pred);
            r.push(entries[i].id);
            assert(f0.push(entries@[i as int]).map_values(|e: FeedEntry| e.id) =~= f0.map_values(|e: FeedEntry| e.id).push(
                entries@[i as int].id,
            ));
        }
        i = i + 1;
    }
    assert(entries@.take(entries.len() as int) =~= entries@);
    r
}

// ---------------------------------------------------------------------------
// Splitting input
// ---------------------------------------------------------------------------

/// The pieces of `s` between separators (`cur` is the piece read so far).
pub open spec fn pieces_from(s: Seq<char>, sep: spec_fn(char) -> bool, cur: Seq<char>) -> Seq<Seq<char>>
    decreases s.len(),
{
    if s.len() == 0 {
        seq![cur]
    } else if sep(s[0]) {
        seq![cur] + pieces_from(s.drop_first(), sep, Seq::empty())
    } else {
        pieces_from(s.drop_first(), sep, cur.push(s[0]))
    }
}

/// The trimmed pieces that are not empty (and, where `skip_comments`, do not start
/// with `#`), in order.
pub open spec fn kept_pieces(ps: Seq<Seq<char>>, skip_comments: bool) -> Seq<Seq<char>>
    decreases ps.len(),
{
    if ps.len() == 0 {
        Seq::empty()
    } else {
        let t = trim_seq(ps[0]);
        let rest = kept_pieces(ps.drop_first(), skip_comments);
        if t.len() == 0 || (skip_comments && t[0] == '#') {
            rest
        } else {
            seq![t] + rest
        }
    }
}

pub open spec fn is_newline(c: char) -> bool {
    c == '\n'
}

pub open spec fn is_list_sep(c: char) -> bool {
    c == '\n' || c == ',' || c == ';'
}

pub open spec fn strings_view(v: Seq<String>) -> Seq<Seq<char>> {
    v.map_values(|s: String| s@)
}

fn pieces_exec(s: &Vec<char>, list: bool) -> (r: Vec<Vec<char>>)
    ensures
        r@.map_values(|p: Vec<char>| p@) == pieces_from(
            s@,
            if list {
                |c: char| is_list_sep(c)
            } else {
                |c: char| is_newline(c)
            },
            Seq::empty(),
        ),
{
    let ghost sep = if list {
        |c: char| is_list_sep(c)
    } else {
        |c: char| is_newline(c)
    };
    let mut out: Vec<Vec<char>> = Vec::new();
    let mut cur: Vec<char> = Vec::new();
    let mut i: usize = 0;
    assert(s@.skip(0) =~= s@);
    while i < s.len()
        invariant
            i <= s.len(),
            sep == (if list {
                |c: char| is_list_sep(c)
            } else {
                |c: char| is_newline(c)
            }),
            pieces_from(s@, sep, Seq::empty()) == out@.map_values(|p: Vec<char>| p@) + pieces_from(
                s@.skip(i as int),
                sep,
                cur@,
            ),
        decreases s.len() - i,
    {
        let c = s[i];
        let ghost rest = s@.skip(i as int);
        let ghost before = out@.map_values(|p: Vec<char>| p@);
        assert(rest.drop_first() =~= s@.skip(i + 1));
        assert(rest[0] == c);
        let is_sep = if list {
            c == '\n' || c == ',' || c == ';'
        } else {
            c == '\n'
        };
        assert(is_sep == sep(c));
        if is_sep {
            let ghost piece = cur@;
            out.push(cur);
            cur = Vec::new();
            assert(out@.map_values(|p: Vec<char>| p@) =~= before.push(piece));
            assert(before + (seq![piece] + pieces_from(s@.skip(i + 1), sep, Seq::empty())) =~= before.push(
                piece,
            ) + pieces_from(s@.skip(i + 1), sep, Seq::empty()));
            assert(cur@ =~= Seq::<char>::empty());
        } else {
            cur.push(c);
        }
        i = i + 1;
    }
    let ghost before = out@.map_values(|p: Vec<char>| p@);
    let ghost last = cur@;
    out.push(cur);
    assert(out@.map_values(|p: Vec<char>| p@) =~= before.push(last));
    assert(before + seq![last] =~= before.push(last));
    out
}

fn keep_exec(ps: &Vec<Vec<char>>, skip_comments: bool) -> (r: Vec<String>)
    ensures
        strings_view(r@) == kept_pieces(ps@.map_values(|p: Vec<char>| p@), skip_comments),
{
    let ghost pv = ps@.map_values(|p: Vec<char>| p@);
    let mut out: Vec<String> = Vec::new();
    let mut i: usize = 0;
    assert(pv.skip(0) =~= pv);
    while i < ps.len()
        invariant
            i <= ps.len(),
            pv == ps@.map_values(|p: Vec<char>| p@),
            kept_pieces(pv, skip_comments) == strings_view(out@) + kept_pieces(pv.skip(i as int), skip_comments),
        decreases ps.len() - i,
    {
        let t = trim_chars(&ps[i]);
        proof {
            assert(pv.skip(i as int).drop_first() =~= pv.skip(i + 1));
            assert(pv.skip(i as int)[0] == ps@[i as int]@);
        }
        let ghost before = strings_view(out@);
        if !(t.len() == 0 || (skip_comments && t[0] == '#')) {
            let ts = string_of(&t);
            out.push(ts);
            proof {
                assert(strings_view(out@) =~= before.push(t@));
                assert(before + (seq![t@] + kept_pieces(pv.skip(i + 1), skip_comments)) =~= before.push(t@)
                    + kept_pieces(pv.skip(i + 1), skip_comments));
            }
        }
        i = i + 1;
    }
    proof {
        assert(kept_pieces(pv.skip(ps.len() as int), skip_comments) =~= Seq::<Seq<char>>::empty()) by {
            assert(pv.skip(ps.len() as int).len() == 0);
        }
        assert(strings_view(out@) + Seq::<Seq<char>>::empty() =~= strings_view(out@));
    }
    out
}

/// The sources of a backup file: the trimmed lines that are neither empty nor comments.
pub open spec fn import_sources_spec(raw: Seq<char>) -> Seq<Seq<char>> {
    kept_pieces(pieces_from(raw, |c: char| is_newline(c), Seq::empty()), true)
}

/// The sources of a backup file: its trimmed lines, without empty lines and lines
/// starting with `#`.
pub fn import_sources(raw: &str) -> (r: Vec<String>)
    ensures
        strings_view(r@) == import_sources_spec(raw@),
{
    let ps = pieces_exec(&chars_of(raw), false);
    keep_exec(&ps, true)
}

/// What the add box of the desktop app splits its text into.
pub open spec fn split_feed_input_spec(raw: Seq<char>) -> Seq<Seq<char>> {
    kept_pieces(pieces_from(trim_seq(raw), |c: char| is_list_sep(c), Seq::empty()), false)
}

/// The URLs typed into the add box: the trimmed text split at new lines, commas and
/// semicolons, each piece trimmed, empty pieces dropped.
pub fn split_feed_input(raw: &str) -> (r: Vec<String>)
    ensures
        strings_view(r@) == split_feed_input_spec(raw@),
{
    let t = trim_chars(&chars_of(raw));
    let ps = pieces_exec(&t, true);
    keep_exec(&ps, false)
}

// ---------------------------------------------------------------------------
// Export
// ---------------------------------------------------------------------------

/// `str::to_lowercase` (full Unicode lower-casing) of the text.
pub uninterp spec fn spec_to_lowercase(s: Seq<char>) -> Seq<char>;

/// Calls std's `str::to_lowercase`. Claims only that the result is the named
/// function of the text.
#[verifier::external_body]
pub(crate) fn to_lowercase(s: &str) -> (r: String)
    ensures
        r@ == spec_to_lowercase(s@),
{
    s.to_lowercase()
}

/// The site a feed is exported as: its site URL, else the root of its feed URL.
pub open spec fn export_site(f: FeedView) -> Seq<char> {
    match f.site_url {
        Some(s) => s,
        None => canonical_site_url_spec(f.url),
    }
}

/// The export lines of the feeds and the keys seen: each feed's site, unless a site
/// with the same lower-cased text came earlier.
pub open spec fn export_acc(fs: Seq<FeedView>) -> (Seq<Seq<char>>, Set<Seq<char>>)
    decreases fs.len(),
{
    if fs.len() == 0 {
        (Seq::empty(), Set::empty())
    } else {
        let (lines, seen) = export_acc(fs.drop_last());
        let site = export_site(fs.last());
        let key = spec_to_lowercase(site);
        if seen.contains(key) {
            (lines, seen)
        } else {
            (lines.push(site), seen.insert(key))
        }
    }
}

pub open spec fn export_lines_spec(fs: Seq<FeedView>) -> Seq<Seq<char>> {
    export_acc(fs).0
}

fn contains_string(v: &Vec<String>, s: &String) -> (r: bool)
    ensures
        r == strings_view(v@).contains(s@),
{
    let mut i: usize = 0;
    while i < v.len()
        invariant
            i <= v.len(),
            forall|k: int| 0 <= k < i ==> v@[k]@ != s@,
        decreases v.len() - i,
    {
        if v[i] == *s {
            assert(strings_view(v@)[i as int] == s@);
            return true;
        }
        i = i + 1;
    }
    assert forall|k: int| 0 <= k < v@.len() implies strings_view(v@)[k] != s@ by {
        assert(v@[k]@ != s@);
    }
    false
}

/// The sites to export, one per line, without repeats that differ only in case.
pub fn export_site_lines(feeds: &Vec<Feed>) -> (r: Vec<String>)
    ensures
        strings_view(r@) == export_lines_spec(feeds@.map_values(|f: Feed| f@)),
{
    let ghost fs = feeds@.map_values(|f: Feed| f@);
    let mut lines: Vec<String> = Vec::new();
    let mut seen: Vec<String> = Vec::new();
    let mut i: usize = 0;
    while i < feeds.len()
        invariant
            i <= feeds.len(),
            fs == feeds@.map_values(|f: Feed| f@),
            strings_view(lines@) == export_acc(fs.take(i as int)).0,
            strings_view(seen@).to_set() == export_acc(fs.take(i as int)).1,
        decreases feeds.len() - i,
    {
        let f = &feeds[i];
        let site = match &f.site_url {
            Some(s) => s.clone(),
            None => canonical_site_url(f.url.as_str()),
        };
        let key = to_lowercase(site.as_str());
        proof {
            assert(fs.take(i + 1).drop_last() =~= fs.take(i as int));
            assert(fs.take(i + 1).last() == f@);
        }
        let ghost old_lines = strings_view(lines@);
        let ghost old_seen = strings_view(seen@);
        if !contains_string(&seen, &key) {
            proof {
                assert(!old_seen.to_set().contains(key@));
            }
            lines.push(site);
            seen.push(key);
            proof {
                assert(strings_view(lines@) =~= old_lines.push(site@));
                assert(strings_view(seen@) =~= old_seen.push(key@));
                assert(old_seen.push(key@).to_set() =~= old_seen.to_set().insert(key@)) by {
                    broadcast use vstd::seq_lib::group_seq_properties;
                }
            }
        } else {
            proof {
                assert(old_seen.to_set().contains(key@));
            }
        }
        i = i + 1;
    }
    proof {
        assert(fs.take(feeds.len() as int) =~= fs);
    }
    lines
}

/// The lines joined with `\n` between them.
pub open spec fn join_lines_spec(lines: Seq<Seq<char>>) -> Seq<char>
    decreases lines.len(),
{
    if lines.len() == 0 {
        Seq::empty()
    } else if lines.len() == 1 {
        lines[0]
    } else {
        join_lines_spec(lines.drop_last()) + seq!['\n'] + lines.last()
    }
}

/// `lines.join("\n")`.
pub fn join_lines(lines: &Vec<String>) -> (r: String)
    ensures
        r@ == join_lines_spec(strings_view(lines@)),
{
    let ghost ls = strings_view(lines@);
    let mut v: Vec<char> = Vec::new();
    let mut i: usize = 0;
    while i < lines.len()
        invariant
            i <= lines.len(),
            ls == strings_view(lines@),
            v@ == join_lines_spec(ls.take(i as int)),
        decreases lines.len() - i,
    {
        let ghost before = v@;
        proof {
            assert(ls.take(i + 1).drop_last() =~= ls.take(i as int));
            assert(ls.take(i + 1).last() == lines@[i as int]@);
        }
        if i > 0 {
            v.push('\n');
        }
        extend_chars(&mut v, &chars_of(lines[i].as_str()));
        proof {
            if i == 0 {
                assert(ls.take(1)[0] == lines@[0]@);
                assert(v@ =~= lines@[0]@);
            } else {
                assert(v@ =~= before + seq!['\n'] + lines@[i as int]@);
            }
        }
        i = i + 1;
    }
    proof {
        assert(ls.take(lines.len() as int) =~= ls);
    }
    string_of(&v)
}

} // verus!

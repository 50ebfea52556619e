use vstd::prelude::*;

use crate::text::{
    chars_of, extend_chars, hex16, hex_digits, split_once_chars, split_once_seq, string_of, trim_chars, trim_seq, trimmed,
};
use crate::time::{parse_datetime, parse_datetime_spec, rfc3339_text, spec_rfc3339_text, utc_now, Timestamp};
use crate::urls::opt_view;
use crate::xml::{
    any_named_from, first_child, first_child_exec, first_named_exec, first_named_from, nodes_view,
    root_element, root_element_exec, spec_xml_nodes, subtree_end, subtree_end_exec, xml_nodes, XmlNode,
    XmlNodeView,
};

verus! {

/// One entry of a parsed feed.
#[derive(Debug)]
pub struct ParsedEntry {
    pub id: String,
    pub title: String,
    pub link: String,
    pub summary: String,
    pub content: String,
    pub published: Option<Timestamp>,
}

pub struct ParsedEntryView {
    pub id: Seq<char>,
    pub title: Seq<char>,
    pub link: Seq<char>,
    pub summary: Seq<char>,
    pub content: Seq<char>,
    pub published: Option<(i64, u32)>,
}

pub open spec fn ts_view(t: Option<Timestamp>) -> Option<(i64, u32)> {
    match t {
        Some(x) => Some((x.secs, x.nanos)),
        None => None,
    }
}

impl View for ParsedEntry {
    type V = ParsedEntryView;

    open spec fn view(&self) -> ParsedEntryView {
        ParsedEntryView {
            id: self.id@,
            title: self.title@,
            link: self.link@,
            summary: self.summary@,
            content: self.content@,
            published: ts_view(self.published),
        }
    }
}

/// A parsed feed: its title and entries.
#[derive(Debug)]
pub struct ParsedFeed {
    pub title: Option<String>,
    pub entries: Vec<ParsedEntry>,
}

pub struct ParsedFeedView {
    pub title: Option<Seq<char>>,
    pub entries: Seq<ParsedEntryView>,
}

pub open spec fn parsed_entries_view(v: Seq<ParsedEntry>) -> Seq<ParsedEntryView> {
    v.map_values(|e: ParsedEntry| e@)
}

impl View for ParsedFeed {
    type V = ParsedFeedView;

    open spec fn view(&self) -> ParsedFeedView {
        ParsedFeedView { title: opt_view(self.title), entries: parsed_entries_view(self.entries@) }
    }
}

/// Why a feed could not be parsed.
#[derive(Debug)]
pub enum FeedError {
    /// The text is not well-formed XML as roxmltree reads it; holds roxmltree's
    /// error as text.
    InvalidXml(String),
}

// ---------------------------------------------------------------------------
// Hashing and fallback ids
// ---------------------------------------------------------------------------

/// The `u64` that `std::collections::hash_map::DefaultHasher::new()` yields after
/// hashing the string (`Hash::hash` of a `str`, then `finish`).
pub uninterp spec fn spec_hash_str(s: Seq<char>) -> u64;

/// The `u64` that `DefaultHasher::new()` yields after hashing the integer.
pub uninterp spec fn spec_hash_i64(v: i64) -> u64;

/// Hashes a string with std's `DefaultHasher` (fixed keys, so the same text gives
/// the same value within one build of std). Claims only that the result is the
/// named function of the text.
#[verifier::external_body]
fn hash_str(s: &str) -> (r: u64)
    ensures
        r == spec_hash_str(s@),
{
    let mut h = std::collections::hash_map::DefaultHasher::new();
    std::hash::Hash::hash(s, &mut h);
    std::hash::Hasher::finish(&h)
}

/// Hashes an integer with std's `DefaultHasher`. Claims only that the result is
/// the named function of the integer.
#[verifier::external_body]
fn hash_i64(v: i64) -> (r: u64)
    ensures
        r == spec_hash_i64(v),
{
    let mut h = std::collections::hash_map::DefaultHasher::new();
    std::hash::Hash::hash(&v, &mut h);
    std::hash::Hasher::finish(&h)
}

/// `entry-` and 16 hex digits of the hash.
pub open spec fn entry_id_of(h: u64) -> Seq<char> {
    "entry-"@ + hex_digits(h as nat, 16)
}

fn entry_id_exec(h: u64) -> (r: String)
    ensures
        r@ == entry_id_of(h),
{
    let mut v = chars_of("entry-");
    extend_chars(&mut v, &hex16(h));
    string_of(&v)
}

/// The id made from the clock (milliseconds since the epoch) when nothing else can
/// name an entry.
pub open spec fn random_id_spec(now_ms: i64) -> Seq<char> {
    entry_id_of(spec_hash_i64(now_ms))
}

/// `fallback_entry_id`: a hash of the link, else of the title, else of the
/// publication time, with `|` and the publication time appended where there is
/// one; the clock-based id where there is nothing to hash.
pub open spec fn fallback_entry_id_spec(
    link: Seq<char>,
    title: Seq<char>,
    published: Option<Seq<char>>,
    now_ms: i64,
) -> Seq<char> {
    let seed0 = if trim_seq(link).len() > 0 {
        Some(trim_seq(link))
    } else if trim_seq(title).len() > 0 {
        Some(trim_seq(title))
    } else {
        published
    };
    match seed0 {
        None => random_id_spec(now_ms),
        Some(s0) => {
            let seed = match published {
                Some(p) => s0 + seq!['|'] + p,
                None => s0,
            };
            entry_id_of(spec_hash_str(seed))
        },
    }
}

/// `fallback_entry_id` with the clock reading `now_ms` given.
pub fn fallback_entry_id_at(link: &str, title: &str, published: Option<String>, now_ms: i64) -> (r: String)
    ensures
        r@ == fallback_entry_id_spec(link@, title@, opt_view(published), now_ms),
{
    let tl = trim_chars(&chars_of(link));
    let tt = trim_chars(&chars_of(title));
    let mut seed: Vec<char>;
    if tl.len() > 0 {
        seed = tl;
    } else if tt.len() > 0 {
        seed = tt;
    } else {
        match &published {
            Some(p) => {
                seed = chars_of(p.as_str());
            },
            None => {
                return entry_id_exec(hash_i64(now_ms));
            },
        }
    }
    if let Some(p) = &published {
        let ghost s0 = seed@;
        seed.push('|');
        extend_chars(&mut seed, &chars_of(p.as_str()));
        assert(seed@ =~= s0 + seq!['|'] + p@);
    }
    let s = string_of(&seed);
    entry_id_exec(hash_str(s.as_str()))
}

/// An id for an entry that has neither link, title nor publication time: a hash of
/// the clock.
pub fn random_id() -> (r: String)
    ensures
        exists|ms: i64| r@ == random_id_spec(ms),
{
    let (_, ms) = utc_now();
    let r = entry_id_exec(hash_i64(ms));
    assert(r@ == random_id_spec(ms));
    r
}

/// A fallback id for an entry without one (see `fallback_entry_id_spec`), reading
/// the clock.
pub fn fallback_entry_id(link: &str, title: &str, published: Option<String>) -> (r: String)
    ensures
        exists|ms: i64| r@ == fallback_entry_id_spec(link@, title@, opt_view(published), ms),
{
    let (_, ms) = utc_now();
    fallback_entry_id_at(link, title, published, ms)
}

// ---------------------------------------------------------------------------
// Reading tags
// ---------------------------------------------------------------------------

pub open spec fn or_seq(o: Option<Seq<char>>, d: Seq<char>) -> Seq<char> {
    match o {
        Some(x) => x,
        None => d,
    }
}

pub open spec fn trim_opt(o: Option<Seq<char>>) -> Option<Seq<char>> {
    match o {
        Some(x) => Some(trim_seq(x)),
        None => None,
    }
}

/// `find_tag_text_node`: the trimmed text of the first child element of `a` named
/// `tag`; a `prefix:local` tag names the local name and a namespace ending with the
/// prefix.
pub open spec fn tag_text(n: Seq<XmlNodeView>, a: int, tag: Seq<char>) -> Option<Seq<char>> {
    let c = match split_once_seq(tag, ':') {
        Some(parts) => first_child(n, a, Some(parts.0), parts.1),
        None => first_child(n, a, None, tag),
    };
    match c {
        Some(i) => trim_opt(n[i].text),
        None => None,
    }
}

fn trim_opt_string(o: &Option<String>) -> (r: Option<String>)
    ensures
        opt_view(r) == trim_opt(opt_view(*o)),
{
    match o {
        Some(x) => Some(trimmed(x.as_str())),
        None => None,
    }
}

fn tag_text_exec(n: &Vec<XmlNode>, a: usize, tag: &str) -> (r: Option<String>)
    requires
        a < n.len(),
    ensures
        opt_view(r) == tag_text(nodes_view(n@), a as int, tag@),
{
    let tv = chars_of(tag);
    let c = match split_once_chars(&tv, ':') {
        Some(parts) => {
            let local = string_of(&parts.1);
            first_child_exec(n, a, &Some(parts.0), &local)
        },
        None => {
            let local = String::from_str(tag);
            first_child_exec(n, a, &None, &local)
        },
    };
    match c {
        Some(i) => {
            assert(nodes_view(n@)[i as int] == n@[i as int]@);
            trim_opt_string(&n[i].text)
        },
        None => None,
    }
}

pub open spec fn parse_opt(o: Option<Seq<char>>) -> Option<(i64, u32)> {
    match o {
        Some(raw) => parse_datetime_spec(raw),
        None => None,
    }
}

fn parse_opt_exec(o: &Option<String>) -> (r: Option<Timestamp>)
    ensures
        ts_view(r) == parse_opt(opt_view(*o)),
{
    match o {
        Some(raw) => parse_datetime(raw.as_str()),
        None => None,
    }
}

fn or_string(o: Option<String>, d: &str) -> (r: String)
    ensures
        r@ == or_seq(opt_view(o), d@),
{
    match o {
        Some(x) => x,
        None => String::from_str(d),
    }
}

// ---------------------------------------------------------------------------
// Entries
// ---------------------------------------------------------------------------

/// `parse_rss_item` of the element at `i`.
pub open spec fn rss_entry(n: Seq<XmlNodeView>, i: int) -> ParsedEntryView {
    let title = or_seq(tag_text(n, i, "title"@), "Untitled item"@);
    let link = or_seq(tag_text(n, i, "link"@), Seq::empty());
    let id = or_seq(tag_text(n, i, "guid"@), link);
    let summary = or_seq(tag_text(n, i, "description"@), Seq::empty());
    let content = match tag_text(n, i, "content:encoded"@) {
        Some(c) => c,
        None => or_seq(tag_text(n, i, "content"@), summary),
    };
    let published = match parse_opt(tag_text(n, i, "pubDate"@)) {
        Some(t) => Some(t),
        None => parse_opt(tag_text(n, i, "date"@)),
    };
    ParsedEntryView { id, title, link, summary, content, published }
}

/// The link of an Atom entry: the `href` of its first `link` child, else that
/// child's text, else empty.
pub open spec fn atom_link(n: Seq<XmlNodeView>, i: int) -> Seq<char> {
    let href = match first_child(n, i, None, "link"@) {
        Some(c) => n[c].href,
        None => None,
    };
    match href {
        Some(h) => h,
        None => or_seq(tag_text(n, i, "link"@), Seq::empty()),
    }
}

pub open spec fn rfc3339_opt(t: Option<(i64, u32)>) -> Option<Seq<char>> {
    match t {
        Some(x) => spec_rfc3339_text(x.0, x.1),
        None => None,
    }
}

/// `parse_atom_entry` of the element at `i`, with the clock reading `now_ms`.
pub open spec fn atom_entry(n: Seq<XmlNodeView>, i: int, now_ms: i64) -> ParsedEntryView {
    let title = or_seq(tag_text(n, i, "title"@), "Untitled entry"@);
    let link = atom_link(n, i);
    let published = match parse_opt(tag_text(n, i, "published"@)) {
        Some(t) => Some(t),
        None => parse_opt(tag_text(n, i, "updated"@)),
    };
    let id = match tag_text(n, i, "id"@) {
        Some(x) => x,
        None => fallback_entry_id_spec(link, title, rfc3339_opt(published), now_ms),
    };
    let summary = or_seq(tag_text(n, i, "summary"@), Seq::empty());
    let content = or_seq(tag_text(n, i, "content"@), summary);
    ParsedEntryView { id, title, link, summary, content, published }
}

/// The entries of the nodes from `j` to `end` named `item` (RSS) or `entry` (Atom),
/// in document order.
pub open spec fn entries_from(n: Seq<XmlNodeView>, j: int, end: int, rss: bool, now_ms: i64) -> Seq<
    ParsedEntryView,
>
    decreases end - j,
{
    if j >= end || j < 0 || end > n.len() {
        Seq::empty()
    } else {
        let rest = entries_from(n, j + 1, end, rss, now_ms);
        if rss && n[j].name == "item"@ {
            seq![rss_entry(n, j)] + rest
        } else if !rss && n[j].name == "entry"@ {
            seq![atom_entry(n, j, now_ms)] + rest
        } else {
            rest
        }
    }
}

/// `parse_feed_xml` after parsing: RSS where the root element or a descendant is an
/// `item`, Atom otherwise; the title of the first `title` element, else of the root's
/// first `title` child; the entries in document order.
pub open spec fn feed_of_nodes(n: Seq<XmlNodeView>, now_ms: i64) -> ParsedFeedView {
    match root_element(n) {
        None => ParsedFeedView { title: None, entries: Seq::empty() },
        Some(r) => {
            let end = subtree_end(n, r);
            let rss = any_named_from(n, r, end, "item"@);
            let direct = tag_text(n, r, "title"@);
            let title = match first_named_from(n, r, end, "title"@) {
                Some(t) => match n[t].text {
                    Some(x) => Some(trim_seq(x)),
                    None => direct,
                },
                None => direct,
            };
            ParsedFeedView { title, entries: entries_from(n, r, end, rss, now_ms) }
        },
    }
}

fn rss_entry_exec(n: &Vec<XmlNode>, i: usize) -> (r: ParsedEntry)
    requires
        i < n.len(),
    ensures
        r@ == rss_entry(nodes_view(n@), i as int),
{
    let title = or_string(tag_text_exec(n, i, "title"), "Untitled item");
    let link = or_string(tag_text_exec(n, i, "link"), "");
    let id = match tag_text_exec(n, i, "guid") {
        Some(g) => g,
        None => link.clone(),
    };
    let summary = or_string(tag_text_exec(n, i, "description"), "");
    let content = match tag_text_exec(n, i, "content:encoded") {
        Some(c) => c,
        None => match tag_text_exec(n, i, "content") {
            Some(c) => c,
            None => summary.clone(),
        },
    };
    let published = match parse_opt_exec(&tag_text_exec(n, i, "pubDate")) {
        Some(t) => Some(t),
        None => parse_opt_exec(&tag_text_exec(n, i, "date")),
    };
    proof {
        assert(""@ == Seq::<char>::empty()) by {
            reveal_strlit("");
        }
    }
    ParsedEntry { id, title, link, summary, content, published }
}

fn atom_entry_exec(n: &Vec<XmlNode>, i: usize, now_ms: i64) -> (r: ParsedEntry)
    requires
        i < n.len(),
    ensures
        r@ == atom_entry(nodes_view(n@), i as int, now_ms),
{
    proof {
        assert(""@ == Seq::<char>::empty()) by {
            reveal_strlit("");
        }
    }
    let title = or_string(tag_text_exec(n, i, "title"), "Untitled entry");
    let link_name = String::from_str("link");
    let href = match first_child_exec(n, i, &None, &link_name) {
        Some(c) => {
            assert(nodes_view(n@)[c as int] == n@[c as int]@);
            crate::storage::clone_opt_string(&n[c].href)
        },
        None => None,
    };
    let link = match href {
        Some(h) => h,
        None => or_string(tag_text_exec(n, i, "link"), ""),
    };
    let published = match parse_opt_exec(&tag_text_exec(n, i, "published")) {
        Some(t) => Some(t),
        None => parse_opt_exec(&tag_text_exec(n, i, "updated")),
    };
    let id = match tag_text_exec(n, i, "id") {
        Some(x) => x,
        None => {
            let stamp = match &published {
                Some(t) => rfc3339_text(t),
                None => None,
            };
            fallback_entry_id_at(link.as_str(), title.as_str(), stamp, now_ms)
        },
    };
    let summary = or_string(tag_text_exec(n, i, "summary"), "");
    let content = match tag_text_exec(n, i, "content") {
        Some(c) => c,
        None => summary.clone(),
    };
    ParsedEntry { id, title, link, summary, content, published }
}

/// The parsed feed of a node list (see `feed_of_nodes`), with the clock reading
/// `now_ms` for entries that need a clock-based id.
pub fn feed_from_nodes(n: &Vec<XmlNode>, now_ms: i64) -> (r: ParsedFeed)
    ensures
        r@ == feed_of_nodes(nodes_view(n@), now_ms),
{
    let ghost nv = nodes_view(n@);
    let r = match root_element_exec(n) {
        Some(r) => r,
        None => {
            let f = ParsedFeed { title: None, entries: Vec::new() };
            assert(f@.entries =~= Seq::<ParsedEntryView>::empty());
            return f;
        },
    };
    let end = subtree_end_exec(n, r);
    let item = String::from_str("item");
    let entry = String::from_str("entry");
    let title_name = String::from_str("title");
    let rss = first_named_exec(n, r, end, &item).is_some();
    let direct = tag_text_exec(n, r, "title");
    let title = match first_named_exec(n, r, end, &title_name) {
        Some(t) => {
            assert(nv[t as int] == n@[t as int]@);
            match &n[t].text {
                Some(x) => Some(trimmed(x.as_str())),
                None => direct,
            }
        },
        None => direct,
    };
    let mut entries: Vec<ParsedEntry> = Vec::new();
    let mut j = r;
    while j < end
        invariant
            nv == nodes_view(n@),
            r <= j <= end <= n.len(),
            item@ == "item"@,
            entry@ == "entry"@,
            rss == any_named_from(nv, r as int, end as int, "item"@),
            parsed_entries_view(entries@) + entries_from(nv, j as int, end as int, rss, now_ms)
                == entries_from(nv, r as int, end as int, rss, now_ms),
        decreases end - j,
    {
        assert(nv[j as int] == n@[j as int]@);
        let ghost before = parsed_entries_view(entries@);
        if rss && n[j].name == item {
            let e = rss_entry_exec(n, j);
            entries.push(e);
            proof {
                assert(parsed_entries_view(entries@) =~= before.push(e@));
                assert(before.push(e@) + entries_from(nv, j + 1, end as int, rss, now_ms) =~= before
                    + (seq![e@] + entries_from(nv, j + 1, end as int, rss, now_ms)));
            }
        } else if !rss && n[j].name == entry {
            let e = atom_entry_exec(n, j, now_ms);
            entries.push(e);
            proof {
                assert(parsed_entries_view(entries@) =~= before.push(e@));
                assert(before.push(e@) + entries_from(nv, j + 1, end as int, rss, now_ms) =~= before
                    + (seq![e@] + entries_from(nv, j + 1, end as int, rss, now_ms)));
            }
        }
        j = j + 1;
    }
    proof {
        assert(entries_from(nv, end as int, end as int, rss, now_ms) =~= Seq::<ParsedEntryView>::empty());
        assert(parsed_entries_view(entries@) + Seq::<ParsedEntryView>::empty() =~= parsed_entries_view(
            entries@,
        ));
    }
    ParsedFeed { title, entries }
}

/// What `parse_feed_xml` gives for a text, with the clock reading `now_ms`.
/// Where the text is refused, the error is roxmltree's, as text.
pub open spec fn parse_feed_spec(xml: Seq<char>, now_ms: i64) -> Result<ParsedFeedView, Seq<char>> {
    match spec_xml_nodes(xml) {
        Ok(n) => Ok(feed_of_nodes(n, now_ms)),
        Err(m) => Err(m),
    }
}

/// Parses an RSS or Atom document (see `feed_of_nodes`). Fails exactly where
/// roxmltree refuses the text.
pub fn parse_feed_xml(xml: &str) -> (r: Result<ParsedFeed, FeedError>)
    ensures
        spec_xml_nodes(xml@) is Ok <==> r is Ok,
        exists|ms: i64|
            match (r, #[trigger] parse_feed_spec(xml@, ms)) {
                (Ok(f), Ok(g)) => f@ == g,
                (Err(FeedError::InvalidXml(m)), Err(t)) => m@ == t,
                _ => false,
            },
{
    let (_, ms) = utc_now();
    parse_feed_xml_at(xml, ms)
}

/// `parse_feed_xml` with the clock reading `now_ms` given.
pub fn parse_feed_xml_at(xml: &str, now_ms: i64) -> (r: Result<ParsedFeed, FeedError>)
    ensures
        match (r, parse_feed_spec(xml@, now_ms)) {
            (Ok(f), Ok(g)) => f@ == g,
            (Err(FeedError::InvalidXml(m)), Err(t)) => m@ == t,
            _ => false,
        },
{
    match xml_nodes(xml) {
        Ok(n) => Ok(feed_from_nodes(&n, now_ms)),
        Err(m) => Err(FeedError::InvalidXml(m)),
    }
}

/// Whether the text parses as a feed with at least one entry.
pub open spec fn looks_like_feed_spec(xml: Seq<char>) -> bool {
    match spec_xml_nodes(xml) {
        Ok(n) => feed_of_nodes(n, 0).entries.len() > 0,
        Err(_) => false,
    }
}

/// Whether the text parses as a feed with at least one entry.
pub fn looks_like_feed(xml: &str) -> (r: bool)
    ensures
        r == looks_like_feed_spec(xml@),
{
    match xml_nodes(xml) {
        Ok(n) => {
            let f = feed_from_nodes(&n, 0);
            proof {
                lemma_entry_count_clock_free(nodes_view(n@), 0);
            }
            f.entries.len() > 0
        },
        Err(_) => false,
    }
}

/// How many entries a feed has does not depend on the clock.
pub proof fn lemma_entry_count_clock_free(n: Seq<XmlNodeView>, now_ms: i64)
    ensures
        feed_of_nodes(n, now_ms).entries.len() == feed_of_nodes(n, 0).entries.len(),
{
    if let Some(r) = root_element(n) {
        let end = subtree_end(n, r);
        let rss = any_named_from(n, r, end, "item"@);
        lemma_entries_from_len(n, r, end, rss, now_ms);
    }
}

proof fn lemma_entries_from_len(n: Seq<XmlNodeView>, j: int, end: int, rss: bool, now_ms: i64)
    ensures
        entries_from(n, j, end, rss, now_ms).len() == entries_from(n, j, end, rss, 0).len(),
    decreases end - j,
{
    if !(j >= end || j < 0 || end > n.len()) {
        lemma_entries_from_len(n, j + 1, end, rss, now_ms);
    }
}

} // verus!

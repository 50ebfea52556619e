use vstd::prelude::*;

use crate::display::{spec_to_lowercase, strings_view, to_lowercase};
use crate::feed_parser::{looks_like_feed, looks_like_feed_spec};
use crate::storage::{lemma_text_lt_irreflexive, lemma_text_lt_total, lemma_text_lt_transitive, text_lt, text_lt_exec};
use crate::text::{
    chars_of, contains_chars, contains_seq, extend_chars, starts_with_chars, starts_with_seq, string_of,
    trim_chars, trim_end_char, trim_end_char_seq, trim_seq,
};
use crate::urls::{join_url, looks_like_url, opt_view, spec_url_join, spec_url_parts};

verus! {

/// The feed URLs found for a site, in text order, each once.
#[derive(Debug)]
pub struct DiscoveryResult {
    pub feeds: Vec<String>,
}

/// Why no feed could be found.
#[derive(Debug)]
pub enum DiscoveryError {
    /// The input holds nothing but white space.
    EmptyUrl,
    /// No candidate answered with a feed; holds the input as given.
    NoFeedFound(String),
}

impl DiscoveryError {
    pub open spec fn message_spec(&self) -> Seq<char> {
        match self {
            DiscoveryError::EmptyUrl => "empty URL provided"@,
            DiscoveryError::NoFeedFound(site) => "no feed endpoint found for "@ + site@,
        }
    }

    /// The error as a line of text.
    pub fn message(&self) -> (r: String)
        ensures
            r@ == self.message_spec(),
    {
        match self {
            DiscoveryError::EmptyUrl => String::from_str("empty URL provided"),
            DiscoveryError::NoFeedFound(site) => {
                let mut v = chars_of("no feed endpoint found for ");
                extend_chars(&mut v, &chars_of(site.as_str()));
                string_of(&v)
            },
        }
    }
}

// ---------------------------------------------------------------------------
// Normalizing what the user typed
// ---------------------------------------------------------------------------

/// The trimmed input, with `https://` put in front unless it starts with
/// `http://` or `https://`; `None` for an empty input.
pub open spec fn normalize_url_spec(input: Seq<char>) -> Option<Seq<char>> {
    let t = trim_seq(input);
    if t.len() == 0 {
        None
    } else if starts_with_seq(t, "http://"@) || starts_with_seq(t, "https://"@) {
        Some(t)
    } else {
        Some("https://"@ + t)
    }
}

/// Turns a site or feed address as typed into a URL.
pub fn normalize_url(input: &str) -> (r: Result<String, DiscoveryError>)
    ensures
        match r {
            Ok(s) => normalize_url_spec(input@) == Some(s@),
            Err(e) => normalize_url_spec(input@).is_none() && e == DiscoveryError::EmptyUrl,
        },
{
    let t = trim_chars(&chars_of(input));
    if t.len() == 0 {
        return Err(DiscoveryError::EmptyUrl);
    }
    if starts_with_chars(&t, &chars_of("http://")) || starts_with_chars(&t, &chars_of("https://")) {
        Ok(string_of(&t))
    } else {
        let mut v = chars_of("https://");
        extend_chars(&mut v, &t);
        Ok(string_of(&v))
    }
}

// ---------------------------------------------------------------------------
// Candidates
// ---------------------------------------------------------------------------

/// The paths tried under a site's root.
pub open spec fn probe_suffixes() -> Seq<Seq<char>> {
    seq!["/feed"@, "/rss"@, "/rss.xml"@, "/atom"@, "/atom.xml"@, "/index.xml"@, "/feed.xml"@]
}

/// The URLs tried first for a base URL: the base itself where `url` parses it,
/// then the base without trailing slashes followed by each probe path.
pub open spec fn probe_urls_spec(base: Seq<char>) -> Seq<Seq<char>> {
    let root = trim_end_char_seq(base, '/');
    let paths = probe_suffixes().map_values(|p: Seq<char>| root + p);
    if spec_url_parts(base).is_some() {
        seq![base] + paths
    } else {
        paths
    }
}

fn push_joined(v: &mut Vec<String>, root: &Vec<char>, suffix: &str)
    ensures
        strings_view(final(v)@) == strings_view(old(v)@).push(root@ + suffix@),
{
    let mut c = root.clone();
    extend_chars(&mut c, &chars_of(suffix));
    let s = string_of(&c);
    let ghost before = v@;
    v.push(s);
    assert(strings_view(v@) =~= strings_view(before).push(root@ + suffix@));
}

/// The URLs tried first for a base URL (see `probe_urls_spec`).
pub fn probe_urls(base: &str) -> (r: Vec<String>)
    ensures
        strings_view(r@) == probe_urls_spec(base@),
{
    let mut v: Vec<String> = Vec::new();
    let head = looks_like_url(base);
    if head {
        v.push(String::from_str(base));
    }
    let ghost start = strings_view(v@);
    let root = trim_end_char(&chars_of(base), '/');
    push_joined(&mut v, &root, "/feed");
    push_joined(&mut v, &root, "/rss");
    push_joined(&mut v, &root, "/rss.xml");
    push_joined(&mut v, &root, "/atom");
    push_joined(&mut v, &root, "/atom.xml");
    push_joined(&mut v, &root, "/index.xml");
    push_joined(&mut v, &root, "/feed.xml");
    proof {
        let paths = probe_suffixes().map_values(|p: Seq<char>| root@ + p);
        assert(strings_view(v@) =~= start + paths);
        if head {
            assert(start =~= seq![base@]);
        } else {
            assert(start =~= Seq::<Seq<char>>::empty());
            assert(start + paths =~= paths);
        }
    }
    v
}

/// Whether a fetched answer counts as a feed: the request succeeded and the body
/// parses as a feed with at least one entry.
pub fn verify_feed_body(success: bool, body: &str) -> (r: bool)
    ensures
        r == (success && looks_like_feed_spec(body@)),
{
    success && looks_like_feed(body)
}

// ---------------------------------------------------------------------------
// Links in a page
// ---------------------------------------------------------------------------

/// What `scraper` finds in an HTML document (`Html::parse_document`) for a CSS
/// selector (`Selector::parse`, `None` where it refuses it): for each matching
/// element in document order, the values of the named attributes.
pub uninterp spec fn spec_select_attrs(html: Seq<char>, selector: Seq<char>, names: Seq<Seq<char>>) -> Option<
    Seq<Seq<Option<Seq<char>>>>,
>;

pub open spec fn attr_row_view(row: Vec<Option<String>>) -> Seq<Option<Seq<char>>> {
    row@.map_values(|a: Option<String>| opt_view(a))
}

pub open spec fn attr_rows_view(rows: Seq<Vec<Option<String>>>) -> Seq<Seq<Option<Seq<char>>>> {
    rows.map_values(|row: Vec<Option<String>>| attr_row_view(row))
}

/// Parses the page with `scraper::Html::parse_document`, selects with
/// `scraper::Selector::parse(selector)` and reads each named attribute of each
/// selected element (`ElementRef::value().attr`). Claims that the rows are the
/// named function of the three inputs, and that each row has one value per name.
#[verifier::external_body]
fn select_attrs(html: &str, selector: &str, names: &Vec<String>) -> (r: Option<Vec<Vec<Option<String>>>>)
    ensures
        match r {
            Some(rows) => spec_select_attrs(html@, selector@, strings_view(names@)) == Some(
                attr_rows_view(rows@),
            ) && forall|i: int| 0 <= i < rows@.len() ==> #[trigger] rows@[i]@.len() == names@.len(),
            None => spec_select_attrs(html@, selector@, strings_view(names@)).is_none(),
        },
{
    let sel = match scraper::Selector::parse(selector) {
        Ok(s) => s,
        Err(_) => return None,
    };
    let doc = scraper::Html::parse_document(html);
    Some(doc.select(&sel).map(|el| names.iter().map(|n| el.value().attr(n).map(|a| a.to_string())).collect()).collect())
}

/// The selector for links to alternate versions of a page.
pub open spec fn link_selector() -> Seq<char> {
    "link[rel='alternate']"@
}

/// The attributes read of each link.
pub open spec fn link_attr_names() -> Seq<Seq<char>> {
    seq!["href"@, "rel"@, "type"@]
}

pub open spec fn or_empty(o: Option<Seq<char>>) -> Seq<char> {
    match o {
        Some(s) => s,
        None => Seq::empty(),
    }
}

/// A link points to a feed where its lower-cased `rel` holds `alternate` and its
/// lower-cased `type` holds `rss`, `atom` or `xml`.
pub open spec fn is_feed_link(rel: Seq<char>, typ: Seq<char>) -> bool {
    contains_seq(rel, "alternate"@) && (contains_seq(typ, "rss"@) || contains_seq(typ, "atom"@)
        || contains_seq(typ, "xml"@))
}

/// The candidate a link gives: its `href` resolved against the base, where the
/// link has an `href` and points to a feed.
pub open spec fn link_candidate(base: Seq<char>, row: Seq<Option<Seq<char>>>) -> Option<Seq<char>> {
    match row[0] {
        Some(href) => if is_feed_link(spec_to_lowercase(or_empty(row[1])), spec_to_lowercase(or_empty(row[2]))) {
            spec_url_join(base, href)
        } else {
            None
        },
        None => None,
    }
}

pub open spec fn link_candidates(base: Seq<char>, rows: Seq<Seq<Option<Seq<char>>>>) -> Seq<Seq<char>>
    decreases rows.len(),
{
    if rows.len() == 0 {
        Seq::empty()
    } else {
        let rest = link_candidates(base, rows.drop_last());
        match link_candidate(base, rows.last()) {
            Some(c) => rest.push(c),
            None => rest,
        }
    }
}

/// The feed links of a page, in document order.
pub open spec fn page_feed_links_spec(base: Seq<char>, page: Seq<char>) -> Seq<Seq<char>> {
    match spec_select_attrs(page, link_selector(), link_attr_names()) {
        Some(rows) => link_candidates(base, rows),
        None => Seq::empty(),
    }
}

fn lower_or_empty(o: &Option<String>) -> (r: Vec<char>)
    ensures
        r@ == spec_to_lowercase(or_empty(opt_view(*o))),
{
    match o {
        Some(s) => {
            let l = to_lowercase(s.as_str());
            chars_of(l.as_str())
        },
        None => {
            let e = String::new();
            assert(e@ =~= Seq::<char>::empty());
            let l = to_lowercase(e.as_str());
            chars_of(l.as_str())
        },
    }
}

/// The links of an HTML page that point to feeds, resolved against `base`.
pub fn page_feed_links(base: &str, page: &str) -> (r: Vec<String>)
    ensures
        strings_view(r@) == page_feed_links_spec(base@, page@),
{
    let mut names: Vec<String> = Vec::new();
    names.push(String::from_str("href"));
    names.push(String::from_str("rel"));
    names.push(String::from_str("type"));
    assert(strings_view(names@) =~= link_attr_names());
    let rows = match select_attrs(page, "link[rel='alternate']", &names) {
        Some(rows) => rows,
        None => return Vec::new(),
    };
    let ghost rv = attr_rows_view(rows@);
    let mut out: Vec<String> = Vec::new();
    let mut i: usize = 0;
    while i < rows.len()
        invariant
            i <= rows.len(),
            rv == attr_rows_view(rows@),
            forall|k: int| 0 <= k < rows@.len() ==> #[trigger] rows@[k]@.len() == 3,
            strings_view(out@) == link_candidates(base@, rv.take(i as int)),
        decreases rows.len() - i,
    {
        let row = &rows[i];
        assert(row@.len() == 3);
        proof {
            assert(rv.take(i + 1).drop_last() =~= rv.take(i as int));
            assert(rv.take(i + 1).last() == attr_row_view(*row));
        }
        let ghost rw = attr_row_view(*row);
        assert(rw[0] == opt_view(row@[0]));
        assert(rw[1] == opt_view(row@[1]));
        assert(rw[2] == opt_view(row@[2]));
        match &row[0] {
            Some(href) => {
                let rel = lower_or_empty(&row[1]);
                let typ = lower_or_empty(&row[2]);
                let is_feed = contains_chars(&rel, &chars_of("alternate")) && (contains_chars(
                    &typ,
                    &chars_of("rss"),
                ) || contains_chars(&typ, &chars_of("atom")) || contains_chars(&typ, &chars_of("xml")));
                if is_feed {
                    match join_url(base, href.as_str()) {
                        Some(c) => {
                            let ghost before = out@;
                            out.push(c);
                            assert(strings_view(out@) =~= strings_view(before).push(c@));
                        },
                        None => {},
                    }
                }
            },
            None => {},
        }
        i = i + 1;
    }
    assert(rv.take(rows.len() as int) =~= rv);
    out
}

// ---------------------------------------------------------------------------
// The search, step by step
// ---------------------------------------------------------------------------

/// Strictly increasing in text order, so that no text occurs twice.
pub open spec fn strictly_sorted(s: Seq<Seq<char>>) -> bool {
    forall|i: int, j: int| 0 <= i < j < s.len() ==> text_lt(s[i], s[j])
}

/// What a `Discovery` asks its caller to do next.
#[derive(Debug)]
pub enum DiscoveryStep {
    /// Fetch this URL (with a 10 s timeout) and report through
    /// `Discovery::on_verified` whether it answered with a feed (`verify_feed_body`).
    Verify(String),
    /// Fetch this page (with an 8 s timeout) and hand its text, or `None` where the
    /// fetch failed, to `Discovery::on_page`.
    FetchPage(String),
    /// Every candidate has been tried: call `Discovery::finish`.
    Done,
}

/// The search for the feeds of a site: first the base URL and the usual feed
/// paths, then the page's own links to feeds. The caller does the fetching.
#[derive(Debug)]
pub struct Discovery {
    site: String,
    base: String,
    queue: Vec<String>,
    next: usize,
    page_fetched: bool,
    found: Vec<String>,
}

pub struct DiscoveryView {
    /// The input as given.
    pub site: Seq<char>,
    /// The input normalized.
    pub base: Seq<char>,
    /// The candidates so far, in the order they are tried.
    pub queue: Seq<Seq<char>>,
    /// How many candidates have been tried.
    pub next: int,
    /// Whether the page itself has been fetched.
    pub page_fetched: bool,
    /// The candidates that answered with a feed, in text order.
    pub found: Seq<Seq<char>>,
}

impl View for Discovery {
    type V = DiscoveryView;

    closed spec fn view(&self) -> DiscoveryView {
        DiscoveryView {
            site: self.site@,
            base: self.base@,
            queue: strings_view(self.queue@),
            next: self.next as int,
            page_fetched: self.page_fetched,
            found: strings_view(self.found@),
        }
    }
}

impl DiscoveryView {
    pub open spec fn wf(self) -> bool {
        &&& 0 <= self.next <= self.queue.len()
        &&& strictly_sorted(self.found)
        &&& forall|i: int| 0 <= i < self.found.len() ==> #[trigger] self.was_tried(self.found[i])
    }

    /// Whether `x` is one of the candidates tried so far.
    pub open spec fn was_tried(self, x: Seq<char>) -> bool {
        exists|k: int| 0 <= k < self.next && self.queue[k] == x
    }

    /// How `Discovery::on_verified` moves the search from `self` to `d`.
    pub open spec fn verified_next(self, d: DiscoveryView, is_feed: bool) -> bool {
        &&& d.wf()
        &&& d.site == self.site
        &&& d.base == self.base
        &&& d.queue == self.queue
        &&& d.next == self.next + 1
        &&& d.page_fetched == self.page_fetched
        &&& is_feed ==> d.found.to_set() == self.found.to_set().insert(self.queue[self.next])
        &&& !is_feed ==> d.found == self.found
    }

    /// How `Discovery::on_page` moves the search.
    pub open spec fn with_page(self, page: Option<Seq<char>>) -> DiscoveryView {
        DiscoveryView {
            queue: self.queue + match page {
                Some(p) => page_feed_links_spec(self.base, p),
                None => Seq::empty(),
            },
            page_fetched: true,
            ..self
        }
    }

    /// Every candidate has been tried.
    pub open spec fn is_done(self) -> bool {
        self.next == self.queue.len() && self.page_fetched
    }

    /// A search that has tried nothing yet.
    pub open spec fn fresh(site: Seq<char>, base: Seq<char>) -> DiscoveryView {
        DiscoveryView {
            site,
            base,
            queue: probe_urls_spec(base),
            next: 0,
            page_fetched: false,
            found: Seq::empty(),
        }
    }
}

fn insert_sorted(found: &mut Vec<String>, x: String)
    requires
        strictly_sorted(strings_view(old(found)@)),
    ensures
        strictly_sorted(strings_view(final(found)@)),
        strings_view(final(found)@).to_set() == strings_view(old(found)@).to_set().insert(x@),
{
    let ghost s = strings_view(found@);
    let xc = chars_of(x.as_str());
    let mut p: usize = 0;
    loop
        invariant
            p <= found.len(),
            s == strings_view(found@),
            xc@ == x@,
            forall|k: int| 0 <= k < p ==> text_lt(#[trigger] s[k], x@),
        ensures
            p <= found.len(),
            forall|k: int| 0 <= k < p ==> text_lt(#[trigger] s[k], x@),
            p < found.len() ==> !text_lt(s[p as int], x@),
        decreases found.len() - p,
    {
        if p == found.len() {
            break;
        }
        let here = chars_of(found[p].as_str());
        if !text_lt_exec(&here, &xc) {
            break;
        }
        p = p + 1;
    }
    if p < found.len() && found[p] == x {
        proof {
            assert(s.insert(0, x@).to_set() =~= s.to_set().insert(x@)) by {
                broadcast use vstd::seq_lib::group_seq_properties;
            }
            assert(s.to_set() =~= s.to_set().insert(x@)) by {
                assert(s[p as int] == x@);
                assert(s.contains(x@));
            }
        }
        return;
    }
    proof {
        if p < s.len() {
            assert(!text_lt(s[p as int], x@));
            assert(s[p as int] != x@);
            lemma_text_lt_total(s[p as int], x@);
        }
    }
    found.insert(p, x);
    proof {
        let t = strings_view(found@);
        assert(t =~= s.insert(p as int, xc@));
        assert forall|i: int, j: int| 0 <= i < j < t.len() implies text_lt(t[i], t[j]) by {
            if j < p {
            } else if j == p {
            } else if i < p {
                if j == p + 1 {
                    // t[j] == s[p]
                    lemma_text_lt_transitive(s[i], xc@, s[p as int]);
                } else {
                    lemma_text_lt_transitive(s[i], xc@, s[p as int]);
                    if p + 1 < j {
                        lemma_text_lt_transitive(s[i], s[p as int], s[j - 1]);
                    }
                }
            } else if i == p {
                if j - 1 > p {
                    lemma_text_lt_transitive(xc@, s[p as int], s[j - 1]);
                }
            } else {
            }
        }
        assert forall|y: Seq<char>| t.to_set().contains(y) <==> s.to_set().insert(xc@).contains(y) by {
            if t.contains(y) {
                let k = choose|k: int| 0 <= k < t.len() && t[k] == y;
                if k < p {
                    assert(s[k] == y);
                } else if k > p {
                    assert(s[k - 1] == y);
                }
            }
            if s.contains(y) {
                let k = choose|k: int| 0 <= k < s.len() && s[k] == y;
                if k < p {
                    assert(t[k] == y);
                } else {
                    assert(t[k + 1] == y);
                }
            }
            if y == xc@ {
                assert(t[p as int] == y);
            }
        }
        assert(t.to_set() =~= s.to_set().insert(xc@));
    }
}

impl Discovery {
    pub open spec fn wf(&self) -> bool {
        self@.wf()
    }

    /// Starts the search for the feeds of a site or feed address as typed.
    pub fn start(site: &str) -> (r: Result<Discovery, DiscoveryError>)
        ensures
            match r {
                Ok(d) => d.wf() && exists|b: Seq<char>|
                    normalize_url_spec(site@) == Some(b) && d@ == DiscoveryView::fresh(site@, b),
                Err(e) => normalize_url_spec(site@).is_none() && e == DiscoveryError::EmptyUrl,
            },
    {
        let base = match normalize_url(site) {
            Ok(b) => b,
            Err(e) => return Err(e),
        };
        let queue = probe_urls(base.as_str());
        let d = Discovery {
            site: String::from_str(site),
            base,
            queue,
            next: 0,
            page_fetched: false,
            found: Vec::new(),
        };
        assert(d@.found =~= Seq::<Seq<char>>::empty());
        assert(d@ == DiscoveryView::fresh(site@, d.base@));
        Ok(d)
    }

    /// What to do next.
    pub fn step(&self) -> (r: DiscoveryStep)
        requires
            self.wf(),
        ensures
            match r {
                DiscoveryStep::Verify(u) => self@.next < self@.queue.len() && u@ == self@.queue[self@.next],
                DiscoveryStep::FetchPage(u) => self@.next == self@.queue.len() && !self@.page_fetched && u@
                    == self@.base,
                DiscoveryStep::Done => self@.next == self@.queue.len() && self@.page_fetched,
            },
    {
        if self.next < self.queue.len() {
            DiscoveryStep::Verify(self.queue[self.next].clone())
        } else if !self.page_fetched {
            DiscoveryStep::FetchPage(self.base.clone())
        } else {
            DiscoveryStep::Done
        }
    }

    /// Records whether the candidate asked for (`DiscoveryStep::Verify`) answered
    /// with a feed.
    pub fn on_verified(&mut self, is_feed: bool)
        requires
            old(self).wf(),
            old(self)@.next < old(self)@.queue.len(),
        ensures
            final(self).wf(),
            old(self)@.verified_next(final(self)@, is_feed),
    {
        let ghost v0 = self@;
        assert(self.next < self.queue.len());
        if is_feed {
            let u = self.queue[self.next].clone();
            insert_sorted(&mut self.found, u);
        }
        self.next = self.next + 1;
        proof {
            let v = self@;
            assert forall|i: int| 0 <= i < v.found.len() implies #[trigger] v.was_tried(v.found[i]) by {
                let x = v.found[i];
                assert(v.found.to_set().contains(x));
                if is_feed && x == v0.queue[v0.next] {
                    assert(v.queue[v0.next] == x);
                } else {
                    assert(v0.found.to_set().contains(x));
                    let j = choose|j: int| 0 <= j < v0.found.len() && v0.found[j] == x;
                    assert(v0.was_tried(v0.found[j]));
                    let k = choose|k: int| 0 <= k < v0.next && v0.queue[k] == x;
                    assert(v.queue[k] == x);
                }
            }
        }
    }

    /// Takes the page asked for (`DiscoveryStep::FetchPage`): its feed links become
    /// further candidates.
    pub fn on_page(&mut self, page: Option<String>)
        requires
            old(self).wf(),
            old(self)@.next == old(self)@.queue.len(),
            !old(self)@.page_fetched,
        ensures
            final(self).wf(),
            final(self)@ == old(self)@.with_page(
                match page {
                    Some(p) => Some(p@),
                    None => None,
                },
            ),
    {
        let ghost before = self@;
        match page {
            Some(p) => {
                let links = page_feed_links(self.base.as_str(), p.as_str());
                let mut i: usize = 0;
                while i < links.len()
                    invariant
                        i <= links.len(),
                        self.site@ == before.site,
                        self.base@ == before.base,
                        self.next as int == before.next,
                        self.page_fetched == before.page_fetched,
                        strings_view(self.found@) == before.found,
                        strings_view(self.queue@) == before.queue + strings_view(links@).take(i as int),
                    decreases links.len() - i,
                {
                    let ghost q = strings_view(self.queue@);
                    self.queue.push(links[i].clone());
                    assert(strings_view(self.queue@) =~= q.push(links@[i as int]@));
                    assert(strings_view(links@).take(i + 1) =~= strings_view(links@).take(i as int).push(
                        links@[i as int]@,
                    ));
                    i = i + 1;
                }
                assert(strings_view(links@).take(links.len() as int) =~= strings_view(links@));
            },
            None => {
                assert(before.queue + Seq::<Seq<char>>::empty() =~= before.queue);
            },
        }
        self.page_fetched = true;
        proof {
            let v = self@;
            assert forall|i: int| 0 <= i < v.found.len() implies #[trigger] v.was_tried(v.found[i]) by {
                let x = v.found[i];
                assert(before.was_tried(before.found[i]));
                let k = choose|k: int| 0 <= k < before.next && before.queue[k] == x;
                assert(v.queue[k] == before.queue[k]);
            }
        }
    }

    /// The outcome: the feeds found, in text order, or `NoFeedFound` where none was.
    pub fn finish(&self) -> (r: Result<DiscoveryResult, DiscoveryError>)
        requires
            self.wf(),
        ensures
            match r {
                Ok(res) => self@.found.len() > 0 && strings_view(res.feeds@) == self@.found
                    && strictly_sorted(strings_view(res.feeds@)) && forall|i: int|
                    0 <= i < res.feeds@.len() ==> self@.was_tried(#[trigger] res.feeds@[i]@),
                Err(e) => self@.found.len() == 0 && (e matches DiscoveryError::NoFeedFound(s) && s@
                    == self@.site),
            },
    {
        if self.found.len() == 0 {
            return Err(DiscoveryError::NoFeedFound(self.site.clone()));
        }
        let mut feeds: Vec<String> = Vec::new();
        let mut i: usize = 0;
        while i < self.found.len()
            invariant
                i <= self.found.len(),
                strings_view(feeds@) == strings_view(self.found@).take(i as int),
            decreases self.found.len() - i,
        {
            let ghost f = strings_view(feeds@);
            feeds.push(self.found[i].clone());
            assert(strings_view(feeds@) =~= f.push(self.found@[i as int]@));
            assert(strings_view(self.found@).take(i + 1) =~= strings_view(self.found@).take(i as int).push(
                self.found@[i as int]@,
            ));
            i = i + 1;
        }
        assert(strings_view(self.found@).take(self.found.len() as int) =~= strings_view(self.found@));
        assert forall|i: int| 0 <= i < feeds@.len() implies self@.was_tried(#[trigger] feeds@[i]@) by {
            assert(strings_view(feeds@)[i] == feeds@[i]@);
            assert(self@.was_tried(self@.found[i]));
        }
        Ok(DiscoveryResult { feeds })
    }
}

} // verus!

use vstd::prelude::*;

use crate::text::{
    chars_of, decimal_nat, decimal_u64, eq_ignore_ascii_case_chars, eq_ignore_ascii_case_seq,
    extend_chars, lower_chars, lower_seq, starts_with_chars, string_of, strip_prefix_seq,
    sub_chars, trim_chars, trim_end_char, trim_end_char_seq, trim_seq, trim_start_matches_chars,
    trim_start_matches_seq, trimmed,
};

verus! {

/// What the logic reads of a parsed URL.
pub struct UrlParts {
    pub scheme: String,
    pub host: Option<String>,
    pub port: Option<u16>,
}

pub open spec fn opt_view(o: Option<String>) -> Option<Seq<char>> {
    match o {
        Some(s) => Some(s@),
        None => None,
    }
}

impl UrlParts {
    pub open spec fn parts_view(&self) -> (Seq<char>, Option<Seq<char>>, Option<u16>) {
        (self.scheme@, opt_view(self.host), self.port)
    }
}

/// What `url::Url::parse` makes of a string: `None` where it refuses it,
/// otherwise the scheme, the host (`Url::host_str`) and the explicit
/// non-default port (`Url::port`).
pub uninterp spec fn spec_url_parts(input: Seq<char>) -> Option<(Seq<char>, Option<Seq<char>>, Option<u16>)>;

/// The serialization of `url::Url::join` applied to `url::Url::parse(base)` and `href`,
/// or `None` where either step fails.
pub uninterp spec fn spec_url_join(base: Seq<char>, href: Seq<char>) -> Option<Seq<char>>;

/// Calls `url::Url::parse` and reads the scheme, host and port of the result.
/// The contract claims only that the result is the named function of the input.
#[verifier::external_body]
fn url_parse(input: &str) -> (r: Option<UrlParts>)
    ensures
        match r {
            Some(p) => spec_url_parts(input@) == Some(p.parts_view()),
            None => spec_url_parts(input@).is_none(),
        },
{
    match url::Url::parse(input) {
        Ok(u) => Some(
            UrlParts {
                scheme: u.scheme().to_string(),
                host: u.host_str().map(|h| h.to_string()),
                port: u.port(),
            },
        ),
        Err(_) => None,
    }
}

/// Calls `url::Url::join` on `base` parsed by `url::Url::parse`, and serializes
/// the joined URL. The contract claims only that the result is the named
/// function of the two inputs.
#[verifier::external_body]
fn url_join(base: &str, href: &str) -> (r: Option<String>)
    ensures
        opt_view(r) == spec_url_join(base@, href@),
{
    match url::Url::parse(base) {
        Ok(b) => match b.join(href) {
            Ok(u) => Some(u.as_str().to_string()),
            Err(_) => None,
        },
        Err(_) => None,
    }
}

/// Resolves `href` against `base` as a browser would (`Url::join`).
pub fn join_url(base: &str, href: &str) -> (r: Option<String>)
    ensures
        opt_view(r) == spec_url_join(base@, href@),
{
    url_join(base, href)
}

/// The text that the URL helpers start from: trimmed, without trailing slashes.
pub open spec fn url_core(raw: Seq<char>) -> Seq<char> {
    trim_end_char_seq(trim_seq(raw), '/')
}

fn url_core_exec(raw: &str) -> (r: Vec<char>)
    ensures
        r@ == url_core(raw@),
{
    let v = chars_of(raw);
    let t = trim_chars(&v);
    trim_end_char(&t, '/')
}

pub open spec fn port_suffix(port: Option<u16>) -> Seq<char> {
    match port {
        Some(p) => seq![':'] + decimal_nat(p as nat),
        None => Seq::empty(),
    }
}

fn push_port(v: &mut Vec<char>, port: Option<u16>)
    ensures
        final(v)@ == old(v)@ + port_suffix(port),
{
    match port {
        Some(p) => {
            let d = decimal_u64(p as u64);
            let ghost before = v@;
            v.push(':');
            extend_chars(v, &d);
            assert(before.push(':') + d@ == before + (seq![':'] + d@));
        },
        None => {
            assert(v@ + Seq::<char>::empty() == v@);
        },
    }
}

/// The key by which two feed or site URLs count as the same site: the host,
/// lower-cased, without one leading `www.`, with a non-default port appended;
/// the cleaned input itself where it has no such host.
pub open spec fn canonical_host_spec(raw: Seq<char>) -> Seq<char> {
    let t = url_core(raw);
    match spec_url_parts(t) {
        Some(parts) => {
            let h0 = lower_seq(
                match parts.1 {
                    Some(h) => h,
                    None => Seq::empty(),
                },
            );
            let h1 = match strip_prefix_seq(h0, "www."@) {
                Some(x) => x,
                None => h0,
            };
            let h2 = h1 + port_suffix(parts.2);
            if h2.len() == 0 {
                t
            } else {
                h2
            }
        },
        None => t,
    }
}

pub fn canonical_host_chars(raw: &str) -> (r: Vec<char>)
    ensures
        r@ == canonical_host_spec(raw@),
{
    let t = url_core_exec(raw);
    let ts = string_of(&t);
    match url_parse(ts.as_str()) {
        Some(parts) => {
            let h0 = match &parts.host {
                Some(h) => lower_chars(&chars_of(h.as_str())),
                None => {
                    let e: Vec<char> = Vec::new();
                    assert(lower_seq(e@) == e@);
                    e
                },
            };
            let www = chars_of("www.");
            let mut h1 = if starts_with_chars(&h0, &www) {
                sub_chars(&h0, www.len(), h0.len())
            } else {
                h0
            };
            push_port(&mut h1, parts.port);
            if h1.len() == 0 {
                t
            } else {
                h1
            }
        },
        None => t,
    }
}

/// The key by which URLs count as one site (see `canonical_host_spec`).
pub fn canonical_host(raw: &str) -> (r: String)
    ensures
        r@ == canonical_host_spec(raw@),
{
    let v = canonical_host_chars(raw);
    string_of(&v)
}

pub open spec fn same_host_spec(lhs: Seq<char>, rhs: Seq<char>) -> bool {
    eq_ignore_ascii_case_seq(canonical_host_spec(lhs), canonical_host_spec(rhs))
}

/// Whether two URLs belong to the same site (their canonical hosts agree up to ASCII case).
pub fn same_host(lhs: &str, rhs: &str) -> (r: bool)
    ensures
        r == same_host_spec(lhs@, rhs@),
{
    let a = canonical_host_chars(lhs);
    let b = canonical_host_chars(rhs);
    eq_ignore_ascii_case_chars(&a, &b)
}

/// The root of the site a URL belongs to: `scheme://host[:port]`, or the cleaned
/// input where it does not parse or has no host.
pub open spec fn canonical_site_url_spec(url: Seq<char>) -> Seq<char> {
    let t = url_core(url);
    match spec_url_parts(t) {
        Some(parts) => match parts.1 {
            Some(h) => parts.0 + "://"@ + h + port_suffix(parts.2),
            None => t,
        },
        None => t,
    }
}

pub fn canonical_site_url(url: &str) -> (r: String)
    ensures
        r@ == canonical_site_url_spec(url@),
{
    let t = url_core_exec(url);
    let ts = string_of(&t);
    match url_parse(ts.as_str()) {
        Some(parts) => match &parts.host {
            Some(h) => {
                let mut r = chars_of(parts.scheme.as_str());
                extend_chars(&mut r, &chars_of("://"));
                extend_chars(&mut r, &chars_of(h.as_str()));
                push_port(&mut r, parts.port);
                string_of(&r)
            },
            None => ts,
        },
        None => ts,
    }
}

/// The title a feed gets from its URL when it has none: the host without
/// leading `www.`s, or the cleaned URL where that is empty or it does not parse.
pub open spec fn feed_title_from_url_spec(url: Seq<char>) -> Seq<char> {
    let t = url_core(url);
    match spec_url_parts(t) {
        Some(parts) => {
            let host = trim_start_matches_seq(
                match parts.1 {
                    Some(h) => h,
                    None => t,
                },
                "www."@,
            );
            if host.len() == 0 {
                t
            } else {
                host
            }
        },
        None => t,
    }
}

pub fn feed_title_from_url(url: &str) -> (r: String)
    ensures
        r@ == feed_title_from_url_spec(url@),
{
    let t = url_core_exec(url);
    let ts = string_of(&t);
    match url_parse(ts.as_str()) {
        Some(parts) => {
            let base = match &parts.host {
                Some(h) => chars_of(h.as_str()),
                None => {
                    assert(t@.subrange(0, t@.len() as int) == t@);
                    sub_chars(&t, 0, t.len())
                },
            };
            let www = chars_of("www.");
            let host = trim_start_matches_chars(&base, &www);
            if host.len() == 0 {
                ts
            } else {
                string_of(&host)
            }
        },
        None => ts,
    }
}

/// The title shown for a feed that has none: the host without leading `www.`s,
/// or the cleaned URL where it does not parse or has no host.
pub open spec fn feed_fallback_title_spec(url: Seq<char>) -> Seq<char> {
    let t = url_core(url);
    match spec_url_parts(t) {
        Some(parts) => match parts.1 {
            Some(h) => trim_start_matches_seq(h, "www."@),
            None => t,
        },
        None => t,
    }
}

pub fn feed_fallback_title(url: &str) -> (r: String)
    ensures
        r@ == feed_fallback_title_spec(url@),
{
    let t = url_core_exec(url);
    let ts = string_of(&t);
    match url_parse(ts.as_str()) {
        Some(parts) => match &parts.host {
            Some(h) => {
                let host = trim_start_matches_chars(&chars_of(h.as_str()), &chars_of("www."));
                string_of(&host)
            },
            None => ts,
        },
        None => ts,
    }
}

pub open spec fn feed_display_title_spec(url: Seq<char>, title: Option<Seq<char>>) -> Seq<char> {
    match title {
        Some(v) => if trim_seq(v).len() == 0 {
            feed_fallback_title_spec(url)
        } else {
            trim_seq(v)
        },
        None => feed_fallback_title_spec(url),
    }
}

/// The title shown for a feed: its own title trimmed, or the fallback title.
pub fn feed_display_title(url: &str, title: Option<&String>) -> (r: String)
    ensures
        r@ == feed_display_title_spec(
            url@,
            match title {
                Some(t) => Some(t@),
                None => None,
            },
        ),
{
    match title {
        Some(value) => {
            let v = trimmed(value.as_str());
            if v.as_str().unicode_len() == 0 {
                feed_fallback_title(url)
            } else {
                v
            }
        },
        None => feed_fallback_title(url),
    }
}

/// Whether `url::Url::parse` accepts the text.
pub fn looks_like_url(candidate: &str) -> (r: bool)
    ensures
        r == spec_url_parts(candidate@).is_some(),
{
    url_parse(candidate).is_some()
}

} // verus!

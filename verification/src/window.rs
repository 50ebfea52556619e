use vstd::prelude::*;

use crate::cli::{discovery_view, feed_targets, feed_targets_spec, sat_add_nat};
use crate::discovery::{DiscoveryError, DiscoveryResult};
use crate::display::{join_lines, join_lines_spec, strings_view};
use crate::text::{chars_of, decimal_nat, decimal_u64, extend_chars, string_of};

verus! {

/// The status the window shows once the URLs typed were worked through: an error
/// where none was given (`tokens` counts the non-empty ones), else how many feeds
/// were added or updated.
pub fn add_feeds_status(tokens: usize, added: usize) -> (r: Result<String, String>)
    ensures
        match r {
            Err(m) => tokens == 0 && m@ == "enter at least one url"@,
            Ok(m) => tokens > 0 && m@ == (if added == 0 {
                "no new feeds added"@
            } else {
                decimal_nat(added as nat) + " feed(s) added/updated"@
            }),
        },
{
    if tokens == 0 {
        return Err(String::from_str("enter at least one url"));
    }
    if added == 0 {
        return Ok(String::from_str("no new feeds added"));
    }
    let mut v = decimal_u64(added as u64);
    extend_chars(&mut v, &chars_of(" feed(s) added/updated"));
    Ok(string_of(&v))
}

/// The counts the window's import reports (each stops at `usize::MAX`).
#[derive(Debug)]
pub struct WindowImport {
    /// Sources processed.
    pub attempted: usize,
    /// Feed URLs added or updated.
    pub added: usize,
    /// Sources whose discovery failed, so that the source itself was tried.
    pub fallback: usize,
}

impl WindowImport {
    pub fn new() -> (r: WindowImport)
        ensures
            r.attempted == 0 && r.added == 0 && r.fallback == 0,
    {
        WindowImport { attempted: 0, added: 0, fallback: 0 }
    }

    /// Counts one source, given how discovering its feeds went, and returns the feed
    /// URLs to add for it.
    pub fn record(&mut self, source: &str, found: Result<DiscoveryResult, DiscoveryError>) -> (r: Vec<String>)
        ensures
            strings_view(r@) == feed_targets_spec(source@, discovery_view(found)),
            final(self).attempted == sat_add_nat(old(self).attempted, 1),
            final(self).added == old(self).added,
            final(self).fallback == sat_add_nat(
                old(self).fallback,
                if found is Err {
                    1nat
                } else {
                    0nat
                },
            ),
    {
        self.attempted = self.attempted.saturating_add(1);
        if found.is_err() {
            self.fallback = self.fallback.saturating_add(1);
        }
        feed_targets(source, found)
    }

    /// Counts one feed URL that was added or updated.
    pub fn record_added(&mut self)
        ensures
            final(self).added == sat_add_nat(old(self).added, 1),
            final(self).attempted == old(self).attempted,
            final(self).fallback == old(self).fallback,
    {
        self.added = self.added.saturating_add(1);
    }

    /// The status shown when the import ends.
    pub fn summary(&self) -> (r: String)
        ensures
            r@ == if self.attempted == 0 {
                "no import sites found"@
            } else {
                "import complete: "@ + decimal_nat(self.attempted as nat) + " site(s) processed, "@ + decimal_nat(
                    self.added as nat,
                ) + " feed URL(s) added/updated, "@ + decimal_nat(self.fallback as nat) + " fallback URLs, "@
                    + decimal_nat(
                    if self.attempted >= self.added {
                        (self.attempted - self.added) as nat
                    } else {
                        0nat
                    },
                ) + " failed"@
            },
    {
        if self.attempted == 0 {
            return String::from_str("no import sites found");
        }
        let failed = self.attempted.saturating_sub(self.added);
        let mut v = chars_of("import complete: ");
        extend_chars(&mut v, &decimal_u64(self.attempted as u64));
        extend_chars(&mut v, &chars_of(" site(s) processed, "));
        extend_chars(&mut v, &decimal_u64(self.added as u64));
        extend_chars(&mut v, &chars_of(" feed URL(s) added/updated, "));
        extend_chars(&mut v, &decimal_u64(self.fallback as u64));
        extend_chars(&mut v, &chars_of(" fallback URLs, "));
        extend_chars(&mut v, &decimal_u64(failed as u64));
        extend_chars(&mut v, &chars_of(" failed"));
        string_of(&v)
    }
}

/// What the window writes to an export file: each line ended by a newline, and
/// nothing at all where there are no lines.
pub fn export_file_payload(lines: &Vec<String>) -> (r: String)
    ensures
        r@ == if lines@.len() == 0 {
            Seq::<char>::empty()
        } else {
            join_lines_spec(strings_view(lines@)) + seq!['\n']
        },
{
    if lines.len() == 0 {
        return String::new();
    }
    let j = join_lines(lines);
    let mut v = chars_of(j.as_str());
    v.push('\n');
    string_of(&v)
}

/// The status after marking the visible entries read: how many were marked.
pub fn marked_read_status(marked: usize) -> (r: String)
    ensures
        r@ == decimal_nat(marked as nat) + " entries marked read"@,
{
    let mut v = decimal_u64(marked as u64);
    extend_chars(&mut v, &chars_of(" entries marked read"));
    string_of(&v)
}

/// The status after a sync of all feeds: how many new items it stored.
pub fn sync_status(new_items: usize) -> (r: String)
    ensures
        r@ == if new_items == 0 {
            "last sync: no new items"@
        } else {
            "last sync: "@ + decimal_nat(new_items as nat) + " new item(s)"@
        },
{
    if new_items == 0 {
        return String::from_str("last sync: no new items");
    }
    let mut v = chars_of("last sync: ");
    extend_chars(&mut v, &decimal_u64(new_items as u64));
    extend_chars(&mut v, &chars_of(" new item(s)"));
    string_of(&v)
}

} // verus!

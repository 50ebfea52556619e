use vstd::prelude::*;

use crate::discovery::{normalize_url, normalize_url_spec, DiscoveryError, DiscoveryResult};
use crate::display::{join_lines, join_lines_spec, strings_view};
use crate::text::{chars_of, decimal_nat, decimal_u64, extend_chars, string_of};

verus! {

/// The command line: an optional command and the options shared by all.
#[derive(Debug)]
pub struct CliArgs {
    pub command: Option<Commands>,
    /// Minutes between two syncs of the daemon and the desktop app (15 by default).
    pub interval_minutes: u64,
    pub start_minimized: bool,
    /// The database file; empty for the default one.
    pub db: String,
    /// Print JSON rather than text.
    pub json: bool,
}

/// What the command line asks for.
#[derive(Debug)]
pub enum Commands {
    /// Add feed URLs directly, or discover them from site URLs.
    Add { urls: Vec<String>, discover: bool, title: Option<String> },
    /// Remove a feed by id.
    Remove { id: i64 },
    /// List the configured feeds.
    Feeds,
    /// Discover RSS/Atom links from a website.
    Discover { url: String },
    /// Sync all feeds now.
    Sync,
    /// Sync all feeds periodically.
    Daemon,
    /// List entries.
    List { feed: Option<i64>, limit: usize, unread_only: bool },
    /// Search entries by text.
    Search { query: String, feed: Option<i64>, limit: usize, unread_only: bool },
    /// Export the configured site URLs, to a file or to standard output.
    Export { output: Option<String> },
    /// Import site URLs from a backup file and add or discover their feeds.
    Import { input: String },
    /// Mark an entry read or unread.
    Read { id: i64, unread: bool },
    /// Open the desktop window.
    Gui,
}

impl CliArgs {
    /// The database file asked for: `None` where the option is empty.
    pub fn db_path(&self) -> (r: Option<String>)
        ensures
            match r {
                Some(p) => self.db@.len() > 0 && p@ == self.db@,
                None => self.db@.len() == 0,
            },
    {
        if self.db.as_str().unicode_len() == 0 {
            None
        } else {
            Some(self.db.clone())
        }
    }

    /// Whether the desktop window is asked for: no command, or `gui`.
    pub fn runs_gui(&self) -> (r: bool)
        ensures
            r == match self.command {
                None => true,
                Some(Commands::Gui) => true,
                Some(_) => false,
            },
    {
        match &self.command {
            None => true,
            Some(Commands::Gui) => true,
            Some(_) => false,
        }
    }

    /// The seconds the daemon sleeps between two syncs.
    pub fn daemon_sleep_secs(&self) -> (r: u64)
        requires
            self.interval_minutes * 60 <= u64::MAX,
        ensures
            r == self.interval_minutes * 60,
    {
        self.interval_minutes * 60
    }
}

/// The feed URLs to add for a source: those discovered, else the source itself
/// as a URL (none where it is empty).
pub open spec fn feed_targets_spec(source: Seq<char>, found: Result<Seq<Seq<char>>, ()>) -> Seq<Seq<char>> {
    match found {
        Ok(feeds) => feeds,
        Err(_) => match normalize_url_spec(source) {
            Some(u) => seq![u],
            None => Seq::empty(),
        },
    }
}

pub open spec fn discovery_view(d: Result<DiscoveryResult, DiscoveryError>) -> Result<Seq<Seq<char>>, ()> {
    match d {
        Ok(r) => Ok(strings_view(r.feeds@)),
        Err(_) => Err(()),
    }
}

/// The feed URLs to add for a source, given how discovering its feeds went.
pub fn feed_targets(source: &str, found: Result<DiscoveryResult, DiscoveryError>) -> (r: Vec<String>)
    ensures
        strings_view(r@) == feed_targets_spec(source@, discovery_view(found)),
{
    match found {
        Ok(res) => res.feeds,
        Err(_) => match normalize_url(source) {
            Ok(u) => {
                let mut v: Vec<String> = Vec::new();
                v.push(u);
                assert(strings_view(v@) =~= seq![v@[0]@]);
                v
            },
            Err(_) => {
                let v: Vec<String> = Vec::new();
                assert(strings_view(v@) =~= Seq::<Seq<char>>::empty());
                v
            },
        },
    }
}

/// The counts an import reports.
#[derive(Debug)]
pub struct ImportTally {
    /// Sources processed.
    pub attempted: usize,
    /// Feed URLs added or updated.
    pub discovered: usize,
    /// Sources with no URL to add (counted once more where even the source itself
    /// is no URL).
    pub fallback: usize,
}

pub open spec fn sat_add_nat(a: usize, b: nat) -> usize {
    if a + b > usize::MAX {
        usize::MAX
    } else {
        (a + b) as usize
    }
}

impl ImportTally {
    pub fn new() -> (r: ImportTally)
        ensures
            r.attempted == 0 && r.discovered == 0 && r.fallback == 0,
    {
        ImportTally { attempted: 0, discovered: 0, fallback: 0 }
    }

    /// Counts one source, given how discovering its feeds went, and returns the feed
    /// URLs to add for it (the counters stop at `usize::MAX`).
    pub fn record(&mut self, source: &str, found: Result<DiscoveryResult, DiscoveryError>) -> (r: Vec<String>)
        ensures
            strings_view(r@) == feed_targets_spec(source@, discovery_view(found)),
            final(self).attempted == sat_add_nat(old(self).attempted, 1),
            final(self).discovered == sat_add_nat(old(self).discovered, r@.len()),
            final(self).fallback == sat_add_nat(
                old(self).fallback,
                (if found is Err && normalize_url_spec(source@).is_none() {
                    1nat
                } else {
                    0nat
                }) + (if r@.len() == 0 {
                    1nat
                } else {
                    0nat
                }),
            ),
    {
        self.attempted = self.attempted.saturating_add(1);
        let failed = found.is_err();
        let ghost fv = discovery_view(found);
        let targets = feed_targets(source, found);
        assert(strings_view(targets@).len() == targets@.len());
        assert(failed ==> fv is Err);
        let mut extra: usize = 0;
        if failed && targets.len() == 0 {
            extra = 1;
        }
        if targets.len() == 0 {
            extra = extra + 1;
        }
        self.fallback = self.fallback.saturating_add(extra);
        self.discovered = self.discovered.saturating_add(targets.len());
        targets
    }

    /// The line printed when the import ends.
    pub fn summary(&self) -> (r: String)
        ensures
            r@ == if self.attempted == 0 {
                "no import sites found"@
            } else {
                "import complete: "@ + decimal_nat(self.attempted as nat) + " site(s) processed, "@ + decimal_nat(
                    self.discovered as nat,
                ) + " feed URL(s) added/updated, "@ + decimal_nat(self.fallback as nat)
                    + " fallback/skipped, "@ + decimal_nat(
                    if self.attempted >= self.discovered {
                        (self.attempted - self.discovered) as nat
                    } else {
                        0nat
                    },
                ) + " failed"@
            },
    {
        if self.attempted == 0 {
            return String::from_str("no import sites found");
        }
        let failed = self.attempted.saturating_sub(self.discovered);
        let mut v = chars_of("import complete: ");
        extend_chars(&mut v, &decimal_u64(self.attempted as u64));
        extend_chars(&mut v, &chars_of(" site(s) processed, "));
        extend_chars(&mut v, &decimal_u64(self.discovered as u64));
        extend_chars(&mut v, &chars_of(" feed URL(s) added/updated, "));
        extend_chars(&mut v, &decimal_u64(self.fallback as u64));
        extend_chars(&mut v, &chars_of(" fallback/skipped, "));
        extend_chars(&mut v, &decimal_u64(failed as u64));
        extend_chars(&mut v, &chars_of(" failed"));
        string_of(&v)
    }
}

/// The line `add` prints when it added no feed; none where it added some.
pub fn add_done_message(added: usize) -> (r: Option<String>)
    ensures
        match r {
            Some(m) => added == 0 && m@ == "No new feeds added."@,
            None => added > 0,
        },
{
    if added == 0 {
        Some(String::from_str("No new feeds added."))
    } else {
        None
    }
}

/// What `export` writes to the file it is given: the lines joined, and a newline.
pub fn export_file_text(lines: &Vec<String>) -> (r: String)
    ensures
        r@ == join_lines_spec(strings_view(lines@)) + seq!['\n'],
{
    let j = join_lines(lines);
    let mut v = chars_of(j.as_str());
    v.push('\n');
    string_of(&v)
}

/// What `export` prints without a file: the lines joined (with no newline after
/// the last), or a comment line where there are none.
pub fn export_stdout_text(lines: &Vec<String>) -> (r: String)
    ensures
        r@ == if lines@.len() == 0 {
            "# no feeds configured\n"@
        } else {
            join_lines_spec(strings_view(lines@))
        },
{
    if lines.len() == 0 {
        return String::from_str("# no feeds configured\n");
    }
    join_lines(lines)
}

} // verus!

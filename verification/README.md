# nimbus

A local RSS/Atom feed reader: feeds and entries live in a SQLite file, feeds are
discovered from site addresses, synced over HTTP, listed, searched, marked read,
exported and imported.

The library under `src/` is verified with Verus. It holds the store as a value
(`storage.rs`: feeds, entries, their invariants, every query and update, and the
merging of feeds of one site), the feed parser (`feed_parser.rs` over the node
list that `xml.rs` reads with roxmltree), URL helpers (`urls.rs`, over the `url`
crate), discovery and syncing as step machines that ask their caller to fetch
(`discovery.rs`, `syncer.rs`), the text shown and exported (`display.rs`,
`html.rs`, `time.rs`, `like.rs`, `text.rs`), the command line's plain types and
helpers (`cli.rs`, `config.rs`), and the desktop window's counts, messages and
export text (`window.rs`). `laws.rs` and the end of `storage.rs` state
and prove properties that span several operations.

`app/` is the `nimbus` command: clap parsing, reading and writing the SQLite file
with rusqlite, HTTP with reqwest, and printing. The desktop window is not built.

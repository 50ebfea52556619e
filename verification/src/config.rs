use vstd::prelude::*;

verus! {

/// Where the database lives: its file, and the directory to create first where
/// the file is the default one.
#[derive(Debug)]
pub struct DbLocation {
    pub create_dir: Option<String>,
    pub file: String,
}

/// Why no database path could be chosen.
#[derive(Debug)]
pub enum ConfigError {
    /// Neither a data directory nor a home directory is known.
    NoDataDir,
    /// The directory to use is not valid Unicode, so no text names the file in it.
    DirNotUnicode,
}

impl ConfigError {
    /// The error as a line of text.
    pub fn message(&self) -> (r: String)
        ensures
            r@ == match self {
                ConfigError::NoDataDir => "unable to resolve data dir"@,
                ConfigError::DirNotUnicode => "data dir is not valid unicode"@,
            },
    {
        match self {
            ConfigError::NoDataDir => String::from_str("unable to resolve data dir"),
            ConfigError::DirNotUnicode => String::from_str("data dir is not valid unicode"),
        }
    }
}

/// What a lookup of a platform directory found.
#[derive(Debug)]
pub enum DirLookup {
    /// No such directory is known.
    Missing,
    /// The directory, as text.
    Found(String),
    /// A directory whose path is not valid Unicode.
    NotUnicode,
}

/// A lookup as a plain value: `None` where no directory is known, `Some(None)`
/// where its path is not valid Unicode.
pub open spec fn dir_view(d: DirLookup) -> Option<Option<Seq<char>>> {
    match d {
        DirLookup::Missing => None,
        DirLookup::Found(s) => Some(Some(s@)),
        DirLookup::NotUnicode => Some(None),
    }
}

/// `Path::join` of std on the two paths, as text.
pub uninterp spec fn spec_path_join(base: Seq<char>, part: Seq<char>) -> Seq<char>;

/// Calls `std::path::Path::join` and turns the result back into text. Claims only
/// that the result is the named function of the two paths.
#[verifier::external_body]
fn path_join(base: &str, part: &str) -> (r: String)
    ensures
        r@ == spec_path_join(base@, part@),
{
    std::path::Path::new(base).join(part).to_string_lossy().into_owned()
}

/// Calls `dirs::data_dir` (the platform's directory for user data, read from the
/// environment) and gives its path as text where it is valid Unicode. Nothing is
/// claimed of the result.
#[verifier::external_body]
fn data_dir() -> (r: DirLookup) {
    match dirs::data_dir() {
        None => DirLookup::Missing,
        Some(p) => match p.into_os_string().into_string() {
            Ok(s) => DirLookup::Found(s),
            Err(_) => DirLookup::NotUnicode,
        },
    }
}

/// Calls `dirs::home_dir` (the user's home directory, read from the environment)
/// and gives its path as text where it is valid Unicode. Nothing is claimed of the
/// result.
#[verifier::external_body]
fn home_dir() -> (r: DirLookup) {
    match dirs::home_dir() {
        None => DirLookup::Missing,
        Some(p) => match p.into_os_string().into_string() {
            Ok(s) => DirLookup::Found(s),
            Err(_) => DirLookup::NotUnicode,
        },
    }
}

pub open spec fn location_view(l: DbLocation) -> (Option<Seq<char>>, Seq<char>) {
    (
        match l.create_dir {
            Some(d) => Some(d@),
            None => None,
        },
        l.file@,
    )
}

/// The default database: `feeds.sqlite` in the directory `nimbus` under the data
/// directory, else under the home directory; an error where neither is known, or
/// where the one chosen is not valid Unicode.
pub open spec fn default_location_spec(data: Option<Option<Seq<char>>>, home: Option<Option<Seq<char>>>) -> Result<
    (Option<Seq<char>>, Seq<char>),
    ConfigError,
> {
    let root = match data {
        Some(d) => Some(d),
        None => home,
    };
    match root {
        Some(Some(r)) => {
            let base = spec_path_join(r, "nimbus"@);
            Ok((Some(base), spec_path_join(base, "feeds.sqlite"@)))
        },
        Some(None) => Err(ConfigError::DirNotUnicode),
        None => Err(ConfigError::NoDataDir),
    }
}

/// Whether `r` is what the default rule gives for the data and home directories.
pub open spec fn defaulted(
    r: Result<DbLocation, ConfigError>,
    data: Option<Option<Seq<char>>>,
    home: Option<Option<Seq<char>>>,
) -> bool {
    match (r, default_location_spec(data, home)) {
        (Ok(l), Ok(x)) => location_view(l) == x,
        (Err(e), Err(x)) => e == x,
        _ => false,
    }
}

/// The default database for the given data and home directory lookups.
pub fn default_location(data: DirLookup, home: DirLookup) -> (r: Result<DbLocation, ConfigError>)
    ensures
        defaulted(r, dir_view(data), dir_view(home)),
{
    let root = match data {
        DirLookup::Missing => home,
        d => d,
    };
    let root = match root {
        DirLookup::Found(r) => r,
        DirLookup::NotUnicode => return Err(ConfigError::DirNotUnicode),
        DirLookup::Missing => return Err(ConfigError::NoDataDir),
    };
    let base = path_join(root.as_str(), "nimbus");
    let file = path_join(base.as_str(), "feeds.sqlite");
    Ok(DbLocation { create_dir: Some(base), file })
}

/// The default database of this user.
pub fn default_db_path() -> (r: Result<DbLocation, ConfigError>)
    ensures
        exists|data: Option<Option<Seq<char>>>, home: Option<Option<Seq<char>>>| #[trigger] defaulted(r, data, home),
{
    let data = data_dir();
    let home = home_dir();
    let ghost dv = dir_view(data);
    let ghost hv = dir_view(home);
    let r = default_location(data, home);
    assert(defaulted(r, dv, hv));
    r
}

/// The database to use: the path given, else the default one.
pub fn resolve_db_path(path: Option<&str>) -> (r: Result<DbLocation, ConfigError>)
    ensures
        match path {
            Some(p) => match r {
                Ok(l) => location_view(l) == (None::<Seq<char>>, p@),
                Err(_) => false,
            },
            None => exists|data: Option<Option<Seq<char>>>, home: Option<Option<Seq<char>>>| #[trigger] defaulted(
                r,
                data,
                home,
            ),
        },
{
    match path {
        Some(p) => {
            let l = DbLocation { create_dir: None, file: String::from_str(p) };
            assert(location_view(l) == (None::<Seq<char>>, p@));
            Ok(l)
        },
        None => default_db_path(),
    }
}

} // verus!

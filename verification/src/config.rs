//! Optional config file: which directories to scan for checkouts and which
//! models the "new session" picker offers.

use std::path::PathBuf;
use vstd::prelude::*;

verus! {

/// What the config file says.
#[derive(Debug, Clone, PartialEq, Eq)]
pub struct Config {
    pub repos: Repos,
    pub models: Models,
}

/// Where checkouts are looked for.
#[derive(Debug, Clone, PartialEq, Eq)]
pub struct Repos {
    /// ghq-layout roots (`root/host/owner/repo`). Empty: nothing is scanned.
    pub roots: Vec<PathBuf>,
}

/// Which models are offered.
#[derive(Debug, Clone, PartialEq, Eq)]
pub struct Models {
    /// Candidates passed verbatim to `omp --model`. Empty: omp's default.
    pub list: Vec<String>,
}

impl Default for Repos {
    fn default() -> (r: Self)
        ensures
            r.roots@.len() == 0,
    {
        Repos { roots: Vec::new() }
    }
}

impl Default for Models {
    fn default() -> (r: Self)
        ensures
            r.list@.len() == 0,
    {
        Models { list: Vec::new() }
    }
}

impl Default for Config {
    fn default() -> (r: Self)
        ensures
            r.repos.roots@.len() == 0,
            r.models.list@.len() == 0,
    {
        Config { repos: Repos { roots: Vec::new() }, models: Models { list: Vec::new() } }
    }
}

/// Where the config comes from.
#[derive(Debug, PartialEq, Eq)]
pub enum Source<'a> {
    /// This file, which must exist.
    File(&'a PathBuf),
    /// No file: the defaults.
    Defaults(Config),
}

/// The file that the config comes from, if any.
pub open spec fn file_of(
    explicit: Option<&PathBuf>,
    default_path: Option<&PathBuf>,
    default_is_file: bool,
) -> Option<PathBuf> {
    match (explicit, default_path) {
        (Some(path), _) => Some(*path),
        (None, Some(path)) => if default_is_file {
            Some(*path)
        } else {
            None
        },
        (None, None) => None,
    }
}

impl Config {
    /// `explicit` (`--config` / `OMP_DECK_CONFIG`) must exist; the default
    /// `<config_dir>/omp-deck/config.toml` may be absent, which means defaults.
    /// `default_is_file` tells whether there is a file at `default_path`.
    pub fn load_or_default<'a>(
        explicit: Option<&'a PathBuf>,
        default_path: Option<&'a PathBuf>,
        default_is_file: bool,
    ) -> (r: Source<'a>)
        ensures
            r is File <==> file_of(explicit, default_path, default_is_file) is Some,
            r matches Source::File(path) ==> Some(*path) == file_of(
                explicit,
                default_path,
                default_is_file,
            ),
            match (explicit, default_path) {
                (Some(path), _) => r == Source::File(path),
                (None, Some(path)) if default_is_file => r == Source::File(path),
                _ => r matches Source::Defaults(config) && config.repos.roots@.len() == 0
                    && config.models.list@.len() == 0,
            },
    {
        if let Some(path) = explicit {
            return Source::File(path);
        }
        if let Some(path) = default_path {
            if default_is_file {
                return Source::File(path);
            }
        }
        Source::Defaults(Config::default())
    }
}

/// A file that is named is the one, whether or not there is a default file; without
/// one, the default file counts if and only if it is there.
pub proof fn a_named_file_is_the_one(
    named: PathBuf,
    default: PathBuf,
    other: Option<&PathBuf>,
    b: bool,
)
    ensures
        file_of(Some(&named), other, b) == Some(named),
        file_of(None, Some(&default), true) == Some(default),
        file_of(None, Some(&default), false) is None,
        file_of(None, None, b) is None,
{
}

} // verus!

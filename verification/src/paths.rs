//! Where the cache file and the default data file are.
//!
//! Paths are `std::path::PathBuf` values, carried as they are. Joining is
//! left to std; this module fixes what is joined.

use vstd::prelude::*;
use std::path::PathBuf;

verus! {

/// `std::path::PathBuf`, carried as an opaque value.
#[verifier::external_type_specification]
#[verifier::external_body]
pub struct ExPathBuf(std::path::PathBuf);

/// The path that `PathBuf::from` makes of a text.
pub uninterp spec fn path_of(text: Seq<char>) -> PathBuf;

/// The path that `Path::join` makes of a path and one more component.
pub uninterp spec fn joined(base: PathBuf, part: Seq<char>) -> PathBuf;

/// Calls `PathBuf::from` on a `&str`.
#[verifier::external_body]
fn path_from(text: &str) -> (path: PathBuf)
    ensures
        path == path_of(text@),
{
    PathBuf::from(text)
}

/// Calls `Path::join` with a `&str`.
#[verifier::external_body]
fn join(base: &PathBuf, part: &str) -> (path: PathBuf)
    ensures
        path == joined(*base, part@),
{
    base.join(part)
}

/// The cache file's path for a home directory: the file `.tmp_expectancy.json`
/// in `.config/live_progress` below it. Without a home directory the current
/// directory, `.`, takes its place.
pub open spec fn cache_path(home: Option<PathBuf>) -> PathBuf {
    let base = match home {
        Some(dir) => dir,
        None => path_of("."@),
    };
    joined(joined(joined(base, ".config"@), "live_progress"@), ".tmp_expectancy.json"@)
}

/// The default data file's path for a working directory.
pub open spec fn default_path(dir: PathBuf) -> PathBuf {
    joined(dir, "default_expectancy.json"@)
}

/// The path of the cache file, given the user's home directory if there is one.
pub fn get_tmp_file_path(home: Option<PathBuf>) -> (path: PathBuf)
    ensures
        path == cache_path(home),
{
    let base = match home {
        Some(dir) => dir,
        None => path_from("."),
    };
    let config = join(&base, ".config");
    let dir = join(&config, "live_progress");
    join(&dir, ".tmp_expectancy.json")
}

/// The path of the default data file, given the current working directory.
pub fn default_file_path(dir: &PathBuf) -> (path: PathBuf)
    ensures
        path == default_path(*dir),
{
    join(dir, "default_expectancy.json")
}

} // verus!

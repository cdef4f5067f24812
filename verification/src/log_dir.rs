//! The directory that holds the log files.

use std::path::PathBuf;

use vstd::prelude::*;

use crate::log_name::Location;

verus! {

/// The type `std::path::PathBuf`: a path, of which nothing is known here.
#[verifier::external_type_specification]
#[verifier::external_body]
pub struct ExPathBuf(PathBuf);

/// The function `dirs::cache_dir`. It asks the environment and the system for
/// the user's cache directory, so nothing is promised of what it returns.
pub assume_specification[ dirs::cache_dir ]() -> (dir: Option<PathBuf>)
;

/// Whether `dir` is the entry `llmtmplog` of the cache directory, or nothing
/// where there is no cache directory.
pub open spec fn in_cache_dir<D>(cache_dir: Option<D>, dir: Option<Location<D>>) -> bool {
    match (cache_dir, dir) {
        (Some(cache_dir), Some(location)) => location.dir == cache_dir && location.name@
            == "llmtmplog"@,
        (None, None) => true,
        _ => false,
    }
}

/// The directory of the log files, given the cache directory, if there is
/// one: the entry `llmtmplog` of it.
pub fn log_dir_in<D>(cache_dir: Option<D>) -> (dir: Option<Location<D>>)
    ensures
        in_cache_dir(cache_dir, dir),
        dir is Some <==> cache_dir is Some,
        dir matches Some(location) ==> location.dir == cache_dir->0 && location.name@
            == "llmtmplog"@,
{
    match cache_dir {
        Some(dir) => Some(Location { dir, name: "llmtmplog".to_owned() }),
        None => None,
    }
}

/// The directory of the log files, in the user's cache directory; `None`
/// where the platform has no such directory.
pub fn log_dir() -> (dir: Option<Location<PathBuf>>)
    ensures
        exists|cache_dir: Option<PathBuf>| #[trigger]
            call_ensures(dirs::cache_dir, (), cache_dir) && in_cache_dir(cache_dir, dir),
{
    let cache_dir = dirs::cache_dir();
    assert(call_ensures(dirs::cache_dir, (), cache_dir));
    log_dir_in(cache_dir)
}

/// The directory of the log files is the entry `llmtmplog` of the cache
/// directory and of no other one; without a cache directory there is none.
pub proof fn law_log_dir_is_in_the_cache_dir<D>(cache_dir: D, dir: Option<Location<D>>)
    ensures
        in_cache_dir(Some(cache_dir), dir) <==> {
            &&& dir matches Some(location)
            &&& location.dir == cache_dir
            &&& location.name@ == "llmtmplog"@
        },
        in_cache_dir(None, dir) <==> dir is None,
{
}

} // verus!

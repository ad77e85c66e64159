//! OS specific application directories, found through the platform's
//! notion of the user's home directory.

use vstd::prelude::*;
use crate::paths::{path_join, spec_path_join};

verus! {

/// Relies on `dirs::home_dir`: the current user's home directory, from the
/// environment or the system's user database. The result depends on the
/// environment, so nothing is promised of its value; the crate returns
/// `None` rather than an empty path, and this function folds a path that is
/// not valid UTF-8 into `None` as well.
#[verifier::external_body]
fn home_dir_string() -> (r: Option<String>)
    ensures
        r matches Some(h) ==> h@.len() > 0,
{
    dirs::home_dir().and_then(|p| p.to_str().map(|s| s.to_string()))
}

/// OS specific path for caches: the home directory's cache subdirectory.
pub fn cache_home() -> (r: Option<String>)
    ensures
        r matches Some(p) ==> (exists|h: Seq<char>|
            h.len() > 0 && p@ == spec_path_join(h, ".cache"@)),
{
    match home_dir_string() {
        None => None,
        Some(h) => {
            let p = path_join(h.as_str(), ".cache");
            proof {
                assert(h@.len() > 0 && p@ == spec_path_join(h@, ".cache"@));
            }
            Some(p)
        },
    }
}

/// OS specific path to the application cache directory: the cache directory
/// with `app_name` joined on. An empty application name yields `None`.
pub fn cache(app_name: &str) -> (r: Option<String>)
    ensures
        app_name@.len() == 0 ==> r is None,
        r matches Some(p) ==> app_name@.len() > 0 && (exists|h: Seq<char>|
            h.len() > 0 && p@ == spec_path_join(spec_path_join(h, ".cache"@), app_name@)),
{
    if app_name.is_empty() {
        return None;
    }

    match cache_home() {
        None => None,
        Some(dir) => {
            let p = path_join(dir.as_str(), app_name);
            proof {
                let h = choose|h: Seq<char>|
                    h.len() > 0 && dir@ == spec_path_join(h, ".cache"@);
                assert(h.len() > 0 && p@ == spec_path_join(
                    spec_path_join(h, ".cache"@),
                    app_name@,
                ));
            }
            Some(p)
        },
    }
}

} // verus!

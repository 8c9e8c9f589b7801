//! What the app reports about its own build.
use vstd::prelude::*;

verus! {

/// The app's version and whether it is a preview build.
#[derive(Debug, Clone)]
pub struct AppInfo {
    pub version: String,
    pub preview: bool,
}

/// A semver pre-release suffix (`0.3.0-preview.1`) marks preview builds.
pub fn is_preview_version(version: &str) -> (r: bool)
    ensures
        r == version@.contains('-'),
{
    let mut i: usize = 0;
    let n = version.unicode_len();
    while i < n
        invariant
            n == version@.len(),
            i <= n,
            forall|j: int| 0 <= j < i ==> version@[j] != '-',
        decreases n - i,
    {
        if version.get_char(i) == '-' {
            return true;
        }
        i = i + 1;
    }
    false
}

/// The app information for a build of `version`.
pub fn app_info(version: String) -> (r: AppInfo)
    ensures
        r.version@ == version@,
        r.preview == version@.contains('-'),
{
    let preview = is_preview_version(version.as_str());
    AppInfo { version, preview }
}

} // verus!

//! Application settings: the external diff tool.

use vstd::prelude::*;

use crate::text::{lit, trim, trim_string};

verus! {

/// Settings persisted by the application.
#[derive(Clone, Debug)]
pub struct Settings {
    /// Path of the external diff tool.
    pub external_diff: String,
}

impl Default for Settings {
    fn default() -> (res: Self)
        ensures
            res.external_diff@ == "/usr/bin/opendiff"@,
    {
        Settings { external_diff: lit("/usr/bin/opendiff") }
    }
}

/// The diff tool to store for the user's input: the trimmed input, or
/// the default `/usr/bin/opendiff` when it is empty.
pub fn external_diff_setting(cmd: &str) -> (res: String)
    ensures
        res@ == (if trim(cmd@).len() == 0 {
            "/usr/bin/opendiff"@
        } else {
            trim(cmd@)
        }),
{
    let c = trim_string(cmd);
    if c.as_str().is_empty() {
        lit("/usr/bin/opendiff")
    } else {
        c
    }
}

} // verus!

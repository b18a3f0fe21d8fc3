//! Recognizing build-time module files by their name.

use vstd::prelude::*;

use crate::text::{spec_ends_with, str_ends_with};

verus! {

use vstd::string::StrSliceExecFns;

/// A file is a build-time module exactly when its name ends in `.yak.tsx`,
/// `.yak.jsx`, `.yak.mjs`, `.yak.ts` or `.yak.js`. A name of fewer than
/// eight characters is never one: it could hold only an extension and no
/// file name.
pub open spec fn spec_is_yak_file(filename: Seq<char>) -> bool {
    filename.len() >= 8 && (spec_ends_with(filename, ".yak.tsx"@) || spec_ends_with(
        filename,
        ".yak.jsx"@,
    ) || spec_ends_with(filename, ".yak.mjs"@) || spec_ends_with(filename, ".yak.ts"@)
        || spec_ends_with(filename, ".yak.js"@))
}

/// Whether a file name denotes a build-time module.
pub fn is_yak_file(filename: &str) -> (r: bool)
    ensures
        r == spec_is_yak_file(filename@),
{
    if filename.unicode_len() < 8 {
        return false;
    }
    str_ends_with(filename, ".yak.tsx") || str_ends_with(filename, ".yak.jsx") || str_ends_with(
        filename,
        ".yak.mjs",
    ) || str_ends_with(filename, ".yak.ts") || str_ends_with(filename, ".yak.js")
}

} // verus!

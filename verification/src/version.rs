//! Library version information.

use vstd::prelude::*;
use vstd::string::StringExecFns;

verus! {

/// Library version string.
pub const VERSION: &'static str = "0.1.0";

/// Library name.
pub const NAME: &'static str = "medimg_compress";

/// Get the full version string: the library name and version, separated by
/// a space.
pub fn full_version() -> (r: String)
    ensures
        r@ == NAME@ + " "@ + VERSION@,
{
    let mut s = String::from_str(NAME);
    s.append(" ");
    s.append(VERSION);
    s
}

} // verus!

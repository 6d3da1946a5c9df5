//! Where a request path lands in the storage directory.

use crate::text::{strip_prefix, without_prefix};
use vstd::prelude::*;
use vstd::string::*;

verus! {

/// What the filename sanitizer of the `sanitize_filename` crate makes of
/// `name` under the options `windows`, `truncate` and `replacement`.
pub uninterp spec fn sanitized(
    name: Seq<char>,
    windows: bool,
    truncate: bool,
    replacement: Seq<char>,
) -> Seq<char>;

/// Whether `name`, joined to a directory, can only denote an entry directly
/// inside it: it holds no path separator and is neither `.` nor `..`.
pub open spec fn is_entry_name(name: Seq<char>) -> bool {
    &&& !name.contains('/')
    &&& !name.contains('\\')
    &&& name != "."@
    &&& name != ".."@
}

/// Whether `location` denotes an entry directly inside `directory`:
/// `directory`, a slash, and a name that is an entry name.
pub open spec fn is_inside(location: Seq<char>, directory: Seq<char>) -> bool {
    exists|name: Seq<char>| #[trigger] is_entry_name(name) && location == directory + "/"@ + name
}

/// Calls `sanitize_filename::sanitize_with_options` with the three options
/// given. Trusted, not proved: the result depends on the arguments alone;
/// and with an empty replacement, where every slash and backslash is deleted
/// and a name made of dots alone is deleted whole, what comes back holds no
/// separator and is neither `.` nor `..`.
#[verifier::external_body]
fn sanitize(name: &str, windows: bool, truncate: bool, replacement: &str) -> (clean: String)
    ensures
        clean@ == sanitized(name@, windows, truncate, replacement@),
        replacement@.len() == 0 ==> is_entry_name(clean@),
{
    sanitize_filename::sanitize_with_options(
        name,
        sanitize_filename::Options { windows, truncate, replacement },
    )
}

/// The file name that the request path `path` denotes: what follows
/// `/files/`, sanitized with what is unsafe deleted (an empty replacement),
/// with truncation to the length a file name may have, and without the
/// extra rules for Windows, so that a path names the same file on every
/// platform.
pub open spec fn file_name(path: Seq<char>) -> Seq<char> {
    sanitized(without_prefix(path, "/files/"@), false, true, ""@)
}

/// The location of the file that `path` denotes under `directory`.
pub open spec fn location_of(directory: Seq<char>, path: Seq<char>) -> Seq<char> {
    directory + "/"@ + file_name(path)
}

/// The location of the entry `name` of `directory`: the two with a slash
/// between them.
pub fn join_location(directory: &str, name: &str) -> (location: String)
    ensures
        location@ == directory@ + "/"@ + name@,
{
    String::from_str(directory).concat("/").concat(name)
}

/// The location of the file that the request path `path` denotes under
/// `directory`. Whatever `path` holds, the location is `directory`, a slash
/// and a name that cannot lead out of `directory`.
pub fn file_location(directory: &str, path: &str) -> (location: String)
    ensures
        location@ == location_of(directory@, path@),
        is_entry_name(file_name(path@)),
        is_inside(location@, directory@),
{
    proof {
        reveal_strlit("");
    }
    let name = sanitize(strip_prefix(path, "/files/"), false, true, "");
    join_location(directory, name.as_str())
}

} // verus!

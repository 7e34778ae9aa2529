//! File-system paths as strings with `/` separators.
use vstd::prelude::*;

verus! {

/// The path `std::path::Path::strip_prefix` leaves of `path` after `base` (as a
/// string), or `None` when `base` is not a whole-component prefix of `path`.
pub uninterp spec fn path_strip_prefix(path: Seq<char>, base: Seq<char>) -> Option<Seq<char>>;

/// `Path::new(path).strip_prefix(base)`, read back as a string.
/// Trusted: the result is the named remainder.
#[verifier::external_body]
pub(crate) fn strip_path_prefix(path: &str, base: &str) -> (r: Option<String>)
    ensures
        match r {
            Some(s) => path_strip_prefix(path@, base@) == Some(s@),
            None => path_strip_prefix(path@, base@) is None,
        },
{
    std::path::Path::new(path).strip_prefix(base).ok().and_then(|p| p.to_str()).map(|s| s.to_string())
}

/// The extension `std::path::Path::extension` reads from `path` (the part of the file
/// name after its last `.`), as a string.
pub uninterp spec fn path_extension(path: Seq<char>) -> Option<Seq<char>>;

/// `Path::new(path).extension()`, read back as a string.
/// Trusted: the result is the named extension.
#[verifier::external_body]
fn extension_of(path: &str) -> (r: Option<String>)
    ensures
        match r {
            Some(e) => path_extension(path@) == Some(e@),
            None => path_extension(path@) is None,
        },
{
    std::path::Path::new(path).extension().map(|e| e.to_string_lossy().into_owned())
}

/// Whether `path` names a Move source file: its extension is exactly `move`.
pub fn is_move_file(path: &str) -> (r: bool)
    ensures
        r == (path_extension(path@) == Some("move"@)),
{
    match extension_of(path) {
        Some(e) => crate::text::str_eq(e.as_str(), "move"),
        None => false,
    }
}

} // verus!

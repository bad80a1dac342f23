use vstd::prelude::*;

verus! {

/// What `std::path::Path::parent` gives, on the platform the crate is built for, for the path
/// written as `p`: the path without its last component, as text, or nothing.
pub uninterp spec fn path_parent_of(p: Seq<char>) -> Option<Seq<char>>;

/// Whether `std::path::Path`'s `==` holds, on the platform the crate is built for, between the
/// paths written as `a` and `b` (it compares their components).
pub uninterp spec fn paths_equal(a: Seq<char>, b: Seq<char>) -> bool;

/// Whether the paths written as `a` and `b` name the same path: the same text always does, and
/// otherwise `Path`'s `==` decides.
pub open spec fn path_matches(a: Seq<char>, b: Seq<char>) -> bool {
    a == b || paths_equal(a, b)
}

/// What `std::path::Path::file_name` gives, on the platform the crate is built for, for the
/// path written as `p`: its last normal component, as text, or nothing.
pub uninterp spec fn path_file_name_of(p: Seq<char>) -> Option<Seq<char>>;

/// The text of an optional string.
pub open spec fn opt_text(o: Option<String>) -> Option<Seq<char>> {
    match o {
        Some(s) => Some(s@),
        None => None,
    }
}

/// Calls `std::path::Path::parent` on `p`. The contract claims that the result, as text, is
/// `path_parent_of(p@)`; what that is, std's path rules decide, and no clause here states them.
/// The parent of a path given as UTF-8 text is a prefix of it, so the conversion back to text
/// loses nothing.
#[verifier::external_body]
pub(crate) fn parent_path(p: &str) -> (res: Option<String>)
    ensures
        opt_text(res) == path_parent_of(p@),
{
    match std::path::Path::new(p).parent() {
        Some(q) => Some(q.to_string_lossy().into_owned()),
        None => None,
    }
}

/// Compares the paths `a` and `b` with `std::path::Path`'s `==`. The contract claims that the
/// result is `paths_equal(a@, b@)`, and that equal texts are equal paths (`Path` is `Eq`); which
/// other texts name equal paths, std's component rules decide, and no clause here states them.
#[verifier::external_body]
pub(crate) fn same_path(a: &str, b: &str) -> (res: bool)
    ensures
        res == paths_equal(a@, b@),
        a@ == b@ ==> res,
{
    std::path::Path::new(a) == std::path::Path::new(b)
}

/// Calls `std::path::Path::file_name` on `p`. The contract claims that the result, as text, is
/// `path_file_name_of(p@)`; std's rules decide what that is. The last component of a path given
/// as UTF-8 text is a part of it, so the conversion back to text loses nothing.
#[verifier::external_body]
pub(crate) fn file_name_of(p: &str) -> (res: Option<String>)
    ensures
        opt_text(res) == path_file_name_of(p@),
{
    match std::path::Path::new(p).file_name() {
        Some(q) => Some(q.to_string_lossy().into_owned()),
        None => None,
    }
}

} // verus!

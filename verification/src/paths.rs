//! Path operations of `std::path`, used on paths held as strings.
//!
//! What `Path::parent`, `Path::file_name` and `Path::join` return depends on
//! the path text alone (component parsing, separators, `.` components); it is
//! named here and not restated.
use vstd::prelude::*;

verus! {

/// What `Path::new(p).parent()` gives, as text.
pub uninterp spec fn path_parent(p: Seq<char>) -> Option<Seq<char>>;

/// What `Path::new(p).file_name()` gives, as text.
pub uninterp spec fn path_file_name(p: Seq<char>) -> Option<Seq<char>>;

/// What `Path::new(base).join(rel)` gives, as text.
pub uninterp spec fn path_join(base: Seq<char>, rel: Seq<char>) -> Seq<char>;

/// `Path::parent`: the path without its final component, `None` for a root
/// or an empty path.  The result is a function of `p` alone.
#[verifier::external_body]
pub(crate) fn parent_of(p: &str) -> (r: Option<String>)
    ensures
        match r {
            Some(s) => path_parent(p@) == Some(s@),
            None => path_parent(p@) is None,
        },
{
    std::path::Path::new(p).parent().map(|q| q.to_string_lossy().into_owned())
}

/// `Path::file_name`: the final component, `None` when the path ends in
/// `..` or has no final component.  The result is a function of `p` alone.
#[verifier::external_body]
pub(crate) fn file_name_of(p: &str) -> (r: Option<String>)
    ensures
        match r {
            Some(s) => path_file_name(p@) == Some(s@),
            None => path_file_name(p@) is None,
        },
{
    std::path::Path::new(p).file_name().map(|q| q.to_string_lossy().into_owned())
}

/// `Path::join`: `rel` appended to `base` with a separator (or `rel` itself
/// when it is absolute).  The result is a function of its arguments alone.
#[verifier::external_body]
pub(crate) fn join_path(base: &str, rel: &str) -> (r: String)
    ensures
        r@ == path_join(base@, rel@),
{
    std::path::Path::new(base).join(rel).to_string_lossy().into_owned()
}

} // verus!

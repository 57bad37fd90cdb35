//! Paths as texts, with the joins and splits that std's `Path` performs.
use vstd::prelude::*;

verus! {

/// What `Path::join` returns for `base` and `name` (std's rules for the
/// platform the library is built for: separators, absolute names, prefixes).
pub uninterp spec fn joined(base: Seq<char>, name: Seq<char>) -> Seq<char>;

/// What `Path::parent` returns for a path: the path without its last
/// component, or none for a root, a prefix or the empty path.
pub uninterp spec fn parent_of(path: Seq<char>) -> Option<Seq<char>>;

/// What `Path::file_name` returns for a path: its last component when that
/// is a plain name; none when the path ends in "..", and none for a root, a
/// prefix or the empty path.
pub uninterp spec fn file_name_of(path: Seq<char>) -> Option<Seq<char>>;

/// Whether std's `Path` takes two paths as equal: it compares them
/// component by component, by the platform's rules.
pub uninterp spec fn same_path(a: Seq<char>, b: Seq<char>) -> bool;

/// Calls `==` on two `Path`s; the result is named, and a text is always the
/// same path as itself (`Path` is `Eq`).
#[verifier::external_body]
pub(crate) fn paths_equal(a: &str, b: &str) -> (r: bool)
    ensures
        r == same_path(a@, b@),
        a@ == b@ ==> r,
{
    std::path::Path::new(a) == std::path::Path::new(b)
}

/// Calls `Path::join`; the result is named, its rules are std's.
#[verifier::external_body]
pub(crate) fn path_join(base: &str, name: &str) -> (r: String)
    ensures
        r@ == joined(base@, name@),
{
    std::path::Path::new(base).join(name).to_string_lossy().into_owned()
}

/// Calls `Path::parent`; the result is named, its rules are std's.
#[verifier::external_body]
pub(crate) fn path_parent(path: &str) -> (r: Option<String>)
    ensures
        match (r, parent_of(path@)) {
            (Some(p), Some(q)) => p@ == q,
            (None, None) => true,
            _ => false,
        },
{
    std::path::Path::new(path).parent().map(|p| p.to_string_lossy().into_owned())
}

/// Calls `Path::file_name`; the result is named, its rules are std's.
#[verifier::external_body]
pub(crate) fn path_file_name(path: &str) -> (r: Option<String>)
    ensures
        match (r, file_name_of(path@)) {
            (Some(p), Some(q)) => p@ == q,
            (None, None) => true,
            _ => false,
        },
{
    std::path::Path::new(path).file_name().map(|n| n.to_string_lossy().into_owned())
}

/// The last component of a path, or an empty text when it has none.
pub fn file_name(path: &str) -> (r: String)
    ensures
        r@ == match file_name_of(path@) {
            Some(n) => n,
            None => Seq::empty(),
        },
{
    match path_file_name(path) {
        Some(n) => n,
        None => String::new(),
    }
}

} // verus!

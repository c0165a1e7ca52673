//! Path components, through `std::path::Path`.
use vstd::prelude::*;

verus! {

/// What `Path::file_name` gives for a path with these characters (the
/// last normal component), as text; `None` when there is none, as for
/// `/` or a path ending in `..`.
pub uninterp spec fn path_file_name(path: Seq<char>) -> Option<Seq<char>>;

/// What `Path::extension` gives for a path with these characters (the
/// text after the last `.` of the file name), as text.
pub uninterp spec fn path_extension(path: Seq<char>) -> Option<Seq<char>>;

/// The final component of `path` (`Path::file_name`). A name taken from
/// a `&str` is always valid UTF-8, so the conversion back to text never
/// fails.
#[verifier::external_body]
pub(crate) fn file_name_of(path: &str) -> (r: Option<String>)
    ensures
        match r {
            Some(s) => path_file_name(path@) == Some(s@),
            None => path_file_name(path@) is None,
        },
{
    std::path::Path::new(path).file_name().and_then(|n| n.to_str()).map(String::from)
}

/// The extension of `path` (`Path::extension`), borrowed from it. An
/// extension taken from a `&str` is always valid UTF-8.
#[verifier::external_body]
pub(crate) fn extension_str(path: &str) -> (r: Option<&str>)
    ensures
        match r {
            Some(s) => path_extension(path@) == Some(s@),
            None => path_extension(path@) is None,
        },
{
    std::path::Path::new(path).extension().and_then(|n| n.to_str())
}

/// What `Path::parent` gives for a path with these characters (the path
/// without its final component), as text; `None` when the path ends in a
/// root or is empty.
pub uninterp spec fn path_parent(path: Seq<char>) -> Option<Seq<char>>;

/// The parent of `path` (`Path::parent`), as text. A parent taken from a
/// `&str` is a part of it and so always valid UTF-8.
#[verifier::external_body]
pub(crate) fn parent_of(path: &str) -> (r: Option<String>)
    ensures
        match r {
            Some(s) => path_parent(path@) == Some(s@),
            None => path_parent(path@) is None,
        },
{
    std::path::Path::new(path).parent().and_then(|p| p.to_str()).map(String::from)
}

/// What `Path == Path` gives for two paths with these characters: whether
/// they have the same components.
pub uninterp spec fn path_equal(a: Seq<char>, b: Seq<char>) -> bool;

/// Whether `a` and `b` name the same path (`Path == Path`: compared
/// component by component, so a trailing separator, doubled separators
/// and `.` components in the middle make no difference).
#[verifier::external_body]
pub(crate) fn same_path(a: &str, b: &str) -> (r: bool)
    ensures
        r == path_equal(a@, b@),
{
    std::path::Path::new(a) == std::path::Path::new(b)
}

/// The file name of `path`, or the empty text when it has none.
pub open spec fn basename(path: Seq<char>) -> Seq<char> {
    match path_file_name(path) {
        Some(b) => b,
        None => Seq::empty(),
    }
}

/// Exec form of [`basename`].
pub fn basename_of(path: &str) -> (r: String)
    ensures
        r@ == basename(path@),
{
    match file_name_of(path) {
        Some(s) => s,
        None => String::new(),
    }
}

} // verus!

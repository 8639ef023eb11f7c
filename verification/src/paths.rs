//! File paths are held as strings; the path operations that the document model needs are
//! computed by `std::path` and by the `pathdiff` crate. Each of them follows the path rules
//! (separators, prefixes) of the platform the program is built for, so the names below stand
//! for the results on that platform.
use vstd::prelude::*;

verus! {

/// The last normal component of a path, as `Path::file_name` computes it under the path
/// rules of the platform the program is built for.
pub uninterp spec fn path_file_name(p: Seq<char>) -> Option<Seq<char>>;

/// The path without its last component, as `Path::parent` computes it under the path rules
/// of the platform the program is built for.
pub uninterp spec fn path_parent(p: Seq<char>) -> Option<Seq<char>>;

/// The file name without its extension, as `Path::file_stem` computes it under the path
/// rules of the platform the program is built for.
pub uninterp spec fn path_file_stem(p: Seq<char>) -> Option<Seq<char>>;

/// The components of a path, as `Path::components` yields them under the path rules of the
/// platform the program is built for.
pub uninterp spec fn path_components(p: Seq<char>) -> Seq<Seq<char>>;

/// `base` joined with `tail`, as `Path::join` computes it under the path rules of the
/// platform the program is built for.
pub uninterp spec fn path_join(base: Seq<char>, tail: Seq<char>) -> Seq<char>;

/// The path from `base` to `path`, as `pathdiff::diff_paths` computes it under the path
/// rules of the platform the program is built for.
pub uninterp spec fn relative_path(path: Seq<char>, base: Seq<char>) -> Option<Seq<char>>;

pub open spec fn opt_view(o: Option<String>) -> Option<Seq<char>> {
    match o {
        Some(s) => Some(s@),
        None => None,
    }
}

/// Calls `std::path::Path::file_name`. Claimed: the result is the named value
/// `path_file_name` of the argument; nothing is said of what that value is.
#[verifier::external_body]
pub(crate) fn file_name_of(p: &str) -> (r: Option<String>)
    ensures
        opt_view(r) == path_file_name(p@),
{
    std::path::Path::new(p).file_name().map(|n| n.to_string_lossy().to_string())
}

/// Calls `std::path::Path::file_stem`. Claimed: the result is the named value
/// `path_file_stem` of the argument.
#[verifier::external_body]
pub(crate) fn file_stem_of(p: &str) -> (r: Option<String>)
    ensures
        opt_view(r) == path_file_stem(p@),
{
    std::path::Path::new(p).file_stem().map(|n| n.to_string_lossy().to_string())
}

/// Calls `std::path::Path::components`. Claimed: the components, each as text, are the
/// named value `path_components` of the argument.
#[verifier::external_body]
pub(crate) fn components_of(p: &str) -> (r: Vec<String>)
    ensures
        r@.map_values(|c: String| c@) == path_components(p@),
{
    std::path::Path::new(p).components().map(|c| c.as_os_str().to_string_lossy().to_string()).collect()
}

/// Calls `std::path::Path::parent`. Claimed: the result is the named value `path_parent`
/// of the argument.
#[verifier::external_body]
pub(crate) fn parent_of(p: &str) -> (r: Option<String>)
    ensures
        opt_view(r) == path_parent(p@),
{
    std::path::Path::new(p).parent().map(|n| n.to_string_lossy().to_string())
}

/// Calls `std::path::Path::join`. Claimed: the result is the named value `path_join` of
/// the arguments.
#[verifier::external_body]
pub(crate) fn join_path(base: &str, tail: &str) -> (r: String)
    ensures
        r@ == path_join(base@, tail@),
{
    std::path::Path::new(base).join(tail).to_string_lossy().to_string()
}

/// Calls `pathdiff::diff_paths`, which works on the path components alone (it never
/// reads the disk). Claimed: the result is the named value `relative_path` of the
/// arguments.
#[verifier::external_body]
pub(crate) fn diff_paths(path: &str, base: &str) -> (r: Option<String>)
    ensures
        opt_view(r) == relative_path(path@, base@),
{
    pathdiff::diff_paths(path, base).map(|p| p.to_string_lossy().to_string())
}

/// Calls `std::path::Path::exists`, which asks the file system. Nothing is claimed of
/// the result: it depends on what is on disk when the call is made.
#[verifier::external_body]
pub(crate) fn path_exists(p: &str) -> (r: bool) {
    std::path::Path::new(p).exists()
}

} // verus!

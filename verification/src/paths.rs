//! Paths, as far as naming the output files needs them.

use vstd::prelude::*;

verus! {

/// The final component of the path `path`, if it has one, as
/// `std::path::Path::file_name` finds it on the platform that the library is
/// built for.
pub uninterp spec fn path_file_name(path: Seq<char>) -> Option<Seq<char>>;

/// The path of the entry `name` in the directory `dir`, as
/// `std::path::Path::join` builds it on the platform that the library is
/// built for.
pub uninterp spec fn path_join(dir: Seq<char>, name: Seq<char>) -> Seq<char>;

/// Calls `std::path::Path::file_name`. Nothing is claimed of the result but
/// that the path alone decides it.
#[verifier::external_body]
pub(crate) fn file_name(path: &str) -> (name: Option<String>)
    ensures
        match name {
            Some(name) => path_file_name(path@) == Some(name@),
            None => path_file_name(path@) is None,
        },
{
    match std::path::Path::new(path).file_name() {
        Some(name) => Some(name.to_string_lossy().into_owned()),
        None => None,
    }
}

/// Calls `std::path::Path::join`. Nothing is claimed of the result but that
/// the directory and the name alone decide it.
#[verifier::external_body]
pub(crate) fn join(dir: &str, name: &str) -> (path: String)
    ensures
        path@ == path_join(dir@, name@),
{
    std::path::Path::new(dir).join(name).to_string_lossy().into_owned()
}

} // verus!

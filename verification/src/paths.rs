//! Path text, as far as the library has to look into it.

use vstd::prelude::*;

verus! {

/// The final component of a path, in the path syntax of the platform the
/// library is built for: what `std::path::Path::file_name` returns for it.
/// `None` where the path has no such component (it is empty, a root, or ends
/// in `..`).
pub uninterp spec fn path_file_name(path: Seq<char>) -> Option<Seq<char>>;

/// Calls `std::path::Path::file_name` on `path`. Nothing is proved of the
/// result: the contract only gives it its name, [`path_file_name`]. The
/// component of a path that was built from a string is itself valid UTF-8, so
/// the conversion back to a string loses nothing.
#[verifier::external_body]
pub(crate) fn file_name_of(path: &String) -> (name: Option<String>)
    ensures
        match name {
            Some(n) => path_file_name(path@) == Some(n@),
            None => path_file_name(path@) is None,
        },
{
    let component = std::path::Path::new(path).file_name()?;
    Some(component.to_string_lossy().into_owned())
}

} // verus!

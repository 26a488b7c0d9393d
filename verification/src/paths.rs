//! File-name arithmetic on paths held as text, through `std::path::Path`.
use vstd::prelude::*;

verus! {

broadcast use vstd::string::group_string_axioms;

/// What `Path::file_stem` gives for a path.
pub uninterp spec fn path_file_stem(path: Seq<char>) -> Option<Seq<char>>;

/// What `Path::with_file_name` gives for a path and a new name.
pub uninterp spec fn path_with_file_name(path: Seq<char>, name: Seq<char>) -> Seq<char>;

/// What `Path::file_name` gives for a path.
pub uninterp spec fn path_file_name(path: Seq<char>) -> Option<Seq<char>>;

/// `Path::file_stem`: the file name without its extension.
#[verifier::external_body]
pub(crate) fn file_stem_of(path: &str) -> (r: Option<String>)
    ensures
        match r {
            Some(s) => path_file_stem(path@) == Some(s@),
            None => path_file_stem(path@) is None,
        },
{
    std::path::Path::new(path).file_stem().map(|s| s.to_string_lossy().into_owned())
}

/// `Path::file_name`: the last component.
#[verifier::external_body]
pub(crate) fn file_name_of(path: &str) -> (r: Option<String>)
    ensures
        match r {
            Some(s) => path_file_name(path@) == Some(s@),
            None => path_file_name(path@) is None,
        },
{
    std::path::Path::new(path).file_name().map(|s| s.to_string_lossy().into_owned())
}

/// `Path::with_file_name`: the path with its last component replaced.
#[verifier::external_body]
pub(crate) fn with_file_name(path: &str, name: &str) -> (r: String)
    ensures
        r@ == path_with_file_name(path@, name@),
{
    std::path::Path::new(path).with_file_name(name).to_string_lossy().into_owned()
}

} // verus!

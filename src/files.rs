//! Deriving page identifiers from document names.
use vstd::prelude::*;
use vstd::string::StrSliceExecFns;

verus! {

/// The stem of a path: `std::path::Path::file_stem`, as UTF-8 text.
pub uninterp spec fn path_stem(name: Seq<char>) -> Option<Seq<char>>;

/// Relies on `std::path::Path::file_stem`: the stem of the final component of
/// `name` (the file name without its last extension), or `None` where the path
/// has no file name. The stem of a `&str` path is always valid UTF-8.
#[verifier::external_body]
fn file_stem(name: &str) -> (r: Option<String>)
    ensures
        r matches Some(s) ==> path_stem(name@) == Some(s@),
        r is None ==> path_stem(name@) is None,
{
    std::path::Path::new(name).file_stem().and_then(|s| s.to_str()).map(|s| s.to_string())
}

/// The identifier that a document name stands for: its stem, where that stem
/// exists and is not empty.
pub open spec fn stem_id(name: Seq<char>) -> Option<Seq<char>> {
    match path_stem(name) {
        Some(s) => if s.len() > 0 { Some(s) } else { None },
        None => None,
    }
}

/// The document name with its extension removed, or `None` where no non-empty
/// stem can be derived from it.
pub fn strip_extension_from_filename(filename: &str) -> (r: Option<String>)
    ensures
        r matches Some(s) ==> stem_id(filename@) == Some(s@),
        r is None ==> stem_id(filename@) is None,
{
    match file_stem(filename) {
        Some(s) => {
            if s.as_str().unicode_len() > 0 {
                Some(s)
            } else {
                None
            }
        },
        None => None,
    }
}

} // verus!

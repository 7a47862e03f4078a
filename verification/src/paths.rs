//! File-system path pieces, as `std::path::Path` finds them.
use vstd::prelude::*;

verus! {

/// The extension `std::path::Path::extension` finds in `p`.
pub uninterp spec fn path_extension_of(p: Seq<char>) -> Option<Seq<char>>;

/// The parent `std::path::Path::parent` finds for `p`.
pub uninterp spec fn path_parent_of(p: Seq<char>) -> Option<Seq<char>>;

/// The last component `std::path::Path::file_name` finds in `p`.
pub uninterp spec fn path_file_name_of(p: Seq<char>) -> Option<Seq<char>>;

/// The stem `std::path::Path::file_stem` finds in `p`.
pub uninterp spec fn path_file_stem_of(p: Seq<char>) -> Option<Seq<char>>;

/// `std::path::Path::file_stem` on a path given as UTF-8 text; the result
/// is named, not written out.
#[verifier::external_body]
pub(crate) fn path_file_stem(p: &str) -> (r: Option<String>)
    ensures
        r matches Some(e) ==> path_file_stem_of(p@) == Some(e@),
        r is None ==> path_file_stem_of(p@) is None,
{
    std::path::Path::new(p).file_stem().and_then(|e| e.to_str()).map(|e| e.to_owned())
}

/// `std::path::Path::extension` on a path given as UTF-8 text; the result
/// is named, not written out.
#[verifier::external_body]
pub(crate) fn path_extension(p: &str) -> (r: Option<String>)
    ensures
        r matches Some(e) ==> path_extension_of(p@) == Some(e@),
        r is None ==> path_extension_of(p@) is None,
{
    std::path::Path::new(p).extension().and_then(|e| e.to_str()).map(|e| e.to_owned())
}

/// `std::path::Path::parent` on a path given as UTF-8 text; the result is
/// named, not written out.
#[verifier::external_body]
pub(crate) fn path_parent(p: &str) -> (r: Option<String>)
    ensures
        r matches Some(e) ==> path_parent_of(p@) == Some(e@),
        r is None ==> path_parent_of(p@) is None,
{
    std::path::Path::new(p).parent().and_then(|e| e.to_str()).map(|e| e.to_owned())
}

/// `std::path::Path::file_name` on a path given as UTF-8 text; the result is
/// named, not written out.
#[verifier::external_body]
pub(crate) fn path_file_name(p: &str) -> (r: Option<String>)
    ensures
        r matches Some(e) ==> path_file_name_of(p@) == Some(e@),
        r is None ==> path_file_name_of(p@) is None,
{
    std::path::Path::new(p).file_name().and_then(|e| e.to_str()).map(|e| e.to_owned())
}

} // verus!

//! Filesystem paths as text, through `std::path`: the parent of a path,
//! joining a relative path onto a base, and whether a path exists on disk.

use vstd::prelude::*;

verus! {

/// The path `std::path::Path::parent` gives for `p`: `None` when `p` has no
/// parent (such as the root or the empty path).
pub uninterp spec fn parent_path(p: Seq<char>) -> Option<Seq<char>>;

/// The path `std::path::Path::join` gives for `rel` onto `base`.
pub uninterp spec fn joined_path(base: Seq<char>, rel: Seq<char>) -> Seq<char>;

/// `std::path::Path::parent`, as text. The parent of a path written as
/// UTF-8 text is again UTF-8, so the conversion back to text is exact.
#[verifier::external_body]
pub(crate) fn path_parent(p: &str) -> (r: Option<String>)
    ensures
        match r {
            Some(q) => parent_path(p@) == Some(q@),
            None => parent_path(p@) is None,
        },
{
    std::path::Path::new(p).parent().map(|q| q.to_string_lossy().into_owned())
}

/// `std::path::Path::join`, as text: `rel` appended to `base` with a
/// separator between them as needed (an absolute `rel` replaces `base`).
#[verifier::external_body]
pub(crate) fn path_join(base: &str, rel: &str) -> (r: String)
    ensures
        r@ == joined_path(base@, rel@),
{
    std::path::Path::new(base).join(rel).to_string_lossy().into_owned()
}

/// `std::path::Path::exists`: whether something is on disk at `p` right
/// now. What it returns depends on the disk, so nothing is stated of it.
#[verifier::external_body]
pub(crate) fn path_exists(p: &str) -> (r: bool) {
    std::path::Path::new(p).exists()
}

} // verus!

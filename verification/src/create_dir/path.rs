//! Paths as text, and the one question the request asks of a path: which
//! directory lies above it.

use vstd::prelude::*;

verus! {

/// The path of the directory that holds `path`, by the path syntax of the
/// platform; `None` where `path` ends in a root or is empty.
pub uninterp spec fn path_parent(path: Seq<char>) -> Option<Seq<char>>;

/// The text of an optional path.
pub open spec fn text_of(path: Option<&str>) -> Option<Seq<char>> {
    match path {
        Some(p) => Some(p@),
        None => None,
    }
}

/// The directory above `dir`.
///
/// Trusted: the body calls `std::path::Path::parent` on `dir` read as a path.
/// The contract claims only that the answer is a function of the text of
/// `dir`, which `path_parent` names. The parent of a path that is valid UTF-8
/// is cut from it at a separator, so reading it back as text cannot fail.
#[verifier::external_body]
pub(crate) fn parent<'a>(dir: &'a str) -> (res: Option<&'a str>)
    ensures
        text_of(res) == path_parent(dir@),
{
    match std::path::Path::new(dir).parent() {
        Some(p) => p.to_str(),
        None => None,
    }
}

/// The directory `levels` steps above `path`, if the path reaches that far
/// up.
pub open spec fn ancestor(path: Seq<char>, levels: nat) -> Option<Seq<char>>
    decreases levels,
{
    if levels == 0 {
        Some(path)
    } else {
        match ancestor(path, (levels - 1) as nat) {
            Some(below) => path_parent(below),
            None => None,
        }
    }
}

/// Each entry of `paths` but the first is the parent of the entry before
/// it.
pub open spec fn is_chain(paths: Seq<Seq<char>>) -> bool {
    forall|i: int|
        0 <= i && i + 1 < paths.len() ==> path_parent(#[trigger] paths[i]) == Some(paths[i + 1])
}

} // verus!

//! Path ordering, as `Path` compares: component by component.

use vstd::prelude::*;
use std::cmp::Ordering;

verus! {

/// Sign of the comparison of two paths: negative, zero or positive as the
/// first sorts before, with, or after the second.
pub uninterp spec fn path_order(a: Seq<char>, b: Seq<char>) -> int;

/// Compares two paths component by component.
///
/// Wraps `Ord for Path`; the result depends on the two path texts alone, so
/// the contract names it `path_order` and claims -1, 0 or 1.
#[verifier::external_body]
pub fn compare_paths(a: &str, b: &str) -> (r: i8)
    ensures
        r == path_order(a@, b@),
        -1 <= r <= 1,
{
    match std::path::Path::new(a).cmp(std::path::Path::new(b)) {
        Ordering::Less => -1,
        Ordering::Equal => 0,
        Ordering::Greater => 1,
    }
}

/// The parent of a path, as `Path::parent` gives it.
pub uninterp spec fn path_parent_of(p: Seq<char>) -> Option<Seq<char>>;

/// The path without its final component, if it has one.
///
/// Wraps `Path::parent`; the result depends on the path text alone, so the
/// contract names it `path_parent_of`. A `&str` path is valid UTF-8, so the
/// parent converts back to text unchanged.
#[verifier::external_body]
pub fn path_parent(p: &str) -> (r: Option<String>)
    ensures
        match path_parent_of(p@) {
            Some(q) => r matches Some(s) && s@ == q,
            None => r is None,
        },
{
    std::path::Path::new(p).parent().map(|q| q.to_string_lossy().to_string())
}

} // verus!

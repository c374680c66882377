//! What the walk over a project takes in: which directories it enters and
//! which files it hands to the engine.

use crate::text::{chars_end_with, ends_with, str_eq, to_chars};
use vstd::prelude::*;

verus! {

/// Whether a directory entry of this name is left out of the walk, with all
/// that lies below it: the data of version control, the settings file and
/// the build output.
pub open spec fn is_skipped(name: Seq<char>) -> bool {
    name == ".git"@ || name == ".pj.yml"@ || name == "target"@
}

/// Tests whether the entry named `name` is left out.
pub fn is_skipped_name(name: &str) -> (r: bool)
    ensures
        r == is_skipped(name@),
{
    str_eq(name, ".git") || str_eq(name, ".pj.yml") || str_eq(name, "target")
}

/// Whether the walk enters the path made of `components`: none of them is
/// left out.
pub fn should_visit(components: &[String]) -> (r: bool)
    ensures
        r == forall|i: int| 0 <= i < components.len() ==> !is_skipped(#[trigger] components@[i]@),
{
    let mut i: usize = 0;
    while i < components.len()
        invariant
            i <= components.len(),
            forall|k: int| 0 <= k < i ==> !is_skipped(#[trigger] components@[k]@),
        decreases components.len() - i,
    {
        if is_skipped_name(components[i].as_str()) {
            return false;
        }
        i += 1;
    }
    true
}

/// Whether the walk hands the entry at `path` to the engine: it is a file
/// and its name ends in `.rs`.
pub fn is_source_file(is_file: bool, path: &str) -> (r: bool)
    ensures
        r == (is_file && ends_with(path@, ".rs"@)),
{
    if !is_file {
        return false;
    }
    chars_end_with(&to_chars(path), &to_chars(".rs"))
}

} // verus!

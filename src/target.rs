//! Inferring the build-target directory from the linker arguments.

use vstd::prelude::*;
use vstd::string::*;
use crate::text::{chars_of, contains, contains_seq, occurs_at, rfind, string_of, token_views};

verus! {

/// Marks a path inside a build-target tree.
pub const TARGET_MARKER: &'static str = "/target/";

/// Marks a path inside the dependency-output directory of a target.
pub const DEPS_MARKER: &'static str = "/deps/";

/// A token that names a path inside a target's dependency outputs.
pub open spec fn is_target_path(t: Seq<char>) -> bool {
    contains_seq(t, TARGET_MARKER@) && contains_seq(t, DEPS_MARKER@)
}

/// `d` is `t` cut before its last dependency marker.
pub open spec fn is_target_dir_of(d: Seq<char>, t: Seq<char>) -> bool {
    exists|j: int|
        occurs_at(t, DEPS_MARKER@, j) && (forall|k: int| j < k ==> !occurs_at(t, DEPS_MARKER@, k))
            && d == t.subrange(0, j)
}

/// The target directory: the first token that names a path inside a target's
/// dependency outputs, cut before its last dependency marker. None where no
/// token does.
pub fn infer_target_dir(args: &Vec<String>) -> (r: Option<String>)
    ensures
        match r {
            Some(d) => exists|i: int|
                0 <= i < args@.len() && is_target_path(#[trigger] token_views(args@)[i]) && (forall|k: int|
                    0 <= k < i ==> !is_target_path(#[trigger] token_views(args@)[k])) && is_target_dir_of(
                    d@,
                    token_views(args@)[i],
                ),
            None => forall|k: int| 0 <= k < args@.len() ==> !is_target_path(#[trigger] token_views(args@)[k]),
        },
{
    let target = chars_of(TARGET_MARKER);
    let deps = chars_of(DEPS_MARKER);
    let mut i: usize = 0;
    while i < args.len()
        invariant
            target@ == TARGET_MARKER@,
            deps@ == DEPS_MARKER@,
            i <= args@.len(),
            forall|k: int| 0 <= k < i ==> !is_target_path(#[trigger] token_views(args@)[k]),
        decreases args@.len() - i,
    {
        let a = args[i].as_str();
        let c = chars_of(a);
        assert(token_views(args@)[i as int] == c@);
        if contains(&c, &target) && contains(&c, &deps) {
            match rfind(&c, &deps) {
                Some(j) => {
                    let d = string_of(a.substring_char(0, j));
                    assert(is_target_dir_of(d@, c@));
                    return Some(d);
                },
                None => {},
            }
        }
        i = i + 1;
    }
    None
}

} // verus!

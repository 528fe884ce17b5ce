//! Path-bar arithmetic on backslash-separated paths: depth, moving one
//! level up, and normalizing the free-text path field.

use vstd::prelude::*;
use vstd::string::StrSliceExecFns;
use vstd::string::StringExecFns;

use crate::text::after_last;
use crate::text::count_char;
use crate::text::count_char_exec;
use crate::text::find_after_last;
use crate::text::lemma_after_last_bounds;
use crate::text::trim;
use crate::text::trim_spec;

verus! {

/// The path one level up: everything before the last separator, or the
/// path itself when it has none.
pub open spec fn parent_spec(s: Seq<char>) -> Seq<char> {
    if after_last(s, '\\') == 0 {
        s
    } else {
        s.subrange(0, after_last(s, '\\') - 1)
    }
}

/// How deep a path lies: the number of separators in it.
pub fn path_depth(path: &str) -> (r: usize)
    ensures
        r as int == count_char(path@, '\\'),
{
    count_char_exec(path, '\\')
}

/// Drops the last component of a backslash-separated path; a path
/// without separator comes back unchanged.
pub fn parent_path(path: &str) -> (r: String)
    ensures
        r@ == parent_spec(path@),
{
    proof {
        lemma_after_last_bounds(path@, '\\');
    }
    let e = find_after_last(path, '\\');
    if e == 0 {
        path.to_owned()
    } else {
        path.substring_char(0, e - 1).to_owned()
    }
}

/// Normalizes the free-text path field: an empty field is rejected,
/// anything else is trimmed and given a trailing separator.
pub fn normalize_path(text: &str) -> (r: Result<String, String>)
    ensures
        match r {
            Ok(p) => text@.len() > 0 && p@ == trim_spec(text@) + seq!['\\'],
            Err(_) => text@.len() == 0,
        },
{
    if text.unicode_len() == 0 {
        return Err("No path found".to_owned());
    }
    let mut p = trim(text).to_owned();
    proof {
        reveal_strlit("\\");
        assert("\\"@ =~= seq!['\\']);
    }
    p.append("\\");
    Ok(p)
}

} // verus!

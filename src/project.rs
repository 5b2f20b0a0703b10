//! Names of projects, decoded from their directory names.

use vstd::prelude::*;

verus! {

/// The rest of `s` after its `k`-th dash, if it has that many.
pub open spec fn after_dashes(s: Seq<char>, k: nat) -> Option<Seq<char>>
    decreases s.len(),
{
    if k == 0 {
        Some(s)
    } else if s.len() == 0 {
        None
    } else if s[0] == '-' {
        after_dashes(s.drop_first(), (k - 1) as nat)
    } else {
        after_dashes(s.drop_first(), k)
    }
}

/// A directory name that encodes a path with dashes (it starts with one)
/// is named after what follows its third dash; any other name, or an
/// encoded one with fewer than three dashes, is kept as it is.
pub open spec fn project_name_of(s: Seq<char>) -> Seq<char> {
    if s.len() > 0 && s[0] == '-' {
        match after_dashes(s, 3) {
            Some(rest) => rest,
            None => s,
        }
    } else {
        s
    }
}

/// Decodes a project's display name from its directory name.
pub fn extract_project_name(raw_project_name: &str) -> (r: String)
    ensures
        r@ == project_name_of(raw_project_name@),
{
    let s = raw_project_name;
    let len = s.unicode_len();
    if len == 0 || s.get_char(0) != '-' {
        return s.to_owned();
    }
    let mut i: usize = 0;
    let mut k: usize = 3;
    assert(s@.subrange(0, len as int) =~= s@);
    while i < len && k > 0
        invariant
            len == s@.len(),
            i <= len,
            k <= 3,
            after_dashes(s@, 3) == after_dashes(s@.subrange(i as int, len as int), k as nat),
        decreases len - i,
    {
        assert(s@.subrange(i as int, len as int).drop_first() =~= s@.subrange(i + 1, len as int));
        if s.get_char(i) == '-' {
            k = k - 1;
        }
        i = i + 1;
    }
    if k == 0 {
        s.substring_char(i, len).to_owned()
    } else {
        assert(s@.subrange(i as int, len as int).len() == 0);
        s.to_owned()
    }
}

} // verus!

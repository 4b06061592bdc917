//! Bulk credential loading: which directory entries count as
//! credential files. The directory walk and file reads are the I/O
//! layer's; the rule deciding by file name is here.

use vstd::prelude::*;
use vstd::string::StrSliceExecFns;

use crate::text::{after_last, lemma_after_last_at};

verus! {

/// The extension of a file name, as the standard path rules have it:
/// the portion after the final `.`, unless there is none or the only
/// `.` leads the name.
pub open spec fn extension_of(s: Seq<char>) -> Option<Seq<char>> {
    if exists|i: int| 1 <= i < s.len() && #[trigger] s[i] == '.' {
        Some(after_last(s, '.'))
    } else {
        None
    }
}

/// `json`, ASCII case-insensitively.
pub open spec fn is_json_ext(e: Seq<char>) -> bool {
    &&& e.len() == 4
    &&& (e[0] == 'j' || e[0] == 'J')
    &&& (e[1] == 's' || e[1] == 'S')
    &&& (e[2] == 'o' || e[2] == 'O')
    &&& (e[3] == 'n' || e[3] == 'N')
}

/// A file name names a credential file iff its extension is `json`,
/// ASCII case-insensitively.
pub open spec fn spec_is_json_file(s: Seq<char>) -> bool {
    match extension_of(s) {
        Some(e) => is_json_ext(e),
        None => false,
    }
}

/// Whether a directory entry's file name counts as a credential
/// file.
pub fn is_json_file(name: &str) -> (r: bool)
    ensures
        r == spec_is_json_file(name@),
{
    let n = name.unicode_len();
    let mut last_dot: usize = 0;
    let mut found = false;
    let mut i: usize = 0;
    while i < n
        invariant
            i <= n,
            n == name@.len(),
            found ==> last_dot < i && name@[last_dot as int] == '.',
            found ==> forall|k: int| (last_dot as int) < k < i as int ==> name@[k] != '.',
            !found ==> forall|k: int| 0 <= k < i as int ==> name@[k] != '.',
        decreases n - i,
    {
        if name.get_char(i) == '.' {
            last_dot = i;
            found = true;
        }
        i += 1;
    }
    if !found || last_dot == 0 {
        proof {
            assert(!(exists|k: int| 1 <= k < name@.len() && #[trigger] name@[k] == '.'));
        }
        return false;
    }
    proof {
        lemma_after_last_at(name@, '.', last_dot as int + 1);
        assert(name@[last_dot as int] == '.');
        assert(extension_of(name@) == Some(name@.skip(last_dot as int + 1)));
    }
    let elen = n - last_dot - 1;
    if elen != 4 {
        return false;
    }
    let c0 = name.get_char(last_dot + 1);
    let c1 = name.get_char(last_dot + 2);
    let c2 = name.get_char(last_dot + 3);
    let c3 = name.get_char(last_dot + 4);
    (c0 == 'j' || c0 == 'J') && (c1 == 's' || c1 == 'S') && (c2 == 'o' || c2 == 'O') && (c3 == 'n'
        || c3 == 'N')
}

} // verus!

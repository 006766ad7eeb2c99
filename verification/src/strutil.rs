//! Character-level string helpers used across the library.

use vstd::prelude::*;

verus! {

/// Whether two string slices hold the same characters.
pub fn str_eq(a: &str, b: &str) -> (r: bool)
    ensures
        r == (a@ == b@),
{
    let a_len = a.unicode_len();
    let b_len = b.unicode_len();
    if a_len != b_len {
        return false;
    }
    let mut i: usize = 0;
    while i < a_len
        invariant
            i <= a_len,
            a_len == a@.len(),
            a_len == b@.len(),
            forall|j: int| 0 <= j < i ==> a@[j] == b@[j],
        decreases a_len - i,
    {
        if a.get_char(i) != b.get_char(i) {
            return false;
        }
        i += 1;
    }
    proof {
        assert(a@ =~= b@);
    }
    true
}

/// Whether an optional string holds exactly the given characters.
pub fn opt_str_eq(a: &Option<String>, b: &str) -> (r: bool)
    ensures
        r == match a {
            Some(s) => s@ == b@,
            None => false,
        },
{
    match a {
        Some(s) => str_eq(s.as_str(), b),
        None => false,
    }
}

} // verus!

//! Scanning for separator characters: the spec-level end of a token and a
//! verified search that matches it.

use vstd::prelude::*;

verus! {

/// The index of the first occurrence of `sep` at or after `from`, or the
/// length of `s` when there is none.
pub open spec fn token_end(s: Seq<char>, sep: char, from: int) -> int
    decreases s.len() - from,
{
    if from < 0 || from >= s.len() {
        s.len() as int
    } else if s[from] == sep {
        from
    } else {
        token_end(s, sep, from + 1)
    }
}

pub proof fn lemma_token_end_bounds(s: Seq<char>, sep: char, from: int)
    requires
        0 <= from <= s.len(),
    ensures
        from <= token_end(s, sep, from) <= s.len(),
        token_end(s, sep, from) < s.len() ==> s[token_end(s, sep, from)] == sep,
        forall|j: int| from <= j < token_end(s, sep, from) ==> s[j] != sep,
    decreases s.len() - from,
{
    if from < s.len() && s[from] != sep {
        lemma_token_end_bounds(s, sep, from + 1);
    }
}

/// Finds the first occurrence of `sep` at or after `from`, returning the
/// length of `s` when there is none.
pub fn find_char(s: &str, sep: char, from: usize) -> (r: usize)
    requires
        from <= s@.len(),
    ensures
        r == token_end(s@, sep, from as int),
{
    let n = s.unicode_len();
    let mut i: usize = from;
    while i < n
        invariant
            from <= i <= n,
            n == s@.len(),
            token_end(s@, sep, from as int) == token_end(s@, sep, i as int),
        decreases n - i,
    {
        let c = s.get_char(i);
        if c == sep {
            return i;
        }
        i = i + 1;
    }
    i
}

} // verus!

//! Decimal digit strings: the spec-level value of a digit run and verified
//! parsers from text to `u64` / `usize`.

use vstd::prelude::*;

verus! {

/// An ASCII decimal digit.
pub open spec fn is_digit(c: char) -> bool {
    '0' <= c && c <= '9'
}

/// Every character of `s` is a decimal digit.
pub open spec fn all_digits(s: Seq<char>) -> bool {
    forall|i: int| 0 <= i < s.len() ==> is_digit(#[trigger] s[i])
}

/// The numeric value of one decimal digit.
pub open spec fn digit_val(c: char) -> int {
    c as int - '0' as int
}

/// The value of a decimal digit string, most significant digit first.
pub open spec fn dec_value(s: Seq<char>) -> int
    decreases s.len(),
{
    if s.len() == 0 {
        0
    } else {
        dec_value(s.drop_last()) * 10 + digit_val(s.last())
    }
}

/// A nonempty all-digit string whose value fits in `u64`.
pub open spec fn is_u64_string(s: Seq<char>) -> bool {
    s.len() > 0 && all_digits(s) && dec_value(s) <= u64::MAX
}

/// A nonempty all-digit string whose value fits in `usize`.
pub open spec fn is_usize_string(s: Seq<char>) -> bool {
    s.len() > 0 && all_digits(s) && dec_value(s) <= usize::MAX
}

pub proof fn lemma_dec_value_nonneg(s: Seq<char>)
    requires
        all_digits(s),
    ensures
        dec_value(s) >= 0,
    decreases s.len(),
{
    if s.len() > 0 {
        assert(all_digits(s.drop_last()));
        lemma_dec_value_nonneg(s.drop_last());
    }
}

/// Extending a digit string can only increase its value.
pub proof fn lemma_dec_value_prefix(s: Seq<char>, i: int)
    requires
        all_digits(s),
        0 <= i <= s.len(),
    ensures
        dec_value(s.take(i)) <= dec_value(s),
    decreases s.len() - i,
{
    if i < s.len() {
        assert(s.take(i + 1).drop_last() =~= s.take(i));
        assert(all_digits(s.take(i)));
        lemma_dec_value_nonneg(s.take(i));
        assert(dec_value(s.take(i + 1)) == dec_value(s.take(i)) * 10 + digit_val(s[i]));
        lemma_dec_value_prefix(s, i + 1);
    } else {
        assert(s.take(i) =~= s);
    }
}

/// Parses a string of decimal digits as a `u64`; `None` when the string is
/// empty, holds a non-digit, or its value does not fit.
pub fn parse_u64(s: &str) -> (r: Option<u64>)
    ensures
        match r {
            Some(v) => is_u64_string(s@) && v == dec_value(s@),
            None => !is_u64_string(s@),
        },
{
    let n = s.unicode_len();
    if n == 0 {
        return None;
    }
    let mut i: usize = 0;
    let mut val: u64 = 0;
    while i < n
        invariant
            0 <= i <= n,
            n == s@.len(),
            all_digits(s@.take(i as int)),
            val == dec_value(s@.take(i as int)),
        decreases n - i,
    {
        let c = s.get_char(i);
        if c < '0' || c > '9' {
            assert(!is_digit(s@[i as int]));
            return None;
        }
        let d: u64 = (c as u32 - 48) as u64;
        assert(d == digit_val(s@[i as int]));
        let scaled = match val.checked_mul(10) {
            Some(x) => x,
            None => {
                proof {
                    assert(s@.take(i as int + 1).drop_last() =~= s@.take(i as int));
                    assert(dec_value(s@.take(i as int + 1)) > u64::MAX);
                    if all_digits(s@) {
                        lemma_dec_value_prefix(s@, i as int + 1);
                    }
                }
                return None;
            },
        };
        let next = match scaled.checked_add(d) {
            Some(x) => x,
            None => {
                proof {
                    assert(s@.take(i as int + 1).drop_last() =~= s@.take(i as int));
                    assert(dec_value(s@.take(i as int + 1)) > u64::MAX);
                    if all_digits(s@) {
                        lemma_dec_value_prefix(s@, i as int + 1);
                    }
                }
                return None;
            },
        };
        val = next;
        i = i + 1;
        assert(s@.take(i as int).drop_last() =~= s@.take(i as int - 1));
    }
    assert(s@.take(n as int) =~= s@);
    Some(val)
}

/// Parses a string of decimal digits as a `usize`; `None` when the string is
/// empty, holds a non-digit, or its value does not fit.
pub fn parse_usize(s: &str) -> (r: Option<usize>)
    ensures
        match r {
            Some(v) => is_usize_string(s@) && v == dec_value(s@),
            None => !is_usize_string(s@),
        },
{
    let n = s.unicode_len();
    if n == 0 {
        return None;
    }
    let mut i: usize = 0;
    let mut val: usize = 0;
    while i < n
        invariant
            0 <= i <= n,
            n == s@.len(),
            all_digits(s@.take(i as int)),
            val == dec_value(s@.take(i as int)),
        decreases n - i,
    {
        let c = s.get_char(i);
        if c < '0' || c > '9' {
            assert(!is_digit(s@[i as int]));
            return None;
        }
        let d: usize = (c as u32 - 48) as usize;
        assert(d == digit_val(s@[i as int]));
        let scaled = match val.checked_mul(10) {
            Some(x) => x,
            None => {
                proof {
                    assert(s@.take(i as int + 1).drop_last() =~= s@.take(i as int));
                    assert(dec_value(s@.take(i as int + 1)) > usize::MAX);
                    if all_digits(s@) {
                        lemma_dec_value_prefix(s@, i as int + 1);
                    }
                }
                return None;
            },
        };
        let next = match scaled.checked_add(d) {
            Some(x) => x,
            None => {
                proof {
                    assert(s@.take(i as int + 1).drop_last() =~= s@.take(i as int));
                    assert(dec_value(s@.take(i as int + 1)) > usize::MAX);
                    if all_digits(s@) {
                        lemma_dec_value_prefix(s@, i as int + 1);
                    }
                }
                return None;
            },
        };
        val = next;
        i = i + 1;
        assert(s@.take(i as int).drop_last() =~= s@.take(i as int - 1));
    }
    assert(s@.take(n as int) =~= s@);
    Some(val)
}

} // verus!

//! The two queries over the collected directory totals: the sum of the small
//! ones, and the smallest single directory whose deletion frees enough space.

use vstd::prelude::*;

verus! {

/// The disk capacity the cleanup reasons about.
pub const OVERALL_SPACE: usize = 70000000;

/// The free space the cleanup must reach.
pub const NEEDED_SPACE: usize = 30000000;

/// The sum of the elements of `s` that are at most `limit`.
pub open spec fn spec_sum_at_most(s: Seq<usize>, limit: usize) -> int
    decreases s.len(),
{
    if s.len() == 0 {
        0
    } else {
        spec_sum_at_most(s.drop_last(), limit) + if s.last() <= limit {
            s.last() as int
        } else {
            0
        }
    }
}

/// The largest element of a nonempty `s`.
pub open spec fn seq_max(s: Seq<usize>) -> int
    decreases s.len(),
        when s.len() >= 1
{
    if s.len() == 1 {
        s[0] as int
    } else if s.last() as int > seq_max(s.drop_last()) {
        s.last() as int
    } else {
        seq_max(s.drop_last())
    }
}

/// The space that must still be freed, given every directory's total: `None`
/// when there are no totals, when the largest total exceeds the disk, or when
/// enough space is already free — each a fault or a vacuous query.
pub open spec fn spec_threshold(sizes: Seq<usize>) -> Option<int> {
    if sizes.len() == 0 {
        None
    } else {
        let overall = seq_max(sizes);
        if overall > OVERALL_SPACE {
            None
        } else if OVERALL_SPACE - overall > NEEDED_SPACE {
            None
        } else {
            Some(NEEDED_SPACE - (OVERALL_SPACE - overall))
        }
    }
}

proof fn lemma_sum_at_most_prefix(s: Seq<usize>, limit: usize, i: int)
    requires
        0 <= i <= s.len(),
    ensures
        spec_sum_at_most(s.take(i), limit) <= spec_sum_at_most(s, limit),
    decreases s.len() - i,
{
    if i < s.len() {
        assert(s.take(i + 1).drop_last() =~= s.take(i));
        assert(s.take(i + 1).last() == s[i]);
        lemma_sum_at_most_prefix(s, limit, i + 1);
    } else {
        assert(s.take(i) =~= s);
    }
}

proof fn lemma_sum_at_most_nonneg(s: Seq<usize>, limit: usize)
    ensures
        spec_sum_at_most(s, limit) >= 0,
    decreases s.len(),
{
    if s.len() > 0 {
        lemma_sum_at_most_nonneg(s.drop_last(), limit);
    }
}

/// Sums the directory totals that are at most `limit`.
pub fn sum_sizes_at_most(sizes: &Vec<usize>, limit: usize) -> (r: usize)
    requires
        spec_sum_at_most(sizes@, limit) <= usize::MAX,
    ensures
        r == spec_sum_at_most(sizes@, limit),
{
    let mut sum: usize = 0;
    let mut i: usize = 0;
    while i < sizes.len()
        invariant
            0 <= i <= sizes@.len(),
            sum == spec_sum_at_most(sizes@.take(i as int), limit),
            spec_sum_at_most(sizes@, limit) <= usize::MAX,
        decreases sizes@.len() - i,
    {
        proof {
            assert(sizes@.take(i as int + 1).drop_last() =~= sizes@.take(i as int));
            assert(sizes@.take(i as int + 1).last() == sizes@[i as int]);
            lemma_sum_at_most_prefix(sizes@, limit, i as int + 1);
            lemma_sum_at_most_nonneg(sizes@.take(i as int), limit);
        }
        let v = sizes[i];
        if v <= limit {
            sum = sum + v;
        }
        i = i + 1;
    }
    proof {
        assert(sizes@.take(i as int) =~= sizes@);
    }
    sum
}

/// What the smallest-sufficient-directory query returns: the minimum total
/// among those reaching the threshold, and nothing when the threshold cannot
/// be computed or no directory is large enough.
pub open spec fn smallest_sufficient_post(sizes: Seq<usize>, r: Option<usize>) -> bool {
    let t = spec_threshold(sizes);
    let tv = if t is Some {
        t->Some_0
    } else {
        0
    };
    match r {
        Some(m) => t is Some && sizes.contains(m) && m as int >= tv && (forall|j: int|
            0 <= j < sizes.len() && sizes[j] as int >= tv ==> m <= #[trigger] sizes[j]),
        None => match t {
            None => true,
            Some(bound) => forall|j: int|
                0 <= j < sizes.len() ==> ((#[trigger] sizes[j]) as int) < bound,
        },
    }
}

/// The smallest directory total at least as large as the space that must be
/// freed; `None` when the threshold cannot be computed or no directory is
/// large enough.
pub fn smallest_sufficient_size(sizes: &Vec<usize>) -> (r: Option<usize>)
    ensures
        smallest_sufficient_post(sizes@, r),
{
    if sizes.len() == 0 {
        return None;
    }
    let mut overall: usize = sizes[0];
    let mut i: usize = 1;
    while i < sizes.len()
        invariant
            1 <= i <= sizes@.len(),
            sizes@.len() >= 1,
            overall == seq_max(sizes@.take(i as int)),
        decreases sizes@.len() - i,
    {
        proof {
            assert(sizes@.take(i as int + 1).drop_last() =~= sizes@.take(i as int));
            assert(sizes@.take(i as int + 1).last() == sizes@[i as int]);
        }
        let v = sizes[i];
        if v > overall {
            overall = v;
        }
        i = i + 1;
    }
    proof {
        assert(sizes@.take(i as int) =~= sizes@);
    }
    if overall > OVERALL_SPACE {
        return None;
    }
    let available = OVERALL_SPACE - overall;
    if available > NEEDED_SPACE {
        return None;
    }
    let threshold = NEEDED_SPACE - available;
    let mut best: Option<usize> = None;
    let mut k: usize = 0;
    while k < sizes.len()
        invariant
            0 <= k <= sizes@.len(),
            threshold as int == spec_threshold(sizes@)->Some_0,
            spec_threshold(sizes@) is Some,
            match best {
                Some(b) => sizes@.contains(b) && b >= threshold && (forall|j: int|
                    0 <= j < k && sizes@[j] >= threshold ==> b <= #[trigger] sizes@[j]),
                None => forall|j: int| 0 <= j < k ==> #[trigger] sizes@[j] < threshold,
            },
        decreases sizes@.len() - k,
    {
        let v = sizes[k];
        if v >= threshold {
            match best {
                Some(b) => {
                    if v < b {
                        best = Some(v);
                    }
                },
                None => {
                    best = Some(v);
                },
            }
            proof {
                assert(sizes@[k as int] == v);
            }
        }
        k = k + 1;
    }
    best
}

} // verus!
